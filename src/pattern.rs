use vstd::prelude::*;
use crate::error::FindError;
use crate::listing::views;

verus! {

#[verifier::external_type_specification]
#[verifier::external_body]
pub struct ExPattern(glob::Pattern);

#[verifier::external_type_specification]
#[verifier::external_body]
pub struct ExPatternError(glob::PatternError);

#[verifier::external_type_specification]
pub struct ExMatchOptions(glob::MatchOptions);

/// Whether `glob` accepts `pattern` as well formed.
pub uninterp spec fn glob_syntax_ok(pattern: Seq<char>) -> bool;

/// Whether the well-formed `pattern` matches `candidate` under the given
/// match options, as `glob` decides it.
pub uninterp spec fn glob_accepts(
    pattern: Seq<char>,
    candidate: Seq<char>,
    case_sensitive: bool,
    literal_separator: bool,
    literal_leading_dot: bool,
) -> bool;

/// Relies on glob::Pattern::new: compiles the pattern, or reports a syntax
/// error; which of the two depends on the pattern's text alone.
#[verifier::external_body]
fn compile(pattern: &str) -> (r: Result<glob::Pattern, glob::PatternError>)
    ensures
        r is Ok <==> glob_syntax_ok(pattern@),
{
    glob::Pattern::new(pattern)
}

/// Relies on glob::Pattern::matches_with: whether a pattern compiled from
/// `p.source` matches `candidate` depends on that text, the candidate and
/// the options alone. `p.compiled` is always compiled from `p.source`
/// (`GlobPattern::new` is the only place that builds one).
#[verifier::external_body]
fn accepts(p: &GlobPattern, candidate: &str, options: glob::MatchOptions) -> (r: bool)
    ensures
        r == glob_accepts(
            p.source@,
            candidate@,
            options.case_sensitive,
            options.require_literal_separator,
            options.require_literal_leading_dot,
        ),
{
    p.compiled.matches_with(candidate, options)
}

/// Whether `pattern` matches `candidate` the way export discovery matches:
/// with `glob`'s case folding switched on (it folds ASCII letters only),
/// with wildcards that cross separators and match a leading dot.
pub open spec fn pattern_accepts(pattern: Seq<char>, candidate: Seq<char>) -> bool {
    glob_accepts(pattern, candidate, false, false, false)
}

/// The options export discovery matches with: case is ignored for ASCII
/// letters (the only ones `glob` folds), wildcards may cross path
/// separators and match entries that begin with a dot.
pub fn match_options() -> (r: glob::MatchOptions)
    ensures
        !r.case_sensitive,
        !r.require_literal_separator,
        !r.require_literal_leading_dot,
{
    glob::MatchOptions {
        case_sensitive: false,
        require_literal_separator: false,
        require_literal_leading_dot: false,
    }
}

/// A well-formed glob pattern together with the text it was compiled from.
pub struct GlobPattern {
    source: String,
    compiled: glob::Pattern,
}

impl View for GlobPattern {
    type V = Seq<char>;

    closed spec fn view(&self) -> Seq<char> {
        self.source@
    }
}

impl GlobPattern {
    /// Compiles `pattern`; a malformed one is reported as `InvalidPattern`.
    pub fn new(pattern: &str) -> (r: Result<GlobPattern, FindError>)
        ensures
            r is Ok <==> glob_syntax_ok(pattern@),
            r matches Ok(g) ==> g@ == pattern@,
            r matches Err(e) ==> (e matches FindError::InvalidPattern { pattern: q } && q@
                == pattern@),
    {
        match compile(pattern) {
            Ok(compiled) => Ok(GlobPattern { source: String::from_str(pattern), compiled }),
            Err(_) => Err(FindError::InvalidPattern { pattern: String::from_str(pattern) }),
        }
    }

    /// The text the pattern was compiled from.
    pub fn as_str(&self) -> (r: &str)
        ensures
            r@ == self@,
    {
        self.source.as_str()
    }

    /// Whether the pattern matches `candidate` under export discovery's options
    /// (ASCII letters compared without regard to case).
    pub fn matches(&self, candidate: &str) -> (r: bool)
        ensures
            r == pattern_accepts(self@, candidate@),
    {
        accepts(self, candidate, match_options())
    }
}

/// What a glob search yields: the matching paths in the order the search
/// found them, and a diagnostic for each candidate it could not resolve.
pub struct GlobMatches {
    pub entries: Vec<String>,
    pub skipped: Vec<String>,
}

/// The paths of the resolved candidates, in the order found.
pub open spec fn resolved(found: Seq<Result<String, String>>) -> Seq<Seq<char>>
    decreases found.len(),
{
    if found.len() == 0 {
        seq![]
    } else {
        let rest = resolved(found.drop_last());
        match found.last() {
            Ok(p) => rest.push(p@),
            Err(_) => rest,
        }
    }
}

/// The diagnostics of the candidates that could not be resolved, in order.
pub open spec fn diagnostics(found: Seq<Result<String, String>>) -> Seq<Seq<char>>
    decreases found.len(),
{
    if found.len() == 0 {
        seq![]
    } else {
        let rest = diagnostics(found.drop_last());
        match found.last() {
            Ok(_) => rest,
            Err(m) => rest.push(m@),
        }
    }
}

/// Gathers the outcome of a glob search: each candidate is either a path
/// the search resolved or the diagnostic for one it could not resolve.
/// Every resolved path is kept, in the order found (which need not be
/// sorted); unresolved ones are skipped and their diagnostics collected, so
/// one bad entry never fails the search.
pub fn cst_find_exports_glob(found: Vec<Result<String, String>>) -> (r: GlobMatches)
    ensures
        views(r.entries@) == resolved(found@),
        views(r.skipped@) == diagnostics(found@),
{
    let mut entries: Vec<String> = Vec::new();
    let mut skipped: Vec<String> = Vec::new();
    let mut i: usize = 0;
    while i < found.len()
        invariant
            i <= found.len(),
            views(entries@) == resolved(found@.take(i as int)),
            views(skipped@) == diagnostics(found@.take(i as int)),
        decreases found.len() - i,
    {
        let ghost before_e = entries@;
        let ghost before_s = skipped@;
        proof {
            assert(found@.take(i + 1).drop_last() =~= found@.take(i as int));
            assert(found@.take(i + 1).last() == found@[i as int]);
        }
        match &found[i] {
            Ok(p) => {
                entries.push(p.clone());
                proof {
                    assert(views(entries@) =~= views(before_e).push(p@));
                }
            },
            Err(m) => {
                skipped.push(m.clone());
                proof {
                    assert(views(skipped@) =~= views(before_s).push(m@));
                }
            },
        }
        i = i + 1;
    }
    proof {
        assert(found@.take(found.len() as int) =~= found@);
    }
    GlobMatches { entries, skipped }
}

} // verus!
