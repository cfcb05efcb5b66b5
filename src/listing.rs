use vstd::prelude::*;
use crate::error::FindError;

verus! {

/// Strict lexicographic order on path strings, character by character
/// (by code point); a proper prefix comes first.
pub open spec fn lex_lt(a: Seq<char>, b: Seq<char>) -> bool
    decreases a.len(),
{
    if a.len() == 0 {
        b.len() > 0
    } else if b.len() == 0 {
        false
    } else if a[0] != b[0] {
        (a[0] as int) < (b[0] as int)
    } else {
        lex_lt(a.drop_first(), b.drop_first())
    }
}

/// The string contents of a sequence of paths.
pub open spec fn views(s: Seq<String>) -> Seq<Seq<char>> {
    s.map_values(|p: String| p@)
}

/// Every path comes strictly before each later one: ascending, no duplicates.
pub open spec fn strictly_ascending(s: Seq<Seq<char>>) -> bool {
    forall|i: int, j: int| 0 <= i < j < s.len() ==> lex_lt(#[trigger] s[i], #[trigger] s[j])
}

/// `a` and `b` hold the same paths, whatever their order and repetitions.
pub open spec fn same_paths(a: Seq<Seq<char>>, b: Seq<Seq<char>>) -> bool {
    forall|x: Seq<char>| a.contains(x) <==> b.contains(x)
}

/// No path comes before itself.
pub proof fn lemma_lex_irreflexive(a: Seq<char>)
    ensures
        !lex_lt(a, a),
    decreases a.len(),
{
    if a.len() > 0 {
        lemma_lex_irreflexive(a.drop_first());
    }
}

/// The order is transitive.
pub proof fn lemma_lex_transitive(a: Seq<char>, b: Seq<char>, c: Seq<char>)
    requires
        lex_lt(a, b),
        lex_lt(b, c),
    ensures
        lex_lt(a, c),
    decreases a.len(),
{
    if a.len() > 0 && b.len() > 0 && c.len() > 0 && a[0] == b[0] && b[0] == c[0] {
        lemma_lex_transitive(a.drop_first(), b.drop_first(), c.drop_first());
    }
}

/// Compares two paths: negative when `a` comes first, zero when they are
/// equal, positive when `b` comes first.
pub fn compare_paths(a: &str, b: &str) -> (r: i8)
    ensures
        r < 0 <==> lex_lt(a@, b@),
        r == 0 <==> a@ == b@,
        r > 0 <==> lex_lt(b@, a@),
{
    let la = a.unicode_len();
    let lb = b.unicode_len();
    let mut i: usize = 0;
    proof {
        assert(a@.skip(0) =~= a@);
        assert(b@.skip(0) =~= b@);
    }
    while i < la && i < lb
        invariant
            la == a@.len(),
            lb == b@.len(),
            i <= la,
            i <= lb,
            lex_lt(a@, b@) == lex_lt(a@.skip(i as int), b@.skip(i as int)),
            lex_lt(b@, a@) == lex_lt(b@.skip(i as int), a@.skip(i as int)),
            (a@ == b@) == (a@.skip(i as int) == b@.skip(i as int)),
        decreases la - i,
    {
        let ca = a.get_char(i);
        let cb = b.get_char(i);
        let ghost sa = a@.skip(i as int);
        let ghost sb = b@.skip(i as int);
        if ca != cb {
            proof {
                assert(sa[0] == ca && sb[0] == cb);
                if sa == sb {
                    assert(sa[0] == sb[0]);
                }
            }
            if (ca as u32) < (cb as u32) {
                return -1;
            } else {
                return 1;
            }
        }
        proof {
            assert(sa.drop_first() =~= a@.skip(i as int + 1));
            assert(sb.drop_first() =~= b@.skip(i as int + 1));
            if sa.drop_first() == sb.drop_first() {
                assert(sa =~= seq![sa[0]] + sa.drop_first());
                assert(sb =~= seq![sb[0]] + sb.drop_first());
            }
        }
        i = i + 1;
    }
    if la < lb {
        assert(a@.skip(i as int).len() == 0);
        -1
    } else if lb < la {
        assert(b@.skip(i as int).len() == 0);
        1
    } else {
        assert(a@.skip(i as int) =~= b@.skip(i as int));
        0
    }
}


/// Inserts `e` into the strictly ascending `out` at its place, unless a path
/// equal to it is already there.
fn insert_sorted(out: &mut Vec<String>, e: String)
    requires
        strictly_ascending(views(old(out)@)),
    ensures
        strictly_ascending(views(final(out)@)),
        forall|x: Seq<char>|
            views(final(out)@).contains(x) <==> (views(old(out)@).contains(x) || x == e@),
{
    let ghost ov = views(out@);
    let mut j: usize = 0;
    loop
        invariant
            out@ == old(out)@,
            ov == views(out@),
            strictly_ascending(ov),
            j <= out.len(),
            forall|k: int| 0 <= k < j ==> lex_lt(#[trigger] ov[k], e@),
        ensures
            j <= out.len(),
            forall|k: int| 0 <= k < j ==> lex_lt(#[trigger] ov[k], e@),
            j == out.len() || lex_lt(e@, ov[j as int]),
        decreases out.len() - j,
    {
        if j == out.len() {
            break;
        }
        let c = compare_paths(out[j].as_str(), e.as_str());
        if c == 0 {
            proof {
                assert(ov[j as int] == e@);
            }
            return;
        }
        if c > 0 {
            break;
        }
        j = j + 1;
    }
    let ghost ev = e@;
    out.insert(j, e);
    proof {
        let nv = views(out@);
        assert(nv =~= ov.insert(j as int, ev));
        assert forall|a: int, b: int| 0 <= a < b < nv.len() implies lex_lt(
            #[trigger] nv[a],
            #[trigger] nv[b],
        ) by {
            if a == j && b > j + 1 {
                lemma_lex_transitive(ev, ov[j as int], ov[b - 1]);
            }
        }
        assert forall|x: Seq<char>| nv.contains(x) <==> (ov.contains(x) || x == ev) by {
            if nv.contains(x) {
                let i = choose|i: int| 0 <= i < nv.len() && nv[i] == x;
                if i < j {
                    assert(ov[i] == x);
                } else if i > j {
                    assert(ov[i - 1] == x);
                }
            }
            if ov.contains(x) {
                let i = choose|i: int| 0 <= i < ov.len() && ov[i] == x;
                if i < j {
                    assert(nv[i] == x);
                } else {
                    assert(nv[i + 1] == x);
                }
            }
            if x == ev {
                assert(nv[j as int] == x);
            }
        }
    }
}

/// Sorts paths ascending by their string contents and drops repetitions:
/// the result holds exactly the given paths, each once, in ascending order.
pub fn sort_paths(entries: Vec<String>) -> (r: Vec<String>)
    ensures
        strictly_ascending(views(r@)),
        same_paths(views(r@), views(entries@)),
{
    let ghost all = entries@;
    let mut rest = entries;
    let mut out: Vec<String> = Vec::new();
    while rest.len() > 0
        invariant
            rest.len() <= all.len(),
            rest@ == all.subrange(0, rest.len() as int),
            strictly_ascending(views(out@)),
            forall|x: Seq<char>|
                views(out@).contains(x) <==> views(all.subrange(rest.len() as int, all.len() as int)).contains(x),
        decreases rest.len(),
    {
        let ghost n = rest.len() as int;
        let e = rest.pop().unwrap();
        proof {
            assert(e == all[n - 1]);
            let before = views(all.subrange(n, all.len() as int));
            let after = views(all.subrange(n - 1, all.len() as int));
            assert(after =~= seq![e@] + before);
            assert forall|x: Seq<char>| after.contains(x) <==> (before.contains(x) || x == e@) by {
                if after.contains(x) {
                    let i = choose|i: int| 0 <= i < after.len() && after[i] == x;
                    if i > 0 {
                        assert(before[i - 1] == x);
                    }
                }
                if before.contains(x) {
                    let i = choose|i: int| 0 <= i < before.len() && before[i] == x;
                    assert(after[i + 1] == x);
                }
                if x == e@ {
                    assert(after[0] == x);
                }
            }
        }
        insert_sorted(&mut out, e);
        proof {
            assert(rest@ =~= all.subrange(0, rest.len() as int));
        }
    }
    proof {
        assert(all.subrange(0, all.len() as int) =~= all);
    }
    out
}


/// Why reading a directory failed.
#[derive(Debug, Clone, Copy, PartialEq, Eq)]
pub enum ReadFailure {
    /// The directory does not exist.
    Missing,
    /// The directory, or one of its entries, could not be read.
    Unreadable,
}

/// Turns the outcome of reading the directory `path` into its listing: the
/// immediate children sorted ascending by path string, without repetitions.
/// A failed read gives no partial result, only the error for `path`.
pub fn cst_find_exports(
    path: &str,
    listing: Result<Vec<String>, ReadFailure>,
) -> (r: Result<Vec<String>, FindError>)
    ensures
        r is Ok <==> listing is Ok,
        listing matches Ok(v) ==> (r matches Ok(s) && strictly_ascending(views(s@))
            && same_paths(views(s@), views(v@))),
        listing matches Err(ReadFailure::Missing) ==> (r matches Err(
            FindError::NotFound { path: p },
        ) && p@ == path@),
        listing matches Err(ReadFailure::Unreadable) ==> (r matches Err(
            FindError::AccessDenied { path: p },
        ) && p@ == path@),
{
    match listing {
        Ok(entries) => Ok(sort_paths(entries)),
        Err(ReadFailure::Missing) => Err(FindError::NotFound { path: String::from_str(path) }),
        Err(ReadFailure::Unreadable) => Err(
            FindError::AccessDenied { path: String::from_str(path) },
        ),
    }
}

/// A listing is determined by the paths alone: two strictly ascending
/// sequences that hold the same paths are equal, so listing an unchanged
/// directory again, whatever order its entries are read in, gives the
/// same sequence.
pub proof fn lemma_listing_deterministic(a: Seq<Seq<char>>, b: Seq<Seq<char>>)
    requires
        strictly_ascending(a),
        strictly_ascending(b),
        same_paths(a, b),
    ensures
        a == b,
    decreases a.len(),
{
    if a.len() == 0 {
        if b.len() > 0 {
            assert(b.contains(b[0]));
        }
        assert(a =~= b);
    } else {
        assert(a.contains(a[0]));
        assert(b.len() > 0);
        assert(b.contains(b[0]));
        let i = choose|i: int| 0 <= i < a.len() && a[i] == b[0];
        let j = choose|j: int| 0 <= j < b.len() && b[j] == a[0];
        if j > 0 {
            if i > 0 {
                lemma_lex_transitive(a[0], a[i], a[0]);
            }
            lemma_lex_irreflexive(a[0]);
        }
        let a1 = a.drop_first();
        let b1 = b.drop_first();
        assert forall|x: Seq<char>| a1.contains(x) implies b1.contains(x) by {
            let k = choose|k: int| 0 <= k < a1.len() && a1[k] == x;
            assert(a[k + 1] == x);
            assert(a.contains(x));
            assert(b.contains(x));
            let m = choose|m: int| 0 <= m < b.len() && b[m] == x;
            if m == 0 {
                lemma_lex_irreflexive(a[0]);
            } else {
                assert(b1[m - 1] == x);
            }
        }
        assert forall|x: Seq<char>| b1.contains(x) implies a1.contains(x) by {
            let k = choose|k: int| 0 <= k < b1.len() && b1[k] == x;
            assert(b[k + 1] == x);
            assert(b.contains(x));
            assert(a.contains(x));
            let m = choose|m: int| 0 <= m < a.len() && a[m] == x;
            if m == 0 {
                lemma_lex_irreflexive(b[0]);
            } else {
                assert(a1[m - 1] == x);
            }
        }
        lemma_listing_deterministic(a1, b1);
        assert(a =~= seq![a[0]] + a1);
        assert(b =~= seq![b[0]] + b1);
    }
}

} // verus!
