use vstd::prelude::*;

verus! {

/// Every failure that the discovery and scaffolding operations report,
/// each with the path, pattern or argument count that caused it.
#[derive(Debug, PartialEq, Eq)]
pub enum FindError {
    /// The directory to list does not exist.
    NotFound { path: String },
    /// The directory to list exists but could not be read.
    AccessDenied { path: String },
    /// The glob pattern is not well formed.
    InvalidPattern { pattern: String },
    /// Creating a scaffold's file or directory tree failed.
    ScaffoldIo { path: String },
    /// The export name formatter was given other than four parameters.
    InvalidArgumentCount { count: usize },
}

} // verus!
