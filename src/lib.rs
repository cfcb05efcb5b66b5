//! Discovery of exported simulation files, mock project scaffolds and
//! canonical export file names.
pub mod error;
pub mod export_name;
pub mod listing;
pub mod pattern;
pub mod scaffold;

pub use error::FindError;
pub use export_name::field_data3_export_name;
pub use listing::{compare_paths, cst_find_exports, sort_paths, ReadFailure};
pub use pattern::{cst_find_exports_glob, match_options, GlobMatches, GlobPattern};
pub use scaffold::{join_path, project_layout, ProjectLayout};
