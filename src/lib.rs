//! Browsing a directory tree one directory at a time, with a query that
//! narrows the listing, and completing typed filesystem paths.

pub mod browser;
pub mod directory_browser;
pub mod listing;
pub mod open_path;
pub mod path_query;
pub mod rel_path;
pub mod text;
pub mod tree;

pub use browser::{BrowseAction, DirectoryBrowserDelegate, DismissPlan};
pub use directory_browser::{BrowseLocation, DirectoryBrowser, ProjectPath, SplitDirection, SplitOpen};
pub use listing::{list_entries, DirectoryBrowserEntry};
pub use open_path::{CandidateInfo, CompletionCandidate, DirectoryRead, OpenPathDelegate};
pub use path_query::{parse_query, ParsedQuery, PathStyle};
pub use rel_path::RelPath;
pub use tree::{Entry, Tree};
