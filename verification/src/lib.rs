//! Folder Auto Banner: the logic behind a contextual directory listing.

pub mod banner;
pub mod build_status;
pub mod compare;
pub mod cache;
mod clock;
pub mod daemon;
pub mod datacache;
pub mod do_action;
pub mod docker;
pub mod file_metadata;
pub mod float_fmt;
pub mod env;
pub mod fs;
pub mod git;
pub mod header;
pub mod icon;
pub mod insights;
pub mod listing;
pub mod natural;
pub mod ops;
pub mod parse;
pub mod ports;
pub mod preview;
pub mod probe_cache;
pub mod refresh;
pub mod remove;
pub mod routing;
pub mod rows;
pub mod shell;
pub mod state;
pub mod summary;
pub mod test_cache;
pub mod text;
pub mod tree;
pub mod walk;
pub mod watch;
