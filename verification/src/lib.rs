//! Review state for a source tree: which lines of which files have been read and
//! accepted, which were rejected, and which still wait.
//!
//! The library holds the rules and the state. It reads and writes nothing: what lies on
//! disk is handed to it as plain values, and what has to be written is handed back.

pub mod app;
pub mod app_laws;
pub mod diff;
pub mod digest;
pub mod fs_tree;
pub mod git;
pub mod git_laws;
pub mod ignore;
pub mod ignore_laws;
pub mod path;
pub mod path_laws;
pub mod review;
pub mod review_laws;
pub mod rule_laws;
pub mod store;
pub mod store_laws;
pub mod text;
pub mod text_laws;
pub mod tree_laws;
pub mod view;
pub mod view_laws;
pub mod wildcard;

