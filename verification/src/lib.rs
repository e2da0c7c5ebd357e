//! An in-memory hierarchical file tree: named directories containing named
//! files and subdirectories, built incrementally from slash-separated path
//! strings, with strict validation of names and paths before any mutation.

pub mod errors;
pub mod insert;
pub mod name_check;
pub mod path_check;
pub mod render;
pub mod segments;
pub mod tree;

pub use errors::FsError;
pub use insert::create_dir;
pub use insert::create_file;
pub use name_check::is_valid_name;
pub use path_check::is_valid_path;
pub use render::render;
pub use tree::FsNode;
pub use tree::NodeModel;
pub use tree::create_fs;
