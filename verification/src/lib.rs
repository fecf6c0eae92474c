//! Dotfile linking: the rules by which a source tree is mirrored under a
//! destination directory, as symbolic links or as copies.

pub mod args;
pub mod errors;
pub mod ignore;
pub mod laws;
pub mod layout;
pub mod linker;
pub mod model;
pub mod paths;
pub mod task;
pub mod text;
pub mod tree;
