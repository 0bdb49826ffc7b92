//! Disk-usage inspection: an owned tree of directory sizes built from a
//! listing of the filesystem, and the one-level report rendered from it.
pub mod args;
pub mod format;
pub mod laws;
pub mod render;
pub mod tree;
