//! An in-memory virtual file system: a tree of named nodes, addressed by
//! paths, whose file contents live in a storage keyed by node handle.
pub mod error;
pub mod inode;
pub mod meta;
pub mod storage;
pub mod engine;
pub mod system;
pub mod builder;
pub mod config;
pub mod router;
pub mod vfs;
pub mod laws;
