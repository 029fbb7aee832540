//! The VFS (Virtual FileSystem) aggregates every mounted filesystems into one.
//!
//! To manipulate files, the VFS should be used instead of calling the filesystems' directly.

pub mod backend;
pub mod call_laws;
pub mod children;
pub mod edit;
pub mod entry;
pub mod file_ops;
pub mod laws;
pub mod operation_laws;
pub mod references;
pub mod resolve;
pub mod resolve_laws;
pub mod state;
