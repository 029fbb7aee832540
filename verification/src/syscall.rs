//! System calls.

pub mod descriptors;
pub mod fcntl64;
pub mod getdents64;
