//! Verified parts of a Unix-like kernel.

pub mod bytes;
pub mod errno;
pub mod fcache;
pub mod file_path;
pub mod history;
pub mod id_allocator;
pub mod ioctl;
pub mod limits;
pub mod path;
pub mod perm;
pub mod pid;
pub mod pipe;
pub mod ring_buffer;
pub mod stat;
pub mod syscall;
pub mod trace;
pub mod user;
pub mod vfs;
