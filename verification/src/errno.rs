//! Error numbers, as the system call interface hands them out.

use vstd::prelude::*;

verus! {

/// An error number.
pub type Errno = i32;

/// The result of an operation that can fail with an error number.
pub type EResult<T> = Result<T, Errno>;

/// Operation not permitted.
pub const EPERM: Errno = 1;

/// No such file or directory.
pub const ENOENT: Errno = 2;

/// Bad file descriptor.
pub const EBADF: Errno = 9;

/// Not enough space.
pub const ENOMEM: Errno = 12;

/// Permission denied.
pub const EACCES: Errno = 13;

/// Device or resource busy.
pub const EBUSY: Errno = 16;

/// Cross-device link.
pub const EXDEV: Errno = 18;

/// No such device.
pub const ENODEV: Errno = 19;

/// Not a directory.
pub const ENOTDIR: Errno = 20;

/// Inappropriate I/O control operation.
pub const ENOTTY: Errno = 25;

/// Read-only file system.
pub const EROFS: Errno = 30;

/// Too many links.
pub const EMLINK: Errno = 31;

/// Broken pipe.
pub const EPIPE: Errno = 32;

/// Filename too long.
pub const ENAMETOOLONG: Errno = 36;

/// Directory not empty.
pub const ENOTEMPTY: Errno = 39;

/// Too many levels of symbolic links.
pub const ELOOP: Errno = 40;

/// Value too large to be stored in data type.
pub const EOVERFLOW: Errno = 75;

/// Structure needs cleaning.
pub const EUCLEAN: Errno = 117;

} // verus!
