//! System limits.

use vstd::prelude::*;

verus! {

/// The maximum number of hard links to one file.
pub const LINK_MAX: u16 = 127;

/// The maximum length of a path, in bytes.
pub const PATH_MAX: usize = 4096;

/// The capacity of a pipe, in bytes.
pub const PIPE_BUF: usize = 4096;

/// The maximum number of symbolic links that are followed in a path resolution.
pub const SYMLOOP_MAX: usize = 8;

} // verus!
