//! What system calls ask of the table of file descriptors.

use crate::errno::EResult;
use vstd::prelude::*;

verus! {

/// The layout of directory entries in user space.
#[derive(Clone, Copy, PartialEq, Eq, Structural, Debug)]
pub enum DirentFormat {
    /// The entries of `getdents`.
    Linux,
    /// The entries of `getdents64`.
    Linux64,
}

/// What was asked of the table.
pub enum DescriptorCall {
    /// The file descriptor, the command, its argument, and whether offsets have 64 bits.
    Fcntl(i32, i32, usize, bool),
    /// The layout of the entries, the file descriptor, the address and the number of bytes.
    Getdents(DirentFormat, u32, usize, usize),
}

/// The table of the file descriptors of a process. Nothing is taken for granted of what it
/// answers: a method only adds itself to the history of what was asked.
pub trait Descriptors: Sized {
    /// What was asked of the table so far, each call with its result, oldest first.
    ///
    /// This is ghost: an implementation outside of verified code has nothing to provide. A verified
    /// implementation gives a body of its own, in place of the default one, of which nothing is
    /// known.
    closed spec fn calls(&self) -> Seq<(DescriptorCall, EResult<usize>)> {
        arbitrary()
    }

    /// Performs the command `cmd` on the file descriptor `fd`. `fcntl64` tells whether the locks
    /// it deals with have 64 bit offsets.
    fn do_fcntl(&mut self, fd: i32, cmd: i32, arg: usize, fcntl64: bool) -> (r: EResult<usize>)
        ensures
            final(self).calls() == old(self).calls().push(
                (DescriptorCall::Fcntl(fd, cmd, arg, fcntl64), r),
            ),
    ;

    /// Writes the entries of the directory behind the file descriptor `fd` to `dirp`, in user
    /// space, in at most `count` bytes. Returns the number of bytes written.
    fn do_getdents(&mut self, format: DirentFormat, fd: u32, dirp: usize, count: usize) -> (r:
        EResult<usize>)
        ensures
            final(self).calls() == old(self).calls().push(
                (DescriptorCall::Getdents(format, fd, dirp, count), r),
            ),
    ;
}

} // verus!
