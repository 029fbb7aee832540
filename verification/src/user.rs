//! Memory of user space.

use crate::errno::EResult;
use vstd::prelude::*;

verus! {

/// Access to the memory of a process. Nothing is taken for granted of what it answers: a
/// copy only adds itself to the history of what was asked.
pub trait UserMemory: Sized {
    /// What was copied so far, each copy with its result, oldest first.
    ///
    /// This is ghost: an implementation outside of verified code has nothing to provide. A verified
    /// implementation gives a body of its own, in place of the default one, of which nothing is
    /// known.
    closed spec fn calls(&self) -> Seq<(CopyToUser, EResult<()>)> {
        arbitrary()
    }

    /// Copies `bytes` to user space, `off` bytes after the address `ptr`.
    fn copy_to_user(&mut self, ptr: usize, off: usize, bytes: &[u8]) -> (r: EResult<()>)
        ensures
            final(self).calls() == old(self).calls().push(
                (CopyToUser { ptr, off, bytes: bytes@ }, r),
            ),
    ;
}

/// A copy to user space.
pub struct CopyToUser {
    pub ptr: usize,
    pub off: usize,
    pub bytes: Seq<u8>,
}

} // verus!
