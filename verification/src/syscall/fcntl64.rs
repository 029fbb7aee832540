//! The `fcntl64` syscall call allows to manipulate a file descriptor.

use crate::errno::EResult;
use crate::syscall::descriptors::{DescriptorCall, Descriptors};
use vstd::prelude::*;

verus! {

/// Performs the command `cmd` on the file descriptor `fd`, with 64 bit offsets.
pub fn fcntl64<D: Descriptors>(fd: i32, cmd: i32, arg: usize, fds: &mut D) -> (r:
    EResult<usize>)
    ensures
        final(fds).calls() == old(fds).calls().push(
            (DescriptorCall::Fcntl(fd, cmd, arg, true), r),
        ),
{
    fds.do_fcntl(fd, cmd, arg, true)
}

/// The command goes to the table as it was given, with 64 bit offsets, and the reply is the result.
pub proof fn law_fcntl64<D: Descriptors>(
    fd: i32,
    cmd: i32,
    arg: usize,
    fds: &mut D,
    r: EResult<usize>,
)
    requires
        call_ensures(fcntl64::<D>, (fd, cmd, arg, fds), r),
    ensures
        final(fds).calls().len() == old(fds).calls().len() + 1,
        final(fds).calls().drop_last() == old(fds).calls(),
        final(fds).calls().last().0 == DescriptorCall::Fcntl(fd, cmd, arg, true),
        final(fds).calls().last().1 == r,
{
    assert(final(fds).calls().drop_last() =~= old(fds).calls());
}

} // verus!
