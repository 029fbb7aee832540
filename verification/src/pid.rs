//! This module handles process PIDs.
//!
//! Each process must have an unique PID, thus they have to be allocated. The kernel keeps track
//! of the used PIDs.

use crate::errno::{EResult, ENOMEM};
use crate::id_allocator::IDAllocator;
use vstd::prelude::*;

verus! {

/// Type representing a Process ID. This ID is unique for every running processes.
pub type Pid = u16;

/// The maximum possible PID.
pub const MAX_PID: Pid = 32768;

/// `pid` can be the PID of a process.
pub open spec fn is_pid(pid: Pid) -> bool {
    1 <= pid <= MAX_PID
}

/// With the PIDs in `before` in use, an allocation gives `r`, and leaves those in `after` in use:
/// the lowest unused PID is handed out, or there is none.
pub open spec fn allocated(before: Set<Pid>, r: EResult<Pid>, after: Set<Pid>) -> bool {
    match r {
        Ok(pid) => {
            &&& is_pid(pid)
            &&& !before.contains(pid)
            &&& forall|p: Pid| 1 <= p < pid ==> #[trigger] before.contains(p)
            &&& after == before.insert(pid)
        },
        Err(e) => {
            &&& e == ENOMEM
            &&& forall|p: Pid| is_pid(p) ==> #[trigger] before.contains(p)
            &&& after == before
        },
    }
}

/// A structure handling PID allocations.
pub struct PIDManager {
    /// The PID allocator: the PID of a process is the number above the one it got from there.
    allocator: IDAllocator,
}

impl PIDManager {
    /// The PIDs in use.
    pub closed spec fn view(&self) -> Set<Pid> {
        Set::new(|pid: Pid| is_pid(pid) && self.allocator@[pid - 1])
    }

    /// The invariant of the allocator.
    pub closed spec fn wf(&self) -> bool {
        self.allocator@.len() == MAX_PID
    }

    /// Creates a new instance, with no PID in use.
    pub fn new() -> (r: EResult<Self>)
        ensures
            r matches Ok(pids) && pids.wf() && pids@ == Set::<Pid>::empty(),
    {
        let allocator: IDAllocator = IDAllocator::new(MAX_PID as usize)?;
        let pids = PIDManager { allocator };
        assert(pids@ =~= Set::<Pid>::empty());
        Ok(pids)
    }

    /// Returns the lowest unused PID and marks it as used.
    ///
    /// If every PID is in use, the function returns [`ENOMEM`].
    pub fn get_unique_pid(&mut self) -> (r: EResult<Pid>)
        requires
            old(self).wf(),
        ensures
            final(self).wf(),
            allocated(old(self)@, r, final(self)@),
    {
        match self.allocator.allocate() {
            Ok(i) => {
                let pid: Pid = (i + 1) as Pid;
                assert(self@ =~= old(self)@.insert(pid));
                assert forall|p: Pid| 1 <= p < pid implies #[trigger] old(self)@.contains(p) by {
                    assert(old(self).allocator@[p - 1]);
                }
                Ok(pid)
            },
            Err(e) => {
                assert forall|p: Pid| is_pid(p) implies #[trigger] old(self)@.contains(p) by {
                    assert(old(self).allocator@[p - 1]);
                }
                Err(e)
            },
        }
    }

    /// Releases the given PID `pid` to make it available for other processes.
    pub fn release_pid(&mut self, pid: Pid)
        requires
            old(self).wf(),
        ensures
            final(self).wf(),
            final(self)@ == old(self)@.remove(pid),
    {
        if pid > 0 {
            self.allocator.free(pid as usize - 1);
        }
        assert(self@ =~= old(self)@.remove(pid));
    }
}

/// PIDs are unique: while one is in use, no other process gets it.
pub proof fn law_pids_are_unique(before: Set<Pid>, p: Pid, q: Pid, after: Set<Pid>)
    requires
        before.contains(p),
        allocated(before, Ok(q), after),
    ensures
        p != q,
        after.contains(p),
        after.contains(q),
{
}

/// Releasing a PID undoes its allocation.
pub proof fn law_release_undoes_allocation(before: Set<Pid>, pid: Pid, after: Set<Pid>)
    requires
        allocated(before, Ok(pid), after),
    ensures
        after.remove(pid) == before,
{
    assert(after.remove(pid) =~= before);
}

/// A released PID is available for other processes: the next allocation gives it, or a lower
/// one.
pub proof fn law_released_pid_is_available(
    used: Set<Pid>,
    pid: Pid,
    r: EResult<Pid>,
    after: Set<Pid>,
)
    requires
        is_pid(pid),
        allocated(used.remove(pid), r, after),
    ensures
        r matches Ok(p) && p <= pid,
{
    assert(!used.remove(pid).contains(pid));
}

/// The PIDs are the numbers from 1 up to 32768.
pub proof fn law_range_of_pids(pid: Pid)
    ensures
        is_pid(pid) <==> 1 <= pid <= 32768,
{
}

/// An allocation fails only when every PID is in use, and gives the lowest one that is not.
pub proof fn law_lowest_free_pid_is_given(
    before: Set<Pid>,
    r: EResult<Pid>,
    after: Set<Pid>,
    free: Pid,
)
    requires
        1 <= free <= 32768,
        !before.contains(free),
        allocated(before, r, after),
    ensures
        r matches Ok(pid) && 1 <= pid <= free && !before.contains(pid) && after == before.insert(
            pid,
        ),
{
}

/// When every PID is in use, an allocation fails, and changes nothing.
pub proof fn law_no_pid_is_left(before: Set<Pid>, r: EResult<Pid>, after: Set<Pid>)
    requires
        forall|p: Pid| 1 <= p <= 32768 ==> #[trigger] before.contains(p),
        allocated(before, r, after),
    ensures
        r == Err::<Pid, i32>(ENOMEM),
        after == before,
{
}

/// An allocation that returns a PID gave the lowest one that was not in use, and only that one came
/// into use; a release makes exactly the PID that was given available again.
pub proof fn law_allocate_and_release(
    pids: &mut PIDManager,
    r: EResult<Pid>,
    other: &mut PIDManager,
    pid: Pid,
    free: Pid,
)
    requires
        call_ensures(PIDManager::get_unique_pid, (pids,), r),
        call_ensures(PIDManager::release_pid, (other, pid), ()),
        1 <= free <= 32768,
    ensures
        !old(pids)@.contains(free) ==> (r matches Ok(p) && 1 <= p <= free && !old(pids)@.contains(p)
            && final(pids)@ == old(pids)@.insert(p)),
        r matches Err(e) ==> e == ENOMEM && old(pids)@.contains(free) && final(pids)@ == old(pids)@,
        !final(other)@.contains(pid),
        free != pid ==> (final(other)@.contains(free) <==> old(other)@.contains(free)),
{
}

/// At first, no PID is in use.
pub proof fn law_no_pid_is_used_at_first(r: EResult<PIDManager>, pid: Pid)
    requires
        call_ensures(PIDManager::new, (), r),
    ensures
        r matches Ok(pids) && pids.wf() && !pids@.contains(pid),
{
}

} // verus!
