//! An allocator of numbers, which hands out the lowest one that is free.

use crate::errno::{EResult, ENOMEM};
use vstd::prelude::*;

verus! {

/// Hands out the numbers from zero up to a limit, each to one user at a time.
pub struct IDAllocator {
    used: Vec<bool>,
}

impl IDAllocator {
    /// For each number, whether it is in use.
    pub closed spec fn view(&self) -> Seq<bool> {
        self.used@
    }

    /// Creates an allocator of the numbers below `max`, none of which is in use.
    pub fn new(max: usize) -> (r: EResult<Self>)
        ensures
            r matches Ok(ids) && ids@ == Seq::new(max as nat, |i: int| false),
    {
        let ids = IDAllocator { used: vec![false; max] };
        assert(ids@ =~= Seq::new(max as nat, |i: int| false));
        Ok(ids)
    }

    /// Returns the lowest number that is not in use, and marks it as used.
    ///
    /// If every number is in use, the function returns [`ENOMEM`].
    pub fn allocate(&mut self) -> (r: EResult<usize>)
        ensures
            match r {
                Ok(id) => {
                    &&& id < old(self)@.len()
                    &&& !old(self)@[id as int]
                    &&& forall|i: int| 0 <= i < id ==> #[trigger] old(self)@[i]
                    &&& final(self)@ == old(self)@.update(id as int, true)
                },
                Err(e) => {
                    &&& e == ENOMEM
                    &&& forall|i: int| 0 <= i < old(self)@.len() ==> #[trigger] old(self)@[i]
                    &&& final(self)@ == old(self)@
                },
            },
    {
        let mut id: usize = 0;
        while id < self.used.len()
            invariant
                id <= self.used@.len(),
                self.used@ == old(self).used@,
                forall|i: int| 0 <= i < id ==> #[trigger] self.used@[i],
            decreases self.used@.len() - id,
        {
            if !self.used[id] {
                self.used.set(id, true);
                return Ok(id);
            }
            id = id + 1;
        }
        Err(ENOMEM)
    }

    /// Marks a number as not in use, if there is such a number.
    pub fn free(&mut self, id: usize)
        ensures
            final(self)@ == if id < old(self)@.len() {
                old(self)@.update(id as int, false)
            } else {
                old(self)@
            },
    {
        if id < self.used.len() {
            self.used.set(id, false);
        }
    }
}

} // verus!
