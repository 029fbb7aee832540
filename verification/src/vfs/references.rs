//! The references to entries: how many there are, and the end of the last one.

use crate::vfs::entry::Entry;
use std::sync::Arc;
use vstd::prelude::*;

verus! {

/// What is asked of the references to an entry.
pub enum RefCall {
    /// How many references to the entry with this ID are there?
    Count(u64),
    /// Is the reference to the entry with this ID, which is given up, the last one?
    Take(u64),
}

/// What comes back.
pub enum RefReply {
    Count(usize),
    Taken(bool),
}

/// The references to the entries of a VFS. Which ones there are rests on the rest of the kernel:
/// all that is known is what was asked, and what came back.
pub struct References {
    log: Ghost<Seq<(RefCall, RefReply)>>,
}

impl References {
    /// What was asked so far, each question with its reply, oldest first.
    pub closed spec fn calls(&self) -> Seq<(RefCall, RefReply)> {
        self.log@
    }

    /// Starts the record: nothing was asked yet.
    pub(crate) fn new() -> (refs: Self)
        ensures
            refs.calls() == Seq::<(RefCall, RefReply)>::empty(),
    {
        References { log: Ghost(Seq::empty()) }
    }

    /// Returns the number of references to the entry.
    pub(crate) fn count(&mut self, entry: &Arc<Entry>) -> (n: usize)
        ensures
            final(self).calls() == old(self).calls().push(
                (RefCall::Count(entry@.id), RefReply::Count(n)),
            ),
    {
        let n: usize = strong_count(entry);
        proof {
            self.log@ = self.log@.push((RefCall::Count(entry@.id), RefReply::Count(n)));
        }
        n
    }

    /// Gives the reference up. Returns the entry itself if that was the last one.
    pub(crate) fn take(&mut self, entry: Arc<Entry>) -> (inner: Option<Entry>)
        ensures
            inner matches Some(e) ==> e == *entry,
            final(self).calls() == old(self).calls().push(
                (RefCall::Take(entry@.id), RefReply::Taken(inner is Some)),
            ),
    {
        let ghost id = entry@.id;
        let inner: Option<Entry> = into_inner(entry);
        proof {
            self.log@ = self.log@.push((RefCall::Take(id), RefReply::Taken(inner is Some)));
        }
        inner
    }
}

/// Calls [`Arc::strong_count`]: the number of references to the entry at this moment. It rests
/// on which references the rest of the kernel holds, so nothing is stated of it.
#[verifier::external_body]
fn strong_count(this: &Arc<Entry>) -> usize {
    Arc::strong_count(this)
}

/// Calls [`Arc::into_inner`]: gives the reference up, and returns the entry itself if that
/// reference was the last one. Whether it was rests on which references the rest of the kernel
/// holds, so that is not stated.
#[verifier::external_body]
fn into_inner(this: Arc<Entry>) -> (e: Option<Entry>)
    ensures
        e matches Some(inner) ==> inner == *this,
{
    Arc::into_inner(this)
}

} // verus!
