//! The table of cached entries: for each directory, the children that are loaded.

use crate::bytes::bytes_eq;
use crate::vfs::entry::{Entry, EntryView};
use std::sync::Arc;
use vstd::prelude::*;

verus! {

/// What a cached entry is found by: the identity of its parent, and its name.
pub type Key = (u64, Seq<u8>);

/// What the entry `e` is found by, if it has a parent.
pub open spec fn key_of(e: EntryView) -> Key {
    (e.parent->0.id, e.name)
}

/// The entry at `i` in `s` is found by `key`.
spec fn is_at(s: Seq<Arc<Entry>>, i: int, key: Key) -> bool {
    0 <= i < s.len() && key_of(s[i]@) == key
}

/// The cached entries. This is not an exhaustive list of the files' entries, but only those that
/// are loaded.
pub struct Children {
    entries: Vec<Arc<Entry>>,
}

impl Children {
    /// The cached entries, by their keys.
    pub closed spec fn view(&self) -> Map<Key, EntryView> {
        Map::new(
            |key: Key| exists|i: int| is_at(self.entries@, i, key),
            |key: Key| self.entries@[choose|i: int| is_at(self.entries@, i, key)]@,
        )
    }

    /// Every entry has a parent, and no two have the same one and the same name.
    pub closed spec fn wf(&self) -> bool {
        &&& forall|i: int| 0 <= i < self.entries@.len() ==> (#[trigger] self.entries@[i])@.parent is Some
        &&& forall|i: int, j: int, key: Key|
            #[trigger] is_at(self.entries@, i, key) && #[trigger] is_at(self.entries@, j, key)
                ==> i == j
    }

    /// An entry in the table is found by its key.
    proof fn lemma_at(&self, i: int)
        requires
            self.wf(),
            0 <= i < self.entries@.len(),
        ensures
            self@.contains_key(key_of(self.entries@[i]@)),
            self@[key_of(self.entries@[i]@)] == self.entries@[i]@,
    {
        assert(is_at(self.entries@, i, key_of(self.entries@[i]@)));
    }

    /// Creates an empty table.
    pub fn new() -> (children: Self)
        ensures
            children.wf(),
            children@ == Map::<Key, EntryView>::empty(),
    {
        let children = Children { entries: Vec::new() };
        assert(children@ =~= Map::<Key, EntryView>::empty());
        children
    }

    /// Returns the position of the child `name` of the directory with the identity `dir`.
    fn position(&self, dir: u64, name: &[u8]) -> (r: Option<usize>)
        requires
            self.wf(),
        ensures
            match r {
                Some(i) => is_at(self.entries@, i as int, (dir, name@)),
                None => forall|i: int| !is_at(self.entries@, i, (dir, name@)),
            },
    {
        let mut i: usize = 0;
        while i < self.entries.len()
            invariant
                self.wf(),
                i <= self.entries@.len(),
                forall|j: int| 0 <= j < i ==> !is_at(self.entries@, j, (dir, name@)),
            decreases self.entries@.len() - i,
        {
            let entry: &Arc<Entry> = &self.entries[i];
            match entry.get_parent() {
                Some(parent) => {
                    if parent.get_id() == dir && bytes_eq(entry.get_name(), name) {
                        return Some(i);
                    }
                },
                None => {},
            }
            i = i + 1;
        }
        None
    }

    /// Returns the child `name` of the directory with the identity `dir`.
    pub fn get(&self, dir: u64, name: &[u8]) -> (r: Option<Arc<Entry>>)
        requires
            self.wf(),
        ensures
            match r {
                Some(e) => self@.contains_key((dir, name@)) && self@[(dir, name@)] == e@,
                None => !self@.contains_key((dir, name@)),
            },
    {
        match self.position(dir, name) {
            Some(i) => {
                proof {
                    self.lemma_at(i as int);
                }
                Some(self.entries[i].clone())
            },
            None => None,
        }
    }

    /// Adds an entry to the table, in place of the one with the same parent and name, if any.
    pub fn insert(&mut self, entry: Arc<Entry>)
        requires
            old(self).wf(),
            entry@.parent is Some,
        ensures
            final(self).wf(),
            final(self)@ == old(self)@.insert(key_of(entry@), entry@),
    {
        let ghost key = key_of(entry@);
        let dir: u64 = match entry.get_parent() {
            Some(parent) => parent.get_id(),
            None => 0,
        };
        match self.position(dir, entry.get_name()) {
            Some(i) => {
                self.entries.set(i, entry);
            },
            None => {
                self.entries.push(entry);
            },
        }
        proof {
            let before = old(self).entries@;
            let after = self.entries@;
            let at = if before.len() == after.len() {
                choose|i: int| is_at(before, i, key)
            } else {
                before.len() as int
            };
            assert(is_at(after, at, key) && after[at] == entry);
            assert forall|i: int, k: Key| i != at && k != key implies (#[trigger] is_at(after, i, k)
                == is_at(before, i, k)) by {}
            assert forall|i: int, j: int, k: Key|
                #[trigger] is_at(after, i, k) && #[trigger] is_at(after, j, k) implies i == j by {
                if k != key {
                    assert(i != at && j != at);
                    assert(is_at(before, i, k) && is_at(before, j, k));
                } else {
                    if i != at {
                        assert(is_at(before, i, k));
                        assert(is_at(before, at, k) || at == before.len());
                    }
                    if j != at {
                        assert(is_at(before, j, k));
                        assert(is_at(before, at, k) || at == before.len());
                    }
                }
            }
            assert(self.wf());
            assert forall|k: Key|
                #[trigger] self@.contains_key(k) == old(self)@.insert(key, entry@).contains_key(
                    k,
                ) by {
                if k != key {
                    if exists|i: int| is_at(before, i, k) {
                        let i = choose|i: int| is_at(before, i, k);
                        assert(is_at(after, i, k));
                    }
                    if exists|i: int| is_at(after, i, k) {
                        let i = choose|i: int| is_at(after, i, k);
                        assert(is_at(before, i, k));
                    }
                }
            }
            assert forall|k: Key| #[trigger] self@.contains_key(k) implies self@[k] == old(
                self,
            )@.insert(key, entry@)[k] by {
                let i = choose|i: int| is_at(after, i, k);
                if k != key {
                    assert(is_at(before, i, k));
                    assert(old(self)@.contains_key(k));
                    let j = choose|j: int| is_at(before, j, k);
                    assert(i == j);
                } else {
                    assert(i == at);
                }
            }
            assert(self@ =~= old(self)@.insert(key, entry@));
        }
    }

    /// Removes the child `name` of the directory with the identity `dir` from the table, and
    /// returns it.
    pub fn remove(&mut self, dir: u64, name: &[u8]) -> (r: Option<Arc<Entry>>)
        requires
            old(self).wf(),
        ensures
            final(self).wf(),
            final(self)@ == old(self)@.remove((dir, name@)),
            match r {
                Some(e) => old(self)@.contains_key((dir, name@)) && old(self)@[(dir, name@)] == e@,
                None => !old(self)@.contains_key((dir, name@)),
            },
    {
        let ghost key = (dir, name@);
        match self.position(dir, name) {
            Some(at) => {
                let ghost before = self.entries@;
                proof {
                    self.lemma_at(at as int);
                }
                let entry: Arc<Entry> = self.entries.remove(at);
                proof {
                    let after = self.entries@;
                    let back = |i: int| if i < at { i } else { i + 1 };
                    assert forall|i: int, k: Key| #[trigger] is_at(after, i, k) implies is_at(
                        before,
                        back(i),
                        k,
                    ) && k != key by {
                        assert(after[i] == before[back(i)]);
                        assert(is_at(before, back(i), k));
                        if k == key {
                            assert(is_at(before, at as int, k));
                        }
                    }
                    assert forall|i: int| 0 <= i < after.len() implies (
                    #[trigger] after[i])@.parent is Some by {
                        assert(after[i] == before[back(i)]);
                    }
                    assert forall|i: int, j: int, k: Key|
                        #[trigger] is_at(after, i, k) && #[trigger] is_at(
                            after,
                            j,
                            k,
                        ) implies i == j by {
                        assert(is_at(before, back(i), k) && is_at(before, back(j), k));
                    }
                    assert(self.wf());
                    assert forall|k: Key|
                        #[trigger] self@.contains_key(k) == old(self)@.remove(key).contains_key(
                            k,
                        ) by {
                        if exists|i: int| is_at(after, i, k) {
                            let i = choose|i: int| is_at(after, i, k);
                            assert(is_at(before, back(i), k));
                        }
                        if k != key && exists|i: int| is_at(before, i, k) {
                            let i = choose|i: int| is_at(before, i, k);
                            let j = if i < at {
                                i
                            } else {
                                i - 1
                            };
                            assert(i != at);
                            assert(after[j] == before[i]);
                            assert(is_at(after, j, k));
                        }
                    }
                    assert forall|k: Key| #[trigger] self@.contains_key(k) implies self@[k] == old(
                        self,
                    )@.remove(key)[k] by {
                        let i = choose|i: int| is_at(after, i, k);
                        assert(is_at(before, back(i), k));
                        let j = choose|j: int| is_at(before, j, k);
                        assert(back(i) == j);
                        assert(after[i] == before[j]);
                    }
                    assert(self@ =~= old(self)@.remove(key));
                }
                Some(entry)
            },
            None => {
                assert(self@ =~= old(self)@.remove(key));
                None
            },
        }
    }
}

} // verus!
