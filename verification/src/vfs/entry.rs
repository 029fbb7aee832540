//! The entries of the VFS: directory entries, cached in memory.

use crate::errno::{EResult, ENAMETOOLONG};
use crate::limits::PATH_MAX;
use crate::path::{PathBuf, SLASH};
use crate::vfs::backend::Node;
use std::sync::Arc;
use vstd::prelude::*;
use vstd::slice::slice_subrange;

verus! {

/// The identity of the root of the VFS.
pub const ROOT_ID: u64 = 0;

/// A VFS entry, representing a directory entry cached in memory.
///
/// The entries that are cached below a directory stand in the [`Vfs`](crate::vfs::state::Vfs).
pub struct Entry {
    /// Filename.
    pub name: Vec<u8>,
    /// The parent of the entry.
    ///
    /// If `None`, the current entry is the root of the VFS.
    parent: Option<Arc<Entry>>,
    /// The node associated with the entry.
    ///
    /// If `None`, the file does not actually exist.
    node: Option<Arc<Node>>,
    /// The identity of the entry: no two entries of a VFS share one.
    id: u64,
}

/// An entry, in contracts.
pub struct EntryView {
    pub id: u64,
    pub name: Seq<u8>,
    pub parent: Option<Box<EntryView>>,
    pub node: Option<Node>,
}

/// The names on the way from the root to the entry, each after a slash.
pub open spec fn names_path(e: EntryView) -> Seq<u8>
    decreases e,
{
    match e.parent {
        None => Seq::empty(),
        Some(p) => names_path(*p) + seq![SLASH] + e.name,
    }
}

/// The absolute path of the entry.
pub open spec fn path_of(e: EntryView) -> Seq<u8> {
    match e.parent {
        None => seq![SLASH],
        Some(_) => names_path(e),
    }
}

/// The entry is the one with the identity `dir`, or lies below it.
pub open spec fn within(e: EntryView, dir: u64) -> bool
    decreases e,
{
    e.id == dir || match e.parent {
        None => false,
        Some(p) => within(*p, dir),
    }
}

/// `e` is a parent of the entry `root`, or a parent of its parents.
pub open spec fn above(e: EntryView, root: EntryView) -> bool {
    within(root, e.id) && e.id != root.id
}

/// The file exists, and so do all the directories on the way from the root to it.
pub open spec fn rooted(e: EntryView) -> bool
    decreases e,
{
    e.node is Some && match e.parent {
        None => true,
        Some(p) => rooted(*p),
    }
}

impl Entry {
    pub closed spec fn view(&self) -> EntryView
        decreases self,
    {
        EntryView {
            id: self.id,
            name: self.name@,
            parent: match self.parent {
                Some(p) => Some(Box::new(p.view())),
                None => None,
            },
            node: match self.node {
                Some(n) => Some(*n),
                None => None,
            },
        }
    }

    /// Creates an entry.
    pub(crate) fn new(
        id: u64,
        name: Vec<u8>,
        parent: Option<Arc<Entry>>,
        node: Option<Arc<Node>>,
    ) -> (e: Self)
        ensures
            e@.id == id,
            e@.name == name@,
            match parent {
                Some(p) => e@.parent == Some(Box::new(p@)),
                None => e@.parent is None,
            },
            match node {
                Some(n) => e@.node == Some(*n),
                None => e@.node is None,
            },
    {
        Entry { name, parent, node, id }
    }

    /// Creates a new entry for the given `node`: the root of a VFS.
    pub fn from_node(node: Arc<Node>) -> (e: Self)
        ensures
            e@ == (EntryView {
                id: ROOT_ID,
                name: Seq::empty(),
                parent: None,
                node: Some(*node),
            }),
    {
        Entry { name: Vec::new(), parent: None, node: Some(node), id: ROOT_ID }
    }

    /// Returns the identity of the entry.
    pub fn get_id(&self) -> (id: u64)
        ensures
            id == self@.id,
    {
        self.id
    }

    /// Returns the name of the entry.
    pub fn get_name(&self) -> (name: &[u8])
        ensures
            name@ == self@.name,
    {
        self.name.as_slice()
    }

    /// Returns the parent of the entry.
    pub fn get_parent(&self) -> (parent: Option<&Arc<Entry>>)
        ensures
            match parent {
                Some(p) => self@.parent == Some(Box::new(p@)),
                None => self@.parent is None,
            },
    {
        match &self.parent {
            Some(p) => Some(p),
            None => None,
        }
    }

    /// Tells whether the file exists.
    pub fn has_node(&self) -> (r: bool)
        ensures
            r == (self@.node is Some),
    {
        self.node.is_some()
    }

    /// Tells whether the entry is the one with the identity `dir`, or lies below it.
    pub fn is_within(&self, dir: u64) -> (r: bool)
        ensures
            r == within(self@, dir),
        decreases self,
    {
        if self.id == dir {
            return true;
        }
        match &self.parent {
            Some(parent) => parent.is_within(dir),
            None => false,
        }
    }

    /// Returns a reference to the underlying node, which must exist.
    pub fn node(&self) -> (node: &Arc<Node>)
        requires
            self@.node is Some,
        ensures
            self@.node == Some(**node),
    {
        match &self.node {
            Some(n) => n,
            None => vstd::pervasive::unreached(),
        }
    }

    /// Returns the underlying node, if any, at the end of the life of the entry.
    pub(crate) fn into_node(self) -> (node: Option<Arc<Node>>)
        ensures
            match node {
                Some(n) => self@.node == Some(*n),
                None => self@.node is None,
            },
    {
        self.node
    }

    /// Returns the absolute path to reach the entry.
    ///
    /// If it is longer than [`PATH_MAX`], the function returns [`ENAMETOOLONG`].
    pub fn get_path(this: &Arc<Self>) -> (path: EResult<PathBuf>)
        ensures
            match path {
                Ok(p) => p@ == path_of(this@) && names_path(this@).len() <= PATH_MAX,
                Err(e) => e == ENAMETOOLONG && names_path(this@).len() > PATH_MAX,
            },
    {
        if this.parent.is_none() {
            return Ok(PathBuf::root());
        }
        // Filled from its end, as the way to the root is walked
        let mut buf: Vec<u8> = vec![0u8; PATH_MAX];
        let mut off: usize = PATH_MAX;
        let mut cur: &Arc<Entry> = this;
        assert(names_path(this@) =~= names_path(cur@) + buf@.skip(off as int));
        loop
            invariant
                off <= PATH_MAX == buf@.len(),
                names_path(this@) == names_path(cur@) + buf@.skip(off as int),
            ensures
                cur@.parent is None,
            decreases cur,
        {
            match &cur.parent {
                Some(parent) => {
                    let len: usize = cur.name.len();
                    if len >= off {
                        return Err(ENAMETOOLONG);
                    }
                    let ghost tail = buf@.skip(off as int);
                    off = off - len - 1;
                    buf.set(off, SLASH);
                    let mut i: usize = 0;
                    while i < len
                        invariant
                            i <= len == cur.name@.len(),
                            off + 1 + len <= PATH_MAX == buf@.len(),
                            tail == buf@.skip(off + 1 + len),
                            buf@[off as int] == SLASH,
                            forall|j: int| 0 <= j < i ==> buf@[off + 1 + j] == cur.name@[j],
                        decreases len - i,
                    {
                        buf.set(off + 1 + i, cur.name[i]);
                        i = i + 1;
                        assert(tail =~= buf@.skip(off + 1 + len));
                    }
                    assert(buf@.skip(off as int) =~= seq![SLASH] + cur@.name + tail);
                    assert(names_path(this@) =~= names_path(parent@) + buf@.skip(off as int));
                    cur = parent;
                },
                None => {
                    break;
                },
            }
        }
        assert(names_path(this@) =~= buf@.skip(off as int));
        let path: Vec<u8> = vstd::slice::slice_to_vec(
            slice_subrange(buf.as_slice(), off, PATH_MAX),
        );
        assert(path@ =~= buf@.skip(off as int));
        Ok(PathBuf::new_unchecked(path))
    }
}

} // verus!
