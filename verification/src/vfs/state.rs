//! The state of the VFS, and the operations on a single entry.

use crate::errno::{EResult, ENOMEM, EOVERFLOW, EUCLEAN};
use crate::stat::{mode_type, FileType, Stat};
use crate::history::{asked, heard, lemma_asked, lemma_heard_before, replies_of, World};
use crate::vfs::backend::{data_view, Backend, Call, MountPoint, Node, Reply};
use crate::vfs::children::{key_of, Children, Key};
use crate::vfs::entry::{rooted, Entry, EntryView, ROOT_ID};
use crate::vfs::references::{RefCall, RefReply, References};
use std::sync::Arc;
use vstd::prelude::*;

verus! {

/// By how many bytes the buffer grows when a file is read whole.
pub const INCREMENT: usize = 512;

/// The state of the VFS, in contracts.
#[verifier::ext_equal]
pub struct VfsView {
    /// What was asked of the services, and what they replied.
    pub log: Seq<(Call, Reply)>,
    /// What was asked of the references to entries, and what came back.
    pub refs: Seq<(RefCall, RefReply)>,
    /// The cached entries.
    pub children: Map<Key, EntryView>,
    /// Every entry ever made, by its identity.
    pub known: Map<u64, EntryView>,
    /// The identity of the next entry.
    pub next_id: u64,
    /// The root entry.
    pub root: EntryView,
}

impl VfsView {
    /// `e` is an entry of this VFS.
    pub open spec fn owns(self, e: EntryView) -> bool {
        self.known.contains_key(e.id) && self.known[e.id] == e
    }

    /// `e` is an entry of this VFS, and the file exists.
    pub open spec fn live(self, e: EntryView) -> bool {
        self.owns(e) && e.node is Some
    }

    /// `e` is an entry of this VFS, and the file exists with all the directories on the way to it.
    pub open spec fn reaches(self, e: EntryView) -> bool {
        self.owns(e) && rooted(e)
    }

    /// The invariant of the VFS: entries are told apart by their identities, the parent of an
    /// entry is an older entry, the root alone has no parent, and what is cached below a
    /// directory has that directory as its parent.
    pub open spec fn wf(self) -> bool {
        &&& self.owns(self.root)
        &&& self.root.parent is None
        &&& forall|id: u64| #[trigger]
            self.known.contains_key(id) ==> {
                &&& self.known[id].id == id
                &&& id < self.next_id
                &&& match self.known[id].parent {
                    None => self.known[id] == self.root,
                    Some(p) => self.owns(*p) && p.id < id,
                }
            }
        &&& forall|key: Key| #[trigger]
            self.children.contains_key(key) ==> {
                &&& self.owns(self.children[key])
                &&& self.children[key].parent is Some
                &&& key_of(self.children[key]) == key
            }
    }

    /// The state came out of `old`: nothing that was said or made is forgotten.
    pub open spec fn extends(self, old: VfsView) -> bool {
        &&& old.log.is_prefix_of(self.log)
        &&& old.refs.len() <= self.refs.len()
        &&& forall|i: int| 0 <= i < old.refs.len() ==> #[trigger] self.refs[i] == old.refs[i]
        &&& self.root == old.root
        &&& forall|id: u64| #[trigger]
            old.known.contains_key(id) ==> self.known.contains_key(id) && self.known[id]
                == old.known[id]
    }

    /// The state after `call`, when the stream `w` answers it.
    pub open spec fn ask(self, w: World<Reply>, call: Call) -> VfsView {
        VfsView { log: asked(self.log, w, call), ..self }
    }

    /// The reply of the stream `w` to the next call.
    pub open spec fn reply(self, w: World<Reply>) -> Reply {
        w(self.log.len() as int)
    }

    /// The state after the question `call` on references, when the stream `v` answers it.
    pub open spec fn ask_refs(self, v: World<RefReply>, call: RefCall) -> VfsView {
        VfsView { refs: asked(self.refs, v, call), ..self }
    }

    /// The reply of the stream `v` to the next question on references.
    pub open spec fn refs_reply(self, v: World<RefReply>) -> RefReply {
        v(self.refs.len() as int)
    }
}

/// Asks for the status of `node`.
pub open spec fn stat_of(w: World<Reply>, s: VfsView, node: Node) -> (VfsView, EResult<Stat>) {
    (s.ask(w, Call::GetStat(node.ops, node.location)), s.reply(w)->Stat_0)
}

/// Asks for the status of `node`, and takes the type of the file out of it.
pub open spec fn type_of(w: World<Reply>, s: VfsView, node: Node) -> (VfsView, EResult<FileType>) {
    let (s1, stat) = stat_of(w, s, node);
    match stat {
        Err(e) => (s1, Err(e)),
        Ok(stat) => match mode_type(stat.mode) {
            None => (s1, Err(EUCLEAN)),
            Some(t) => (s1, Ok(t)),
        },
    }
}

/// The first `room` bytes of `data`, or all of them if there are fewer.
pub open spec fn at_most(data: Seq<u8>, room: int) -> Seq<u8> {
    if data.len() > room {
        data.take(room)
    } else {
        data
    }
}

/// Reads `node` to its end, after `data` was read into a buffer of `size` bytes.
pub open spec fn read_from(
    w: World<Reply>,
    s: VfsView,
    node: Node,
    size: int,
    data: Seq<u8>,
) -> (VfsView, EResult<Seq<u8>>)
    decreases usize::MAX - data.len(),
{
    let grown = if data.len() >= size {
        size + INCREMENT
    } else {
        size
    };
    if grown > usize::MAX || data.len() >= grown {
        (s, Err(EOVERFLOW))
    } else {
        let room = grown - data.len();
        let s1 = s.ask(
            w,
            Call::ReadContent(node.ops, node.location, data.len() as u64, room as usize),
        );
        match s.reply(w)->Data_0 {
            Err(e) => (s1, Err(e)),
            Ok(more) => if more.len() == 0 {
                (s1, Ok(data))
            } else {
                read_from(w, s1, node, grown, data + at_most(more, room))
            },
        }
    }
}

/// Reads the whole content of `node`.
pub open spec fn read_whole(w: World<Reply>, s: VfsView, node: Node) -> (
    VfsView,
    EResult<Seq<u8>>,
) {
    let (s1, stat) = stat_of(w, s, node);
    match stat {
        Err(e) => (s1, Err(e)),
        Ok(stat) => if stat.size + INCREMENT > usize::MAX {
            (s1, Err(EOVERFLOW))
        } else {
            read_from(w, s1, node, stat.size + INCREMENT, Seq::empty())
        },
    }
}

/// Makes a new entry for `node`, under the name `name` in the directory `dir`, and caches it.
pub open spec fn make_entry(s: VfsView, dir: EntryView, name: Seq<u8>, node: Node) -> (
    VfsView,
    EResult<EntryView>,
) {
    if s.next_id == u64::MAX {
        (s, Err(ENOMEM))
    } else {
        let e = EntryView { id: s.next_id, name, parent: Some(Box::new(dir)), node: Some(node) };
        (
            VfsView {
                children: s.children.insert((dir.id, name), e),
                known: s.known.insert(e.id, e),
                next_id: (s.next_id + 1) as u64,
                ..s
            },
            Ok(e),
        )
    }
}

/// Gives a node back, if there is one.
pub open spec fn give_back(w: World<Reply>, s: VfsView, node: Option<Node>) -> (
    VfsView,
    EResult<()>,
) {
    match node {
        None => (s, Ok(())),
        Some(n) => (s.ask(w, Call::ReleaseNode(n)), s.reply(w)->Done_0),
    }
}

/// Releases a reference to the entry `e`. The root stays. So does an entry that is referenced
/// elsewhere than by its parent. Any other entry is not cached any more; if the reference was
/// the last one, its node is given back.
pub open spec fn release_of(w: World<Reply>, v: World<RefReply>, s: VfsView, e: EntryView) -> (
    VfsView,
    EResult<()>,
) {
    match e.parent {
        None => (s, Ok(())),
        Some(p) => {
            let s1 = s.ask_refs(v, RefCall::Count(e.id));
            if s.refs_reply(v)->Count_0 > 2 {
                (s1, Ok(()))
            } else {
                let s2 = VfsView { children: s1.children.remove((p.id, e.name)), ..s1 };
                let s3 = s2.ask_refs(v, RefCall::Take(e.id));
                if s2.refs_reply(v)->Taken_0 {
                    give_back(w, s3, e.node)
                } else {
                    (s3, Ok(()))
                }
            }
        },
    }
}

/// Asks for the mountpoint that `e` is the root of: there is one if the entry has no parent, or
/// if its parent is on another mountpoint.
pub open spec fn mountpoint_of(w: World<Reply>, s: VfsView, e: EntryView) -> (
    VfsView,
    Option<MountPoint>,
) {
    match e.node {
        None => (s, None),
        Some(node) => {
            let id = node.location.mountpoint_id;
            if e.parent matches Some(p) && p.node->0.location.mountpoint_id == id {
                (s, None)
            } else {
                (s.ask(w, Call::MountPointFromId(id)), s.reply(w)->MountPoint_0)
            }
        },
    }
}

/// The VFS: the root entry, the cached entries, and the services that it rests on.
pub struct Vfs<B> {
    pub(crate) services: B,
    pub(crate) refs: References,
    pub(crate) root: Arc<Entry>,
    pub(crate) children: Children,
    pub(crate) next_id: u64,
    pub(crate) known: Ghost<Map<u64, EntryView>>,
}

impl<B: Backend> Vfs<B> {
    pub open(crate) spec fn view(&self) -> VfsView {
        VfsView {
            log: self.services.calls(),
            refs: self.refs.calls(),
            children: self.children@,
            known: self.known@,
            next_id: self.next_id,
            root: self.root@,
        }
    }

    /// The invariant of the table of cached entries.
    pub open(crate) spec fn table_wf(&self) -> bool {
        self.children.wf()
    }

    /// The invariant of the VFS.
    pub open spec fn wf(&self) -> bool {
        self.table_wf() && self@.wf()
    }
}

impl<B: Backend> Vfs<B> {
    /// Creates a VFS whose root is `node`, on the services of `backend`.
    pub fn new(node: Arc<Node>, backend: B) -> (vfs: Self)
        ensures
            vfs.wf(),
            vfs@.log == backend.calls(),
            vfs@.refs == Seq::<(RefCall, RefReply)>::empty(),
            vfs@.children == Map::<Key, EntryView>::empty(),
            vfs@.root == (EntryView {
                id: ROOT_ID,
                name: Seq::empty(),
                parent: None,
                node: Some(*node),
            }),
    {
        let root: Arc<Entry> = Arc::new(Entry::from_node(node));
        let ghost known = Map::<u64, EntryView>::empty().insert(ROOT_ID, root@);
        Vfs {
            services: backend,
            refs: References::new(),
            root,
            children: Children::new(),
            next_id: 1,
            known: Ghost(known),
        }
    }
}

/// A call keeps the invariant, and forgets nothing.
pub broadcast proof fn lemma_ask(s: VfsView, w: World<Reply>, call: Call)
    ensures
        (#[trigger] s.ask(w, call)).extends(s),
        s.wf() ==> s.ask(w, call).wf(),
{
    assert(s.log =~= s.ask(w, call).log.subrange(0, s.log.len() as int));
}

/// What came out of a state that came out of another came out of that one too.
pub proof fn lemma_extends(a: VfsView, b: VfsView, c: VfsView)
    requires
        b.extends(a),
        c.extends(b),
    ensures
        c.extends(a),
{
    assert(a.log =~= c.log.subrange(0, a.log.len() as int)) by {
        assert forall|i: int| 0 <= i < a.log.len() implies a.log[i] == c.log[i] by {
            assert(a.log[i] == b.log.subrange(0, a.log.len() as int)[i]);
            assert(b.log[i] == c.log.subrange(0, b.log.len() as int)[i]);
        }
    }
}

/// A stream that begins as a log does begins as every earlier log did.
pub broadcast proof fn lemma_heard(a: VfsView, b: VfsView, w: World<Reply>)
    requires
        #[trigger] b.extends(a),
        #[trigger] heard(b.log, w),
    ensures
        heard(a.log, w),
{
    assert forall|i: int| 0 <= i < a.log.len() implies #[trigger] w(i) == a.log[i].1 by {
        assert(a.log[i] == b.log.subrange(0, a.log.len() as int)[i]);
    }
}

/// Reading a node to its end keeps the invariant, and forgets nothing.
pub proof fn lemma_read_from(w: World<Reply>, s: VfsView, node: Node, size: int, data: Seq<u8>)
    ensures
        ({
            let s1 = read_from(w, s, node, size, data).0;
            &&& s1.extends(s)
            &&& s.wf() ==> s1.wf()
            &&& s1.children == s.children
            &&& s1.known == s.known
            &&& s1.next_id == s.next_id
        }),
    decreases usize::MAX - data.len(),
{
    broadcast use lemma_ask;

    let grown = if data.len() >= size {
        size + INCREMENT
    } else {
        size
    };
    assert(s.log =~= s.log.subrange(0, s.log.len() as int));
    if grown <= usize::MAX && data.len() < grown {
        let room = grown - data.len();
        let s1 = s.ask(
            w,
            Call::ReadContent(node.ops, node.location, data.len() as u64, room as usize),
        );
        if let Ok(more) = s.reply(w)->Data_0 {
            if more.len() > 0 {
                lemma_read_from(w, s1, node, grown, data + at_most(more, room));
                lemma_extends(s, s1, read_from(w, s, node, size, data).0);
            }
        }
    }
}

/// What a call and its reply do to the state.
pub proof fn lemma_said(old: VfsView, new: VfsView, call: Call, reply: Reply)
    requires
        new == (VfsView { log: old.log.push((call, reply)), ..old }),
    ensures
        new.extends(old),
        old.wf() ==> new.wf(),
        forall|w: World<Reply>| #[trigger]
            heard(new.log, w) ==> old.ask(w, call) == new && old.reply(w) == reply,
{
    assert forall|w: World<Reply>| #[trigger] heard(new.log, w) implies old.ask(w, call) == new
        && old.reply(w) == reply by {
        assert(w(old.log.len() as int) == reply);
        assert(old.ask(w, call) =~= new);
    }
    let w = replies_of(new.log);
    assert(heard(new.log, w));
    lemma_ask(old, w, call);
}

/// Making an entry keeps the invariant, forgets nothing, and gives an entry of the VFS.
pub proof fn lemma_make_entry(s: VfsView, dir: EntryView, name: Seq<u8>, node: Node)
    requires
        s.wf(),
        s.owns(dir),
    ensures
        ({
            let (s1, r) = make_entry(s, dir, name, node);
            &&& s1.wf()
            &&& s1.extends(s)
            &&& r matches Ok(e) ==> s1.live(e) && !s.known.contains_key(e.id)
        }),
{
    let (s1, r) = make_entry(s, dir, name, node);
    assert(s.log =~= s1.log.subrange(0, s.log.len() as int));
    if s.next_id < u64::MAX {
        assert(!s.known.contains_key(s.next_id));
        assert forall|id: u64| #[trigger] s1.known.contains_key(id) implies {
            &&& s1.known[id].id == id
            &&& id < s1.next_id
            &&& match s1.known[id].parent {
                None => s1.known[id] == s1.root,
                Some(p) => s1.owns(*p) && p.id < id,
            }
        } by {
            if id != s.next_id {
                assert(s.known.contains_key(id));
            }
        }
        assert forall|key: Key| #[trigger] s1.children.contains_key(key) implies {
            &&& s1.owns(s1.children[key])
            &&& s1.children[key].parent is Some
            &&& key_of(s1.children[key]) == key
        } by {
            if key != (dir.id, name) {
                assert(s.children.contains_key(key));
            }
        }
    }
}

/// A question on references keeps the invariant, and forgets nothing.
pub broadcast proof fn lemma_ask_refs(s: VfsView, v: World<RefReply>, call: RefCall)
    ensures
        (#[trigger] s.ask_refs(v, call)).extends(s),
        s.wf() ==> s.ask_refs(v, call).wf(),
{
    assert(s.log =~= s.log.subrange(0, s.log.len() as int));
}

/// Releasing an entry keeps the invariant, and forgets nothing but what is cached.
pub proof fn lemma_release(w: World<Reply>, v: World<RefReply>, s: VfsView, e: EntryView)
    requires
        s.wf(),
    ensures
        release_of(w, v, s, e).0.wf(),
        release_of(w, v, s, e).0.extends(s),
        release_of(w, v, s, e).0.known == s.known,
{
    broadcast use {lemma_ask, lemma_ask_refs};

    assert(s.log =~= s.log.subrange(0, s.log.len() as int));
    if let Some(p) = e.parent {
        let s1 = s.ask_refs(v, RefCall::Count(e.id));
        let s2 = VfsView { children: s1.children.remove((p.id, e.name)), ..s1 };
        let s3 = s2.ask_refs(v, RefCall::Take(e.id));
        assert(s2.extends(s1));
        assert(s2.wf()) by {
            assert forall|key: Key| #[trigger] s2.children.contains_key(key) implies {
                &&& s2.owns(s2.children[key])
                &&& s2.children[key].parent is Some
                &&& key_of(s2.children[key]) == key
            } by {
                assert(s1.children.contains_key(key));
            }
        }
        lemma_extends(s, s1, s2);
        lemma_extends(s, s2, s3);
        let s4 = give_back(w, s3, e.node).0;
        if s4 != s3 {
            lemma_extends(s, s3, s4);
        }
    }
}

impl<B: Backend> Vfs<B> {
    /// Makes a new entry for `node`, under the name `name` in the directory `dir`, and caches
    /// it.
    pub(crate) fn add_entry(&mut self, dir: &Arc<Entry>, name: &[u8], node: Arc<Node>) -> (r:
        EResult<Arc<Entry>>)
        requires
            old(self).wf(),
            old(self)@.owns(dir@),
        ensures
            final(self).wf(),
            final(self)@.extends(old(self)@),
            make_entry(old(self)@, dir@, name@, *node) == (final(self)@, entry_view(r)),
    {
        proof {
            lemma_make_entry(self@, dir@, name@, *node);
        }
        if self.next_id == u64::MAX {
            return Err(ENOMEM);
        }
        let entry: Arc<Entry> = Arc::new(
            Entry::new(
                self.next_id,
                vstd::slice::slice_to_vec(name),
                Some(dir.clone()),
                Some(node),
            ),
        );
        self.next_id = self.next_id + 1;
        self.children.insert(entry.clone());
        proof {
            self.known@ = self.known@.insert(entry@.id, entry@);
            assert(self@ =~= make_entry(old(self)@, dir@, name@, *node).0);
        }
        Ok(entry)
    }

    /// Gives a node back, if there is one.
    fn give_back(&mut self, node: Option<Arc<Node>>) -> (r: EResult<()>)
        requires
            old(self).wf(),
        ensures
            final(self).table_wf(),
            forall|w: World<Reply>| #[trigger]
                heard(final(self)@.log, w) ==> give_back(
                    w,
                    old(self)@,
                    match node {
                        Some(n) => Some(*n),
                        None => None,
                    },
                ) == (final(self)@, r),
    {
        match node {
            Some(n) => {
                let ghost given = *n;
                let r = self.services.release_node(n);
                proof {
                    lemma_said(old(self)@, self@, Call::ReleaseNode(given), Reply::Done(r));
                }
                r
            },
            None => Ok(()),
        }
    }
}

/// An entry that was handed out, in contracts.
pub open spec fn entry_view(r: EResult<Arc<Entry>>) -> EResult<EntryView> {
    match r {
        Ok(e) => Ok(e@),
        Err(e) => Err(e),
    }
}

impl Entry {
    /// If the entry is a mountpoint, return it.
    pub fn get_mountpoint<B: Backend>(&self, vfs: &mut Vfs<B>) -> (r: Option<MountPoint>)
        requires
            old(vfs).wf(),
            self@.node is Some ==> (self@.parent matches Some(p) ==> p.node is Some),
        ensures
            final(vfs).wf(),
            final(vfs)@.extends(old(vfs)@),
            forall|w: World<Reply>| #[trigger]
                heard(final(vfs)@.log, w) ==> mountpoint_of(w, old(vfs)@, self@) == (
                    final(vfs)@,
                    r,
                ),
    {
        assert(vfs@.log =~= vfs@.log.subrange(0, vfs@.log.len() as int));
        if !self.has_node() {
            return None;
        }
        let id: u32 = self.node().location.mountpoint_id;
        match self.get_parent() {
            // The parent is on the same mountpoint: this IS NOT the root of a mountpoint
            Some(parent) => {
                if parent.node().location.mountpoint_id == id {
                    return None;
                }
            },
            None => {},
        }
        // The parent is on a different mountpoint, or there is no parent: this IS the root of a
        // mountpoint
        let r = vfs.services.mountpoint_from_id(id);
        proof {
            lemma_said(old(vfs)@, vfs@, Call::MountPointFromId(id), Reply::MountPoint(r));
        }
        r
    }

    /// Helper returning the status of the underlying node, which must exist.
    pub fn stat<B: Backend>(&self, vfs: &mut Vfs<B>) -> (r: EResult<Stat>)
        requires
            old(vfs).wf(),
            self@.node is Some,
        ensures
            final(vfs).wf(),
            final(vfs)@.extends(old(vfs)@),
            forall|w: World<Reply>| #[trigger]
                heard(final(vfs)@.log, w) ==> stat_of(w, old(vfs)@, self@.node->0) == (
                    final(vfs)@,
                    r,
                ),
    {
        let node: &Arc<Node> = self.node();
        let r = vfs.services.get_stat(node.ops, node.location);
        proof {
            lemma_said(
                old(vfs)@,
                vfs@,
                Call::GetStat(node.ops, node.location),
                Reply::Stat(r),
            );
        }
        r
    }

    /// Returns the file's type.
    ///
    /// If its mode holds none, the function returns [`EUCLEAN`].
    pub fn get_type<B: Backend>(&self, vfs: &mut Vfs<B>) -> (r: EResult<FileType>)
        requires
            old(vfs).wf(),
            self@.node is Some,
        ensures
            final(vfs).wf(),
            final(vfs)@.extends(old(vfs)@),
            forall|w: World<Reply>| #[trigger]
                heard(final(vfs)@.log, w) ==> type_of(w, old(vfs)@, self@.node->0) == (
                    final(vfs)@,
                    r,
                ),
    {
        match FileType::from_mode(self.stat(vfs)?.mode) {
            Some(t) => Ok(t),
            None => Err(EUCLEAN),
        }
    }

    /// Reads the whole content of the file into a buffer.
    ///
    /// **Caution**: the function reads until EOF, meaning the caller should not call this
    /// function on an infinite file.
    pub fn read_all<B: Backend>(&self, vfs: &mut Vfs<B>) -> (r: EResult<Vec<u8>>)
        requires
            old(vfs).wf(),
            self@.node is Some,
        ensures
            final(vfs).wf(),
            final(vfs)@.extends(old(vfs)@),
            forall|w: World<Reply>| #[trigger]
                heard(final(vfs)@.log, w) ==> read_whole(w, old(vfs)@, self@.node->0) == (
                    final(vfs)@,
                    data_view(r),
                ),
    {
        broadcast use lemma_heard;

        let node: Node = **self.node();
        let stat: Stat = self.stat(vfs)?;
        // Add more space to allow check for EOF
        if stat.size > (usize::MAX - INCREMENT) as u64 {
            return Err(EOVERFLOW);
        }
        let mut size: usize = stat.size as usize + INCREMENT;
        let mut data: Vec<u8> = Vec::new();
        // Read until EOF
        loop
            invariant
                vfs.wf(),
                vfs@.extends(old(vfs)@),
                data@.len() <= size,
                self@.node == Some(node),
                forall|w: World<Reply>| #[trigger]
                    heard(vfs@.log, w) ==> read_whole(w, old(vfs)@, node) == read_from(
                        w,
                        vfs@,
                        node,
                        size as int,
                        data@,
                    ),
            decreases usize::MAX - data@.len(),
        {
            let ghost before = *vfs;
            let ghost had = data@;
            // If the size has been exceeded, grow the buffer
            if data.len() >= size {
                if size > usize::MAX - INCREMENT {
                    return Err(EOVERFLOW);
                }
                size = size + INCREMENT;
            }
            let off: u64 = data.len() as u64;
            let room: usize = size - data.len();
            let r = vfs.services.read_content(node.ops, node.location, off, room);
            proof {
                lemma_said(
                    before@,
                    vfs@,
                    Call::ReadContent(node.ops, node.location, off, room),
                    Reply::Data(data_view(r)),
                );
                lemma_extends(old(vfs)@, before@, vfs@);
                assert forall|w: World<Reply>| #[trigger] heard(vfs@.log, w) implies read_whole(
                    w,
                    old(vfs)@,
                    node,
                ) == match data_view(r) {
                    Err(e) => (vfs@, Err(e)),
                    Ok(more) => if more.len() == 0 {
                        (vfs@, Ok(had))
                    } else {
                        read_from(w, vfs@, node, size as int, had + at_most(more, room as int))
                    },
                } by {
                    assert(heard(before@.log, w));
                }
            }
            let mut more: Vec<u8> = r?;
            // Reached EOF, stop here
            if more.len() == 0 {
                return Ok(data);
            }
            if more.len() > room {
                more.truncate(room);
            }
            assert(more@ =~= at_most(data_view(r)->Ok_0, room as int));
            data.append(&mut more);
        }
    }

    /// Releases the entry, removing it the underlying node if no link remain and this was the
    /// last use of it.
    pub fn release<B: Backend>(this: Arc<Self>, vfs: &mut Vfs<B>) -> (r: EResult<()>)
        requires
            old(vfs).wf(),
        ensures
            final(vfs).wf(),
            final(vfs)@.extends(old(vfs)@),
            forall|w: World<Reply>, v: World<RefReply>|
                #![trigger heard(final(vfs)@.log, w), heard(final(vfs)@.refs, v)]
                heard(final(vfs)@.log, w) && heard(final(vfs)@.refs, v) ==> release_of(
                    w,
                    v,
                    old(vfs)@,
                    this@,
                ) == (final(vfs)@, r),
    {
        broadcast use lemma_heard;

        let ghost e = this@;
        let ghost s0 = vfs@;
        assert(vfs@.log =~= vfs@.log.subrange(0, vfs@.log.len() as int));
        let dir: u64 = match this.get_parent() {
            Some(parent) => parent.get_id(),
            // This is the root of the VFS, stop
            None => {
                return Ok(());
            },
        };
        // If this is **not** the last reference to the current (the one held by its own parent
        // + the one that we hold here)
        let count: usize = vfs.refs.count(&this);
        let ghost s1 = vfs@;
        proof {
            lemma_asked(s0.refs, s1.refs, RefCall::Count(e.id), RefReply::Count(count));
            assert(s1 =~= VfsView { refs: s1.refs, ..s0 });
        }
        if count > 2 {
            return Ok(());
        }
        vfs.children.remove(dir, this.get_name());
        let ghost s2 = vfs@;
        let inner: Option<Entry> = vfs.refs.take(this);
        let ghost s3 = vfs@;
        let ghost taken = inner is Some;
        proof {
            lemma_asked(s2.refs, s3.refs, RefCall::Take(e.id), RefReply::Taken(taken));
            assert(s2 =~= VfsView { children: s1.children.remove((dir, e.name)), ..s1 });
            assert(s3 =~= VfsView { refs: s3.refs, ..s2 });
            let v = replies_of(s3.refs);
            assert(heard(s3.refs, v));
            lemma_heard_before(s2.refs, s3.refs, v);
            lemma_ask_refs(s0, v, RefCall::Count(e.id));
            lemma_ask_refs(s2, v, RefCall::Take(e.id));
            lemma_release(replies_of(s3.log), v, s0, e);
        }
        // If the entry was already detached from its parent before, someone else references it
        let node: Option<Arc<Node>> = match inner {
            Some(c) => c.into_node(),
            None => None,
        };
        let r = vfs.give_back(node);
        proof {
            assert forall|w: World<Reply>, v: World<RefReply>|
                #![trigger heard(vfs@.log, w), heard(vfs@.refs, v)]
                heard(vfs@.log, w) && heard(vfs@.refs, v) implies release_of(w, v, s0, e) == (
                vfs@,
                r,
            ) by {
                lemma_heard_before(s2.refs, s3.refs, v);
            }
            let w = replies_of(vfs@.log);
            let v = replies_of(vfs@.refs);
            assert(heard(vfs@.log, w) && heard(vfs@.refs, v));
            lemma_release(w, v, s0, e);
        }
        r
    }
}

} // verus!
