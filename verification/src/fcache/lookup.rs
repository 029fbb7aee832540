//! How a file is looked up, from the root of a file system down.

use crate::errno::{EResult, ELOOP, ENOENT, EPERM};
use crate::fcache::file::{may_read, ContentView, File, FileContent, FileView};
use crate::fcache::mounts::{file_view, Io, Mount, MountCall, MountReply, Mounts};
use crate::file_path::{joined, parsed, popped, root_path, FilePath, FilePathView};
use crate::limits::SYMLOOP_MAX;
use crate::stat::{FileLocation, Gid, INode, Uid};
use crate::history::{
    asked, heard, lemma_asked, lemma_heard_before, lemma_prefix, replies_of, World,
};
use vstd::prelude::*;

verus! {

/// What was asked of the mountpoints and file systems so far.
pub type Log = Seq<(MountCall, MountReply)>;

/// The reply of `w` to the call that comes after `log`.
pub open spec fn reply_after(log: Log, w: World<MountReply>) -> MountReply {
    w(log.len() as int)
}

/// Getting the I/O interface of a mountpoint, if there is one.
pub open spec fn open_mount(w: World<MountReply>, log: Log, mount: Option<Mount>) -> (
    Log,
    EResult<(Mount, Io)>,
) {
    match mount {
        None => (log, Err(ENOENT)),
        Some(m) => (
            asked(log, w, MountCall::GetIo(m)),
            match reply_after(log, w)->Io_0 {
                Ok(io) => Ok((m, io)),
                Err(e) => Err(e),
            },
        ),
    }
}

/// Getting the mountpoint of the path `path`.
pub open spec fn open_path(w: World<MountReply>, log: Log, path: FilePathView) -> (
    Log,
    EResult<(Mount, Io)>,
) {
    open_mount(w, asked(log, w, MountCall::GetDeepest(path)), reply_after(log, w)->Mount_0)
}

/// Getting the mountpoint of the file at `loc`.
pub open spec fn open_location(w: World<MountReply>, log: Log, loc: FileLocation) -> (
    Log,
    EResult<(Mount, Io)>,
) {
    open_mount(w, asked(log, w, MountCall::GetMountpoint(loc)), reply_after(log, w)->Mount_0)
}

/// Loading the file `name` once its inode is known.
pub open spec fn load(
    w: World<MountReply>,
    log: Log,
    mount: Mount,
    io: Io,
    inode: EResult<INode>,
    name: Seq<u8>,
) -> (Log, EResult<(INode, FileView)>) {
    match inode {
        Err(e) => (log, Err(e)),
        Ok(n) => (
            asked(log, w, MountCall::LoadFile(mount, io, n, name)),
            match reply_after(log, w)->File_0 {
                Ok(file) => Ok((n, file)),
                Err(e) => Err(e),
            },
        ),
    }
}

/// Loading the root of the file system. It has no name.
pub open spec fn load_root(w: World<MountReply>, log: Log, mount: Mount, io: Io) -> (
    Log,
    EResult<(INode, FileView)>,
) {
    load(
        w,
        asked(log, w, MountCall::GetRootInode(mount, io)),
        mount,
        io,
        reply_after(log, w)->INode_0,
        Seq::empty(),
    )
}

/// Loading the file `name` of the directory `parent`.
pub open spec fn load_child(
    w: World<MountReply>,
    log: Log,
    mount: Mount,
    io: Io,
    parent: INode,
    name: Seq<u8>,
) -> (Log, EResult<(INode, FileView)>) {
    load(
        w,
        asked(log, w, MountCall::GetInode(mount, io, parent, name)),
        mount,
        io,
        reply_after(log, w)->INode_0,
        name,
    )
}

/// Going down from the directory `parent` along the names `names`, from the one number `i` on.
/// Every file on the way but the last one must be readable. When links are followed, the way ends
/// at the first link. Gives the file at the end of the way, and the number of its name.
pub open spec fn descend(
    w: World<MountReply>,
    log: Log,
    mount: Mount,
    io: Io,
    parent: INode,
    names: Seq<Seq<u8>>,
    i: int,
    uid: Uid,
    gid: Gid,
    follow_links: bool,
) -> (Log, EResult<(int, FileView)>)
    decreases names.len() - i,
{
    let (log1, loaded) = load_child(w, log, mount, io, parent, names[i]);
    match loaded {
        Err(e) => (log1, Err(e)),
        Ok((inode, file)) => if i < names.len() - 1 && !may_read(file, uid, gid) {
            (log1, Err(EPERM))
        } else if i >= names.len() - 1 || follow_links && file.content is Link {
            (log1, Ok((i, file)))
        } else {
            descend(w, log1, mount, io, inode, names, i + 1, uid, gid, follow_links)
        },
    }
}

/// The names of `path` that are below the mountpoint `mount`.
pub open spec fn below(path: FilePathView, mount: Mount) -> Seq<Seq<u8>> {
    if mount.depth <= path.parts.len() {
        path.parts.skip(mount.depth as int)
    } else {
        Seq::empty()
    }
}

/// Going from the root of a file system to the file at `path`, or to a link on the way.
pub open spec fn descend_from_root(
    w: World<MountReply>,
    log: Log,
    mount: Mount,
    io: Io,
    path: FilePathView,
    uid: Uid,
    gid: Gid,
    follow_links: bool,
) -> (Log, EResult<(int, FileView)>) {
    let names = below(path, mount);
    let (log1, loaded) = load_root(w, log, mount, io);
    match loaded {
        Err(e) => (log1, Err(e)),
        Ok((inode, file)) => if names.len() == 0 {
            (log1, Ok((0, file)))
        } else if !may_read(file, uid, gid) {
            (log1, Err(EPERM))
        } else {
            descend(w, log1, mount, io, inode, names, 0, uid, gid, follow_links)
        },
    }
}

/// The path at which the search goes on when the name number `k` of `path` is a link to `target`:
/// the path of the link's directory, with the target, and the names behind the link.
pub open spec fn redirected(path: FilePathView, k: int, target: Seq<u8>) -> FilePathView {
    let dir = FilePathView { absolute: path.absolute, parts: path.parts.take(k) };
    let there = joined(dir, parsed(target));
    FilePathView { absolute: there.absolute, parts: there.parts + path.parts.skip(k + 1) }
}

/// The file `file` in the directory `parent_path`.
pub open spec fn placed_in(file: FileView, parent_path: FilePathView) -> FileView {
    FileView { parent_path, ..file }
}

/// Looking up the file at `path` for the user `uid` of the group `gid`, after `follows_count`
/// links were followed. A relative path starts at the root.
pub open spec fn lookup(
    w: World<MountReply>,
    log: Log,
    path: FilePathView,
    uid: Uid,
    gid: Gid,
    follow_links: bool,
    follows_count: nat,
) -> (Log, EResult<FileView>)
    decreases SYMLOOP_MAX + 1 - follows_count,
{
    let full = joined(root_path(), path);
    let (log1, opened) = open_path(w, log, full);
    match opened {
        Err(e) => (log1, Err(e)),
        Ok((mount, io)) => {
            let (log2, found) = descend_from_root(
                w,
                log1,
                mount,
                io,
                full,
                uid,
                gid,
                follow_links,
            );
            match found {
                Err(e) => (log2, Err(e)),
                Ok((i, file)) => if below(full, mount).len() == 0 {
                    (log2, Ok(file))
                } else {
                    match file.content {
                        ContentView::Link(target) => if !follow_links {
                            (log2, Ok(placed_in(file, popped(full))))
                        } else if follows_count > SYMLOOP_MAX {
                            (log2, Err(ELOOP))
                        } else {
                            lookup(
                                w,
                                log2,
                                redirected(full, mount.depth + i, target),
                                uid,
                                gid,
                                follow_links,
                                follows_count + 1,
                            )
                        },
                        _ => (log2, Ok(placed_in(file, popped(full)))),
                    }
                },
            }
        },
    }
}

/// The file at the end of a way and the number of its name, in contracts.
pub open spec fn numbered_view(r: EResult<(usize, File)>) -> EResult<(int, FileView)> {
    match r {
        Ok((i, file)) => Ok((i as int, file@)),
        Err(e) => Err(e),
    }
}

/// A loaded file with its inode, in contracts.
pub open spec fn loaded_view(r: EResult<(INode, File)>) -> EResult<(INode, FileView)> {
    match r {
        Ok((inode, file)) => Ok((inode, file@)),
        Err(e) => Err(e),
    }
}

/// The way down ends at one of its names.
pub proof fn lemma_position(
    w: World<MountReply>,
    log: Log,
    mount: Mount,
    io: Io,
    parent: INode,
    names: Seq<Seq<u8>>,
    i: int,
    uid: Uid,
    gid: Gid,
    follow_links: bool,
)
    requires
        0 <= i < names.len(),
    ensures
        descend(w, log, mount, io, parent, names, i, uid, gid, follow_links).1 matches Ok((at, _))
            ==> i <= at < names.len(),
    decreases names.len() - i,
{
    let (log1, loaded) = load_child(w, log, mount, io, parent, names[i]);
    if let Ok((inode, _)) = loaded {
        if i < names.len() - 1 {
            lemma_position(w, log1, mount, io, inode, names, i + 1, uid, gid, follow_links);
        }
    }
}

/// The way from the root of a file system ends at one of the names below its mountpoint.
pub proof fn lemma_descend_position(
    w: World<MountReply>,
    log: Log,
    mount: Mount,
    io: Io,
    path: FilePathView,
    uid: Uid,
    gid: Gid,
    follow_links: bool,
)
    requires
        mount.depth < path.parts.len(),
    ensures
        descend_from_root(w, log, mount, io, path, uid, gid, follow_links).1 matches Ok((i, _))
            ==> 0 <= i && mount.depth + i < path.parts.len(),
{
    let names = below(path, mount);
    let (log1, loaded) = load_root(w, log, mount, io);
    if let Ok((inode, _)) = loaded {
        lemma_position(w, log1, mount, io, inode, names, 0, uid, gid, follow_links);
    }
}

/// Gets the I/O interface of the mountpoint `mount`, if there is one.
fn open_mount_impl<M: Mounts>(mounts: &mut M, mount: Option<Mount>) -> (r: EResult<
    (Mount, Io),
>)
    ensures
        old(mounts).calls().is_prefix_of(final(mounts).calls()),
        forall|w: World<MountReply>| #[trigger]
            heard(final(mounts).calls(), w) ==> open_mount(w, old(mounts).calls(), mount) == (
                final(mounts).calls(),
                r,
            ),
{
    match mount {
        None => {
            assert(mounts.calls().is_prefix_of(mounts.calls()));
            Err(ENOENT)
        },
        Some(m) => {
            let io = mounts.get_io(m);
            proof {
                lemma_asked(old(mounts).calls(), mounts.calls(), MountCall::GetIo(m), MountReply::Io(io));
            }
            match io {
                Ok(io) => Ok((m, io)),
                Err(e) => Err(e),
            }
        },
    }
}

/// Gets the mountpoint of the path `path`.
pub(crate) fn open_at_path<M: Mounts>(mounts: &mut M, path: &FilePath) -> (r: EResult<
    (Mount, Io),
>)
    ensures
        old(mounts).calls().is_prefix_of(final(mounts).calls()),
        forall|w: World<MountReply>| #[trigger]
            heard(final(mounts).calls(), w) ==> open_path(w, old(mounts).calls(), path@) == (
                final(mounts).calls(),
                r,
            ),
{
    broadcast use lemma_heard_before;

    let mount = mounts.get_deepest(path);
    let ghost log1 = mounts.calls();
    let r = open_mount_impl(mounts, mount);
    proof {
        lemma_asked(old(mounts).calls(), log1, MountCall::GetDeepest(path@), MountReply::Mount(mount));
        lemma_prefix(old(mounts).calls(), log1, mounts.calls());
    }
    r
}

/// Gets the mountpoint of the file at `loc`.
pub(crate) fn open_at_location<M: Mounts>(
    mounts: &mut M,
    loc: FileLocation,
) -> (r: EResult<(Mount, Io)>)
    ensures
        old(mounts).calls().is_prefix_of(final(mounts).calls()),
        forall|w: World<MountReply>| #[trigger]
            heard(final(mounts).calls(), w) ==> open_location(w, old(mounts).calls(), loc) == (
                final(mounts).calls(),
                r,
            ),
{
    broadcast use lemma_heard_before;

    let mount = mounts.get_mountpoint(loc);
    let ghost log1 = mounts.calls();
    let r = open_mount_impl(mounts, mount);
    proof {
        lemma_asked(old(mounts).calls(), log1, MountCall::GetMountpoint(loc), MountReply::Mount(mount));
        lemma_prefix(old(mounts).calls(), log1, mounts.calls());
    }
    r
}

/// Loads the file `name` once its inode is known.
fn load_impl<M: Mounts>(
    mounts: &mut M,
    mount: Mount,
    io: Io,
    inode: EResult<INode>,
    name: &[u8],
) -> (r: EResult<(INode, File)>)
    ensures
        old(mounts).calls().is_prefix_of(final(mounts).calls()),
        forall|w: World<MountReply>| #[trigger]
            heard(final(mounts).calls(), w) ==> load(w, old(mounts).calls(), mount, io, inode, name@) == (
                final(mounts).calls(),
                loaded_view(r),
            ),
{
    match inode {
        Err(e) => {
            assert(mounts.calls().is_prefix_of(mounts.calls()));
            Err(e)
        },
        Ok(n) => {
            let file = mounts.load_file(mount, io, n, name);
            proof {
                lemma_asked(
                    old(mounts).calls(),
                    mounts.calls(),
                    MountCall::LoadFile(mount, io, n, name@),
                    MountReply::File(file_view(file)),
                );
            }
            match file {
                Ok(file) => Ok((n, file)),
                Err(e) => Err(e),
            }
        },
    }
}

/// Loads the root of the file system.
fn load_root_impl<M: Mounts>(mounts: &mut M, mount: Mount, io: Io) -> (r: EResult<
    (INode, File),
>)
    ensures
        old(mounts).calls().is_prefix_of(final(mounts).calls()),
        forall|w: World<MountReply>| #[trigger]
            heard(final(mounts).calls(), w) ==> load_root(w, old(mounts).calls(), mount, io) == (
                final(mounts).calls(),
                loaded_view(r),
            ),
{
    broadcast use lemma_heard_before;

    let inode = mounts.get_root_inode(mount, io);
    let ghost log1 = mounts.calls();
    let name: Vec<u8> = Vec::new();
    let r = load_impl(mounts, mount, io, inode, name.as_slice());
    proof {
        assert(name@ =~= Seq::empty());
        lemma_asked(
            old(mounts).calls(),
            log1,
            MountCall::GetRootInode(mount, io),
            MountReply::INode(inode),
        );
        lemma_prefix(old(mounts).calls(), log1, mounts.calls());
    }
    r
}

/// Loads the file `name` of the directory `parent`.
pub(crate) fn load_from<M: Mounts>(
    mounts: &mut M,
    mount: Mount,
    io: Io,
    parent: INode,
    name: &[u8],
) -> (r: EResult<(INode, File)>)
    ensures
        old(mounts).calls().is_prefix_of(final(mounts).calls()),
        forall|w: World<MountReply>| #[trigger]
            heard(final(mounts).calls(), w) ==> load_child(
                w,
                old(mounts).calls(),
                mount,
                io,
                parent,
                name@,
            ) == (final(mounts).calls(), loaded_view(r)),
{
    broadcast use lemma_heard_before;

    let inode = mounts.get_inode(mount, io, parent, name);
    let ghost log1 = mounts.calls();
    let r = load_impl(mounts, mount, io, inode, name);
    proof {
        lemma_asked(
            old(mounts).calls(),
            log1,
            MountCall::GetInode(mount, io, parent, name@),
            MountReply::INode(inode),
        );
        lemma_prefix(old(mounts).calls(), log1, mounts.calls());
    }
    r
}

/// Goes down from the directory `parent` along the names of `path`, from the one number `start`
/// on.
fn descend_impl<M: Mounts>(
    mounts: &mut M,
    mount: Mount,
    io: Io,
    parent: INode,
    path: &FilePath,
    start: usize,
    uid: Uid,
    gid: Gid,
    follow_links: bool,
) -> (r: EResult<(usize, File)>)
    requires
        start < path@.parts.len(),
    ensures
        old(mounts).calls().is_prefix_of(final(mounts).calls()),
        forall|w: World<MountReply>| #[trigger]
            heard(final(mounts).calls(), w) ==> descend(
                w,
                old(mounts).calls(),
                mount,
                io,
                parent,
                path@.parts.skip(start as int),
                0,
                uid,
                gid,
                follow_links,
            ) == (final(mounts).calls(), numbered_view(r)),
{
    broadcast use lemma_heard_before;

    let ghost log0 = mounts.calls();
    let ghost names = path@.parts.skip(start as int);
    let count: usize = path.get_elements_count();
    let mut inode: INode = parent;
    let mut i: usize = start;
    assert(log0.is_prefix_of(log0));
    loop
        invariant
            start <= i < count,
            count == path@.parts.len(),
            names == path@.parts.skip(start as int),
            log0 == old(mounts).calls(),
            log0.is_prefix_of(mounts.calls()),
            forall|w: World<MountReply>| #[trigger]
                heard(mounts.calls(), w) ==> descend(
                    w,
                    log0,
                    mount,
                    io,
                    parent,
                    names,
                    0,
                    uid,
                    gid,
                    follow_links,
                ) == descend(
                    w,
                    mounts.calls(),
                    mount,
                    io,
                    inode,
                    names,
                    i - start,
                    uid,
                    gid,
                    follow_links,
                ),
        decreases count - i,
    {
        let ghost log1 = mounts.calls();
        let ghost at = inode;
        assert(names[i - start] == path@.parts[i as int]);
        let loaded = load_from(mounts, mount, io, inode, path.get_element(i));
        let ghost log2 = mounts.calls();
        proof {
            lemma_prefix(log0, log1, log2);
            assert forall|w: World<MountReply>| #[trigger] heard(log2, w) implies descend(
                w,
                log0,
                mount,
                io,
                parent,
                names,
                0,
                uid,
                gid,
                follow_links,
            ) == descend(w, log1, mount, io, at, names, i - start, uid, gid, follow_links)
                && load_child(w, log1, mount, io, at, names[i - start]) == (
                log2,
                loaded_view(loaded),
            ) by {
                assert(heard(log1, w));
            }
        }
        match loaded {
            Err(e) => {
                return Err(e);
            },
            Ok((n, file)) => {
                if i < count - 1 && !file.can_read(uid, gid) {
                    return Err(EPERM);
                }
                let is_link = match &file.content {
                    FileContent::Link(_) => true,
                    _ => false,
                };
                if i >= count - 1 || follow_links && is_link {
                    return Ok((i - start, file));
                }
                inode = n;
            },
        }
        i = i + 1;
    }
}

/// Goes from the root of a file system to the file at `path`, or to a link on the way.
fn descend_from_root_impl<M: Mounts>(
    mounts: &mut M,
    mount: Mount,
    io: Io,
    path: &FilePath,
    uid: Uid,
    gid: Gid,
    follow_links: bool,
) -> (r: EResult<(usize, File)>)
    ensures
        old(mounts).calls().is_prefix_of(final(mounts).calls()),
        forall|w: World<MountReply>| #[trigger]
            heard(final(mounts).calls(), w) ==> descend_from_root(
                w,
                old(mounts).calls(),
                mount,
                io,
                path@,
                uid,
                gid,
                follow_links,
            ) == (final(mounts).calls(), numbered_view(r)),
{
    broadcast use lemma_heard_before;

    let loaded = load_root_impl(mounts, mount, io);
    let ghost log1 = mounts.calls();
    match loaded {
        Err(e) => Err(e),
        Ok((inode, file)) => {
            if mount.depth >= path.get_elements_count() {
                return Ok((0, file));
            }
            if !file.can_read(uid, gid) {
                return Err(EPERM);
            }
            let r = descend_impl(
                mounts,
                mount,
                io,
                inode,
                path,
                mount.depth,
                uid,
                gid,
                follow_links,
            );
            proof {
                lemma_prefix(old(mounts).calls(), log1, mounts.calls());
            }
            r
        },
    }
}

/// Looks up the file at `path`, after `follows_count` links were followed.
pub(crate) fn lookup_impl<M: Mounts>(
    mounts: &mut M,
    path: &FilePath,
    uid: Uid,
    gid: Gid,
    follow_links: bool,
    follows_count: usize,
) -> (r: EResult<File>)
    ensures
        old(mounts).calls().is_prefix_of(final(mounts).calls()),
        forall|w: World<MountReply>| #[trigger]
            heard(final(mounts).calls(), w) ==> lookup(
                w,
                old(mounts).calls(),
                path@,
                uid,
                gid,
                follow_links,
                follows_count as nat,
            ) == (final(mounts).calls(), file_view(r)),
    decreases SYMLOOP_MAX + 1 - follows_count,
{
    broadcast use lemma_heard_before;

    let full: FilePath = FilePath::root().concat(path);
    let opened = open_at_path(mounts, &full);
    let ghost log1 = mounts.calls();
    let (mount, io) = match opened {
        Err(e) => {
            return Err(e);
        },
        Ok(pair) => pair,
    };
    let found = descend_from_root_impl(mounts, mount, io, &full, uid, gid, follow_links);
    let ghost log2 = mounts.calls();
    proof {
        lemma_prefix(old(mounts).calls(), log1, log2);
    }
    let (i, file) = match found {
        Err(e) => {
            return Err(e);
        },
        Ok(pair) => pair,
    };
    if mount.depth >= full.get_elements_count() {
        return Ok(file);
    }
    if follow_links {
        match &file.content {
            FileContent::Link(target) => {
                if follows_count > SYMLOOP_MAX {
                    return Err(ELOOP);
                }
                proof {
                    let w = replies_of(log2);
                    assert(heard(log2, w));
                    lemma_descend_position(w, log1, mount, io, full@, uid, gid, follow_links);
                }
                let at: usize = mount.depth + i;
                let mut new_path: FilePath = full.prefix(at).concat(
                    &FilePath::from_bytes(target.as_slice()),
                );
                new_path.append(&full, at + 1);
                let r = lookup_impl(mounts, &new_path, uid, gid, follow_links, follows_count + 1);
                proof {
                    lemma_prefix(old(mounts).calls(), log2, mounts.calls());
                }
                return r;
            },
            _ => {},
        }
    }
    let mut parent_path: FilePath = full;
    parent_path.pop();
    Ok(File { parent_path, ..file })
}

} // verus!
