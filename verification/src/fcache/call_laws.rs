//! What the files cache asks of the mountpoints and file systems, and what it makes of the answers.
//!
//! The laws name the calls one by one, with their arguments, and the replies by their positions in
//! the stream.

use crate::errno::{EBUSY, ENOENT, ENOTDIR, ENOTEMPTY, EPERM, EROFS};
use crate::fcache::file::{
    content_type, dir_entry_of, file_path_of, holds_files, is_dots, may_read, may_write,
    ContentView, DirEntry, FileView, Mode,
};
use crate::fcache::laws::{entry_for, law_created_file_is_an_entry};
use crate::fcache::lookup::{
    below, descend, load_child, load_root, lookup, open_location, open_path, Log,
};
use crate::fcache::mounts::{Io, Mount, MountCall, MountReply};
use crate::fcache::pool::{
    after_lookup, forgotten, lemma_forgotten, lemma_slot, lemma_stored, own_path, slot_of, stored,
    CacheView, Pool, FILES_POOL_SIZE,
};
use crate::fcache::{create, lookup_in, remove, sync_pool};
use crate::file_path::{joined, parsed, popped, root_path, FilePathView};
use crate::history::{asked, World};
use crate::stat::{FileLocation, FileType, Gid, INode, Uid};
use vstd::prelude::*;

verus! {

/// A created file is the one that was asked for: whenever a creation succeeds, the last call asked
/// the file system of the directory's mountpoint to add, to the directory, a file with exactly the
/// name, the owner, the group, the permissions and the content that were given. Before, only the
/// mountpoint of the directory and whether it is read-only were asked for.
pub proof fn law_creation_asks_for_the_file(
    w: World<MountReply>,
    log: Log,
    cache: CacheView,
    parent: FileView,
    name: Seq<u8>,
    uid: Uid,
    gid: Gid,
    mode: Mode,
    content: ContentView,
)
    ensures
        ({
            let n = log.len() as int;
            let (log1, _, _, r) = create(w, log, cache, parent, name, uid, gid, mode, content);
            let mount = w(n)->Mount_0->0;
            let io = w(n + 1)->Io_0->Ok_0;
            r is Ok ==> log1 == log.push((MountCall::GetMountpoint(parent.location), w(n))).push(
                (MountCall::GetIo(mount), w(n + 1)),
            ).push((MountCall::IsReadonly(mount), w(n + 2))).push(
                (
                    MountCall::AddFile(
                        mount,
                        io,
                        parent.location.inode,
                        name,
                        uid,
                        gid,
                        mode,
                        content,
                    ),
                    w(n + 3),
                ),
            )
        }),
{
}

/// In a directory that the user may write, on a mountpoint that is there and not read-only, a file is
/// created if its file system adds it: it is the file that the file system made, in this directory,
/// and it is the directory's entry for its name, with its type and its inode. The error of each
/// service is the error of the creation.
pub proof fn law_creation_is_up_to_the_file_system(
    w: World<MountReply>,
    log: Log,
    cache: CacheView,
    parent: FileView,
    name: Seq<u8>,
    uid: Uid,
    gid: Gid,
    mode: Mode,
    content: ContentView,
)
    requires
        parent.content is Directory,
        may_write(parent, uid, gid),
    ensures
        ({
            let n = log.len() as int;
            let (log1, _, after, r) = create(w, log, cache, parent, name, uid, gid, mode, content);
            &&& w(n) == MountReply::Mount(None) ==> r == Err::<FileView, i32>(ENOENT) && log1.len()
                == n + 1
            &&& w(n) matches MountReply::Mount(Some(_)) ==> {
                &&& w(n + 1) matches MountReply::Io(Err(e)) ==> r == Err::<FileView, i32>(e)
                    && log1.len() == n + 2
                &&& w(n + 1) matches MountReply::Io(Ok(_)) ==> {
                    &&& w(n + 2) == MountReply::Readonly(true) ==> r == Err::<FileView, i32>(EROFS)
                        && log1.len() == n + 3
                    &&& w(n + 2) == MountReply::Readonly(false) ==> {
                        &&& log1.len() == n + 4
                        &&& w(n + 3) matches MountReply::File(Err(e)) ==> r == Err::<FileView, i32>(
                            e,
                        )
                        &&& w(n + 3) matches MountReply::File(Ok(made)) ==> {
                            &&& r == Ok::<FileView, i32>(
                                FileView { parent_path: file_path_of(parent), ..made },
                            )
                            &&& after == FileView { content: after.content, ..parent }
                            &&& after.content matches ContentView::Directory(entries) && (entry_for(
                                entries,
                                0,
                                made.name,
                            ) matches Some(entry) && entry.inode == made.location.inode
                                && entry.entry_type == content_type(made.content))
                        }
                    }
                }
            }
        }),
{
    law_created_file_is_an_entry(
        w,
        log,
        cache,
        parent,
        name,
        uid,
        gid,
        mode,
        content,
        Seq::empty(),
    );
}

/// Nothing is created in what is not a directory, or by who may not write it: the error says which,
/// and nothing is asked.
pub proof fn law_creation_is_refused(
    w: World<MountReply>,
    log: Log,
    cache: CacheView,
    parent: FileView,
    name: Seq<u8>,
    uid: Uid,
    gid: Gid,
    mode: Mode,
    content: ContentView,
)
    ensures
        !(parent.content is Directory) ==> create(
            w,
            log,
            cache,
            parent,
            name,
            uid,
            gid,
            mode,
            content,
        ) == (log, cache, parent, Err::<FileView, i32>(ENOTDIR)),
        parent.content is Directory && !may_write(parent, uid, gid) ==> create(
            w,
            log,
            cache,
            parent,
            name,
            uid,
            gid,
            mode,
            content,
        ) == (log, cache, parent, Err::<FileView, i32>(EPERM)),
{
}

/// The content of a file determines its type, each kind of content its own.
pub proof fn law_content_determines_the_type(content: ContentView)
    ensures
        content_type(content) == FileType::Regular <==> content is Regular,
        content_type(content) == FileType::Directory <==> content is Directory,
        content_type(content) == FileType::Link <==> content is Link,
        content_type(content) == FileType::Fifo <==> content is Fifo,
        content_type(content) == FileType::Socket <==> content is Socket,
        content_type(content) == FileType::BlockDevice <==> content is BlockDevice,
        content_type(content) == FileType::CharDevice <==> content is CharDevice,
{
}

/// A file is read by the superuser, and by who belongs to a class that the read bit of the file is
/// set for; and written alike, by the write bit.
pub proof fn law_file_permissions(file: FileView, uid: Uid, gid: Gid)
    ensures
        uid == 0 || gid == 0 ==> may_read(file, uid, gid) && may_write(file, uid, gid),
        uid != 0 && gid != 0 ==> {
            &&& file.mode & 0o004 != 0 ==> may_read(file, uid, gid)
            &&& file.mode & 0o400 != 0 && uid == file.uid ==> may_read(file, uid, gid)
            &&& file.mode & 0o040 != 0 && gid == file.gid ==> may_read(file, uid, gid)
            &&& file.mode & 0o004 == 0 && (file.mode & 0o400 == 0 || uid != file.uid) && (file.mode
                & 0o040 == 0 || gid != file.gid) ==> !may_read(file, uid, gid)
            &&& file.mode & 0o002 != 0 ==> may_write(file, uid, gid)
            &&& file.mode & 0o200 != 0 && uid == file.uid ==> may_write(file, uid, gid)
            &&& file.mode & 0o020 != 0 && gid == file.gid ==> may_write(file, uid, gid)
            &&& file.mode & 0o002 == 0 && (file.mode & 0o200 == 0 || uid != file.uid) && (file.mode
                & 0o020 == 0 || gid != file.gid) ==> !may_write(file, uid, gid)
        },
{
}

/// The path of a file is that of its directory and its name; a file without a name is its own
/// directory.
pub proof fn law_path_of_a_file(file: FileView)
    ensures
        file_path_of(file).absolute == file.parent_path.absolute,
        file.name.len() > 0 ==> file_path_of(file).parts == file.parent_path.parts.push(file.name),
        file.name.len() == 0 ==> file_path_of(file).parts == file.parent_path.parts,
        own_path(file).absolute,
        own_path(file).parts == file_path_of(file).parts,
        dir_entry_of(file).inode == file.location.inode,
        dir_entry_of(file).entry_type == content_type(file.content),
{
    assert(root_path().parts + file_path_of(file).parts =~= file_path_of(file).parts);
}

/// A directory holds files if it has an entry with any other name than one dot or two; nothing else
/// does.
pub proof fn law_dots_are_no_files(entries: Seq<(Seq<u8>, DirEntry)>, i: int)
    ensures
        ({
            let content = ContentView::Directory(entries);
            &&& 0 <= i < entries.len() && entries[i].0 != seq![0x2eu8] && entries[i].0
                != seq![0x2eu8, 0x2eu8] ==> holds_files(content)
            &&& (forall|j: int|
                0 <= j < entries.len() ==> (#[trigger] entries[j]).0 == seq![0x2eu8] || entries[j].0
                    == seq![0x2eu8, 0x2eu8]) ==> !holds_files(content)
        }),
{
    if 0 <= i < entries.len() && entries[i].0 != seq![0x2eu8] && entries[i].0
        != seq![0x2eu8, 0x2eu8] {
        assert(!is_dots(entries[i].0));
    }
}

/// Only directories hold files.
pub proof fn law_only_directories_hold_files(content: ContentView)
    ensures
        !(content is Directory) ==> !holds_files(content),
{
}

/// The mountpoint of a path or of a file, and its I/O interface, are asked for by what was given: the
/// mountpoint that came back is the one whose interface is asked for.
pub proof fn law_mountpoint_is_opened(
    w: World<MountReply>,
    log: Log,
    path: FilePathView,
    loc: FileLocation,
)
    ensures
        ({
            let n = log.len() as int;
            let by_path = log.push((MountCall::GetDeepest(path), w(n)));
            let by_location = log.push((MountCall::GetMountpoint(loc), w(n)));
            &&& w(n) == MountReply::Mount(None) ==> {
                &&& open_path(w, log, path) == (by_path, Err::<(Mount, Io), i32>(ENOENT))
                &&& open_location(w, log, loc) == (by_location, Err::<(Mount, Io), i32>(ENOENT))
            }
            &&& w(n) matches MountReply::Mount(Some(mount)) ==> {
                let call = (MountCall::GetIo(mount), w(n + 1));
                &&& open_path(w, log, path).0 == by_path.push(call)
                &&& open_location(w, log, loc).0 == by_location.push(call)
                &&& w(n + 1) matches MountReply::Io(Ok(io)) ==> {
                    &&& open_path(w, log, path).1 == Ok::<(Mount, Io), i32>((mount, io))
                    &&& open_location(w, log, loc).1 == Ok::<(Mount, Io), i32>((mount, io))
                }
                &&& w(n + 1) matches MountReply::Io(Err(e)) ==> {
                    &&& open_path(w, log, path).1 == Err::<(Mount, Io), i32>(e)
                    &&& open_location(w, log, loc).1 == Err::<(Mount, Io), i32>(e)
                }
            }
        }),
{
}

/// The directory in which the name number `k` is looked up, when the names before lead from `root`
/// through the inodes `inodes`.
pub open spec fn directory_at(root: INode, inodes: Seq<INode>, k: int) -> INode {
    if k <= 0 {
        root
    } else {
        inodes[k - 1]
    }
}

/// The log after the first `k` of the names `names` were looked up, one after the other, each in the
/// directory that the one before led to: for each, its inode was asked for, and the file at that
/// inode was loaded under that name.
pub open spec fn way_down(
    w: World<MountReply>,
    log: Log,
    mount: Mount,
    io: Io,
    root: INode,
    names: Seq<Seq<u8>>,
    inodes: Seq<INode>,
    k: int,
) -> Log
    decreases k,
{
    if k <= 0 {
        log
    } else {
        let before = way_down(w, log, mount, io, root, names, inodes, k - 1);
        let n = before.len() as int;
        let dir = directory_at(root, inodes, k - 1);
        before.push((MountCall::GetInode(mount, io, dir, names[k - 1]), w(n))).push(
            (MountCall::LoadFile(mount, io, inodes[k - 1], names[k - 1]), w(n + 1)),
        )
    }
}

/// The replies from the position `at` on lead down the first `k` names: to the inodes `inodes` and
/// the files `files`, which the user may all read, and none of which is a link that is followed.
pub open spec fn leads_down(
    w: World<MountReply>,
    at: int,
    inodes: Seq<INode>,
    files: Seq<FileView>,
    k: int,
    uid: Uid,
    gid: Gid,
    follow_links: bool,
) -> bool {
    forall|i: int|
        #![trigger inodes[i]]
        0 <= i < k ==> {
            &&& w(at + 2 * i) == MountReply::INode(Ok(inodes[i]))
            &&& w(at + 2 * i + 1) == MountReply::File(Ok(files[i]))
            &&& may_read(files[i], uid, gid)
            &&& !(follow_links && files[i].content is Link)
        }
}

proof fn lemma_way_down(
    w: World<MountReply>,
    log: Log,
    mount: Mount,
    io: Io,
    root: INode,
    names: Seq<Seq<u8>>,
    uid: Uid,
    gid: Gid,
    follow_links: bool,
    inodes: Seq<INode>,
    files: Seq<FileView>,
    k: int,
)
    requires
        0 <= k < names.len(),
        leads_down(w, log.len() as int, inodes, files, k, uid, gid, follow_links),
    ensures
        way_down(w, log, mount, io, root, names, inodes, k).len() == log.len() + 2 * k,
        descend(w, log, mount, io, root, names, 0, uid, gid, follow_links) == descend(
            w,
            way_down(w, log, mount, io, root, names, inodes, k),
            mount,
            io,
            directory_at(root, inodes, k),
            names,
            k,
            uid,
            gid,
            follow_links,
        ),
    decreases k,
{
    if k > 0 {
        let i = k - 1;
        lemma_way_down(
            w,
            log,
            mount,
            io,
            root,
            names,
            uid,
            gid,
            follow_links,
            inodes,
            files,
            i,
        );
        let before = way_down(w, log, mount, io, root, names, inodes, i);
        let dir = directory_at(root, inodes, i);
        let n = before.len() as int;
        assert(inodes[i] == inodes[i]);
        assert(w(n) == MountReply::INode(Ok(inodes[i])));
        assert(w(n + 1) == MountReply::File(Ok(files[i])));
        let (log1, loaded) = load_child(w, before, mount, io, dir, names[i]);
        assert(log1 =~= way_down(w, log, mount, io, root, names, inodes, k));
        assert(loaded == Ok::<(INode, FileView), i32>((inodes[i], files[i])));
        assert(descend(w, before, mount, io, dir, names, i, uid, gid, follow_links) == descend(
            w,
            log1,
            mount,
            io,
            inodes[i],
            names,
            k,
            uid,
            gid,
            follow_links,
        ));
    }
}

/// The first four replies open the mountpoint `mount` with the interface `io`, and give the root of
/// its file system, at the inode `root`, as `file`.
pub open spec fn opens(
    w: World<MountReply>,
    at: int,
    mount: Mount,
    io: Io,
    root: INode,
    file: FileView,
) -> bool {
    &&& w(at) == MountReply::Mount(Some(mount))
    &&& w(at + 1) == MountReply::Io(Ok(io))
    &&& w(at + 2) == MountReply::INode(Ok(root))
    &&& w(at + 3) == MountReply::File(Ok(file))
}

/// The log after the deepest mountpoint of the absolute path with the names `parts` was opened, and
/// the root of its file system was loaded, which has no name.
pub open spec fn opened_log(
    w: World<MountReply>,
    log: Log,
    parts: Seq<Seq<u8>>,
    mount: Mount,
    io: Io,
    root: INode,
) -> Log {
    let n = log.len() as int;
    log.push((MountCall::GetDeepest(FilePathView { absolute: true, parts }), w(n))).push(
        (MountCall::GetIo(mount), w(n + 1)),
    ).push((MountCall::GetRootInode(mount, io), w(n + 2))).push(
        (MountCall::LoadFile(mount, io, root, Seq::empty()), w(n + 3)),
    )
}

proof fn lemma_opened(
    w: World<MountReply>,
    log: Log,
    path: FilePathView,
    uid: Uid,
    gid: Gid,
    follow_links: bool,
    mount: Mount,
    io: Io,
    root: INode,
    root_file: FileView,
)
    requires
        opens(w, log.len() as int, mount, io, root, root_file),
    ensures
        ({
            let full = joined(root_path(), path);
            let (log1, opened) = open_path(w, log, full);
            let log2 = opened_log(w, log, path.parts, mount, io, root);
            &&& full == FilePathView { absolute: true, parts: path.parts }
            &&& opened == Ok::<(Mount, Io), i32>((mount, io))
            &&& load_root(w, log1, mount, io) == (log2, Ok::<(INode, FileView), i32>((root, root_file)))
            &&& log2.len() == log.len() + 4
        }),
{
    let full = joined(root_path(), path);
    assert(root_path().parts + path.parts =~= path.parts);
    let log1 = open_path(w, log, full).0;
    assert(load_root(w, log1, mount, io).0 =~= opened_log(w, log, path.parts, mount, io, root));
}

/// A path is looked up from the root of the deepest mountpoint on its way, down the names below that
/// mountpoint, one after the other. The file at the last name is what is found, as it was loaded, in
/// the directory that the names before spell.
pub proof fn law_path_is_looked_up_name_by_name(
    w: World<MountReply>,
    log: Log,
    path: FilePathView,
    uid: Uid,
    gid: Gid,
    follow_links: bool,
    follows_count: nat,
    mount: Mount,
    io: Io,
    root: INode,
    root_file: FileView,
    inodes: Seq<INode>,
    files: Seq<FileView>,
    inode: INode,
    file: FileView,
)
    requires
        opens(w, log.len() as int, mount, io, root, root_file),
        may_read(root_file, uid, gid),
        mount.depth < path.parts.len(),
        ({
            let k = path.parts.len() - mount.depth - 1;
            let at = log.len() + 4;
            &&& leads_down(w, at as int, inodes, files, k, uid, gid, follow_links)
            &&& w(at + 2 * k) == MountReply::INode(Ok(inode))
            &&& w(at + 2 * k + 1) == MountReply::File(Ok(file))
        }),
        !(follow_links && file.content is Link),
    ensures
        ({
            let names = path.parts.skip(mount.depth as int);
            let k = names.len() - 1;
            let (end, r) = lookup(w, log, path, uid, gid, follow_links, follows_count);
            let start = opened_log(w, log, path.parts, mount, io, root);
            let before = way_down(w, start, mount, io, root, names, inodes, k);
            let n = before.len() as int;
            &&& end == before.push(
                (MountCall::GetInode(mount, io, directory_at(root, inodes, k), names[k]), w(n)),
            ).push((MountCall::LoadFile(mount, io, inode, names[k]), w(n + 1)))
            &&& r == Ok::<FileView, i32>(
                FileView {
                    parent_path: FilePathView { absolute: true, parts: path.parts.drop_last() },
                    ..file
                },
            )
        }),
{
    let full = joined(root_path(), path);
    let names = path.parts.skip(mount.depth as int);
    let k = names.len() - 1;
    lemma_opened(w, log, path, uid, gid, follow_links, mount, io, root, root_file);
    let start = opened_log(w, log, path.parts, mount, io, root);
    lemma_way_down(w, start, mount, io, root, names, uid, gid, follow_links, inodes, files, k);
    let before = way_down(w, start, mount, io, root, names, inodes, k);
    let dir = directory_at(root, inodes, k);
    assert(before.len() == start.len() + 2 * k);
    let (end, loaded) = load_child(w, before, mount, io, dir, names[k]);
    assert(loaded == Ok::<(INode, FileView), i32>((inode, file)));
    assert(descend(w, before, mount, io, dir, names, k, uid, gid, follow_links) == (
        end,
        Ok::<(int, FileView), i32>((k, file)),
    ));
    assert(below(full, mount) == names);
    assert(popped(full) == FilePathView { absolute: true, parts: path.parts.drop_last() });
    match file.content {
        ContentView::Link(_) => {},
        _ => {},
    }
}

/// A lookup ends at the first name that does not lead on, and its error says why: the file system
/// does not know the name or cannot load the file, or the file, which is not the last one, may not be
/// read.
pub proof fn law_lookup_ends_with_an_error(
    w: World<MountReply>,
    log: Log,
    path: FilePathView,
    uid: Uid,
    gid: Gid,
    follow_links: bool,
    follows_count: nat,
    mount: Mount,
    io: Io,
    root: INode,
    root_file: FileView,
    inodes: Seq<INode>,
    files: Seq<FileView>,
    k: int,
)
    requires
        opens(w, log.len() as int, mount, io, root, root_file),
        0 <= k < path.parts.len() - mount.depth,
        leads_down(w, (log.len() + 4) as int, inodes, files, k, uid, gid, follow_links),
    ensures
        ({
            let n = log.len() + 4 + 2 * k;
            let (end, r) = lookup(w, log, path, uid, gid, follow_links, follows_count);
            &&& !may_read(root_file, uid, gid) ==> r == Err::<FileView, i32>(EPERM) && end.len()
                == log.len() + 4
            &&& may_read(root_file, uid, gid) ==> {
                &&& w(n) matches MountReply::INode(Err(e)) ==> r == Err::<FileView, i32>(e)
                    && end.len() == n + 1
                &&& w(n) matches MountReply::INode(Ok(_)) ==> {
                    &&& w(n + 1) matches MountReply::File(Err(e)) ==> r == Err::<FileView, i32>(e)
                        && end.len() == n + 2
                    &&& w(n + 1) matches MountReply::File(Ok(file)) ==> k < path.parts.len()
                        - mount.depth - 1 && !may_read(file, uid, gid) ==> r == Err::<FileView, i32>(
                        EPERM,
                    ) && end.len() == n + 2
                }
            }
        }),
{
    let full = joined(root_path(), path);
    let names = path.parts.skip(mount.depth as int);
    lemma_opened(w, log, path, uid, gid, follow_links, mount, io, root, root_file);
    let start = opened_log(w, log, path.parts, mount, io, root);
    lemma_way_down(w, start, mount, io, root, names, uid, gid, follow_links, inodes, files, k);
    let before = way_down(w, start, mount, io, root, names, inodes, k);
    let dir = directory_at(root, inodes, k);
    let (end, loaded) = load_child(w, before, mount, io, dir, names[k]);
    assert(below(full, mount) == names);
    let there = descend(w, before, mount, io, dir, names, k, uid, gid, follow_links);
    assert(loaded matches Err(e) ==> there == (end, Err::<(int, FileView), i32>(e)));
}

/// A path that leads to a mountpoint gives the root of the file system there, as it was loaded.
pub proof fn law_mountpoint_gives_its_root(
    w: World<MountReply>,
    log: Log,
    path: FilePathView,
    uid: Uid,
    gid: Gid,
    follow_links: bool,
    follows_count: nat,
    mount: Mount,
    io: Io,
    root: INode,
    root_file: FileView,
)
    requires
        opens(w, log.len() as int, mount, io, root, root_file),
        mount.depth == path.parts.len(),
    ensures
        lookup(w, log, path, uid, gid, follow_links, follows_count) == (
            opened_log(w, log, path.parts, mount, io, root),
            Ok::<FileView, i32>(root_file),
        ),
{
    let full = joined(root_path(), path);
    lemma_opened(w, log, path, uid, gid, follow_links, mount, io, root, root_file);
    assert(below(full, mount).len() == 0);
}

/// A file is looked up in a directory by asking the directory's own file system for its name. Unless
/// it is a link that is followed, it is what is found, in this directory. A link that is followed
/// leads along its target from this directory, and what is found there is in the cache then.
pub proof fn law_name_is_looked_up_in_its_directory(
    w: World<MountReply>,
    log: Log,
    cache: CacheView,
    parent: FileView,
    name: Seq<u8>,
    uid: Uid,
    gid: Gid,
    follow_links: bool,
    mount: Mount,
    io: Io,
)
    requires
        parent.content is Directory,
        may_read(parent, uid, gid),
        w(log.len() as int) == MountReply::Mount(Some(mount)),
        w((log.len() + 1) as int) == MountReply::Io(Ok(io)),
    ensures
        ({
            let n = log.len() as int;
            let (end, after, r) = lookup_in(w, log, cache, parent, name, uid, gid, follow_links);
            let asked_log = log.push((MountCall::GetMountpoint(parent.location), w(n))).push(
                (MountCall::GetIo(mount), w(n + 1)),
            ).push(
                (MountCall::GetInode(mount, io, parent.location.inode, name), w(n + 2)),
            );
            &&& w(n + 2) matches MountReply::INode(Err(e)) ==> end == asked_log && after == cache
                && r == Err::<FileView, i32>(e)
            &&& w(n + 2) matches MountReply::INode(Ok(inode)) ==> {
                let loaded_log = asked_log.push(
                    (MountCall::LoadFile(mount, io, inode, name), w(n + 3)),
                );
                &&& w(n + 3) matches MountReply::File(Err(e)) ==> end == loaded_log && after == cache
                    && r == Err::<FileView, i32>(e)
                &&& w(n + 3) matches MountReply::File(Ok(file)) ==> {
                    &&& !(file.content is Link) || !follow_links ==> end == loaded_log && after
                        == cache && r == Ok::<FileView, i32>(
                        FileView { parent_path: file_path_of(parent), ..file },
                    )
                    &&& file.content matches ContentView::Link(target) ==> follow_links ==> {
                        let there = joined(file_path_of(parent), parsed(target));
                        let (log1, found) = lookup(w, loaded_log, there, uid, gid, true, 1);
                        &&& end == log1 && r == found
                        &&& found is Err ==> after == cache
                        &&& found matches Ok(f) ==> cache.wf() ==> after.holds(
                            joined(root_path(), there),
                            f,
                        )
                    }
                }
            }
        }),
{
    let n = log.len() as int;
    if let MountReply::File(Ok(file)) = w(n + 3) {
        if let ContentView::Link(target) = file.content {
            let there = joined(file_path_of(parent), parsed(target));
            let log1 = open_location(w, log, parent.location).0;
            let log2 = load_child(w, log1, mount, io, parent.location.inode, name).0;
            if let Ok(f) = lookup(w, log2, there, uid, gid, true, 1).1 {
                if cache.wf() {
                    lemma_stored(cache, joined(root_path(), there), f);
                }
            }
        }
    }
}

/// A lookup in what is not a directory, or in one that the user may not read, is refused, and nothing
/// is asked.
pub proof fn law_lookup_in_directory_is_refused(
    w: World<MountReply>,
    log: Log,
    cache: CacheView,
    parent: FileView,
    name: Seq<u8>,
    uid: Uid,
    gid: Gid,
    follow_links: bool,
)
    ensures
        !(parent.content is Directory) ==> lookup_in(
            w,
            log,
            cache,
            parent,
            name,
            uid,
            gid,
            follow_links,
        ) == (log, cache, Err::<FileView, i32>(ENOTDIR)),
        parent.content is Directory && !may_read(parent, uid, gid) ==> lookup_in(
            w,
            log,
            cache,
            parent,
            name,
            uid,
            gid,
            follow_links,
        ) == (log, cache, Err::<FileView, i32>(EPERM)),
{
}

/// A removal is refused for the first reason that applies: the file is busy; its directory is not
/// found; the user may not write both of them; the mountpoint of the file is not there; the file is a
/// directory that holds files. Only then the file system is asked, to remove exactly this name from
/// exactly this directory.
pub proof fn law_removal_is_refused_for_a_reason(
    w: World<MountReply>,
    log: Log,
    cache: CacheView,
    file: FileView,
    uid: Uid,
    gid: Gid,
)
    ensures
        ({
            let (log1, found) = lookup(w, log, file.parent_path, uid, gid, true, 0);
            let (log2, opened) = open_location(w, log1, file.location);
            let n = log2.len() as int;
            let (end, _, r) = remove(w, log, cache, file, uid, gid);
            &&& file.busy ==> end == log && r == Err::<(), i32>(EBUSY)
            &&& !file.busy ==> {
                &&& found matches Err(e) ==> end == log1 && r == Err::<(), i32>(e)
                &&& found matches Ok(dir) ==> {
                    let allowed = may_write(file, uid, gid) && may_write(dir, uid, gid);
                    &&& !allowed ==> end == log1 && r == Err::<(), i32>(EPERM)
                    &&& allowed ==> {
                        &&& opened matches Err(e) ==> end == log2 && r == Err::<(), i32>(e)
                        &&& opened matches Ok((mount, io)) ==> {
                            &&& holds_files(file.content) ==> end == log2 && r == Err::<(), i32>(
                                ENOTEMPTY,
                            )
                            &&& !holds_files(file.content) ==> end == log2.push(
                                (
                                    MountCall::RemoveFile(
                                        mount,
                                        io,
                                        dir.location.inode,
                                        file.name,
                                    ),
                                    w(n),
                                ),
                            ) && (w(n) matches MountReply::Done(reply) ==> r == reply)
                        }
                    }
                }
            }
        }),
{
    let (log1, found) = lookup(w, log, file.parent_path, uid, gid, true, 0);
    let (log2, opened) = open_location(w, log1, file.location);
    match w(log2.len() as int)->Done_0 {
        Ok(u) => assert(u == ()),
        Err(_) => {},
    }
}

/// When a removal fails, nothing leaves the pool but, if the pool is full, what makes room for the
/// directory that was looked up: that directory is in the pool, if it was found.
pub proof fn law_failed_removal_keeps_the_pool(
    w: World<MountReply>,
    log: Log,
    cache: CacheView,
    file: FileView,
    uid: Uid,
    gid: Gid,
)
    requires
        cache.wf(),
        remove(w, log, cache, file, uid, gid).2 is Err,
    ensures
        ({
            let found = lookup(w, log, file.parent_path, uid, gid, true, 0).1;
            let after = remove(w, log, cache, file, uid, gid).1;
            &&& file.busy || found is Err ==> after == cache
            &&& !file.busy ==> (found matches Ok(dir) ==> after.holds(
                joined(root_path(), file.parent_path),
                dir,
            ))
        }),
{
    let found = lookup(w, log, file.parent_path, uid, gid, true, 0).1;
    if let Ok(dir) = found {
        lemma_stored(cache, joined(root_path(), file.parent_path), dir);
    }
}

/// A file that is put in the pool takes the place of what the pool held for its path, and of nothing
/// else as long as there is room.
pub proof fn law_storing_keeps_the_other_files(
    cache: CacheView,
    path: FilePathView,
    file: FileView,
    other_path: FilePathView,
    other: FileView,
)
    requires
        cache.wf(),
    ensures
        ({
            let after = stored(cache, path, file);
            &&& after.holds(path, file)
            &&& other_path != path && after.holds(other_path, other) ==> cache.holds(
                other_path,
                other,
            )
            &&& cache.free.len() > 0 && other_path != path && cache.holds(other_path, other)
                ==> after.holds(other_path, other)
        }),
{
    let after = stored(cache, path, file);
    lemma_stored(cache, path, file);
    lemma_slot(cache.pool, path, 0);
    let i = slot_of(cache.pool, path, 0);
    if other_path != path && after.holds(other_path, other) {
        let j = choose|j: int|
            0 <= j < after.pool.len() && after.pool[j] == Some((other_path, other));
        assert(cache.pool[j] == Some((other_path, other)));
    }
    if cache.free.len() > 0 && other_path != path && cache.holds(other_path, other) {
        let j = choose|j: int|
            0 <= j < cache.pool.len() && cache.pool[j] == Some((other_path, other));
        let last = cache.free.len() - 1;
        assert(cache.pool[cache.free[last] as int] is None);
        assert(after.pool[j] == Some((other_path, other)));
    }
}

/// When the pool is full, a file for a new path takes the last slot, and only what was there leaves.
pub proof fn law_full_pool_gives_up_its_last_slot(
    cache: CacheView,
    path: FilePathView,
    file: FileView,
    i: int,
)
    requires
        cache.wf(),
        cache.free.len() == 0,
        forall|f: FileView| !(#[trigger] cache.holds(path, f)),
    ensures
        stored(cache, path, file).pool.len() == FILES_POOL_SIZE,
        0 <= i < FILES_POOL_SIZE - 1 ==> stored(cache, path, file).pool[i] == cache.pool[i],
        stored(cache, path, file).pool[FILES_POOL_SIZE - 1] == Some((path, file)),
{
    lemma_slot(cache.pool, path, 0);
    let k = slot_of(cache.pool, path, 0);
    if k < cache.pool.len() {
        let f = (cache.pool[k]->0).1;
        assert(cache.pool[k] == Some((path, f)));
        assert(cache.holds(path, f));
    }
}

/// What is looked up is in the pool under the absolute form of its path; a lookup that fails leaves
/// the pool as it was.
pub proof fn law_lookup_fills_the_pool(
    cache: CacheView,
    path: FilePathView,
    file: FileView,
    e: i32,
)
    requires
        cache.wf(),
    ensures
        after_lookup(cache, path, Ok(file)).holds(
            FilePathView { absolute: true, parts: path.parts },
            file,
        ),
        after_lookup(cache, path, Err(e)) == cache,
{
    assert(root_path().parts + path.parts =~= path.parts);
    lemma_stored(cache, joined(root_path(), path), file);
}

/// A file that is forgotten takes nothing else out of the pool: what is kept under another path, has
/// another path of its own and lies elsewhere stays; and nothing else does.
pub proof fn law_forgetting_keeps_the_other_files(
    cache: CacheView,
    file: FileView,
    path: FilePathView,
    other: FileView,
)
    requires
        cache.wf(),
    ensures
        forgotten(cache, file).holds(path, other) <==> cache.holds(path, other) && path != own_path(
            file,
        ) && own_path(other) != own_path(file) && other.location != file.location,
{
    lemma_forgotten(cache, file);
}

/// The number of files in the first `n` slots.
pub open spec fn files_in(pool: Pool, n: int) -> int
    decreases n,
{
    if n <= 0 {
        0
    } else if pool[n - 1] is Some {
        files_in(pool, n - 1) + 1
    } else {
        files_in(pool, n - 1)
    }
}

/// A flush asks for one write per file, and fails only if a write fails: then it ends there, and the
/// error of that write is its error.
pub proof fn law_flush_ends_at_the_first_failure(w: World<MountReply>, log: Log, pool: Pool)
    ensures
        ({
            let (end, r) = sync_pool(w, log, pool, 0);
            let count = files_in(pool, pool.len() as int);
            &&& log.len() <= end.len() <= log.len() + count
            &&& r is Ok ==> end.len() == log.len() + count
            &&& r matches Err(e) ==> end.len() > log.len() && end.last().0 is Sync
                && w(end.len() - 1)->Done_0 == Err::<(), i32>(e)
            &&& forall|i: int|
                log.len() <= i < end.len() - 1 ==> (#[trigger] w(i))->Done_0 is Ok
            &&& (forall|i: int|
                log.len() <= i < log.len() + count ==> (#[trigger] w(i))->Done_0 is Ok) ==> r is Ok
        }),
{
    lemma_flush(w, log, pool, 0);
}

proof fn lemma_flush(w: World<MountReply>, log: Log, pool: Pool, k: int)
    requires
        0 <= k <= pool.len(),
    ensures
        ({
            let (end, r) = sync_pool(w, log, pool, k);
            let count = files_in(pool, pool.len() as int) - files_in(pool, k);
            &&& 0 <= count
            &&& log.len() <= end.len() <= log.len() + count
            &&& r is Ok ==> end.len() == log.len() + count
            &&& r matches Err(e) ==> end.len() > log.len() && end.last().0 is Sync
                && w(end.len() - 1)->Done_0 == Err::<(), i32>(e)
            &&& forall|i: int|
                log.len() <= i < end.len() - 1 ==> (#[trigger] w(i))->Done_0 is Ok
            &&& (forall|i: int|
                log.len() <= i < log.len() + count ==> (#[trigger] w(i))->Done_0 is Ok) ==> r is Ok
        }),
    decreases pool.len() - k,
{
    if k < pool.len() {
        match pool[k] {
            None => {
                lemma_flush(w, log, pool, k + 1);
            },
            Some((_, file)) => {
                let log1 = asked(log, w, MountCall::Sync(file));
                assert(files_in(pool, k + 1) == files_in(pool, k) + 1);
                lemma_flush(w, log1, pool, k + 1);
                let count = files_in(pool, pool.len() as int) - files_in(pool, k);
                let end = sync_pool(w, log, pool, k).0;
                if forall|i: int|
                    log.len() <= i < log.len() + count ==> (#[trigger] w(i))->Done_0 is Ok {
                    assert(w(log.len() as int)->Done_0 is Ok);
                }
                if w(log.len() as int)->Done_0 is Err {
                    assert(end == log1);
                    assert(end.last() == (MountCall::Sync(file), w(log.len() as int)));
                }
            },
        }
    }
}

} // verus!
