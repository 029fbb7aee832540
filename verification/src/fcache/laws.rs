//! What holds of the files cache as a whole.

use crate::errno::{EResult, EBUSY};
use crate::fcache::file::{
    content_type, dir_entry_of, file_path_of, holds_files, may_read, may_write, put_entry,
    with_entry, ContentView, DirEntry, FileView, Mode,
};
use crate::fcache::lookup::{
    below, descend, descend_from_root, lemma_descend_position, load, load_child, load_root, lookup,
    open_location, open_mount, open_path, redirected, reply_after, Log,
};
use crate::fcache::mounts::{Io, Mount, MountCall, MountReply};
use crate::fcache::pool::{
    after_lookup, concerns, forgotten, lemma_forgotten, lemma_stored, own_path, CacheView, Pool,
    FILES_POOL_SIZE,
};
use crate::fcache::{create, lookup_in, remove, sync_pool, FCache};
use crate::file_path::{joined, parsed, root_path, FilePathView};
use crate::limits::SYMLOOP_MAX;
use crate::stat::{FileLocation, Gid, INode, Uid};
use crate::history::{asked, lemma_prefix, World};
use vstd::prelude::*;

verus! {

/// The call changes nothing on the disks.
pub open spec fn reading(call: MountCall) -> bool {
    match call {
        MountCall::AddFile(_, _, _, _, _, _, _, _) => false,
        MountCall::RemoveFile(_, _, _, _) => false,
        MountCall::Sync(_) => false,
        _ => true,
    }
}

/// Between `before` and `after`, nothing was asked that changes the disks.
pub open spec fn only_reads(before: Log, after: Log) -> bool {
    &&& before.is_prefix_of(after)
    &&& forall|i: int| before.len() <= i < after.len() ==> reading((#[trigger] after[i]).0)
}

/// The entry that `entries` hold for `name`, looking from the position `i` on.
pub open spec fn entry_for(entries: Seq<(Seq<u8>, DirEntry)>, i: int, name: Seq<u8>) -> Option<
    DirEntry,
>
    decreases entries.len() - i,
{
    if i < 0 || i >= entries.len() {
        None
    } else if entries[i].0 == name {
        Some(entries[i].1)
    } else {
        entry_for(entries, i + 1, name)
    }
}

proof fn lemma_same_reads(log: Log)
    ensures
        only_reads(log, log),
{
    assert(log =~= log.subrange(0, log.len() as int));
}

proof fn lemma_ask_reads(w: World<MountReply>, log: Log, call: MountCall)
    requires
        reading(call),
    ensures
        only_reads(log, asked(log, w, call)),
{
    assert(log =~= asked(log, w, call).subrange(0, log.len() as int));
}

proof fn lemma_reads_join(a: Log, b: Log, c: Log)
    requires
        only_reads(a, b),
        only_reads(b, c),
    ensures
        only_reads(a, c),
{
    lemma_prefix(a, b, c);
    assert forall|i: int| a.len() <= i < c.len() implies reading((#[trigger] c[i]).0) by {
        if i < b.len() {
            assert(b[i] == c.subrange(0, b.len() as int)[i]);
        }
    }
}

proof fn lemma_open_mount_reads(w: World<MountReply>, log: Log, mount: Option<Mount>)
    ensures
        only_reads(log, open_mount(w, log, mount).0),
{
    match mount {
        None => lemma_same_reads(log),
        Some(m) => lemma_ask_reads(w, log, MountCall::GetIo(m)),
    }
}

proof fn lemma_open_path_reads(w: World<MountReply>, log: Log, path: FilePathView)
    ensures
        only_reads(log, open_path(w, log, path).0),
{
    let log1 = asked(log, w, MountCall::GetDeepest(path));
    lemma_ask_reads(w, log, MountCall::GetDeepest(path));
    lemma_open_mount_reads(w, log1, reply_after(log, w)->Mount_0);
    lemma_reads_join(log, log1, open_path(w, log, path).0);
}

proof fn lemma_open_location_reads(w: World<MountReply>, log: Log, loc: FileLocation)
    ensures
        only_reads(log, open_location(w, log, loc).0),
{
    let log1 = asked(log, w, MountCall::GetMountpoint(loc));
    lemma_ask_reads(w, log, MountCall::GetMountpoint(loc));
    lemma_open_mount_reads(w, log1, reply_after(log, w)->Mount_0);
    lemma_reads_join(log, log1, open_location(w, log, loc).0);
}

proof fn lemma_load_reads(
    w: World<MountReply>,
    log: Log,
    mount: Mount,
    io: Io,
    inode: EResult<INode>,
    name: Seq<u8>,
)
    ensures
        only_reads(log, load(w, log, mount, io, inode, name).0),
{
    match inode {
        Err(_) => lemma_same_reads(log),
        Ok(n) => lemma_ask_reads(w, log, MountCall::LoadFile(mount, io, n, name)),
    }
}

proof fn lemma_load_root_reads(w: World<MountReply>, log: Log, mount: Mount, io: Io)
    ensures
        only_reads(log, load_root(w, log, mount, io).0),
{
    let call = MountCall::GetRootInode(mount, io);
    let log0 = asked(log, w, call);
    lemma_ask_reads(w, log, call);
    lemma_load_reads(w, log0, mount, io, reply_after(log, w)->INode_0, Seq::empty());
    lemma_reads_join(log, log0, load_root(w, log, mount, io).0);
}

proof fn lemma_load_child_reads(
    w: World<MountReply>,
    log: Log,
    mount: Mount,
    io: Io,
    parent: INode,
    name: Seq<u8>,
)
    ensures
        only_reads(log, load_child(w, log, mount, io, parent, name).0),
{
    let call = MountCall::GetInode(mount, io, parent, name);
    let log1 = asked(log, w, call);
    lemma_ask_reads(w, log, call);
    lemma_load_reads(w, log1, mount, io, reply_after(log, w)->INode_0, name);
    lemma_reads_join(log, log1, load_child(w, log, mount, io, parent, name).0);
}

proof fn lemma_descend_reads(
    w: World<MountReply>,
    log: Log,
    mount: Mount,
    io: Io,
    parent: INode,
    names: Seq<Seq<u8>>,
    i: int,
    uid: Uid,
    gid: Gid,
    follow_links: bool,
)
    ensures
        only_reads(log, descend(w, log, mount, io, parent, names, i, uid, gid, follow_links).0),
    decreases names.len() - i,
{
    let (log1, loaded) = load_child(w, log, mount, io, parent, names[i]);
    lemma_load_child_reads(w, log, mount, io, parent, names[i]);
    if let Ok((inode, _)) = loaded {
        if i < names.len() - 1 {
            let log2 = descend(
                w,
                log1,
                mount,
                io,
                inode,
                names,
                i + 1,
                uid,
                gid,
                follow_links,
            ).0;
            lemma_descend_reads(
                w,
                log1,
                mount,
                io,
                inode,
                names,
                i + 1,
                uid,
                gid,
                follow_links,
            );
            lemma_reads_join(log, log1, log2);
        }
    }
}

proof fn lemma_descend_from_root_reads(
    w: World<MountReply>,
    log: Log,
    mount: Mount,
    io: Io,
    path: FilePathView,
    uid: Uid,
    gid: Gid,
    follow_links: bool,
)
    ensures
        only_reads(
            log,
            descend_from_root(w, log, mount, io, path, uid, gid, follow_links).0,
        ),
{
    let (log1, loaded) = load_root(w, log, mount, io);
    lemma_load_root_reads(w, log, mount, io);
    if let Ok((inode, _)) = loaded {
        let names = below(path, mount);
        let log2 = descend(w, log1, mount, io, inode, names, 0, uid, gid, follow_links).0;
        lemma_descend_reads(w, log1, mount, io, inode, names, 0, uid, gid, follow_links);
        lemma_reads_join(log, log1, log2);
    }
}

/// Looking up a file changes nothing on the disks.
pub proof fn law_lookup_changes_nothing(
    w: World<MountReply>,
    log: Log,
    path: FilePathView,
    uid: Uid,
    gid: Gid,
    follow_links: bool,
    follows_count: nat,
)
    ensures
        only_reads(log, lookup(w, log, path, uid, gid, follow_links, follows_count).0),
    decreases SYMLOOP_MAX + 1 - follows_count,
{
    let full = joined(root_path(), path);
    let (log1, opened) = open_path(w, log, full);
    lemma_open_path_reads(w, log, full);
    if let Ok((mount, io)) = opened {
        let (log2, found) = descend_from_root(w, log1, mount, io, full, uid, gid, follow_links);
        lemma_descend_from_root_reads(w, log1, mount, io, full, uid, gid, follow_links);
        lemma_reads_join(log, log1, log2);
        if let Ok((i, file)) = found {
            if let ContentView::Link(target) = file.content {
                if follows_count <= SYMLOOP_MAX {
                    let next = redirected(full, mount.depth + i, target);
                    law_lookup_changes_nothing(
                        w,
                        log2,
                        next,
                        uid,
                        gid,
                        follow_links,
                        follows_count + 1,
                    );
                    lemma_reads_join(
                        log,
                        log2,
                        lookup(w, log2, next, uid, gid, follow_links, follows_count + 1).0,
                    );
                }
            }
        }
    }
}

/// Looking up a file in a directory changes nothing on the disks.
pub proof fn law_lookup_in_changes_nothing(
    w: World<MountReply>,
    log: Log,
    cache: CacheView,
    parent: FileView,
    name: Seq<u8>,
    uid: Uid,
    gid: Gid,
    follow_links: bool,
)
    ensures
        only_reads(log, lookup_in(w, log, cache, parent, name, uid, gid, follow_links).0),
{
    lemma_same_reads(log);
    let (log1, opened) = open_location(w, log, parent.location);
    lemma_open_location_reads(w, log, parent.location);
    if let Ok((mount, io)) = opened {
        let inode = parent.location.inode;
        let (log2, loaded) = load_child(w, log1, mount, io, inode, name);
        lemma_load_child_reads(w, log1, mount, io, inode, name);
        lemma_reads_join(log, log1, log2);
        if let Ok((_, file)) = loaded {
            if let ContentView::Link(target) = file.content {
                let next = joined(
                    file_path_of(parent),
                    parsed(target),
                );
                law_lookup_changes_nothing(w, log2, next, uid, gid, follow_links, 1);
                lemma_reads_join(
                    log,
                    log2,
                    lookup(w, log2, next, uid, gid, follow_links, 1).0,
                );
            }
        }
    }
}

/// A relative path starts at the root: it leads to the same file as the absolute path with the
/// same names.
pub proof fn law_relative_path_starts_at_root(
    w: World<MountReply>,
    log: Log,
    path: FilePathView,
    uid: Uid,
    gid: Gid,
    follow_links: bool,
    follows_count: nat,
)
    ensures
        lookup(w, log, path, uid, gid, follow_links, follows_count) == lookup(
            w,
            log,
            FilePathView { absolute: true, parts: path.parts },
            uid,
            gid,
            follow_links,
            follows_count,
        ),
{
    let absolute = FilePathView { absolute: true, parts: path.parts };
    assert(root_path().parts + path.parts =~= path.parts);
    assert(joined(root_path(), path) == absolute);
    assert(joined(root_path(), absolute) == absolute);
}

/// How many times a search was started from a path.
pub open spec fn searches(log: Log) -> nat
    decreases log.len(),
{
    if log.len() == 0 {
        0
    } else {
        let before = searches(log.drop_last());
        if log.last().0 is GetDeepest {
            before + 1
        } else {
            before
        }
    }
}

proof fn lemma_ask_searches(w: World<MountReply>, log: Log, call: MountCall)
    ensures
        searches(asked(log, w, call)) == searches(log) + if call is GetDeepest {
            1nat
        } else {
            0
        },
{
    assert(asked(log, w, call).drop_last() =~= log);
}

proof fn lemma_open_path_searches(w: World<MountReply>, log: Log, path: FilePathView)
    ensures
        searches(open_path(w, log, path).0) == searches(log) + 1,
{
    lemma_ask_searches(w, log, MountCall::GetDeepest(path));
    let log1 = asked(log, w, MountCall::GetDeepest(path));
    if let Some(m) = reply_after(log, w)->Mount_0 {
        lemma_ask_searches(w, log1, MountCall::GetIo(m));
    }
}

proof fn lemma_load_searches(
    w: World<MountReply>,
    log: Log,
    mount: Mount,
    io: Io,
    inode: EResult<INode>,
    name: Seq<u8>,
)
    ensures
        searches(load(w, log, mount, io, inode, name).0) == searches(log),
{
    if let Ok(n) = inode {
        lemma_ask_searches(w, log, MountCall::LoadFile(mount, io, n, name));
    }
}

proof fn lemma_descend_searches(
    w: World<MountReply>,
    log: Log,
    mount: Mount,
    io: Io,
    parent: INode,
    names: Seq<Seq<u8>>,
    i: int,
    uid: Uid,
    gid: Gid,
    follow_links: bool,
)
    ensures
        searches(descend(w, log, mount, io, parent, names, i, uid, gid, follow_links).0)
            == searches(log),
    decreases names.len() - i,
{
    let call = MountCall::GetInode(mount, io, parent, names[i]);
    let (log1, loaded) = load_child(w, log, mount, io, parent, names[i]);
    lemma_ask_searches(w, log, call);
    lemma_load_searches(
        w,
        asked(log, w, call),
        mount,
        io,
        reply_after(log, w)->INode_0,
        names[i],
    );
    if let Ok((inode, _)) = loaded {
        if i < names.len() - 1 {
            lemma_descend_searches(
                w,
                log1,
                mount,
                io,
                inode,
                names,
                i + 1,
                uid,
                gid,
                follow_links,
            );
        }
    }
}

proof fn lemma_descend_from_root_searches(
    w: World<MountReply>,
    log: Log,
    mount: Mount,
    io: Io,
    path: FilePathView,
    uid: Uid,
    gid: Gid,
    follow_links: bool,
)
    ensures
        searches(descend_from_root(w, log, mount, io, path, uid, gid, follow_links).0) == searches(
            log,
        ),
{
    let call = MountCall::GetRootInode(mount, io);
    let (log1, loaded) = load_root(w, log, mount, io);
    lemma_ask_searches(w, log, call);
    lemma_load_searches(
        w,
        asked(log, w, call),
        mount,
        io,
        reply_after(log, w)->INode_0,
        Seq::empty(),
    );
    if let Ok((inode, _)) = loaded {
        let names = below(path, mount);
        lemma_descend_searches(w, log1, mount, io, inode, names, 0, uid, gid, follow_links);
    }
}

/// The number of links that are followed is limited: looking up a file starts the search anew at
/// most once for each of them.
pub proof fn law_links_are_limited(
    w: World<MountReply>,
    log: Log,
    path: FilePathView,
    uid: Uid,
    gid: Gid,
    follow_links: bool,
    follows_count: nat,
)
    requires
        follows_count <= SYMLOOP_MAX + 1,
    ensures
        searches(lookup(w, log, path, uid, gid, follow_links, follows_count).0) <= searches(log)
            + SYMLOOP_MAX + 2 - follows_count,
    decreases SYMLOOP_MAX + 1 - follows_count,
{
    let full = joined(root_path(), path);
    let (log1, opened) = open_path(w, log, full);
    lemma_open_path_searches(w, log, full);
    if let Ok((mount, io)) = opened {
        let (log2, found) = descend_from_root(w, log1, mount, io, full, uid, gid, follow_links);
        lemma_descend_from_root_searches(w, log1, mount, io, full, uid, gid, follow_links);
        if let Ok((i, file)) = found {
            if let ContentView::Link(target) = file.content {
                if follows_count <= SYMLOOP_MAX {
                    law_links_are_limited(
                        w,
                        log2,
                        redirected(full, mount.depth + i, target),
                        uid,
                        gid,
                        follow_links,
                        follows_count + 1,
                    );
                }
            }
        }
    }
}

/// A link is followed wherever it stands in a path: the search goes on from the directory that
/// holds it, along its target, and then along the names behind the link.
pub proof fn law_names_behind_a_link_are_kept(
    w: World<MountReply>,
    log: Log,
    path: FilePathView,
    uid: Uid,
    gid: Gid,
    follows_count: nat,
    mount: Mount,
    io: Io,
    i: int,
    link: FileView,
    target: Seq<u8>,
)
    requires
        follows_count <= SYMLOOP_MAX,
        link.content == ContentView::Link(target),
        ({
            let full = joined(root_path(), path);
            let (log1, opened) = open_path(w, log, full);
            &&& opened == Ok::<(Mount, Io), i32>((mount, io))
            &&& mount.depth < full.parts.len()
            &&& descend_from_root(w, log1, mount, io, full, uid, gid, true).1 == Ok::<
                (int, FileView),
                i32,
            >((i, link))
        }),
    ensures
        ({
            let full = joined(root_path(), path);
            let log1 = open_path(w, log, full).0;
            let log2 = descend_from_root(w, log1, mount, io, full, uid, gid, true).0;
            let at = mount.depth + i;
            let dir = FilePathView { absolute: true, parts: full.parts.take(at) };
            let there = joined(dir, parsed(target));
            &&& 0 <= i && at < full.parts.len()
            &&& there.absolute
            &&& lookup(w, log, path, uid, gid, true, follows_count) == lookup(
                w,
                log2,
                FilePathView { absolute: true, parts: there.parts + full.parts.skip(at + 1) },
                uid,
                gid,
                true,
                follows_count + 1,
            )
        }),
{
    let full = joined(root_path(), path);
    let log1 = open_path(w, log, full).0;
    lemma_descend_position(w, log1, mount, io, full, uid, gid, true);
}

/// A file is created in a directory that the user can write, or not at all; and when it is not
/// created, the directory and the cache stay as they were.
pub proof fn law_create_needs_permission(
    w: World<MountReply>,
    log: Log,
    cache: CacheView,
    parent: FileView,
    name: Seq<u8>,
    uid: Uid,
    gid: Gid,
    mode: Mode,
    content: ContentView,
)
    ensures
        ({
            let (log1, cache1, after, r) = create(w, log, cache, parent, name, uid, gid, mode, content);
            &&& r is Ok ==> parent.content is Directory && may_write(parent, uid, gid)
            &&& !may_write(parent, uid, gid) || !(parent.content is Directory) ==> r is Err && log1
                == log
            &&& r is Err ==> after == parent && cache1 == cache
        }),
{
}

proof fn lemma_put_entry(
    s: Seq<(Seq<u8>, DirEntry)>,
    i: int,
    name: Seq<u8>,
    entry: DirEntry,
    other: Seq<u8>,
)
    requires
        0 <= i <= s.len(),
    ensures
        put_entry(s, i, name, entry).len() >= s.len(),
        forall|j: int| 0 <= j < i ==> put_entry(s, i, name, entry)[j] == s[j],
        entry_for(put_entry(s, i, name, entry), i, name) == Some(entry),
        other != name ==> entry_for(put_entry(s, i, name, entry), i, other) == entry_for(
            s,
            i,
            other,
        ),
    decreases s.len() - i,
{
    let t = put_entry(s, i, name, entry);
    if i < s.len() && s[i].0 != name {
        lemma_put_entry(s, i + 1, name, entry, other);
        assert(t[i] == s[i]);
    } else if i < s.len() {
        assert(t == s.update(i, (name, entry)));
        if other != name {
            lemma_entry_for_same(s, t, i + 1, other);
        }
    } else {
        reveal_with_fuel(entry_for, 2);
    }
}

proof fn lemma_entry_for_same(
    s: Seq<(Seq<u8>, DirEntry)>,
    t: Seq<(Seq<u8>, DirEntry)>,
    i: int,
    name: Seq<u8>,
)
    requires
        0 <= i <= s.len(),
        s.len() == t.len(),
        forall|j: int| i <= j < s.len() ==> s[j] == t[j],
    ensures
        entry_for(s, i, name) == entry_for(t, i, name),
    decreases s.len() - i,
{
    if i < s.len() {
        lemma_entry_for_same(s, t, i + 1, name);
    }
}

/// A file that was created is an entry of its directory, under its own name, and the other
/// entries are as before.
pub proof fn law_created_file_is_an_entry(
    w: World<MountReply>,
    log: Log,
    cache: CacheView,
    parent: FileView,
    name: Seq<u8>,
    uid: Uid,
    gid: Gid,
    mode: Mode,
    content: ContentView,
    other: Seq<u8>,
)
    ensures
        ({
            let (_, _, after, r) = create(w, log, cache, parent, name, uid, gid, mode, content);
            r matches Ok(file) ==> {
                let old_entries = parent.content->Directory_0;
                let new_entries = after.content->Directory_0;
                &&& after.content is Directory
                &&& entry_for(new_entries, 0, file.name) == Some(dir_entry_of(file))
                &&& other != file.name ==> entry_for(new_entries, 0, other) == entry_for(
                    old_entries,
                    0,
                    other,
                )
            }
        }),
{
    let (_, _, after, r) = create(w, log, cache, parent, name, uid, gid, mode, content);
    if let Ok(file) = r {
        let entries = parent.content->Directory_0;
        assert(after == with_entry(parent, file.name, dir_entry_of(file)));
        lemma_put_entry(entries, 0, file.name, dir_entry_of(file), other);
    }
}

/// The file `file` is what was asked for: it has this name, owner, group and permissions, and a
/// content of this type.
pub open spec fn is_as_asked(
    file: FileView,
    name: Seq<u8>,
    uid: Uid,
    gid: Gid,
    mode: Mode,
    content: ContentView,
) -> bool {
    &&& file.name == name
    &&& file.uid == uid
    &&& file.gid == gid
    &&& file.mode == mode
    &&& content_type(file.content) == content_type(content)
}

/// When the file system makes the file that it is asked for, the created file is that one, at the
/// path that its directory and its name give.
pub proof fn law_created_file_is_as_asked(
    w: World<MountReply>,
    log: Log,
    cache: CacheView,
    parent: FileView,
    name: Seq<u8>,
    uid: Uid,
    gid: Gid,
    mode: Mode,
    content: ContentView,
    made: FileView,
)
    requires
        w((log.len() + 3) as int) == MountReply::File(Ok(made)),
        is_as_asked(made, name, uid, gid, mode, content),
        name.len() > 0,
    ensures
        create(w, log, cache, parent, name, uid, gid, mode, content).3 matches Ok(file) ==> {
            &&& is_as_asked(file, name, uid, gid, mode, content)
            &&& file.location == made.location
            &&& file_path_of(file).parts == file_path_of(parent).parts.push(name)
        },
{
}

/// A created file is found in its directory later, by anyone who can read the directory, when the
/// file system knows the inode of the name again and loads the file from there.
pub proof fn law_created_file_is_found(
    w: World<MountReply>,
    log: Log,
    cache: CacheView,
    parent: FileView,
    name: Seq<u8>,
    uid: Uid,
    gid: Gid,
    mode: Mode,
    content: ContentView,
    later: World<MountReply>,
    log1: Log,
    cache1: CacheView,
    reader: Uid,
    group: Gid,
    mount: Mount,
    io: Io,
    loaded: FileView,
)
    requires
        may_read(parent, reader, group),
        create(w, log, cache, parent, name, uid, gid, mode, content).3 is Ok,
        ({
            let (_, _, _, created) = create(w, log, cache, parent, name, uid, gid, mode, content);
            let n = log1.len() as int;
            &&& later(n) == MountReply::Mount(Some(mount))
            &&& later(n + 1) == MountReply::Io(Ok(io))
            &&& later(n + 2) == MountReply::INode(Ok(created->Ok_0.location.inode))
            &&& later(n + 3) == MountReply::File(Ok(loaded))
            &&& loaded.location == created->Ok_0.location
        }),
    ensures
        ({
            let (_, _, after, created) = create(w, log, cache, parent, name, uid, gid, mode, content);
            let found = lookup_in(later, log1, cache1, after, name, reader, group, false).2;
            found matches Ok(file) && file.location == created->Ok_0.location
        }),
{
}

/// When nothing protects a file, its file system is asked once to remove it, from the directory at
/// its parent path and under its name, and the reply is what the removal comes to.
pub proof fn law_removal_is_asked_once(
    w: World<MountReply>,
    log: Log,
    cache: CacheView,
    file: FileView,
    uid: Uid,
    gid: Gid,
    dir: FileView,
    mount: Mount,
    io: Io,
)
    requires
        !file.busy,
        !holds_files(file.content),
        may_write(file, uid, gid),
        may_write(dir, uid, gid),
        lookup(w, log, file.parent_path, uid, gid, true, 0).1 == Ok::<FileView, i32>(dir),
        ({
            let log1 = lookup(w, log, file.parent_path, uid, gid, true, 0).0;
            open_location(w, log1, file.location).1 == Ok::<(Mount, Io), i32>((mount, io))
        }),
    ensures
        ({
            let (after, _, r) = remove(w, log, cache, file, uid, gid);
            &&& after.len() > 0
            &&& after.last().0 == MountCall::RemoveFile(mount, io, dir.location.inode, file.name)
            &&& only_reads(log, after.drop_last())
            &&& r == after.last().1->Done_0
        }),
{
    let log1 = lookup(w, log, file.parent_path, uid, gid, true, 0).0;
    let log2 = open_location(w, log1, file.location).0;
    let (after, _, r) = remove(w, log, cache, file, uid, gid);
    law_lookup_changes_nothing(w, log, file.parent_path, uid, gid, true, 0);
    lemma_open_location_reads(w, log1, file.location);
    lemma_reads_join(log, log1, log2);
    assert(after.drop_last() =~= log2);
    match reply_after(log2, w)->Done_0 {
        Ok(u) => assert(u == ()),
        Err(_) => {},
    }
}

/// A removed file is not in the pool any more, under whatever path it was looked up, and neither is
/// anything under its path: no flush writes it back.
pub proof fn law_removed_file_leaves_the_pool(
    w: World<MountReply>,
    log: Log,
    cache: CacheView,
    file: FileView,
    uid: Uid,
    gid: Gid,
    path: FilePathView,
    other: FileView,
)
    requires
        cache.wf(),
    ensures
        ({
            let (_, after, r) = remove(w, log, cache, file, uid, gid);
            r is Ok && after.holds(path, other) ==> {
                &&& path != own_path(file)
                &&& own_path(other) != own_path(file)
                &&& other.location != file.location
            }
        }),
{
    lemma_removed(w, log, cache, file, uid, gid, path, other);
}

/// The directory of a removed file is not in the pool as it was before the removal: no flush brings
/// the entry of the file back.
pub proof fn law_directory_of_removed_file_leaves_the_pool(
    w: World<MountReply>,
    log: Log,
    cache: CacheView,
    file: FileView,
    uid: Uid,
    gid: Gid,
    path: FilePathView,
    other: FileView,
)
    requires
        cache.wf(),
    ensures
        ({
            let found = lookup(w, log, file.parent_path, uid, gid, true, 0).1;
            let (_, after, r) = remove(w, log, cache, file, uid, gid);
            r is Ok && after.holds(path, other) ==> {
                &&& found is Ok
                &&& own_path(other) != own_path(found->Ok_0)
                &&& other.location != found->Ok_0.location
            }
        }),
{
    lemma_removed(w, log, cache, file, uid, gid, path, other);
}

proof fn lemma_removed(
    w: World<MountReply>,
    log: Log,
    cache: CacheView,
    file: FileView,
    uid: Uid,
    gid: Gid,
    path: FilePathView,
    other: FileView,
)
    requires
        cache.wf(),
    ensures
        ({
            let found = lookup(w, log, file.parent_path, uid, gid, true, 0).1;
            let (_, after, r) = remove(w, log, cache, file, uid, gid);
            r is Ok ==> found is Ok && (after.holds(path, other) ==> !concerns(
                Some((path, other)),
                file,
            ) && !concerns(Some((path, other)), found->Ok_0))
        }),
{
    let found = lookup(w, log, file.parent_path, uid, gid, true, 0).1;
    let cache1 = after_lookup(cache, file.parent_path, found);
    if let Ok(dir) = found {
        lemma_stored(cache, joined(root_path(), file.parent_path), dir);
        lemma_forgotten(cache1, file);
        lemma_forgotten(forgotten(cache1, file), dir);
    }
}

/// The directory of a created file is not in the pool as it was before the creation: no flush takes
/// the entry of the file away again. The other files stay in the pool.
pub proof fn law_directory_of_created_file_leaves_the_pool(
    w: World<MountReply>,
    log: Log,
    cache: CacheView,
    parent: FileView,
    name: Seq<u8>,
    uid: Uid,
    gid: Gid,
    mode: Mode,
    content: ContentView,
    path: FilePathView,
    other: FileView,
)
    requires
        cache.wf(),
    ensures
        ({
            let (_, after, _, r) = create(w, log, cache, parent, name, uid, gid, mode, content);
            &&& r is Ok && after.holds(path, other) ==> own_path(other) != own_path(parent)
                && other.location != parent.location
            &&& cache.holds(path, other) && !concerns(Some((path, other)), parent) ==> after.holds(
                path,
                other,
            )
        }),
{
    lemma_forgotten(cache, parent);
}

/// From the position `from` of the log on, every directory that was asked for `name` answered that
/// it has no such file.
pub open spec fn is_gone(log: Log, from: int, name: Seq<u8>) -> bool {
    forall|i: int|
        #![trigger log[i]]
        from <= i < log.len() ==> match log[i].0 {
            MountCall::GetInode(_, _, _, n) => n == name ==> log[i].1->INode_0 is Err,
            _ => true,
        }
}

/// From the position `from` of the log on, no path that was searched leads to a mountpoint itself.
pub open spec fn is_below_mountpoints(log: Log, from: int) -> bool {
    forall|i: int|
        #![trigger log[i]]
        from <= i < log.len() ==> match log[i].0 {
            MountCall::GetDeepest(path) => match log[i].1->Mount_0 {
                Some(mount) => mount.depth < path.parts.len(),
                None => true,
            },
            _ => true,
        }
}

proof fn lemma_gone_on_the_way(
    w: World<MountReply>,
    log: Log,
    mount: Mount,
    io: Io,
    parent: INode,
    names: Seq<Seq<u8>>,
    i: int,
    uid: Uid,
    gid: Gid,
    follow_links: bool,
)
    requires
        0 <= i < names.len(),
        is_gone(
            descend(w, log, mount, io, parent, names, i, uid, gid, follow_links).0,
            log.len() as int,
            names.last(),
        ),
    ensures
        descend(w, log, mount, io, parent, names, i, uid, gid, follow_links).1 matches Ok((at, file))
            ==> i <= at < names.len() - 1 && follow_links && file.content is Link,
    decreases names.len() - i,
{
    let end = descend(w, log, mount, io, parent, names, i, uid, gid, follow_links).0;
    let call = MountCall::GetInode(mount, io, parent, names[i]);
    let log0 = asked(log, w, call);
    let (log1, loaded) = load_child(w, log, mount, io, parent, names[i]);
    let n = log.len() as int;
    lemma_load_reads(w, log0, mount, io, reply_after(log, w)->INode_0, names[i]);
    if let Ok((inode, _)) = loaded {
        if i < names.len() - 1 {
            lemma_descend_reads(w, log1, mount, io, inode, names, i + 1, uid, gid, follow_links);
        }
    }
    lemma_same_reads(log1);
    assert(log1.is_prefix_of(end));
    lemma_prefix(log0, log1, end);
    assert(log0[n] == end.subrange(0, log0.len() as int)[n]);
    assert(end[n] == (call, w(n)));
    if let Ok((inode, file)) = loaded {
        if i < names.len() - 1 && may_read(file, uid, gid) && !(follow_links
            && file.content is Link) {
            assert(end == descend(
                w,
                log1,
                mount,
                io,
                inode,
                names,
                i + 1,
                uid,
                gid,
                follow_links,
            ).0);
            lemma_gone_on_the_way(w, log1, mount, io, inode, names, i + 1, uid, gid, follow_links);
        }
    }
}

/// A path does not resolve when its last name is gone, as it is once the file was removed: if every
/// directory that the search asks for this name answers that it has no such file, there is an
/// error. A path that leads to a mountpoint is another matter, since its last name is not asked
/// for.
pub proof fn law_removed_path_does_not_resolve(
    w: World<MountReply>,
    log: Log,
    path: FilePathView,
    uid: Uid,
    gid: Gid,
    follow_links: bool,
    follows_count: nat,
)
    requires
        path.parts.len() > 0,
        is_gone(
            lookup(w, log, path, uid, gid, follow_links, follows_count).0,
            log.len() as int,
            path.parts.last(),
        ),
        is_below_mountpoints(
            lookup(w, log, path, uid, gid, follow_links, follows_count).0,
            log.len() as int,
        ),
    ensures
        lookup(w, log, path, uid, gid, follow_links, follows_count).1 is Err,
    decreases SYMLOOP_MAX + 1 - follows_count,
{
    let end = lookup(w, log, path, uid, gid, follow_links, follows_count).0;
    let full = joined(root_path(), path);
    let name = path.parts.last();
    assert(root_path().parts + path.parts =~= path.parts);
    assert(full.parts == path.parts);
    let log0 = asked(log, w, MountCall::GetDeepest(full));
    let (log1, opened) = open_path(w, log, full);
    law_lookup_changes_nothing(w, log, path, uid, gid, follow_links, follows_count);
    lemma_open_mount_reads(w, log0, reply_after(log, w)->Mount_0);
    if let Ok((mount, io)) = opened {
        let (log2, found) = descend_from_root(w, log1, mount, io, full, uid, gid, follow_links);
        let names = below(full, mount);
        let (log3, loaded) = load_root(w, log1, mount, io);
        lemma_descend_from_root_reads(w, log1, mount, io, full, uid, gid, follow_links);
        lemma_same_reads(log2);
        if let Ok((i, file)) = found {
            // Where the search goes on, if it does
            let next = redirected(full, mount.depth + i, file.content->Link_0);
            if end != log2 {
                law_lookup_changes_nothing(
                    w,
                    log2,
                    next,
                    uid,
                    gid,
                    follow_links,
                    follows_count + 1,
                );
            }
        }
        assert(log2.is_prefix_of(end));
        lemma_prefix(log1, log2, end);
        lemma_prefix(log0, log1, end);
        let n = log.len() as int;
        assert(log0[n] == end.subrange(0, log0.len() as int)[n]);
        assert(end[n] == (MountCall::GetDeepest(full), w(n)));
        assert(mount.depth < full.parts.len());
        assert(names.last() == name);
        if let Ok((inode, _)) = loaded {
            if found is Ok {
                lemma_load_root_reads(w, log1, mount, io);
                assert(found == descend(
                    w,
                    log3,
                    mount,
                    io,
                    inode,
                    names,
                    0,
                    uid,
                    gid,
                    follow_links,
                ).1);
                assert(log2 == descend(
                    w,
                    log3,
                    mount,
                    io,
                    inode,
                    names,
                    0,
                    uid,
                    gid,
                    follow_links,
                ).0);
                assert forall|j: int|
                    #![trigger log2[j]]
                    log3.len() <= j < log2.len() implies match log2[j].0 {
                    MountCall::GetInode(_, _, _, m) => m == name ==> log2[j].1->INode_0 is Err,
                    _ => true,
                } by {
                    assert(log2[j] == end.subrange(0, log2.len() as int)[j]);
                    assert(end[j] == log2[j]);
                }
                lemma_gone_on_the_way(
                    w,
                    log3,
                    mount,
                    io,
                    inode,
                    names,
                    0,
                    uid,
                    gid,
                    follow_links,
                );
            }
        }
        if let Ok((i, file)) = found {
            if follows_count <= SYMLOOP_MAX {
                let next = redirected(full, mount.depth + i, file.content->Link_0);
                assert(next.parts.last() == name);
                law_removed_path_does_not_resolve(
                    w,
                    log2,
                    next,
                    uid,
                    gid,
                    follow_links,
                    follows_count + 1,
                );
            }
        }
    }
}

/// When links are followed, a lookup gives no link. The root of a file system is another matter: it
/// is what a path that leads to a mountpoint gives, whatever it is.
pub proof fn law_followed_links_give_no_link(
    w: World<MountReply>,
    log: Log,
    path: FilePathView,
    uid: Uid,
    gid: Gid,
    follows_count: nat,
)
    requires
        is_below_mountpoints(lookup(w, log, path, uid, gid, true, follows_count).0, log.len() as int),
    ensures
        lookup(w, log, path, uid, gid, true, follows_count).1 matches Ok(file) ==> !(
        file.content is Link),
    decreases SYMLOOP_MAX + 1 - follows_count,
{
    let end = lookup(w, log, path, uid, gid, true, follows_count).0;
    let full = joined(root_path(), path);
    let log0 = asked(log, w, MountCall::GetDeepest(full));
    let (log1, opened) = open_path(w, log, full);
    law_lookup_changes_nothing(w, log, path, uid, gid, true, follows_count);
    lemma_open_mount_reads(w, log0, reply_after(log, w)->Mount_0);
    if let Ok((mount, io)) = opened {
        let (log2, found) = descend_from_root(w, log1, mount, io, full, uid, gid, true);
        lemma_descend_from_root_reads(w, log1, mount, io, full, uid, gid, true);
        lemma_same_reads(log2);
        if let Ok((i, file)) = found {
            let next = redirected(full, mount.depth + i, file.content->Link_0);
            if end != log2 {
                law_lookup_changes_nothing(w, log2, next, uid, gid, true, follows_count + 1);
            }
            assert(log2.is_prefix_of(end));
            lemma_prefix(log1, log2, end);
            lemma_prefix(log0, log1, end);
            let n = log.len() as int;
            assert(log0[n] == end.subrange(0, log0.len() as int)[n]);
            assert(end[n] == (MountCall::GetDeepest(full), w(n)));
            assert(mount.depth < full.parts.len());
            if file.content is Link && follows_count <= SYMLOOP_MAX {
                law_followed_links_give_no_link(w, log2, next, uid, gid, follows_count + 1);
            }
        }
    }
}

/// When links are followed, a lookup in a directory gives no link.
pub proof fn law_followed_links_give_no_link_in_directory(
    w: World<MountReply>,
    log: Log,
    cache: CacheView,
    parent: FileView,
    name: Seq<u8>,
    uid: Uid,
    gid: Gid,
)
    requires
        is_below_mountpoints(
            lookup_in(w, log, cache, parent, name, uid, gid, true).0,
            log.len() as int,
        ),
    ensures
        lookup_in(w, log, cache, parent, name, uid, gid, true).2 matches Ok(file) ==> !(
        file.content is Link),
{
    let (log1, opened) = open_location(w, log, parent.location);
    lemma_open_location_reads(w, log, parent.location);
    if let Ok((mount, io)) = opened {
        let (log2, loaded) = load_child(w, log1, mount, io, parent.location.inode, name);
        lemma_load_child_reads(w, log1, mount, io, parent.location.inode, name);
        lemma_reads_join(log, log1, log2);
        if let Ok((_, file)) = loaded {
            if let ContentView::Link(target) = file.content {
                let path = joined(file_path_of(parent), parsed(target));
                if parent.content is Directory && may_read(parent, uid, gid) {
                    law_followed_links_give_no_link(w, log2, path, uid, gid, 1);
                }
            }
        }
    }
}

/// A busy file, a non-empty directory and a file that the user cannot write are not removed:
/// there is an error, and nothing on the disks is changed.
pub proof fn law_protected_file_is_not_removed(
    w: World<MountReply>,
    log: Log,
    cache: CacheView,
    file: FileView,
    uid: Uid,
    gid: Gid,
)
    requires
        file.busy || holds_files(file.content) || !may_write(file, uid, gid),
    ensures
        remove(w, log, cache, file, uid, gid).2 is Err,
        file.busy ==> remove(w, log, cache, file, uid, gid).2 == Err::<(), i32>(EBUSY),
        only_reads(log, remove(w, log, cache, file, uid, gid).0),
{
    lemma_same_reads(log);
    let (log1, found) = lookup(w, log, file.parent_path, uid, gid, true, 0);
    law_lookup_changes_nothing(w, log, file.parent_path, uid, gid, true, 0);
    let log2 = open_location(w, log1, file.location).0;
    lemma_open_location_reads(w, log1, file.location);
    lemma_reads_join(log, log1, log2);
}

/// A file that was loaded is in the pool.
pub proof fn law_loaded_file_is_in_the_pool(cache: CacheView, path: FilePathView, file: FileView)
    requires
        cache.wf(),
    ensures
        after_lookup(cache, path, Ok(file)).wf(),
        after_lookup(cache, path, Ok(file)).holds(joined(root_path(), path), file),
{
    lemma_stored(cache, joined(root_path(), path), file);
}

/// The list of free slots holds every slot that is free, once, and no other.
pub proof fn law_free_slots_are_listed(cache: &FCache)
    requires
        cache.wf(),
    ensures
        cache@.pool.len() == FILES_POOL_SIZE,
        cache@.free.no_duplicates(),
        forall|i: usize|
            i < FILES_POOL_SIZE ==> (#[trigger] cache@.free.contains(i) <==> cache@.pool[i as int] is None),
{
    let c = cache@;
    assert forall|i: usize| i < FILES_POOL_SIZE implies (#[trigger] c.free.contains(i) <==> c.pool[i as int] is None) by {
        if c.free.contains(i) {
            let k = choose|k: int| 0 <= k < c.free.len() && c.free[k] == i;
            assert(c.pool[c.free[k] as int] is None);
        }
    }
}

/// The pool holds no more than one file for a path.
pub proof fn law_pool_paths_are_unique(
    cache: &FCache,
    path: FilePathView,
    a: FileView,
    b: FileView,
)
    requires
        cache.wf(),
        cache@.holds(path, a),
        cache@.holds(path, b),
    ensures
        a == b,
{
    let c = cache@;
    let i = choose|i: int| 0 <= i < c.pool.len() && c.pool[i] == Some((path, a));
    let j = choose|j: int| 0 <= j < c.pool.len() && c.pool[j] == Some((path, b));
    assert(c.pool[i] is Some && c.pool[j] is Some);
}

/// The calls of a log are writes of files back to the disk, from the position `from` on.
pub open spec fn only_syncs(log: Log, from: int) -> bool {
    forall|j: int| from <= j < log.len() ==> (#[trigger] log[j]).0 is Sync
}

/// The file `file` was written back, at the position `from` of the log or later.
pub open spec fn was_synced(log: Log, from: int, file: FileView) -> bool {
    exists|j: int| from <= j < log.len() && (#[trigger] log[j]).0 == MountCall::Sync(file)
}

/// When the flush succeeds, every file of the pool was written back, and nothing else was asked.
pub proof fn law_flush_writes_every_file(w: World<MountReply>, log: Log, pool: Pool)
    requires
        sync_pool(w, log, pool, 0).1 is Ok,
    ensures
        log.is_prefix_of(sync_pool(w, log, pool, 0).0),
        only_syncs(sync_pool(w, log, pool, 0).0, log.len() as int),
        forall|i: int|
            0 <= i < pool.len() ==> (#[trigger] pool[i] matches Some((_, file)) ==> was_synced(
                sync_pool(w, log, pool, 0).0,
                log.len() as int,
                file,
            )),
{
    lemma_sync_pool(w, log, pool, 0);
}

proof fn lemma_sync_pool(w: World<MountReply>, log: Log, pool: Pool, i: int)
    requires
        0 <= i <= pool.len(),
        sync_pool(w, log, pool, i).1 is Ok,
    ensures
        log.is_prefix_of(sync_pool(w, log, pool, i).0),
        only_syncs(sync_pool(w, log, pool, i).0, log.len() as int),
        forall|j: int|
            i <= j < pool.len() ==> (#[trigger] pool[j] matches Some((_, file)) ==> was_synced(
                sync_pool(w, log, pool, i).0,
                log.len() as int,
                file,
            )),
    decreases pool.len() - i,
{
    let after = sync_pool(w, log, pool, i).0;
    if i >= pool.len() {
        assert(log =~= log.subrange(0, log.len() as int));
    } else {
        match pool[i] {
            None => lemma_sync_pool(w, log, pool, i + 1),
            Some((_, file)) => {
                let log1 = asked(log, w, MountCall::Sync(file));
                lemma_sync_pool(w, log1, pool, i + 1);
                assert(log =~= log1.subrange(0, log.len() as int));
                lemma_prefix(log, log1, after);
                let at = log.len() as int;
                assert(log1[at] == after.subrange(0, log1.len() as int)[at]);
                assert(after[at].0 == MountCall::Sync(file));
                assert forall|j: int| i <= j < pool.len() implies (#[trigger] pool[j] matches Some(
                    (_, file),
                ) ==> was_synced(after, log.len() as int, file)) by {
                    if j > i {
                        if let Some((_, f)) = pool[j] {
                            assert(was_synced(after, log1.len() as int, f));
                        }
                    }
                }
                assert(only_syncs(after, log.len() as int));
            },
        }
    }
}

} // verus!
