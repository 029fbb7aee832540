//! What the operations of the files cache leave in the history and in the pool when they return.
//!
//! Each law speaks of a call of the operation itself: of its arguments, of what it returned, and of
//! the calls that it added to the history.

use crate::errno::{EResult, EBUSY, ENOTDIR, ENOTEMPTY, EPERM, EROFS};
use crate::fcache::call_laws::{
    directory_at, law_creation_asks_for_the_file, law_creation_is_up_to_the_file_system,
    law_path_is_looked_up_name_by_name, law_removal_is_refused_for_a_reason, leads_down, opened_log,
    opens, way_down,
};
use crate::fcache::file::{
    content_type, file_path_of, holds_files, may_read, may_write, ContentView, DirEntry, File,
    FileContent, FileView, Mode,
};
use crate::fcache::laws::{
    entry_for, law_created_file_is_an_entry, law_lookup_changes_nothing,
    law_lookup_in_changes_nothing,
};
use crate::fcache::lookup::{load_child, lookup, open_location};
use crate::fcache::mounts::{Io, Mount, MountCall, MountReply, Mounts};
use crate::fcache::pool::{empty_cache, forgotten, lemma_stored};
use crate::fcache::{create, lookup_in, remove, sync_pool, FCache};
use crate::file_path::{joined, parsed, root_path, FilePath, FilePathView};
use crate::history::{heard, replies_of};
use crate::stat::{FileType, Gid, INode, Uid};
use vstd::prelude::*;

verus! {

proof fn lemma_replies<C, R>(log: Seq<(C, R)>)
    ensures
        heard(log, replies_of(log)),
{
}

/// A creation that returns a file did this: the last call asked the file system of the parent's
/// mountpoint to add, to the parent, a file with exactly the name, the owner, the group, the
/// permissions and the content that were given. The file is the one that came back, in the parent;
/// the parent has an entry for it, of its type; and the cache holds the parent no more.
pub proof fn law_create_file<M: Mounts>(
    cache: &mut FCache,
    mounts: &mut M,
    parent: &mut File,
    name: Vec<u8>,
    uid: Uid,
    gid: Gid,
    mode: Mode,
    content: FileContent,
    r: EResult<File>,
)
    requires
        call_ensures(
            FCache::create_file::<M>,
            (cache, mounts, parent, name, uid, gid, mode, content),
            r,
        ),
    ensures
        ({
            let n = old(mounts).calls().len() as int;
            let log = final(mounts).calls();
            let dir = old(parent)@;
            &&& r is Err ==> final(parent)@ == dir && final(cache)@ == old(cache)@
            &&& !(dir.content is Directory) ==> (r matches Err(e) && e == ENOTDIR) && log == old(
                mounts,
            ).calls()
            &&& dir.content is Directory && !may_write(dir, uid, gid) ==> (r matches Err(e) && e
                == EPERM) && log == old(mounts).calls()
            &&& r matches Ok(file) ==> {
                &&& log.len() == n + 4
                &&& log[n].0 == MountCall::GetMountpoint(dir.location)
                &&& log[n].1->Mount_0 is Some
                &&& log[n + 1].0 == MountCall::GetIo(log[n].1->Mount_0->0)
                &&& log[n + 2].0 == MountCall::IsReadonly(log[n].1->Mount_0->0)
                &&& log[n + 3].0 == MountCall::AddFile(
                    log[n].1->Mount_0->0,
                    log[n + 1].1->Io_0->Ok_0,
                    dir.location.inode,
                    name@,
                    uid,
                    gid,
                    mode,
                    content@,
                )
                &&& log[n + 3].1 matches MountReply::File(Ok(made)) ==> {
                    &&& file@ == FileView { parent_path: file_path_of(dir), ..made }
                    &&& final(parent)@ == FileView { content: final(parent)@.content, ..dir }
                    &&& final(parent)@.content matches ContentView::Directory(entries) && (entry_for(
                        entries,
                        0,
                        made.name,
                    ) matches Some(entry) && entry.inode == made.location.inode && entry.entry_type
                        == content_type(made.content))
                }
                &&& final(cache)@ == forgotten(old(cache)@, dir)
            }
        }),
{
    let log = final(mounts).calls();
    lemma_replies(log);
    let w = replies_of(log);
    let log0 = old(mounts).calls();
    let dir = old(parent)@;
    let made = create(w, log0, old(cache)@, dir, name@, uid, gid, mode, content@);
    assert(made.0 == log && made.1 == final(cache)@ && made.2 == final(parent)@);
    law_creation_asks_for_the_file(w, log0, old(cache)@, dir, name@, uid, gid, mode, content@);
    law_created_file_is_an_entry(
        w,
        log0,
        old(cache)@,
        dir,
        name@,
        uid,
        gid,
        mode,
        content@,
        Seq::empty(),
    );
}

/// The outcome of a creation in a directory that the user may write is up to the services: it fails
/// on a mountpoint that is read-only, with the error of the file system when it cannot add the file,
/// and succeeds when it adds it.
pub proof fn law_create_file_outcome<M: Mounts>(
    cache: &mut FCache,
    mounts: &mut M,
    parent: &mut File,
    name: Vec<u8>,
    uid: Uid,
    gid: Gid,
    mode: Mode,
    content: FileContent,
    r: EResult<File>,
    mount: Mount,
    io: Io,
)
    requires
        call_ensures(
            FCache::create_file::<M>,
            (cache, mounts, parent, name, uid, gid, mode, content),
            r,
        ),
        old(parent)@.content is Directory,
        may_write(old(parent)@, uid, gid),
    ensures
        ({
            let n = old(mounts).calls().len() as int;
            let log = final(mounts).calls();
            &&& log.len() > n
            &&& log[n].1 == MountReply::Mount(Some(mount)) ==> log.len() > n + 1 && (log[n + 1].1
                == MountReply::Io(Ok(io)) ==> {
                &&& log.len() > n + 2
                &&& log[n + 2].1 == MountReply::Readonly(true) ==> log.len() == n + 3 && (
                r matches Err(e) && e == EROFS)
                &&& log[n + 2].1 == MountReply::Readonly(false) ==> {
                    &&& log.len() == n + 4
                    &&& log[n + 3].1 matches MountReply::File(Ok(_)) ==> r is Ok
                    &&& log[n + 3].1 matches MountReply::File(Err(e)) ==> (r matches Err(err) && err
                        == e)
                }
            })
        }),
{
    let log = final(mounts).calls();
    lemma_replies(log);
    let w = replies_of(log);
    let log0 = old(mounts).calls();
    let dir = old(parent)@;
    let made = create(w, log0, old(cache)@, dir, name@, uid, gid, mode, content@);
    assert(made.0 == log);
    law_creation_is_up_to_the_file_system(
        w,
        log0,
        old(cache)@,
        dir,
        name@,
        uid,
        gid,
        mode,
        content@,
    );
}

/// A removal is of exactly the file that was given: what is busy, in a directory that is not found,
/// not to be written by the user, or a directory that holds files, is not removed, and the error says
/// so; else the last call asked its file system to remove its name from its directory, and the reply
/// is the result. When it succeeds, neither the file nor its directory is in the cache.
pub proof fn law_remove_file<M: Mounts>(
    cache: &mut FCache,
    mounts: &mut M,
    file: &File,
    uid: Uid,
    gid: Gid,
    r: EResult<()>,
)
    requires
        call_ensures(FCache::remove_file::<M>, (cache, mounts, file, uid, gid), r),
    ensures
        ({
            let w = replies_of(final(mounts).calls());
            let log = final(mounts).calls();
            let (log1, found) = lookup(
                w,
                old(mounts).calls(),
                file@.parent_path,
                uid,
                gid,
                true,
                0,
            );
            let (log2, opened) = open_location(w, log1, file@.location);
            let n = log2.len() as int;
            &&& file@.busy ==> log == old(mounts).calls() && r == Err::<(), i32>(EBUSY)
            &&& !file@.busy ==> {
                &&& found matches Err(e) ==> log == log1 && r == Err::<(), i32>(e)
                &&& found matches Ok(dir) ==> {
                    let allowed = may_write(file@, uid, gid) && may_write(dir, uid, gid);
                    &&& !allowed ==> log == log1 && r == Err::<(), i32>(EPERM)
                    &&& allowed ==> {
                        &&& opened matches Err(e) ==> log == log2 && r == Err::<(), i32>(e)
                        &&& opened matches Ok((mount, io)) ==> {
                            &&& holds_files(file@.content) ==> log == log2 && r == Err::<(), i32>(
                                ENOTEMPTY,
                            )
                            &&& !holds_files(file@.content) ==> {
                                &&& log.len() == n + 1
                                &&& log[n].0 == MountCall::RemoveFile(
                                    mount,
                                    io,
                                    dir.location.inode,
                                    file@.name,
                                )
                                &&& log[n].1 matches MountReply::Done(reply) ==> r == reply
                            }
                        }
                    }
                }
            }
        }),
{
    let log = final(mounts).calls();
    lemma_replies(log);
    let w = replies_of(log);
    let log0 = old(mounts).calls();
    assert(remove(w, log0, old(cache)@, file@, uid, gid) == (log, final(cache)@, r));
    law_removal_is_refused_for_a_reason(w, log0, old(cache)@, file@, uid, gid);
}

/// A file is looked up at exactly the path that was given, for the user that was given: the deepest
/// mountpoint of the absolute path is opened, and the names below it are looked up one after the
/// other. The last file is what is returned, and is in the cache under that path then.
pub proof fn law_get_file_from_path<M: Mounts>(
    cache: &mut FCache,
    mounts: &mut M,
    path: &FilePath,
    uid: Uid,
    gid: Gid,
    follow_links: bool,
    r: EResult<File>,
    mount: Mount,
    io: Io,
    root: INode,
    root_file: FileView,
    inodes: Seq<INode>,
    files: Seq<FileView>,
    inode: INode,
    found: FileView,
)
    requires
        call_ensures(
            FCache::get_file_from_path::<M>,
            (cache, mounts, path, uid, gid, follow_links),
            r,
        ),
        ({
            let w = replies_of(final(mounts).calls());
            let n = old(mounts).calls().len() as int;
            let k = path@.parts.len() - mount.depth - 1;
            &&& opens(w, n, mount, io, root, root_file)
            &&& may_read(root_file, uid, gid)
            &&& mount.depth < path@.parts.len()
            &&& leads_down(w, n + 4, inodes, files, k, uid, gid, follow_links)
            &&& w(n + 4 + 2 * k) == MountReply::INode(Ok(inode))
            &&& w(n + 4 + 2 * k + 1) == MountReply::File(Ok(found))
            &&& !(follow_links && found.content is Link)
        }),
    ensures
        ({
            let w = replies_of(final(mounts).calls());
            let full = FilePathView { absolute: true, parts: path@.parts };
            let names = path@.parts.skip(mount.depth as int);
            let k = names.len() - 1;
            let start = opened_log(w, old(mounts).calls(), path@.parts, mount, io, root);
            let before = way_down(w, start, mount, io, root, names, inodes, k);
            let n = before.len() as int;
            &&& final(mounts).calls() == before.push(
                (MountCall::GetInode(mount, io, directory_at(root, inodes, k), names[k]), w(n)),
            ).push((MountCall::LoadFile(mount, io, inode, names[k]), w(n + 1)))
            &&& r matches Ok(file) && file@ == (FileView {
                parent_path: FilePathView { absolute: true, parts: path@.parts.drop_last() },
                ..found
            }) && final(cache)@.holds(full, file@)
        }),
{
    let log = final(mounts).calls();
    lemma_replies(log);
    let w = replies_of(log);
    law_path_is_looked_up_name_by_name(
        w,
        old(mounts).calls(),
        path@,
        uid,
        gid,
        follow_links,
        0,
        mount,
        io,
        root,
        root_file,
        inodes,
        files,
        inode,
        found,
    );
    assert(root_path().parts + path@.parts =~= path@.parts);
}

/// Whatever the path is, what is returned is what the lookup of exactly this path, for exactly this
/// user, comes to without any link followed before; the pool changes only when a file is found.
pub proof fn law_get_file_from_path_is_a_lookup<M: Mounts>(
    cache: &mut FCache,
    mounts: &mut M,
    path: &FilePath,
    uid: Uid,
    gid: Gid,
    follow_links: bool,
    r: EResult<File>,
)
    requires
        call_ensures(
            FCache::get_file_from_path::<M>,
            (cache, mounts, path, uid, gid, follow_links),
            r,
        ),
    ensures
        ({
            let w = replies_of(final(mounts).calls());
            let (log, found) = lookup(w, old(mounts).calls(), path@, uid, gid, follow_links, 0);
            &&& log == final(mounts).calls()
            &&& found matches Ok(f) ==> (r matches Ok(file) && file@ == f && final(cache)@.holds(
                joined(root_path(), path@),
                f,
            ))
            &&& found matches Err(e) ==> (r matches Err(err) && err == e) && final(cache)@ == old(
                cache,
            )@
        }),
{
    lemma_replies(final(mounts).calls());
}

/// A file is looked up in exactly the directory that was given, under exactly the name that was
/// given: its file system is asked for the inode, then for the file. Unless it is a link that is
/// followed, that is what is returned, in that directory. The directory stays as it is.
pub proof fn law_get_file_from_parent<M: Mounts>(
    cache: &mut FCache,
    mounts: &mut M,
    parent: &mut File,
    name: Vec<u8>,
    uid: Uid,
    gid: Gid,
    follow_links: bool,
    r: EResult<File>,
    mount: Mount,
    io: Io,
    inode: INode,
    found: FileView,
)
    requires
        call_ensures(
            FCache::get_file_from_parent::<M>,
            (cache, mounts, parent, name, uid, gid, follow_links),
            r,
        ),
    ensures
        ({
            let n = old(mounts).calls().len() as int;
            let log = final(mounts).calls();
            let dir = old(parent)@;
            &&& final(parent)@ == dir
            &&& !(dir.content is Directory) ==> (r matches Err(e) && e == ENOTDIR) && log == old(
                mounts,
            ).calls()
            &&& dir.content is Directory && !may_read(dir, uid, gid) ==> (r matches Err(e) && e
                == EPERM) && log == old(mounts).calls()
            &&& dir.content is Directory && may_read(dir, uid, gid) ==> {
                &&& log.len() > n && log[n].0 == MountCall::GetMountpoint(dir.location)
                &&& log[n].1 == MountReply::Mount(Some(mount)) ==> {
                    &&& log.len() > n + 1 && log[n + 1].0 == MountCall::GetIo(mount)
                    &&& log[n + 1].1 == MountReply::Io(Ok(io)) ==> {
                        &&& log.len() > n + 2 && log[n + 2].0 == MountCall::GetInode(
                            mount,
                            io,
                            dir.location.inode,
                            name@,
                        )
                        &&& log[n + 2].1 matches MountReply::INode(Err(e)) ==> (r matches Err(err)
                            && err == e)
                        &&& log[n + 2].1 == MountReply::INode(Ok(inode)) ==> {
                            &&& log.len() > n + 3 && log[n + 3].0 == MountCall::LoadFile(
                                mount,
                                io,
                                inode,
                                name@,
                            )
                            &&& log[n + 3].1 == MountReply::File(Ok(found)) && !(follow_links
                                && found.content is Link) ==> log.len() == n + 4 && (
                            r matches Ok(file) && file@ == (FileView {
                                parent_path: file_path_of(dir),
                                ..found
                            }))
                            &&& log[n + 3].1 == MountReply::File(Ok(found)) && follow_links ==> (
                            found.content matches ContentView::Link(target) ==> {
                                let w = replies_of(log);
                                let there = joined(file_path_of(dir), parsed(target));
                                let (end, f) = lookup(w, log.take(n + 4), there, uid, gid, true, 1);
                                &&& end == log
                                &&& f matches Ok(f) ==> (r matches Ok(file) && file@ == f)
                                &&& f matches Err(e) ==> (r matches Err(err) && err == e)
                            })
                        }
                    }
                }
            }
        }),
{
    let log = final(mounts).calls();
    let log0 = old(mounts).calls();
    lemma_replies(log);
    let w = replies_of(log);
    let n = log0.len() as int;
    let dir = old(parent)@;
    let got = lookup_in(w, log0, old(cache)@, dir, name@, uid, gid, follow_links);
    assert(got.0 == log && got.1 == final(cache)@);
    law_lookup_in_changes_nothing(
        w,
        log0,
        old(cache)@,
        dir,
        name@,
        uid,
        gid,
        follow_links,
    );
    if dir.content is Directory && may_read(dir, uid, gid) {
        let (log1, opened) = open_location(w, log0, dir.location);
        if let Ok((m, i)) = opened {
            let (log2, loaded) = load_child(
                w,
                log1,
                m,
                i,
                dir.location.inode,
                name@,
            );
            if let Ok((_, file)) = loaded {
                if let ContentView::Link(target) = file.content {
                    if follow_links {
                        let there = joined(file_path_of(dir), parsed(target));
                        law_lookup_changes_nothing(
                            w,
                            log2,
                            there,
                            uid,
                            gid,
                            true,
                            1,
                        );
                        assert(log2.is_prefix_of(log));
                        assert forall|k: int| 0 <= k < log2.len() implies log[k] == log2[k] by {
                            assert(log2[k] == log.subrange(0, log2.len() as int)[k]);
                        }
                        assert(log.take(n + 4) =~= log2);
                    }
                }
            }
        }
    }
}

/// A flush that succeeds empties the cache; one that fails leaves it as it was. What it asks for are
/// writes of the files in the pool, slot by slot.
pub proof fn law_flush_all<M: Mounts>(cache: &mut FCache, mounts: &mut M, r: EResult<()>)
    requires
        call_ensures(FCache::flush_all::<M>, (cache, mounts), r),
    ensures
        ({
            let w = replies_of(final(mounts).calls());
            &&& r is Ok ==> final(cache)@ == empty_cache()
            &&& r is Err ==> final(cache)@ == old(cache)@
            &&& sync_pool(w, old(mounts).calls(), old(cache)@.pool, 0) == (final(mounts).calls(), r)
        }),
{
    lemma_replies(final(mounts).calls());
}

/// A file is loaded as the superuser, following links, and is in the pool then, if it is there.
pub proof fn law_load_file<M: Mounts>(cache: &mut FCache, mounts: &mut M, path: &FilePath)
    requires
        call_ensures(FCache::load_file::<M>, (cache, mounts, path), ()),
        old(cache).wf(),
    ensures
        ({
            let w = replies_of(final(mounts).calls());
            let (log, found) = lookup(w, old(mounts).calls(), path@, 0, 0, true, 0);
            &&& log == final(mounts).calls()
            &&& found is Err ==> final(cache)@ == old(cache)@
            &&& found matches Ok(f) ==> final(cache)@.holds(joined(root_path(), path@), f)
        }),
{
    lemma_replies(final(mounts).calls());
    let w = replies_of(final(mounts).calls());
    if let Ok(f) = lookup(w, old(mounts).calls(), path@, 0, 0, true, 0).1 {
        lemma_stored(old(cache)@, joined(root_path(), path@), f);
    }
}

/// A new cache holds nothing: all of its slots are free.
pub proof fn law_new_cache_is_empty(r: EResult<FCache>)
    requires
        call_ensures(FCache::new, (), r),
    ensures
        r matches Ok(cache) && cache.wf() && cache@.pool.len() == 1024 && cache@.free.len() == 1024 && (
        forall|i: int| 0 <= i < 1024 ==> (#[trigger] cache@.pool[i]) is None),
{
}

/// The answers on a file are those for exactly the file and the user that were given: who may read
/// and write it, its path, its type, and whether it is a directory that holds files.
pub proof fn law_file_answers(
    file: &File,
    uid: Uid,
    gid: Gid,
    read: bool,
    write: bool,
    path: FilePath,
    t: FileType,
    entry: DirEntry,
    nonempty: bool,
)
    requires
        call_ensures(File::can_read, (file, uid, gid), read),
        call_ensures(File::can_write, (file, uid, gid), write),
        call_ensures(File::get_path, (file,), path),
        call_ensures(File::get_file_type, (file,), t),
        call_ensures(File::to_dir_entry, (file,), entry),
        call_ensures(File::is_nonempty_directory, (file,), nonempty),
    ensures
        read == (uid == 0 || gid == 0 || file.mode & 0o004 != 0 || file.mode & 0o400 != 0 && uid
            == file.uid || file.mode & 0o040 != 0 && gid == file.gid),
        write == (uid == 0 || gid == 0 || file.mode & 0o002 != 0 || file.mode & 0o200 != 0 && uid
            == file.uid || file.mode & 0o020 != 0 && gid == file.gid),
        path@.absolute == file@.parent_path.absolute,
        file@.name.len() > 0 ==> path@.parts == file@.parent_path.parts.push(file@.name),
        file@.name.len() == 0 ==> path@.parts == file@.parent_path.parts,
        t == content_type(file@.content),
        entry.entry_type == t && entry.inode == file.location.inode,
        nonempty == holds_files(file@.content),
{
}

} // verus!
