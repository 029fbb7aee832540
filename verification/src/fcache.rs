//! The files cache keeps the files that were looked up in memory, until they are written back to
//! the disks. Every lookup reads the disks: what it finds takes the place of what was kept before.

pub mod call_laws;
pub mod file;
pub mod laws;
pub mod lookup;
pub mod mounts;
pub mod operation_laws;
pub mod pool;

use crate::errno::{EResult, EBUSY, ENOTDIR, ENOTEMPTY, EPERM, EROFS};
use crate::fcache::file::{
    dir_entry_of, file_path_of, holds_files, may_read, may_write, with_entry, ContentView, File,
    FileContent, FileView, Mode,
};
use crate::fcache::lookup::{
    load_child, load_from, lookup, lookup_impl, open_at_location, open_location, placed_in,
    reply_after, Log,
};
use crate::fcache::mounts::{file_view, MountCall, MountReply, Mounts};
use crate::fcache::pool::{
    after_lookup, concerns, empty_cache, forgotten, freed, lemma_empty_cache, lemma_forgotten,
    lemma_stored, own_path, slot_of, stored, CacheView, Pool, FILES_POOL_SIZE,
};
use crate::file_path::{joined, parsed, root_path, FilePath, FilePathView};
use crate::perm::{ROOT_GID, ROOT_UID};
use crate::stat::{Gid, Uid};
use crate::history::{asked, heard, lemma_asked, lemma_heard_before, lemma_prefix, World};
use vstd::prelude::*;

verus! {

/// Writing the files of the pool back to the disks, from the slot `i` on, up to the first failure.
pub open spec fn sync_pool(w: World<MountReply>, log: Log, pool: Pool, i: int) -> (Log, EResult<()>)
    decreases pool.len() - i,
{
    if i >= pool.len() {
        (log, Ok(()))
    } else {
        match pool[i] {
            None => sync_pool(w, log, pool, i + 1),
            Some((_, file)) => {
                let log1 = asked(log, w, MountCall::Sync(file));
                match reply_after(log, w)->Done_0 {
                    Err(e) => (log1, Err(e)),
                    Ok(_) => sync_pool(w, log1, pool, i + 1),
                }
            },
        }
    }
}

/// Looking up the file `name` in the directory `parent`, with the cache `cache`.
pub open spec fn lookup_in(
    w: World<MountReply>,
    log: Log,
    cache: CacheView,
    parent: FileView,
    name: Seq<u8>,
    uid: Uid,
    gid: Gid,
    follow_links: bool,
) -> (Log, CacheView, EResult<FileView>) {
    if !(parent.content is Directory) {
        (log, cache, Err(ENOTDIR))
    } else if !may_read(parent, uid, gid) {
        (log, cache, Err(EPERM))
    } else {
        let (log1, opened) = open_location(w, log, parent.location);
        match opened {
            Err(e) => (log1, cache, Err(e)),
            Ok((mount, io)) => {
                let (log2, loaded) = load_child(w, log1, mount, io, parent.location.inode, name);
                match loaded {
                    Err(e) => (log2, cache, Err(e)),
                    Ok((_, file)) => match file.content {
                        ContentView::Link(target) => if follow_links {
                            let path = joined(file_path_of(parent), parsed(target));
                            let (log3, found) = lookup(w, log2, path, uid, gid, follow_links, 1);
                            (log3, after_lookup(cache, path, found), found)
                        } else {
                            (log2, cache, Ok(placed_in(file, file_path_of(parent))))
                        },
                        _ => (log2, cache, Ok(placed_in(file, file_path_of(parent)))),
                    },
                }
            },
        }
    }
}

/// Creating the file `name` in the directory `parent`, with the cache `cache`. Gives the parent and
/// the file as they are then. What the cache holds of the parent is out of date then, and leaves it.
pub open spec fn create(
    w: World<MountReply>,
    log: Log,
    cache: CacheView,
    parent: FileView,
    name: Seq<u8>,
    uid: Uid,
    gid: Gid,
    mode: Mode,
    content: ContentView,
) -> (Log, CacheView, FileView, EResult<FileView>) {
    if !(parent.content is Directory) {
        (log, cache, parent, Err(ENOTDIR))
    } else if !may_write(parent, uid, gid) {
        (log, cache, parent, Err(EPERM))
    } else {
        let (log1, opened) = open_location(w, log, parent.location);
        match opened {
            Err(e) => (log1, cache, parent, Err(e)),
            Ok((mount, io)) => {
                let log2 = asked(log1, w, MountCall::IsReadonly(mount));
                if reply_after(log1, w)->Readonly_0 {
                    (log2, cache, parent, Err(EROFS))
                } else {
                    let log3 = asked(
                        log2,
                        w,
                        MountCall::AddFile(
                            mount,
                            io,
                            parent.location.inode,
                            name,
                            uid,
                            gid,
                            mode,
                            content,
                        ),
                    );
                    match reply_after(log2, w)->File_0 {
                        Err(e) => (log3, cache, parent, Err(e)),
                        Ok(file) => (
                            log3,
                            forgotten(cache, parent),
                            with_entry(parent, file.name, dir_entry_of(file)),
                            Ok(placed_in(file, file_path_of(parent))),
                        ),
                    }
                }
            },
        }
    }
}

/// Removing the file `file`, with the cache `cache`. A removed file leaves the cache, and so does
/// what the cache holds of the directory that it was in.
pub open spec fn remove(
    w: World<MountReply>,
    log: Log,
    cache: CacheView,
    file: FileView,
    uid: Uid,
    gid: Gid,
) -> (Log, CacheView, EResult<()>) {
    if file.busy {
        (log, cache, Err(EBUSY))
    } else {
        let (log1, found) = lookup(w, log, file.parent_path, uid, gid, true, 0);
        let cache1 = after_lookup(cache, file.parent_path, found);
        match found {
            Err(e) => (log1, cache1, Err(e)),
            Ok(parent) => if !may_write(file, uid, gid) || !may_write(parent, uid, gid) {
                (log1, cache1, Err(EPERM))
            } else {
                let (log2, opened) = open_location(w, log1, file.location);
                match opened {
                    Err(e) => (log2, cache1, Err(e)),
                    Ok((mount, io)) => if holds_files(file.content) {
                        (log2, cache1, Err(ENOTEMPTY))
                    } else {
                        let call = MountCall::RemoveFile(
                            mount,
                            io,
                            parent.location.inode,
                            file.name,
                        );
                        match reply_after(log2, w)->Done_0 {
                            Err(e) => (asked(log2, w, call), cache1, Err(e)),
                            Ok(_) => (
                                asked(log2, w, call),
                                forgotten(forgotten(cache1, file), parent),
                                Ok(()),
                            ),
                        }
                    },
                }
            },
        }
    }
}

/// A file in the pool, with the path it was loaded from.
struct CachedFile {
    path: FilePath,
    file: File,
}

/// Cache storing files in memory. The files are written back to the disks when the cache is flushed.
///
/// A lookup always reads the disks, and leaves what it found in the pool.
pub struct FCache {
    /// The pool of cached files.
    pool: Vec<Option<CachedFile>>,
    /// The list of free slots in the pool.
    pool_free: Vec<usize>,
}

/// A slot of the pool, in contracts.
spec fn slot_view(slot: Option<CachedFile>) -> Option<(FilePathView, FileView)> {
    match slot {
        Some(c) => Some((c.path@, c.file@)),
        None => None,
    }
}

/// The slots of the pool, in contracts.
spec fn pool_view(pool: Seq<Option<CachedFile>>) -> Pool {
    pool.map_values(|slot: Option<CachedFile>| slot_view(slot))
}

impl FCache {
    pub closed spec fn view(&self) -> CacheView {
        CacheView { pool: pool_view(self.pool@), free: self.pool_free@ }
    }

    /// The invariant of the cache.
    pub open spec fn wf(&self) -> bool {
        self@.wf()
    }

    /// Creates a new instance, with all the slots free.
    pub fn new() -> (r: EResult<Self>)
        ensures
            r matches Ok(cache) && cache.wf() && cache@ == empty_cache(),
    {
        Ok(Self::empty())
    }

    /// Creates a cache without any file.
    fn empty() -> (cache: Self)
        ensures
            cache.wf(),
            cache@ == empty_cache(),
    {
        let mut pool: Vec<Option<CachedFile>> = Vec::new();
        let mut pool_free: Vec<usize> = Vec::new();
        let mut i: usize = 0;
        while i < FILES_POOL_SIZE
            invariant
                i <= FILES_POOL_SIZE,
                pool@.len() == i,
                pool_free@.len() == i,
                forall|j: int| 0 <= j < i ==> #[trigger] pool@[j] is None,
                forall|j: int| 0 <= j < i ==> #[trigger] pool_free@[j] == FILES_POOL_SIZE - 1 - j,
            decreases FILES_POOL_SIZE - i,
        {
            pool.push(None);
            pool_free.push(FILES_POOL_SIZE - 1 - i);
            i = i + 1;
        }
        let cache = FCache { pool, pool_free };
        proof {
            assert(cache@ =~= empty_cache());
            lemma_empty_cache();
        }
        cache
    }

    /// Returns the slot that holds the file at `path`, or the number of slots if there is none.
    fn find_slot(&self, path: &FilePath) -> (i: usize)
        ensures
            i == slot_of(self@.pool, path@, 0),
            i <= self@.pool.len(),
    {
        let ghost all = self@.pool;
        let mut i: usize = 0;
        while i < self.pool.len()
            invariant
                i <= self.pool@.len(),
                all == self@.pool,
                all.len() == self.pool@.len(),
                slot_of(all, path@, 0) == slot_of(all, path@, i as int),
            decreases self.pool@.len() - i,
        {
            assert(all[i as int] == slot_view(self.pool@[i as int]));
            match &self.pool[i] {
                Some(c) => {
                    if c.path.is_same(path) {
                        return i;
                    }
                },
                None => {},
            }
            i = i + 1;
        }
        i
    }

    /// Puts a file in the pool.
    fn store(&mut self, path: FilePath, file: File)
        requires
            old(self).wf(),
        ensures
            final(self).wf(),
            final(self)@ == stored(old(self)@, path@, file@),
    {
        proof {
            lemma_stored(self@, path@, file@);
        }
        let ghost all = self@.pool;
        let found: usize = self.find_slot(&path);
        let slot: usize = if found < self.pool.len() {
            found
        } else {
            match self.pool_free.pop() {
                Some(free) => free,
                None => FILES_POOL_SIZE - 1,
            }
        };
        proof {
            if found >= self.pool@.len() && old(self)@.free.len() > 0 {
                let last = old(self)@.free.len() - 1;
                assert(old(self)@.free[last] < FILES_POOL_SIZE);
            }
        }
        self.pool.set(slot, Some(CachedFile { path, file }));
        assert(self@.pool =~= all.update(slot as int, Some((path@, file@))));
        assert(self@ =~= stored(old(self)@, path@, file@));
    }

    /// Removes the file `file` from the pool, under whatever path it is there.
    fn forget_file(&mut self, file: &File)
        requires
            old(self).wf(),
        ensures
            final(self).wf(),
            final(self)@ == forgotten(old(self)@, file@),
    {
        proof {
            lemma_forgotten(self@, file@);
        }
        let ghost all = self@.pool;
        let path: FilePath = FilePath::root().concat(&file.get_path());
        let mut i: usize = 0;
        while i < self.pool.len()
            invariant
                i <= self.pool@.len(),
                all == old(self)@.pool,
                all.len() == self.pool@.len(),
                path@ == own_path(file@),
                forall|j: int|
                    0 <= j < all.len() ==> #[trigger] self@.pool[j] == if j < i && concerns(
                        all[j],
                        file@,
                    ) {
                        None
                    } else {
                        all[j]
                    },
                self@.free == old(self)@.free + freed(all, file@, i as int),
            decreases self.pool@.len() - i,
        {
            let ghost before = self@;
            assert(before.pool[i as int] == slot_view(self.pool@[i as int]));
            let stale: bool = match &self.pool[i] {
                Some(c) => c.path.is_same(&path) || FilePath::root().concat(
                    &c.file.get_path(),
                ).is_same(&path) || c.file.location == file.location,
                None => false,
            };
            if stale {
                self.pool.set(i, None);
                self.pool_free.push(i);
                assert(self@.pool =~= before.pool.update(i as int, None));
                assert(self@.free =~= old(self)@.free + freed(all, file@, i + 1));
            }
            i = i + 1;
        }
        assert(self@ =~= forgotten(old(self)@, file@));
    }

    /// Loads the file with the given path `path` into the pool. If there is no such file, the
    /// pool stays as it is.
    pub fn load_file<M: Mounts>(&mut self, mounts: &mut M, path: &FilePath)
        requires
            old(self).wf(),
        ensures
            final(self).wf(),
            old(mounts).calls().is_prefix_of(final(mounts).calls()),
            forall|w: World<MountReply>| #[trigger]
                heard(final(mounts).calls(), w) ==> {
                    let (log, found) = lookup(
                        w,
                        old(mounts).calls(),
                        path@,
                        ROOT_UID,
                        ROOT_GID,
                        true,
                        0,
                    );
                    &&& log == final(mounts).calls()
                    &&& final(self)@ == after_lookup(old(self)@, path@, found)
                },
    {
        let _ = self.get_file_from_path_(mounts, path, ROOT_UID, ROOT_GID, true, 0);
    }

    /// Synchonizes the cache to the disks, then empties it.
    ///
    /// If a file cannot be written back, the function returns the error, and the cache keeps its
    /// files.
    pub fn flush_all<M: Mounts>(&mut self, mounts: &mut M) -> (r: EResult<()>)
        requires
            old(self).wf(),
        ensures
            final(self).wf(),
            final(self)@ == if r is Ok {
                empty_cache()
            } else {
                old(self)@
            },
            old(mounts).calls().is_prefix_of(final(mounts).calls()),
            forall|w: World<MountReply>| #[trigger]
                heard(final(mounts).calls(), w) ==> sync_pool(
                    w,
                    old(mounts).calls(),
                    old(self)@.pool,
                    0,
                ) == (final(mounts).calls(), r),
    {
        broadcast use lemma_heard_before;

        let ghost all = self@.pool;
        let ghost log0 = mounts.calls();
        let mut i: usize = 0;
        assert(log0.is_prefix_of(log0));
        while i < self.pool.len()
            invariant
                i <= self.pool@.len(),
                *self == *old(self),
                old(self).wf(),
                all == old(self)@.pool,
                all.len() == self.pool@.len(),
                log0 == old(mounts).calls(),
                log0.is_prefix_of(mounts.calls()),
                forall|w: World<MountReply>| #[trigger]
                    heard(mounts.calls(), w) ==> sync_pool(w, log0, all, 0) == sync_pool(
                        w,
                        mounts.calls(),
                        all,
                        i as int,
                    ),
            decreases self.pool@.len() - i,
        {
            let ghost log1 = mounts.calls();
            assert(all[i as int] == slot_view(self.pool@[i as int]));
            match &self.pool[i] {
                Some(c) => {
                    let r = mounts.sync(&c.file);
                    proof {
                        lemma_asked(
                            log1,
                            mounts.calls(),
                            MountCall::Sync(c.file@),
                            MountReply::Done(r),
                        );
                        lemma_prefix(log0, log1, mounts.calls());
                        assert forall|w: World<MountReply>| #[trigger]
                            heard(mounts.calls(), w) implies sync_pool(w, log0, all, 0)
                            == sync_pool(w, log1, all, i as int) by {
                            assert(heard(log1, w));
                        }
                    }
                    match r {
                        Err(e) => {
                            return Err(e);
                        },
                        Ok(_) => {},
                    }
                },
                None => {},
            }
            i = i + 1;
        }
        *self = Self::empty();
        Ok(())
    }

    /// Returns the file at path `path`, loaded from the disks, and leaves it in the pool.
    ///
    /// `follows_count` is the number of links that have been followed since the beginning of the
    /// path resolution.
    fn get_file_from_path_<M: Mounts>(
        &mut self,
        mounts: &mut M,
        path: &FilePath,
        uid: Uid,
        gid: Gid,
        follow_links: bool,
        follows_count: usize,
    ) -> (r: EResult<File>)
        requires
            old(self).wf(),
        ensures
            final(self).wf(),
            final(self)@ == after_lookup(old(self)@, path@, file_view(r)),
            old(mounts).calls().is_prefix_of(final(mounts).calls()),
            forall|w: World<MountReply>| #[trigger]
                heard(final(mounts).calls(), w) ==> lookup(
                    w,
                    old(mounts).calls(),
                    path@,
                    uid,
                    gid,
                    follow_links,
                    follows_count as nat,
                ) == (final(mounts).calls(), file_view(r)),
    {
        let r = lookup_impl(mounts, path, uid, gid, follow_links, follows_count);
        match &r {
            Ok(file) => {
                self.store(FilePath::root().concat(path), file.copied());
            },
            Err(_) => {},
        }
        r
    }

    /// Returns the file at path `path`. If the file doesn't exist, the function returns an error.
    ///
    /// If the path is relative, the function starts from the root.
    ///
    /// The file is loaded from the disks, whether it is in the pool or not. The pool holds it then,
    /// under the absolute form of `path`.
    ///
    /// `uid` and `gid` are the IDs of the user and the group that access the file.
    ///
    /// If `follow_links` is true, the function follows symbolic links. It follows no more than
    /// [`SYMLOOP_MAX`](crate::limits::SYMLOOP_MAX) of them behind the first one, then returns
    /// [`ELOOP`](crate::errno::ELOOP).
    pub fn get_file_from_path<M: Mounts>(
        &mut self,
        mounts: &mut M,
        path: &FilePath,
        uid: Uid,
        gid: Gid,
        follow_links: bool,
    ) -> (r: EResult<File>)
        requires
            old(self).wf(),
        ensures
            final(self).wf(),
            final(self)@ == after_lookup(old(self)@, path@, file_view(r)),
            r matches Ok(file) ==> final(self)@.holds(joined(root_path(), path@), file@),
            old(mounts).calls().is_prefix_of(final(mounts).calls()),
            forall|w: World<MountReply>| #[trigger]
                heard(final(mounts).calls(), w) ==> lookup(
                    w,
                    old(mounts).calls(),
                    path@,
                    uid,
                    gid,
                    follow_links,
                    0,
                ) == (final(mounts).calls(), file_view(r)),
    {
        let r = self.get_file_from_path_(mounts, path, uid, gid, follow_links, 0);
        proof {
            if let Ok(file) = file_view(r) {
                lemma_stored(old(self)@, joined(root_path(), path@), file);
            }
        }
        r
    }

    /// Returns the file `name` located in the directory `parent`. If the file doesn't exist, the
    /// function returns an error.
    ///
    /// `uid` and `gid` are the IDs of the user and the group that access the file.
    ///
    /// If `follow_links` is true, the function follows symbolic links.
    ///
    /// If `parent` is not a directory, the function returns [`ENOTDIR`].
    pub fn get_file_from_parent<M: Mounts>(
        &mut self,
        mounts: &mut M,
        parent: &mut File,
        name: Vec<u8>,
        uid: Uid,
        gid: Gid,
        follow_links: bool,
    ) -> (r: EResult<File>)
        requires
            old(self).wf(),
        ensures
            final(self).wf(),
            *final(parent) == *old(parent),
            old(mounts).calls().is_prefix_of(final(mounts).calls()),
            forall|w: World<MountReply>| #[trigger]
                heard(final(mounts).calls(), w) ==> lookup_in(
                    w,
                    old(mounts).calls(),
                    old(self)@,
                    old(parent)@,
                    name@,
                    uid,
                    gid,
                    follow_links,
                ) == (final(mounts).calls(), final(self)@, file_view(r)),
    {
        broadcast use lemma_heard_before;

        assert(mounts.calls().is_prefix_of(mounts.calls()));
        match &parent.content {
            FileContent::Directory(_) => {},
            _ => {
                return Err(ENOTDIR);
            },
        }
        if !parent.can_read(uid, gid) {
            return Err(EPERM);
        }
        let opened = open_at_location(mounts, parent.location);
        let ghost log1 = mounts.calls();
        let (mount, io) = match opened {
            Err(e) => {
                return Err(e);
            },
            Ok(pair) => pair,
        };
        let loaded = load_from(mounts, mount, io, parent.location.inode, name.as_slice());
        let ghost log2 = mounts.calls();
        proof {
            lemma_prefix(old(mounts).calls(), log1, log2);
        }
        let file = match loaded {
            Err(e) => {
                return Err(e);
            },
            Ok((_, file)) => file,
        };
        if follow_links {
            match &file.content {
                FileContent::Link(target) => {
                    let new_path: FilePath = parent.get_path().concat(
                        &FilePath::from_bytes(target.as_slice()),
                    );
                    let r = self.get_file_from_path_(
                        mounts,
                        &new_path,
                        uid,
                        gid,
                        follow_links,
                        1,
                    );
                    proof {
                        lemma_prefix(old(mounts).calls(), log2, mounts.calls());
                    }
                    return r;
                },
                _ => {},
            }
        }
        Ok(File { parent_path: parent.get_path(), ..file })
    }

    /// Creates a file, adds it to the file system, then returns it. The file will be located into
    /// the directory `parent`.
    ///
    /// `name` is the name of the file.
    ///
    /// `uid` and `gid` are the IDs of the owner user and of the owner group.
    ///
    /// `mode` is the permission of the file.
    ///
    /// `content` is the content of the file. This value also determines the file type.
    ///
    /// The function returns [`ENOTDIR`] if `parent` is not a directory, [`EPERM`] if it cannot be
    /// written, and [`EROFS`] if its file system is read-only.
    pub fn create_file<M: Mounts>(
        &mut self,
        mounts: &mut M,
        parent: &mut File,
        name: Vec<u8>,
        uid: Uid,
        gid: Gid,
        mode: Mode,
        content: FileContent,
    ) -> (r: EResult<File>)
        requires
            old(self).wf(),
        ensures
            final(self).wf(),
            old(mounts).calls().is_prefix_of(final(mounts).calls()),
            forall|w: World<MountReply>| #[trigger]
                heard(final(mounts).calls(), w) ==> create(
                    w,
                    old(mounts).calls(),
                    old(self)@,
                    old(parent)@,
                    name@,
                    uid,
                    gid,
                    mode,
                    content@,
                ) == (final(mounts).calls(), final(self)@, final(parent)@, file_view(r)),
    {
        broadcast use lemma_heard_before;

        assert(mounts.calls().is_prefix_of(mounts.calls()));
        match &parent.content {
            FileContent::Directory(_) => {},
            _ => {
                return Err(ENOTDIR);
            },
        }
        if !parent.can_write(uid, gid) {
            return Err(EPERM);
        }
        let ghost log0 = mounts.calls();
        let opened = open_at_location(mounts, parent.location);
        let ghost log1 = mounts.calls();
        let (mount, io) = match opened {
            Err(e) => {
                return Err(e);
            },
            Ok(pair) => pair,
        };
        let readonly = mounts.is_readonly(mount);
        let ghost log2 = mounts.calls();
        proof {
            lemma_asked(
                log1,
                log2,
                MountCall::IsReadonly(mount),
                MountReply::Readonly(readonly),
            );
            lemma_prefix(log0, log1, log2);
        }
        if readonly {
            return Err(EROFS);
        }
        let parent_inode = parent.location.inode;
        let ghost given = content@;
        let added = mounts.add_file(
            mount,
            io,
            parent_inode,
            name.as_slice(),
            uid,
            gid,
            mode,
            content,
        );
        proof {
            lemma_asked(
                log2,
                mounts.calls(),
                MountCall::AddFile(mount, io, parent_inode, name@, uid, gid, mode, given),
                MountReply::File(file_view(added)),
            );
            lemma_prefix(log0, log2, mounts.calls());
        }
        let file = match added {
            Err(e) => {
                return Err(e);
            },
            Ok(file) => file,
        };
        self.forget_file(parent);
        let file = File { parent_path: parent.get_path(), ..file };
        parent.add_entry(vstd::slice::slice_to_vec(file.name.as_slice()), file.to_dir_entry())?;
        Ok(file)
    }

    /// Removes the file `file`.
    ///
    /// If the file doesn't exist, the function returns an error.
    ///
    /// If the file is a non-empty directory, the function returns [`ENOTEMPTY`]; if it is busy,
    /// [`EBUSY`].
    ///
    /// `uid` and `gid` are the IDs of the user and the group that remove the file. They must have
    /// the right to write both the file and the directory that holds it.
    pub fn remove_file<M: Mounts>(
        &mut self,
        mounts: &mut M,
        file: &File,
        uid: Uid,
        gid: Gid,
    ) -> (r: EResult<()>)
        requires
            old(self).wf(),
        ensures
            final(self).wf(),
            old(mounts).calls().is_prefix_of(final(mounts).calls()),
            forall|w: World<MountReply>| #[trigger]
                heard(final(mounts).calls(), w) ==> remove(
                    w,
                    old(mounts).calls(),
                    old(self)@,
                    file@,
                    uid,
                    gid,
                ) == (final(mounts).calls(), final(self)@, r),
    {
        broadcast use lemma_heard_before;

        let ghost log0 = mounts.calls();
        assert(log0.is_prefix_of(log0));
        if file.busy {
            return Err(EBUSY);
        }
        let found = self.get_file_from_path(mounts, &file.parent_path, uid, gid, true);
        let ghost log1 = mounts.calls();
        let parent = match found {
            Err(e) => {
                return Err(e);
            },
            Ok(parent) => parent,
        };
        if !file.can_write(uid, gid) || !parent.can_write(uid, gid) {
            return Err(EPERM);
        }
        let opened = open_at_location(mounts, file.location);
        let ghost log2 = mounts.calls();
        proof {
            lemma_prefix(log0, log1, log2);
        }
        let (mount, io) = match opened {
            Err(e) => {
                return Err(e);
            },
            Ok(pair) => pair,
        };
        if file.is_nonempty_directory() {
            return Err(ENOTEMPTY);
        }
        let r = mounts.remove_file(mount, io, parent.location.inode, file.name.as_slice());
        proof {
            lemma_asked(
                log2,
                mounts.calls(),
                MountCall::RemoveFile(mount, io, parent.location.inode, file.name@),
                MountReply::Done(r),
            );
            lemma_prefix(log0, log2, mounts.calls());
        }
        r?;
        self.forget_file(file);
        self.forget_file(&parent);
        Ok(())
    }
}

} // verus!
