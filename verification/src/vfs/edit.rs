//! Creation of files, and of links to them; removal of links.

use crate::errno::{EResult, EACCES, EBUSY, EMLINK, ENOENT, ENOTDIR, EPERM, EXDEV};
use crate::limits::LINK_MAX;
use crate::path::{file_name, parent, Path, PathBuf};
use crate::perm::{directory_writable, AccessProfile, S_ISGID, S_ISVTX};
use crate::stat::{mode_type, FileLocation, FileType, Stat};
use crate::history::{heard, World};
use crate::vfs::backend::{node_view, Backend, Call, Node, Reply};
use crate::vfs::children::{key_of, Key};
use crate::vfs::entry::{Entry, EntryView};
use crate::vfs::references::RefReply;
use crate::vfs::resolve::{
    get_file, get_file_from_path, starts, ResolutionSettings, SettingsView,
};
use crate::vfs::state::{
    entry_view, lemma_extends, lemma_heard, lemma_make_entry, lemma_said, make_entry, release_of,
    stat_of, Vfs, VfsView,
};
use std::sync::Arc;
use vstd::prelude::*;

verus! {

/// The status that a new file gets: `stat`, but with the owner that `ap` gives it, and the group
/// that `ap` or, if its set-group-ID bit says so, the parent directory gives it.
pub open spec fn owned_stat(stat: Stat, ap: AccessProfile, parent: Stat) -> Stat {
    Stat {
        uid: ap.euid,
        gid: if parent.mode & S_ISGID != 0 {
            parent.gid
        } else {
            ap.egid
        },
        ..stat
    }
}

/// Creates a file in the directory `parent`, once its status is known to be `parent_stat`.
pub open spec fn create_in(
    w: World<Reply>,
    s: VfsView,
    parent: EntryView,
    parent_stat: Stat,
    name: Seq<u8>,
    ap: AccessProfile,
    stat: Stat,
) -> (VfsView, EResult<EntryView>) {
    let node = parent.node->0;
    if mode_type(parent_stat.mode) != Some(FileType::Directory) {
        (s, Err(ENOTDIR))
    } else if !directory_writable(ap, parent_stat) {
        (s, Err(EACCES))
    } else {
        let s1 = s.ask(
            w,
            Call::AddFile(node.ops, node.location, name, owned_stat(stat, ap, parent_stat)),
        );
        match s.reply(w)->Added_0 {
            Err(e) => (s1, Err(e)),
            Ok((inode, ops)) => {
                let location = FileLocation {
                    mountpoint_id: node.location.mountpoint_id,
                    inode,
                };
                let s2 = s1.ask(w, Call::GetOrInsertNode(location, ops));
                match s1.reply(w)->Node_0 {
                    Err(e) => (s2, Err(e)),
                    Ok(n) => make_entry(s2, parent, name, n),
                }
            },
        }
    }
}

/// Creates a file in the directory `parent`.
pub open spec fn create(
    w: World<Reply>,
    s: VfsView,
    parent: EntryView,
    name: Seq<u8>,
    ap: AccessProfile,
    stat: Stat,
) -> (VfsView, EResult<EntryView>) {
    let (s1, parent_stat) = stat_of(w, s, parent.node->0);
    match parent_stat {
        Err(e) => (s1, Err(e)),
        Ok(parent_stat) => create_in(w, s1, parent, parent_stat, name, ap, stat),
    }
}

/// Why a link from the directory with the status `parent_stat` to the file with the status
/// `target_stat` is refused, if it is.
pub open spec fn link_refusal(
    parent: Node,
    target: Node,
    target_stat: Stat,
    parent_stat: Stat,
    ap: AccessProfile,
) -> Option<i32> {
    if mode_type(target_stat.mode) == Some(FileType::Directory) {
        Some(EPERM)
    } else if target_stat.nlink >= LINK_MAX {
        Some(EMLINK)
    } else if !directory_writable(ap, parent_stat) {
        Some(EACCES)
    } else if parent.location.mountpoint_id != target.location.mountpoint_id {
        Some(EXDEV)
    } else {
        None
    }
}

/// Creates a hard link to `target` in the directory `parent`.
pub open spec fn link_to(
    w: World<Reply>,
    s: VfsView,
    parent: Node,
    name: Seq<u8>,
    target: Node,
    ap: AccessProfile,
) -> (VfsView, EResult<()>) {
    let (s1, parent_stat) = stat_of(w, s, parent);
    match parent_stat {
        Err(e) => (s1, Err(e)),
        Ok(parent_stat) => if mode_type(parent_stat.mode) != Some(FileType::Directory) {
            (s1, Err(ENOTDIR))
        } else {
            let (s2, target_stat) = stat_of(w, s1, target);
            match target_stat {
                Err(e) => (s2, Err(e)),
                Ok(target_stat) => match link_refusal(
                    parent,
                    target,
                    target_stat,
                    parent_stat,
                    ap,
                ) {
                    Some(e) => (s2, Err(e)),
                    None => (
                        s2.ask(
                            w,
                            Call::Link(parent.ops, parent.location, name, target.location.inode),
                        ),
                        s2.reply(w)->Done_0,
                    ),
                },
            }
        },
    }
}

/// The sticky bit of the directory with the status `parent_stat` keeps `ap` from removing the
/// file with the status `stat`.
pub open spec fn stuck(ap: AccessProfile, stat: Stat, parent_stat: Stat) -> bool {
    parent_stat.mode & S_ISVTX != 0 && ap.euid != stat.uid && ap.euid != parent_stat.uid
}

/// Removes the cached entry `e`, of the name `name`, from the directory `parent` with the status
/// `parent_stat`.
pub open spec fn unlink_cached(
    w: World<Reply>,
    v: World<RefReply>,
    s: VfsView,
    parent: EntryView,
    parent_stat: Stat,
    name: Seq<u8>,
    ap: AccessProfile,
    e: EntryView,
) -> (VfsView, EResult<()>) {
    let dir = parent.node->0;
    match e.node {
        None => (s, Err(ENOENT)),
        Some(node) => if dir.location.mountpoint_id != node.location.mountpoint_id {
            (s, Err(EBUSY))
        } else {
            let (s1, stat) = stat_of(w, s, node);
            match stat {
                Err(e) => (s1, Err(e)),
                Ok(stat) => if stuck(ap, stat, parent_stat) {
                    (s1, Err(EACCES))
                } else {
                    let s2 = s1.ask(w, Call::Unlink(dir.ops, dir.location, name));
                    match s1.reply(w)->Done_0 {
                        Err(e) => (s2, Err(e)),
                        Ok(()) => release_of(
                            w,
                            v,
                            VfsView { children: s2.children.remove((parent.id, name)), ..s2 },
                            e,
                        ),
                    }
                },
            }
        },
    }
}

/// Removes the name `name`, for which no entry is cached, from the directory `dir` with the
/// status `parent_stat`.
pub open spec fn unlink_uncached(
    w: World<Reply>,
    s: VfsView,
    dir: Node,
    parent_stat: Stat,
    name: Seq<u8>,
    ap: AccessProfile,
) -> (VfsView, EResult<()>) {
    let s1 = s.ask(w, Call::EntryByName(dir.ops, dir.location, name));
    match s.reply(w)->Entry_0 {
        Err(e) => (s1, Err(e)),
        Ok(None) => (s1, Err(ENOENT)),
        Ok(Some((entry, ops))) => {
            let location = FileLocation {
                mountpoint_id: dir.location.mountpoint_id,
                inode: entry.inode,
            };
            let (s2, stat) = stat_of(w, s1, Node { location, ops });
            match stat {
                Err(e) => (s2, Err(e)),
                Ok(stat) => if stuck(ap, stat, parent_stat) {
                    (s2, Err(EACCES))
                } else {
                    let s3 = s2.ask(w, Call::Unlink(dir.ops, dir.location, name));
                    match s2.reply(w)->Done_0 {
                        Err(e) => (s3, Err(e)),
                        Ok(()) => (
                            s3.ask(w, Call::TryRemoveNode(location, ops)),
                            s3.reply(w)->Done_0,
                        ),
                    }
                },
            }
        },
    }
}

/// Removes the name `name` from the directory `parent`.
pub open spec fn unlink_of(
    w: World<Reply>,
    v: World<RefReply>,
    s: VfsView,
    parent: EntryView,
    name: Seq<u8>,
    ap: AccessProfile,
) -> (VfsView, EResult<()>) {
    let (s1, parent_stat) = stat_of(w, s, parent.node->0);
    match parent_stat {
        Err(e) => (s1, Err(e)),
        Ok(parent_stat) => if mode_type(parent_stat.mode) != Some(FileType::Directory) {
            (s1, Err(ENOTDIR))
        } else if !directory_writable(ap, parent_stat) {
            (s1, Err(EACCES))
        } else if s1.children.contains_key((parent.id, name)) {
            unlink_cached(
                w,
                v,
                s1,
                parent,
                parent_stat,
                name,
                ap,
                s1.children[(parent.id, name)],
            )
        } else {
            unlink_uncached(w, s1, parent.node->0, parent_stat, name, ap)
        },
    }
}

/// Removes the link that `path` leads to.
pub open spec fn unlink_path(
    w: World<Reply>,
    v: World<RefReply>,
    s: VfsView,
    path: Seq<u8>,
    settings: SettingsView,
) -> (VfsView, EResult<()>) {
    match (file_name(path), parent(path)) {
        (Some(name), Some(dir_path)) => {
            let (s1, dir) = get_file(w, s, dir_path, settings);
            match dir {
                Err(e) => (s1, Err(e)),
                Ok(dir) => unlink_of(w, v, s1, dir, name, settings.access_profile),
            }
        },
        _ => (s, Err(ENOENT)),
    }
}

/// Removing a cached entry keeps the invariant, and forgets nothing but what is cached.
pub proof fn lemma_uncache(s: VfsView, key: Key)
    requires
        s.wf(),
    ensures
        (VfsView { children: s.children.remove(key), ..s }).wf(),
        (VfsView { children: s.children.remove(key), ..s }).extends(s),
{
    let s1 = VfsView { children: s.children.remove(key), ..s };
    assert(s.log =~= s1.log.subrange(0, s.log.len() as int));
    assert forall|k: Key| #[trigger] s1.children.contains_key(k) implies {
        &&& s1.owns(s1.children[k])
        &&& s1.children[k].parent is Some
        &&& key_of(s1.children[k]) == k
    } by {
        assert(s.children.contains_key(k));
    }
}

/// Creates a file, adds it to the VFS, then returns it.
///
/// Arguments:
/// - `parent` is the parent directory of the file to be created
/// - `name` is the name of the file to be created
/// - `ap` is access profile to check permissions. This also determines the UID and GID to be used
///   for the created file
/// - `stat` is the status of the newly created file
///
/// From the provided `stat`, the `uid` and `gid` are ignored: they are set according to `ap`. The
/// rest, `nlink` among it, is handed to the file system as it is.
///
/// The following errors can be returned:
/// - Permissions to create the file are not fulfilled for the given `ap`: [`EACCES`]
/// - `parent` is not a directory: [`ENOTDIR`]
///
/// Other errors can be returned depending on the underlying filesystem, such as when it is
/// read-only, when I/O failed or when the file already exists.
pub fn create_file<B: Backend>(
    parent: Arc<Entry>,
    name: &[u8],
    ap: &AccessProfile,
    stat: Stat,
    vfs: &mut Vfs<B>,
) -> (r: EResult<Arc<Entry>>)
    requires
        old(vfs).wf(),
        old(vfs)@.live(parent@),
    ensures
        final(vfs).wf(),
        final(vfs)@.extends(old(vfs)@),
        forall|w: World<Reply>| #[trigger]
            heard(final(vfs)@.log, w) ==> create(w, old(vfs)@, parent@, name@, *ap, stat) == (
                final(vfs)@,
                entry_view(r),
            ),
        r matches Ok(e) ==> final(vfs)@.live(e@),
{
    broadcast use lemma_heard;

    let mut stat: Stat = stat;
    let parent_stat: Stat = parent.stat(vfs)?;
    let ghost s1 = vfs@;
    // Validation
    match parent_stat.get_type() {
        Some(FileType::Directory) => {},
        _ => {
            return Err(ENOTDIR);
        },
    }
    if !ap.can_write_directory(&parent_stat) {
        return Err(EACCES);
    }
    stat.uid = ap.euid;
    stat.gid = if parent_stat.mode & S_ISGID != 0 {
        // If SGID is set, the newly created file shall inherit the group ID of the
        // parent directory
        parent_stat.gid
    } else {
        ap.egid
    };
    // Add file to filesystem
    let dir: Node = **parent.node();
    let r = vfs.services.add_file(dir.ops, dir.location, name, stat);
    let ghost s2 = vfs@;
    proof {
        lemma_said(s1, s2, Call::AddFile(dir.ops, dir.location, name@, stat), Reply::Added(r));
        lemma_extends(old(vfs)@, s1, s2);
    }
    let (inode, ops) = r?;
    let location: FileLocation = FileLocation {
        mountpoint_id: dir.location.mountpoint_id,
        inode,
    };
    let r = vfs.services.get_or_insert_node(location, ops);
    let ghost s3 = vfs@;
    proof {
        lemma_said(s2, s3, Call::GetOrInsertNode(location, ops), Reply::Node(node_view(r)));
        lemma_extends(old(vfs)@, s2, s3);
    }
    let node: Arc<Node> = r?;
    // Create entry and insert it in parent
    let r = vfs.add_entry(&parent, name, node);
    proof {
        lemma_extends(old(vfs)@, s3, vfs@);
        lemma_make_entry(s3, parent@, name@, *node);
    }
    r
}

/// Creates a new hard link to the given target file.
///
/// Arguments:
/// - `parent` is the parent directory where the new link will be created
/// - `name` is the name of the link
/// - `target` is the target file
/// - `ap` is the access profile to check permissions
///
/// The following errors can be returned:
/// - `parent` is not a directory: [`ENOTDIR`]
/// - `target` is a directory: [`EPERM`]
/// - The number of links to the file, with the new one, is larger than [`LINK_MAX`]: [`EMLINK`]
/// - Permissions to create the link are not fulfilled for the given `ap`: [`EACCES`]
/// - `target` is not on the mountpoint of `parent`: [`EXDEV`]
///
/// Other errors can be returned depending on the underlying filesystem, such as when it is
/// read-only or when I/O failed.
pub fn link<B: Backend>(
    parent: &Entry,
    name: &[u8],
    target: &Entry,
    ap: &AccessProfile,
    vfs: &mut Vfs<B>,
) -> (r: EResult<()>)
    requires
        old(vfs).wf(),
        parent@.node is Some,
        target@.node is Some,
    ensures
        final(vfs).wf(),
        final(vfs)@.extends(old(vfs)@),
        forall|w: World<Reply>| #[trigger]
            heard(final(vfs)@.log, w) ==> link_to(
                w,
                old(vfs)@,
                parent@.node->0,
                name@,
                target@.node->0,
                *ap,
            ) == (final(vfs)@, r),
{
    broadcast use lemma_heard;

    let parent_stat: Stat = parent.stat(vfs)?;
    let ghost s1 = vfs@;
    // Validation
    match parent_stat.get_type() {
        Some(FileType::Directory) => {},
        _ => {
            return Err(ENOTDIR);
        },
    }
    let r = target.stat(vfs);
    let ghost s2 = vfs@;
    proof {
        lemma_extends(old(vfs)@, s1, s2);
    }
    let target_stat: Stat = r?;
    match target_stat.get_type() {
        Some(FileType::Directory) => {
            return Err(EPERM);
        },
        _ => {},
    }
    if target_stat.nlink >= LINK_MAX {
        return Err(EMLINK);
    }
    if !ap.can_write_directory(&parent_stat) {
        return Err(EACCES);
    }
    // Check the target and source are both on the same mountpoint
    let dir: Node = **parent.node();
    let location: FileLocation = target.node().location;
    if dir.location.mountpoint_id != location.mountpoint_id {
        return Err(EXDEV);
    }
    let r = vfs.services.link(dir.ops, dir.location, name, location.inode);
    proof {
        lemma_said(
            s2,
            vfs@,
            Call::Link(dir.ops, dir.location, name@, location.inode),
            Reply::Done(r),
        );
        lemma_extends(old(vfs)@, s2, vfs@);
    }
    r
}

/// Tells whether the sticky bit of a directory keeps the agent from removing a file.
fn is_stuck(ap: &AccessProfile, stat: &Stat, parent_stat: &Stat) -> (r: bool)
    ensures
        r == stuck(*ap, *stat, *parent_stat),
{
    let has_sticky_bit: bool = parent_stat.mode & S_ISVTX != 0;
    has_sticky_bit && ap.euid != stat.uid && ap.euid != parent_stat.uid
}

/// Removes a hard link to a file.
///
/// Arguments:
/// - `parent` is the parent directory of the file to remove
/// - `name` is the name of the file to remove
/// - `ap` is the access profile to check permissions
///
/// The following errors can be returned:
/// - `parent` is not a directory: [`ENOTDIR`]
/// - The link does not exist: [`ENOENT`]
/// - Permissions to remove the link are not fulfilled for the given `ap`: [`EACCES`]
/// - The file to remove is a mountpoint: [`EBUSY`]
///
/// Other errors can be returned depending on the underlying filesystem, such as when it is
/// read-only or when I/O failed.
pub fn unlink<B: Backend>(
    parent: Arc<Entry>,
    name: &[u8],
    ap: &AccessProfile,
    vfs: &mut Vfs<B>,
) -> (r: EResult<()>)
    requires
        old(vfs).wf(),
        old(vfs)@.live(parent@),
    ensures
        final(vfs).wf(),
        final(vfs)@.extends(old(vfs)@),
        forall|w: World<Reply>, v: World<RefReply>|
            #![trigger heard(final(vfs)@.log, w), heard(final(vfs)@.refs, v)]
            heard(final(vfs)@.log, w) && heard(final(vfs)@.refs, v) ==> unlink_of(
                w,
                v,
                old(vfs)@,
                parent@,
                name@,
                *ap,
            ) == (final(vfs)@, r),
{
    broadcast use lemma_heard;

    let parent_stat: Stat = parent.stat(vfs)?;
    let ghost s1 = vfs@;
    // Check permission
    match parent_stat.get_type() {
        Some(FileType::Directory) => {},
        _ => {
            return Err(ENOTDIR);
        },
    }
    if !ap.can_write_directory(&parent_stat) {
        return Err(EACCES);
    }
    let dir: Node = **parent.node();
    let cached: Option<Arc<Entry>> = vfs.children.get(parent.get_id(), name);
    match cached {
        // The entry is in cache
        Some(entry) => {
            let ghost e = entry@;
            // The file does not actually exist
            if !entry.has_node() {
                return Err(ENOENT);
            }
            // If the file to remove is a mountpoint, error
            if dir.location.mountpoint_id != entry.node().location.mountpoint_id {
                return Err(EBUSY);
            }
            let r = entry.stat(vfs);
            let ghost s2 = vfs@;
            proof {
                lemma_extends(old(vfs)@, s1, s2);
            }
            let stat: Stat = r?;
            // Check permission
            if is_stuck(ap, &stat, &parent_stat) {
                return Err(EACCES);
            }
            // Remove link from filesystem
            let r = vfs.services.unlink(dir.ops, dir.location, name);
            let ghost s3 = vfs@;
            proof {
                lemma_said(
                    s2,
                    s3,
                    Call::Unlink(dir.ops, dir.location, name@),
                    Reply::Done(r),
                );
                lemma_extends(old(vfs)@, s2, s3);
                lemma_uncache(s3, (parent@.id, name@));
            }
            r?;
            // Remove link from cache
            vfs.children.remove(parent.get_id(), name);
            let ghost s4 = vfs@;
            proof {
                assert(s4 =~= VfsView { children: s3.children.remove((parent@.id, name@)), ..s3 });
                lemma_extends(old(vfs)@, s3, s4);
            }
            let r = Entry::release(entry, vfs);
            proof {
                lemma_extends(old(vfs)@, s4, vfs@);
            }
            r
        },
        // The entry is not in cache
        None => {
            let r = vfs.services.entry_by_name(dir.ops, dir.location, name);
            let ghost s2 = vfs@;
            proof {
                lemma_said(
                    s1,
                    s2,
                    Call::EntryByName(dir.ops, dir.location, name@),
                    Reply::Entry(r),
                );
                lemma_extends(old(vfs)@, s1, s2);
            }
            let (entry, ops) = match r? {
                Some(found) => found,
                None => {
                    return Err(ENOENT);
                },
            };
            // The entry cannot be a mountpoint since it is not in cache
            let location: FileLocation = FileLocation {
                mountpoint_id: dir.location.mountpoint_id,
                inode: entry.inode,
            };
            let r = vfs.services.get_stat(ops, location);
            let ghost s3 = vfs@;
            proof {
                lemma_said(s2, s3, Call::GetStat(ops, location), Reply::Stat(r));
                lemma_extends(old(vfs)@, s2, s3);
            }
            let stat: Stat = r?;
            // Check permission
            if is_stuck(ap, &stat, &parent_stat) {
                return Err(EACCES);
            }
            // Remove link from filesystem
            let r = vfs.services.unlink(dir.ops, dir.location, name);
            let ghost s4 = vfs@;
            proof {
                lemma_said(
                    s3,
                    s4,
                    Call::Unlink(dir.ops, dir.location, name@),
                    Reply::Done(r),
                );
                lemma_extends(old(vfs)@, s3, s4);
            }
            r?;
            let r = vfs.services.try_remove_node(location, ops);
            proof {
                lemma_said(s4, vfs@, Call::TryRemoveNode(location, ops), Reply::Done(r));
                lemma_extends(old(vfs)@, s4, vfs@);
            }
            r
        },
    }
}

/// Helper function to remove a hard link from a given `path`.
pub fn unlink_from_path<B: Backend>(
    path: Path<'_>,
    resolution_settings: &ResolutionSettings,
    vfs: &mut Vfs<B>,
) -> (r: EResult<()>)
    requires
        old(vfs).wf(),
        old(vfs)@.owns(resolution_settings@.root),
        resolution_settings@.cwd matches Some(cwd) ==> old(vfs)@.owns(cwd),
        file_name(path@) is Some ==> (parent(path@) matches Some(dir_path) ==> starts(
            resolution_settings@,
            dir_path,
            old(vfs)@,
        )),
    ensures
        final(vfs).wf(),
        final(vfs)@.extends(old(vfs)@),
        forall|w: World<Reply>, v: World<RefReply>|
            #![trigger heard(final(vfs)@.log, w), heard(final(vfs)@.refs, v)]
            heard(final(vfs)@.log, w) && heard(final(vfs)@.refs, v) ==> unlink_path(
                w,
                v,
                old(vfs)@,
                path@,
                resolution_settings@,
            ) == (final(vfs)@, r),
{
    broadcast use lemma_heard;

    assert(vfs@.log =~= vfs@.log.subrange(0, vfs@.log.len() as int));
    let name: &[u8] = match path.file_name() {
        Some(name) => name,
        None => {
            return Err(ENOENT);
        },
    };
    let dir_path: PathBuf = match path.parent() {
        Some(dir_path) => dir_path,
        None => {
            return Err(ENOENT);
        },
    };
    let dir: Arc<Entry> = get_file_from_path(dir_path.as_path(), resolution_settings, vfs)?;
    let ghost s1 = vfs@;
    let r = unlink(dir, name, &resolution_settings.access_profile, vfs);
    proof {
        lemma_extends(old(vfs)@, s1, vfs@);
    }
    r
}

} // verus!
