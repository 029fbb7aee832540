//! What the operations of the VFS leave in the history when they return.
//!
//! Each law speaks of a call of the operation itself: of its arguments, of what it returned, and of
//! the calls that it added to the history.

use crate::errno::{
    EResult, EACCES, EMLINK, ENAMETOOLONG, ENODEV, ENOENT, ENOTTY, EPERM, EUCLEAN, EXDEV,
};
use crate::history::{heard, replies_of};
use crate::ioctl::Request;
use crate::limits::{LINK_MAX, PATH_MAX};
use crate::path::{components, parent, ComponentView, Path, PathBuf, SLASH};
use crate::perm::{directory_writable, AccessProfile};
use crate::stat::{DeviceID, DeviceType, FileLocation, FileType, Stat};
use crate::vfs::backend::{Backend, Call, Device, DirEntry, MountPoint, Node, Ops, Reply};
use crate::vfs::call_laws::{is_device, is_free_to_remove, is_no_device};
use crate::vfs::edit::{
    create, create_file, link, link_to, unlink, unlink_from_path, unlink_of, unlink_path,
};
use crate::vfs::entry::{names_path, Entry, EntryView};
use crate::vfs::file_ops::{node_of, on_vfs, File, FileOps};
use crate::vfs::references::{RefCall, RefReply};
use crate::vfs::resolve::{
    find_entry, get_file_from_path, get_file_from_path_opt, resolve_entry, resolve_path,
    resolve_whole, root, Place, ProcessFs, ResolutionSettings, Resolved,
};
use crate::vfs::state::{read_whole, release_of, Vfs};
use std::sync::Arc;
use vstd::prelude::*;

verus! {

/// The history of what was asked of the services, as the replies of a stream.
proof fn lemma_replies<C, R>(log: Seq<(C, R)>)
    ensures
        heard(log, replies_of(log)),
{
}

/// A write that returns did this: it is refused when the file is not open for writing. Else, when the
/// file is a device that exists, the last call wrote exactly the bytes that were given to exactly
/// that device at exactly the offset that was given; when it is no device, to its node on its file
/// system; and the result is the reply.
pub proof fn law_write<B: Backend>(
    ops: &FileOps,
    file: &File,
    off: u64,
    buf: &[u8],
    vfs: &mut Vfs<B>,
    r: EResult<usize>,
    stat: Stat,
    dev_type: DeviceType,
    dev: Device,
)
    requires
        call_ensures(FileOps::write::<B>, (ops, file, off, buf, vfs), r),
        on_vfs(file),
    ensures
        ({
            let n = old(vfs)@.log.len() as int;
            let log = final(vfs)@.log;
            let node = node_of(file);
            let id = DeviceID { dev_type, major: stat.dev_major, minor: stat.dev_minor };
            &&& !file.writable ==> r == Err::<usize, i32>(EACCES) && log == old(vfs)@.log
            &&& file.writable ==> {
                &&& log.len() > n && log.take(n) == old(vfs)@.log
                &&& log[n].0 == Call::GetStat(node.ops, node.location)
                &&& log[n].1 == Reply::Stat(Ok(stat)) && is_device(stat.mode, dev_type) ==> {
                    &&& log.len() > n + 1 && log[n + 1].0 == Call::GetDevice(id)
                    &&& log[n + 1].1 == Reply::Device(None) ==> log.len() == n + 2 && r == Err::<
                        usize,
                        i32,
                    >(ENODEV)
                    &&& log[n + 1].1 == Reply::Device(Some(dev)) ==> {
                        &&& log.len() == n + 3
                        &&& log[n + 2].0 == Call::DeviceWrite(dev, off, buf@)
                        &&& log[n + 2].1 matches Reply::Written(reply) ==> r == reply
                    }
                }
                &&& log[n].1 == Reply::Stat(Ok(stat)) && is_no_device(stat.mode) ==> {
                    &&& log.len() == n + 2
                    &&& log[n + 1].0 == Call::WriteContent(node.ops, node.location, off, buf@)
                    &&& log[n + 1].1 matches Reply::Written(reply) ==> r == reply
                }
                &&& log[n].1 matches Reply::Stat(Err(e)) ==> log.len() == n + 1 && r == Err::<
                    usize,
                    i32,
                >(e)
            }
        }),
{
    let log = final(vfs)@.log;
    lemma_replies(log);
    assert(log.take(old(vfs)@.log.len() as int) =~= old(vfs)@.log);
}

/// A read that returns did this: it is refused when the file is not open for reading. Else, when the
/// file is a device that exists, the last call read from exactly that device at exactly the offset
/// that was given, as many bytes as the buffer has room for; when it is no device, from its node on
/// its file system. What was read stands at the beginning of the buffer, as far as there is room, and
/// its length is the result; the rest of the buffer is as before.
pub proof fn law_read<B: Backend>(
    ops: &FileOps,
    file: &File,
    off: u64,
    buf: &mut [u8],
    vfs: &mut Vfs<B>,
    r: EResult<usize>,
    stat: Stat,
    dev_type: DeviceType,
    dev: Device,
)
    requires
        call_ensures(FileOps::read::<B>, (ops, file, off, buf, vfs), r),
        on_vfs(file),
        old(buf)@.len() <= usize::MAX,
    ensures
        ({
            let n = old(vfs)@.log.len() as int;
            let log = final(vfs)@.log;
            let node = node_of(file);
            let len = old(buf)@.len();
            let id = DeviceID { dev_type, major: stat.dev_major, minor: stat.dev_minor };
            &&& final(buf)@.len() == len
            &&& r is Err ==> final(buf)@ == old(buf)@
            &&& !file.readable ==> r == Err::<usize, i32>(EACCES) && log == old(vfs)@.log
            &&& file.readable ==> {
                &&& log.len() > n && log.take(n) == old(vfs)@.log
                &&& log[n].0 == Call::GetStat(node.ops, node.location)
                &&& log[n].1 == Reply::Stat(Ok(stat)) && is_device(stat.mode, dev_type) ==> {
                    &&& log.len() > n + 1 && log[n + 1].0 == Call::GetDevice(id)
                    &&& log[n + 1].1 == Reply::Device(None) ==> log.len() == n + 2 && r == Err::<
                        usize,
                        i32,
                    >(ENODEV)
                    &&& log[n + 1].1 == Reply::Device(Some(dev)) ==> log.len() == n + 3 && log[n
                        + 2].0 == Call::DeviceRead(dev, off, len as usize)
                }
                &&& log[n].1 == Reply::Stat(Ok(stat)) && is_no_device(stat.mode) ==> log.len() == n
                    + 2 && log[n + 1].0 == Call::ReadContent(
                    node.ops,
                    node.location,
                    off,
                    len as usize,
                )
                &&& log[n].1 == Reply::Stat(Ok(stat)) && (is_no_device(stat.mode) || is_device(
                    stat.mode,
                    dev_type,
                ) && log[n + 1].1 == Reply::Device(Some(dev))) ==> {
                    &&& log.last().1 matches Reply::Data(Err(e)) ==> r == Err::<usize, i32>(e)
                    &&& log.last().1 matches Reply::Data(Ok(data)) ==> {
                        &&& r matches Ok(k) && k <= data.len() && k <= len && (k == data.len() || k
                            == len)
                        &&& forall|i: int|
                            0 <= i < len ==> #[trigger] final(buf)@[i] == if i < data.len() {
                                data[i]
                            } else {
                                old(buf)@[i]
                            }
                    }
                }
            }
        }),
{
    let log = final(vfs)@.log;
    lemma_replies(log);
    assert(log.take(old(vfs)@.log.len() as int) =~= old(vfs)@.log);
}

/// A control request that returns went to the device of the file, as it was given; a file that is no
/// device has none.
pub proof fn law_ioctl<B: Backend>(
    ops: &FileOps,
    file: &File,
    request: Request,
    argp: usize,
    vfs: &mut Vfs<B>,
    r: EResult<u32>,
    stat: Stat,
    dev_type: DeviceType,
    dev: Device,
)
    requires
        call_ensures(FileOps::ioctl::<B>, (ops, file, request, argp, vfs), r),
        on_vfs(file),
    ensures
        ({
            let n = old(vfs)@.log.len() as int;
            let log = final(vfs)@.log;
            let node = node_of(file);
            let id = DeviceID { dev_type, major: stat.dev_major, minor: stat.dev_minor };
            &&& log.len() > n && log.take(n) == old(vfs)@.log
            &&& log[n].0 == Call::GetStat(node.ops, node.location)
            &&& log[n].1 == Reply::Stat(Ok(stat)) && is_device(stat.mode, dev_type) ==> {
                &&& log.len() > n + 1 && log[n + 1].0 == Call::GetDevice(id)
                &&& log[n + 1].1 == Reply::Device(Some(dev)) ==> {
                    &&& log.len() == n + 3
                    &&& log[n + 2].0 == Call::DeviceIoctl(dev, request, argp)
                    &&& log[n + 2].1 matches Reply::Value(reply) ==> r == reply
                }
            }
            &&& log[n].1 == Reply::Stat(Ok(stat)) && is_no_device(stat.mode) ==> log.len() == n + 1
                && r == Err::<u32, i32>(ENOTTY)
        }),
{
    let log = final(vfs)@.log;
    lemma_replies(log);
    assert(log.take(old(vfs)@.log.len() as int) =~= old(vfs)@.log);
}

/// A poll that returns asked the device of the file for the events in the mask that was given; a file
/// that is no device cannot be waited for.
pub proof fn law_poll<B: Backend>(
    ops: &FileOps,
    file: &File,
    mask: u32,
    vfs: &mut Vfs<B>,
    r: EResult<Option<u32>>,
    stat: Stat,
    dev_type: DeviceType,
    dev: Device,
)
    requires
        call_ensures(FileOps::poll::<B>, (ops, file, mask, vfs), r),
        on_vfs(file),
    ensures
        ({
            let n = old(vfs)@.log.len() as int;
            let log = final(vfs)@.log;
            let node = node_of(file);
            let id = DeviceID { dev_type, major: stat.dev_major, minor: stat.dev_minor };
            &&& log.len() > n && log.take(n) == old(vfs)@.log
            &&& log[n].0 == Call::GetStat(node.ops, node.location)
            &&& log[n].1 == Reply::Stat(Ok(stat)) && is_device(stat.mode, dev_type) ==> {
                &&& log.len() > n + 1 && log[n + 1].0 == Call::GetDevice(id)
                &&& log[n + 1].1 == Reply::Device(Some(dev)) ==> {
                    &&& log.len() == n + 3
                    &&& log[n + 2].0 == Call::DevicePoll(dev, mask)
                    &&& log[n + 2].1 matches Reply::Value(Ok(events)) ==> r == Ok::<
                        Option<u32>,
                        i32,
                    >(Some(events))
                    &&& log[n + 2].1 matches Reply::Value(Err(e)) ==> r == Err::<Option<u32>, i32>(e)
                }
            }
            &&& log[n].1 == Reply::Stat(Ok(stat)) && is_no_device(stat.mode) ==> log.len() == n + 1
                && r == Ok::<Option<u32>, i32>(None)
        }),
{
    let log = final(vfs)@.log;
    lemma_replies(log);
    assert(log.take(old(vfs)@.log.len() as int) =~= old(vfs)@.log);
}

/// A device that was polled by its identity was asked for by it, and for the events in the mask.
pub proof fn law_poll_device<B: Backend>(
    ops: &FileOps,
    id: DeviceID,
    mask: u32,
    vfs: &mut Vfs<B>,
    r: EResult<u32>,
    dev: Device,
)
    requires
        call_ensures(FileOps::poll_device::<B>, (ops, id, mask, vfs), r),
    ensures
        ({
            let n = old(vfs)@.log.len() as int;
            let log = final(vfs)@.log;
            &&& log.len() > n && log[n].0 == Call::GetDevice(id)
            &&& log[n].1 == Reply::Device(None) ==> log.len() == n + 1 && r == Err::<u32, i32>(
                ENODEV,
            )
            &&& log[n].1 == Reply::Device(Some(dev)) ==> {
                &&& log.len() == n + 2
                &&& log[n + 1].0 == Call::DevicePoll(dev, mask)
                &&& log[n + 1].1 matches Reply::Value(reply) ==> r == reply
            }
        }),
{
    lemma_replies(final(vfs)@.log);
}

/// The status of an open file is asked of its node, and is what came back.
pub proof fn law_get_stat<B: Backend>(
    ops: &FileOps,
    file: &File,
    vfs: &mut Vfs<B>,
    r: EResult<Stat>,
)
    requires
        call_ensures(FileOps::get_stat::<B>, (ops, file, vfs), r),
        on_vfs(file),
    ensures
        ({
            let node = node_of(file);
            let log = final(vfs)@.log;
            &&& log.len() == old(vfs)@.log.len() + 1
            &&& log.drop_last() == old(vfs)@.log
            &&& log.last().0 == Call::GetStat(node.ops, node.location)
            &&& log.last().1 matches Reply::Stat(reply) ==> r == reply
        }),
{
    lemma_replies(final(vfs)@.log);
    assert(final(vfs)@.log.drop_last() =~= old(vfs)@.log);
}

/// A creation that returns a file did this: the directory was one that the agent may write, and the
/// file system was asked to add the file to it, under the name that was given, owned by the agent's
/// effective user and by its effective group or, if the directory has the set-group-ID bit, by the
/// directory's group, and with everything else as it was given. The entry that is returned has that
/// name, in that directory.
pub proof fn law_create_file<B: Backend>(
    parent: Arc<Entry>,
    name: &[u8],
    ap: &AccessProfile,
    stat: Stat,
    vfs: &mut Vfs<B>,
    r: EResult<Arc<Entry>>,
    parent_stat: Stat,
)
    requires
        call_ensures(create_file::<B>, (parent, name, ap, stat, vfs), r),
        parent@.node is Some,
    ensures
        ({
            let n = old(vfs)@.log.len() as int;
            let log = final(vfs)@.log;
            let dir = parent@.node->0;
            &&& log.len() > n && log[n].0 == Call::GetStat(dir.ops, dir.location)
            &&& log[n].1 == Reply::Stat(Ok(parent_stat)) && parent_stat.mode & 0o170000 == 0o040000
                && directory_writable(*ap, parent_stat) ==> log.len() > n + 1
            &&& log.len() > n + 1 && log[n].1 == Reply::Stat(Ok(parent_stat)) ==> {
                &&& parent_stat.mode & 0o170000 == 0o040000
                &&& directory_writable(*ap, parent_stat)
                &&& log[n + 1].0 matches Call::AddFile(ops, location, asked_name, given) && {
                    &&& ops == dir.ops && location == dir.location && asked_name == name@
                    &&& given.uid == ap.euid
                    &&& parent_stat.mode & 0o2000 != 0 ==> given.gid == parent_stat.gid
                    &&& parent_stat.mode & 0o2000 == 0 ==> given.gid == ap.egid
                    &&& given == (Stat { uid: given.uid, gid: given.gid, ..stat })
                }
            }
            &&& r matches Ok(e) ==> {
                &&& log.len() == n + 3
                &&& e@.name == name@
                &&& e@.parent == Some(Box::new(parent@))
                &&& final(vfs)@.children == old(vfs)@.children.insert((parent@.id, name@), e@)
            }
            &&& r is Err ==> final(vfs)@.children == old(vfs)@.children
        }),
{
    let log = final(vfs)@.log;
    lemma_replies(log);
    assert(create(replies_of(log), old(vfs)@, parent@, name@, *ap, stat).0 == final(vfs)@);
}

/// When a directory that the agent may write is asked for, the outcome of a creation is up to the
/// services: their errors are its errors, and else the file is created.
pub proof fn law_create_file_outcome<B: Backend>(
    parent: Arc<Entry>,
    name: &[u8],
    ap: &AccessProfile,
    stat: Stat,
    vfs: &mut Vfs<B>,
    r: EResult<Arc<Entry>>,
)
    requires
        call_ensures(create_file::<B>, (parent, name, ap, stat, vfs), r),
        parent@.node is Some,
        final(vfs)@.log.len() > old(vfs)@.log.len() + 1,
    ensures
        ({
            let n = old(vfs)@.log.len() as int;
            let log = final(vfs)@.log;
            let mountpoint_id = parent@.node->0.location.mountpoint_id;
            &&& log[n + 1].1 matches Reply::Added(Err(e)) ==> r == Err::<Arc<Entry>, i32>(e)
            &&& log[n + 1].1 matches Reply::Added(Ok((inode, ops))) ==> {
                &&& log.len() == n + 3
                &&& log[n + 2].0 == Call::GetOrInsertNode(
                    FileLocation { mountpoint_id, inode },
                    ops,
                )
                &&& log[n + 2].1 matches Reply::Node(Err(e)) ==> r == Err::<Arc<Entry>, i32>(e)
                &&& log[n + 2].1 matches Reply::Node(Ok(node)) ==> old(vfs)@.next_id < u64::MAX
                    ==> (r matches Ok(e) && e@.node == Some(node))
            }
        }),
{
    let log = final(vfs)@.log;
    lemma_replies(log);
    assert(create(replies_of(log), old(vfs)@, parent@, name@, *ap, stat).0 == final(vfs)@);
}

/// A link that was asked for is exactly the one that was given, to a file that is no directory, on the
/// mountpoint of the directory, which the agent may write; and the reply is the result.
pub proof fn law_link<B: Backend>(
    parent: &Entry,
    name: &[u8],
    target: &Entry,
    ap: &AccessProfile,
    vfs: &mut Vfs<B>,
    r: EResult<()>,
    parent_stat: Stat,
    target_stat: Stat,
)
    requires
        call_ensures(link::<B>, (parent, name, target, ap, vfs), r),
        parent@.node is Some,
        target@.node is Some,
    ensures
        ({
            let n = old(vfs)@.log.len() as int;
            let log = final(vfs)@.log;
            let dir = parent@.node->0;
            let to = target@.node->0;
            &&& final(vfs)@.children == old(vfs)@.children
            &&& n < log.len() <= n + 3
            &&& log.len() < n + 3 ==> r is Err
            &&& log.len() == n + 3 ==> {
                &&& log[n].0 == Call::GetStat(dir.ops, dir.location)
                &&& log[n + 1].0 == Call::GetStat(to.ops, to.location)
                &&& log[n + 2].0 == Call::Link(dir.ops, dir.location, name@, to.location.inode)
                &&& log[n + 2].1 matches Reply::Done(reply) ==> r == reply
                &&& dir.location.mountpoint_id == to.location.mountpoint_id
                &&& log[n].1 == Reply::Stat(Ok(parent_stat)) ==> parent_stat.mode & 0o170000
                    == 0o040000 && directory_writable(*ap, parent_stat)
                &&& log[n + 1].1 == Reply::Stat(Ok(target_stat)) ==> target_stat.mode & 0o170000
                    != 0o040000
            }
        }),
{
    let log = final(vfs)@.log;
    lemma_replies(log);
    let w = replies_of(log);
    let (s1, r1) = link_to(w, old(vfs)@, parent@.node->0, name@, target@.node->0, *ap);
    assert(s1 == final(vfs)@ && r1 == r);
}

/// A link that is removed is exactly the one that was given, from a directory that the agent may
/// write. Whether it is removed is decided by what the services said: when the directory has no
/// sticky bit, or the agent owns the file or the directory, and the file is there and is not a
/// mountpoint, the file system is asked.
pub proof fn law_unlink<B: Backend>(
    parent: Arc<Entry>,
    name: &[u8],
    ap: &AccessProfile,
    vfs: &mut Vfs<B>,
    r: EResult<()>,
    parent_stat: Stat,
    stat: Stat,
    node: Node,
    entry: DirEntry,
    ops: Ops,
)
    requires
        call_ensures(unlink::<B>, (parent, name, ap, vfs), r),
        old(vfs).wf(),
        parent@.node is Some,
    ensures
        ({
            let n = old(vfs)@.log.len() as int;
            let log = final(vfs)@.log;
            let dir = parent@.node->0;
            let key = (parent@.id, name@);
            let removal = Call::Unlink(dir.ops, dir.location, name@);
            let is_cached = old(vfs)@.children.contains_key(key);
            let location = FileLocation {
                mountpoint_id: dir.location.mountpoint_id,
                inode: entry.inode,
            };
            &&& log.len() > n && log[n].0 == Call::GetStat(dir.ops, dir.location)
            &&& r is Ok ==> !final(vfs)@.children.contains_key(key)
            &&& r is Ok ==> log.len() > n + 2 && (log[n + 2].0 == removal || log.len() > n + 3
                && log[n + 3].0 == removal)
            &&& log[n].1 == Reply::Stat(Ok(parent_stat)) ==> {
                &&& parent_stat.mode & 0o170000 != 0o040000 || !directory_writable(*ap, parent_stat)
                    ==> log.len() == n + 1 && r is Err
                &&& parent_stat.mode & 0o170000 == 0o040000 && directory_writable(*ap, parent_stat)
                    ==> {
                    &&& is_cached && old(vfs)@.children[key].node == Some(node)
                        && node.location.mountpoint_id == dir.location.mountpoint_id ==> {
                        &&& log.len() > n + 1
                        &&& log[n + 1].0 == Call::GetStat(node.ops, node.location)
                        &&& log[n + 1].1 == Reply::Stat(Ok(stat)) && is_free_to_remove(
                            *ap,
                            stat,
                            parent_stat,
                        ) ==> {
                            &&& log.len() > n + 2 && log[n + 2].0 == removal
                            &&& log[n + 2].1 matches Reply::Done(Err(e)) ==> r == Err::<(), i32>(e)
                        }
                        &&& log[n + 1].1 == Reply::Stat(Ok(stat)) && !is_free_to_remove(
                            *ap,
                            stat,
                            parent_stat,
                        ) ==> log.len() == n + 2 && r == Err::<(), i32>(EACCES)
                    }
                    &&& !is_cached ==> {
                        &&& log.len() > n + 1
                        &&& log[n + 1].0 == Call::EntryByName(dir.ops, dir.location, name@)
                        &&& log[n + 1].1 == Reply::Entry(Ok(None)) ==> r == Err::<(), i32>(ENOENT)
                        &&& log[n + 1].1 == Reply::Entry(Ok(Some((entry, ops)))) ==> {
                            &&& log.len() > n + 2
                            &&& log[n + 2].0 == Call::GetStat(ops, location)
                            &&& log[n + 2].1 == Reply::Stat(Ok(stat)) && is_free_to_remove(
                                *ap,
                                stat,
                                parent_stat,
                            ) ==> {
                                &&& log.len() > n + 3 && log[n + 3].0 == removal
                                &&& log[n + 3].1 matches Reply::Done(Err(e)) ==> r == Err::<
                                    (),
                                    i32,
                                >(e)
                                &&& log[n + 3].1 == Reply::Done(Ok(())) ==> {
                                    &&& log.len() == n + 5
                                    &&& log[n + 4].0 == Call::TryRemoveNode(location, ops)
                                    &&& log[n + 4].1 matches Reply::Done(reply) ==> r == reply
                                }
                            }
                            &&& log[n + 2].1 == Reply::Stat(Ok(stat)) && !is_free_to_remove(
                                *ap,
                                stat,
                                parent_stat,
                            ) ==> log.len() == n + 3 && r == Err::<(), i32>(EACCES)
                        }
                    }
                }
            }
        }),
{
    let log = final(vfs)@.log;
    let refs = final(vfs)@.refs;
    lemma_replies(log);
    lemma_replies(refs);
    let w = replies_of(log);
    let v = replies_of(refs);
    let (s1, r1) = unlink_of(w, v, old(vfs)@, parent@, name@, *ap);
    assert(s1 == final(vfs)@ && r1 == r);
}

/// A path is unlinked by removing its last name from where the path of its parent leads, with the
/// same settings.
pub proof fn law_unlink_from_path<B: Backend>(
    path: Path<'_>,
    settings: &ResolutionSettings,
    vfs: &mut Vfs<B>,
    r: EResult<()>,
)
    requires
        call_ensures(unlink_from_path::<B>, (path, settings, vfs), r),
    ensures
        ({
            let w = replies_of(final(vfs)@.log);
            let v = replies_of(final(vfs)@.refs);
            let comps = components(path@);
            &&& comps.len() == 0 || !(comps.last() is Normal) ==> r == Err::<(), i32>(ENOENT)
                && final(vfs)@ == old(vfs)@
            &&& comps.len() > 0 ==> (comps.last() matches ComponentView::Normal(name) ==> (parent(
                path@,
            ) matches Some(dir_path) ==> {
                let (s1, place) = resolve_whole(w, old(vfs)@, dir_path, settings@);
                &&& place matches Ok(Place::Found(dir)) ==> unlink_of(
                    w,
                    v,
                    s1,
                    dir,
                    name,
                    settings@.access_profile,
                ) == (final(vfs)@, r)
                &&& place matches Err(e) ==> s1 == final(vfs)@ && r == Err::<(), i32>(e)
            }))
        }),
{
    lemma_replies(final(vfs)@.log);
    lemma_replies(final(vfs)@.refs);
    let w = replies_of(final(vfs)@.log);
    let v = replies_of(final(vfs)@.refs);
    assert(unlink_path(w, v, old(vfs)@, path@, settings@) == (final(vfs)@, r));
}

/// A name is resolved in exactly the directory that was given: from the cache if it is there, else by
/// asking the file system; and what is found becomes a cached entry of the directory.
pub proof fn law_resolve_entry<B: Backend>(
    dir: &Arc<Entry>,
    name: &[u8],
    vfs: &mut Vfs<B>,
    r: EResult<Option<Arc<Entry>>>,
)
    requires
        call_ensures(resolve_entry::<B>, (dir, name, vfs), r),
        dir@.node is Some,
    ensures
        ({
            let n = old(vfs)@.log.len() as int;
            let log = final(vfs)@.log;
            let at = dir@.node->0;
            let key = (dir@.id, name@);
            &&& old(vfs)@.children.contains_key(key) ==> {
                let e = old(vfs)@.children[key];
                &&& final(vfs)@ == old(vfs)@
                &&& e.node is Some ==> (r matches Ok(Some(found)) && found@ == e)
                &&& e.node is None ==> (r matches Ok(found) && found is None)
            }
            &&& !old(vfs)@.children.contains_key(key) ==> {
                &&& log.len() > n
                &&& log[n].0 == Call::EntryByName(at.ops, at.location, name@)
                &&& log[n].1 == Reply::Entry(Ok(None)) ==> log.len() == n + 1 && (r matches Ok(found)
                    && found is None)
                &&& log[n].1 matches Reply::Entry(Err(e)) ==> log.len() == n + 1 && r == Err::<
                    Option<Arc<Entry>>,
                    i32,
                >(e)
                &&& log[n].1 matches Reply::Entry(Ok(Some((entry, ops)))) ==> {
                    let location = FileLocation {
                        mountpoint_id: at.location.mountpoint_id,
                        inode: entry.inode,
                    };
                    &&& log.len() == n + 2
                    &&& log[n + 1].0 == Call::InsertNode(Node { location, ops })
                    &&& log[n + 1].1 matches Reply::Node(Ok(node)) ==> old(vfs)@.next_id < u64::MAX
                        ==> (r matches Ok(Some(found)) && found@.node == Some(node) && found@.name
                        == name@ && found@.parent == Some(Box::new(dir@)) && final(vfs)@.children
                        == old(vfs)@.children.insert(key, found@))
                }
            }
        }),
{
    let log = final(vfs)@.log;
    lemma_replies(log);
    assert(find_entry(replies_of(log), old(vfs)@, dir@, name@).0 == final(vfs)@);
}

/// A path is resolved as it was given, with the settings that were given, and what it leads to is
/// what is returned.
pub proof fn law_resolve_path<'p, B: Backend>(
    path: Path<'p>,
    settings: &ResolutionSettings,
    vfs: &mut Vfs<B>,
    r: EResult<Resolved<'p>>,
)
    requires
        call_ensures(resolve_path::<B>, (path, settings, vfs), r),
    ensures
        ({
            let w = replies_of(final(vfs)@.log);
            let (s1, place) = resolve_whole(w, old(vfs)@, path@, settings@);
            &&& s1 == final(vfs)@
            &&& r matches Ok(Resolved::Found(e)) ==> place == Ok::<Place, i32>(Place::Found(e@))
            &&& r matches Ok(Resolved::Creatable { parent, name }) ==> place == Ok::<Place, i32>(
                Place::Creatable(parent@, name@),
            )
            &&& r matches Err(e) ==> place == Err::<Place, i32>(e)
        }),
{
    lemma_replies(final(vfs)@.log);
}

/// The file at a path is what the path leads to, with the settings that were given.
pub proof fn law_get_file_from_path<B: Backend>(
    path: Path<'_>,
    settings: &ResolutionSettings,
    vfs: &mut Vfs<B>,
    r: EResult<Arc<Entry>>,
)
    requires
        call_ensures(get_file_from_path::<B>, (path, settings, vfs), r),
    ensures
        ({
            let w = replies_of(final(vfs)@.log);
            let (s1, place) = resolve_whole(w, old(vfs)@, path@, settings@);
            &&& s1 == final(vfs)@
            &&& place matches Ok(Place::Found(e)) ==> (r matches Ok(found) && found@ == e)
            &&& (place matches Ok(Place::Creatable(_, _))) ==> r == Err::<Arc<Entry>, i32>(ENOENT)
            &&& place matches Err(e) ==> r == Err::<Arc<Entry>, i32>(e)
        }),
{
    lemma_replies(final(vfs)@.log);
}

/// The file at a path, if it exists, is what the path leads to, with the settings that were given.
pub proof fn law_get_file_from_path_opt<B: Backend>(
    path: Path<'_>,
    settings: &ResolutionSettings,
    vfs: &mut Vfs<B>,
    r: EResult<Option<Arc<Entry>>>,
)
    requires
        call_ensures(get_file_from_path_opt::<B>, (path, settings, vfs), r),
    ensures
        ({
            let w = replies_of(final(vfs)@.log);
            let (s1, place) = resolve_whole(w, old(vfs)@, path@, settings@);
            &&& s1 == final(vfs)@
            &&& place matches Ok(Place::Found(e)) ==> (r matches Ok(Some(found)) && found@ == e)
            &&& (place matches Ok(Place::Creatable(_, _))) || place == Err::<Place, i32>(ENOENT) ==> (
            r matches Ok(found) && found is None)
            &&& place matches Err(e) ==> e != ENOENT ==> r == Err::<Option<Arc<Entry>>, i32>(e)
        }),
{
    lemma_replies(final(vfs)@.log);
}

/// The settings of the kernel start at the root of the VFS, act as the superuser, and create nothing;
/// they differ in whether links are followed. Those of a process have its root, its current working
/// directory and its access profile.
pub proof fn law_settings<B: Backend>(
    vfs: &Vfs<B>,
    follow: ResolutionSettings,
    nofollow: ResolutionSettings,
    fs: &ProcessFs,
    follow_links: bool,
    process: ResolutionSettings,
    e: Arc<Entry>,
)
    requires
        call_ensures(ResolutionSettings::kernel_follow::<B>, (vfs,), follow),
        call_ensures(ResolutionSettings::kernel_nofollow::<B>, (vfs,), nofollow),
        call_ensures(ResolutionSettings::for_process, (fs, follow_links), process),
        call_ensures(root::<B>, (vfs,), e),
    ensures
        e@ == vfs@.root,
        follow@.root == vfs@.root && nofollow@.root == vfs@.root,
        follow@.cwd is None && nofollow@.cwd is None,
        follow@.access_profile.euid == 0 && follow@.access_profile.egid == 0,
        nofollow@.access_profile.euid == 0 && nofollow@.access_profile.egid == 0,
        !follow@.create && !nofollow@.create && !process@.create,
        follow@.follow_link && !nofollow@.follow_link && process@.follow_link == follow_links,
        process@.root == fs.chroot@,
        process@.cwd == Some(fs.cwd@),
        process@.access_profile == fs.access_profile,
{
}

/// The type of an entry is read from the bits of its mode, as its file system gives it.
pub proof fn law_get_type<B: Backend>(
    entry: &Entry,
    vfs: &mut Vfs<B>,
    r: EResult<FileType>,
    stat: Stat,
)
    requires
        call_ensures(Entry::get_type::<B>, (entry, vfs), r),
        entry@.node is Some,
    ensures
        ({
            let n = old(vfs)@.log.len() as int;
            let log = final(vfs)@.log;
            let node = entry@.node->0;
            let bits = stat.mode & 0o170000;
            &&& log.len() == n + 1 && log[n].0 == Call::GetStat(node.ops, node.location)
            &&& log[n].1 matches Reply::Stat(Err(e)) ==> r == Err::<FileType, i32>(e)
            &&& log[n].1 == Reply::Stat(Ok(stat)) ==> {
                &&& r == Ok::<FileType, i32>(FileType::Link) <==> bits == 0o120000
                &&& r == Ok::<FileType, i32>(FileType::Regular) <==> bits == 0o100000
                &&& r == Ok::<FileType, i32>(FileType::Directory) <==> bits == 0o040000
                &&& r == Ok::<FileType, i32>(FileType::Socket) <==> bits == 0o140000
                &&& r == Ok::<FileType, i32>(FileType::BlockDevice) <==> bits == 0o060000
                &&& r == Ok::<FileType, i32>(FileType::CharDevice) <==> bits == 0o020000
                &&& r == Ok::<FileType, i32>(FileType::Fifo) <==> bits == 0o010000
                &&& r matches Err(e) ==> e == EUCLEAN
            }
        }),
{
    lemma_replies(final(vfs)@.log);
}

/// The status of an entry is what its file system replies.
pub proof fn law_stat<B: Backend>(entry: &Entry, vfs: &mut Vfs<B>, r: EResult<Stat>)
    requires
        call_ensures(Entry::stat::<B>, (entry, vfs), r),
        entry@.node is Some,
    ensures
        ({
            let n = old(vfs)@.log.len() as int;
            let log = final(vfs)@.log;
            let node = entry@.node->0;
            &&& log.len() == n + 1 && log[n].0 == Call::GetStat(node.ops, node.location)
            &&& log[n].1 matches Reply::Stat(reply) ==> r == reply
        }),
{
    lemma_replies(final(vfs)@.log);
}

/// The mountpoint that an entry is the root of is asked for where the mountpoint changes, and there
/// alone.
pub proof fn law_get_mountpoint<B: Backend>(
    entry: &Entry,
    vfs: &mut Vfs<B>,
    r: Option<MountPoint>,
)
    requires
        call_ensures(Entry::get_mountpoint::<B>, (entry, vfs), r),
    ensures
        ({
            let n = old(vfs)@.log.len() as int;
            let log = final(vfs)@.log;
            let id = entry@.node->0.location.mountpoint_id;
            &&& entry@.node is None ==> r is None && log == old(vfs)@.log
            &&& entry@.node is Some ==> {
                let changes = entry@.parent matches Some(p) ==> (p.node matches Some(node)
                    ==> node.location.mountpoint_id != id);
                let same = entry@.parent matches Some(p) && p.node matches Some(node)
                    && node.location.mountpoint_id == id;
                &&& same ==> r is None && log == old(vfs)@.log
                &&& entry@.parent is None || changes && (entry@.parent matches Some(p)
                    && p.node is Some) ==> {
                    &&& log.len() == n + 1 && log[n].0 == Call::MountPointFromId(id)
                    &&& log[n].1 matches Reply::MountPoint(reply) ==> r == reply
                }
            }
        }),
{
    lemma_replies(final(vfs)@.log);
}

/// A file is read whole by reading its own node.
pub proof fn law_read_all<B: Backend>(entry: &Entry, vfs: &mut Vfs<B>, r: EResult<Vec<u8>>)
    requires
        call_ensures(Entry::read_all::<B>, (entry, vfs), r),
        entry@.node is Some,
    ensures
        ({
            let w = replies_of(final(vfs)@.log);
            let (s1, data) = read_whole(w, old(vfs)@, entry@.node->0);
            &&& s1 == final(vfs)@
            &&& data matches Ok(bytes) ==> (r matches Ok(v) && v@ == bytes)
            &&& data matches Err(e) ==> r == Err::<Vec<u8>, i32>(e)
        }),
{
    lemma_replies(final(vfs)@.log);
}

/// An entry that is released is asked for its references. While more than two are left, it stays as
/// it is. Else it leaves the cache, and if the last reference went, its node is given back.
pub proof fn law_release<B: Backend>(
    entry: Arc<Entry>,
    vfs: &mut Vfs<B>,
    r: EResult<()>,
    p: EntryView,
    node: Node,
)
    requires
        call_ensures(Entry::release::<B>, (entry, vfs), r),
        entry@.node == Some(node),
    ensures
        ({
            let n = old(vfs)@.log.len() as int;
            let m = old(vfs)@.refs.len() as int;
            let log = final(vfs)@.log;
            let refs = final(vfs)@.refs;
            let children = old(vfs)@.children;
            &&& entry@.parent is None ==> final(vfs)@ == old(vfs)@ && r == Ok::<(), i32>(())
            &&& entry@.parent == Some(Box::new(p)) ==> {
                &&& refs.len() > m && refs[m].0 == RefCall::Count(entry@.id)
                &&& refs[m].1 matches RefReply::Count(count) ==> {
                    &&& count > 2 ==> log == old(vfs)@.log && final(vfs)@.children == children && r
                        == Ok::<(), i32>(())
                    &&& count <= 2 ==> {
                        &&& final(vfs)@.children == children.remove((p.id, entry@.name))
                        &&& refs.len() == m + 2 && refs[m + 1].0 == RefCall::Take(entry@.id)
                        &&& refs[m + 1].1 == RefReply::Taken(false) ==> log == old(vfs)@.log && r
                            == Ok::<(), i32>(())
                        &&& refs[m + 1].1 == RefReply::Taken(true) ==> {
                            &&& log.len() == n + 1 && log[n].0 == Call::ReleaseNode(node)
                            &&& log[n].1 matches Reply::Done(reply) ==> r == reply
                        }
                    }
                }
            }
        }),
{
    lemma_replies(final(vfs)@.log);
    lemma_replies(final(vfs)@.refs);
    let w = replies_of(final(vfs)@.log);
    let v = replies_of(final(vfs)@.refs);
    assert(release_of(w, v, old(vfs)@, entry@) == (final(vfs)@, r));
}

/// The outcome of a link is decided by the replies: a directory as the target, too many links to it,
/// a directory that may not be written, or another mountpoint refuse it, in this order; nothing else
/// does but the services.
pub proof fn law_link_outcome<B: Backend>(
    parent: &Entry,
    name: &[u8],
    target: &Entry,
    ap: &AccessProfile,
    vfs: &mut Vfs<B>,
    r: EResult<()>,
    parent_stat: Stat,
    target_stat: Stat,
)
    requires
        call_ensures(link::<B>, (parent, name, target, ap, vfs), r),
        parent@.node is Some,
        target@.node is Some,
        final(vfs)@.log.len() > old(vfs)@.log.len() + 1,
        final(vfs)@.log[old(vfs)@.log.len() as int].1 == Reply::Stat(Ok(parent_stat)),
        final(vfs)@.log[(old(vfs)@.log.len() + 1) as int].1 == Reply::Stat(Ok(target_stat)),
    ensures
        ({
            let n = old(vfs)@.log.len() as int;
            let log = final(vfs)@.log;
            let is_dir = target_stat.mode & 0o170000 == 0o040000;
            let is_full = target_stat.nlink >= LINK_MAX;
            let is_denied = !directory_writable(*ap, parent_stat);
            let is_elsewhere = parent@.node->0.location.mountpoint_id
                != target@.node->0.location.mountpoint_id;
            &&& is_dir ==> r == Err::<(), i32>(EPERM)
            &&& !is_dir && is_full ==> r == Err::<(), i32>(EMLINK)
            &&& !is_dir && !is_full && is_denied ==> r == Err::<(), i32>(EACCES)
            &&& !is_dir && !is_full && !is_denied && is_elsewhere ==> r == Err::<(), i32>(EXDEV)
            &&& log.len() == n + 3 <==> !is_dir && !is_full && !is_denied && !is_elsewhere
        }),
{
    let log = final(vfs)@.log;
    lemma_replies(log);
    let w = replies_of(log);
    let (s1, r1) = link_to(w, old(vfs)@, parent@.node->0, name@, target@.node->0, *ap);
    assert(s1 == final(vfs)@ && r1 == r);
}

/// The path of an entry is that of its parent, a slash, and its name; the path of the root is a slash.
pub proof fn law_get_path(
    entry: &Arc<Entry>,
    path: EResult<PathBuf>,
    dir: &Arc<Entry>,
    dir_path: EResult<PathBuf>,
)
    requires
        call_ensures(Entry::get_path, (entry,), path),
        call_ensures(Entry::get_path, (dir,), dir_path),
    ensures
        entry@.parent is None ==> (path matches Ok(p) && p@ == seq![0x2fu8]),
        entry@.parent == Some(Box::new(dir@)) ==> (path matches Ok(p) ==> (dir_path matches Ok(d)
            && p@ == if dir@.parent is None {
            seq![0x2fu8] + entry@.name
        } else {
            d@ + seq![0x2fu8] + entry@.name
        })),
        entry@.parent is Some ==> (path matches Ok(p) ==> p@.len() <= PATH_MAX),
        path matches Err(e) ==> e == ENAMETOOLONG,
        entry@.parent == Some(Box::new(dir@)) ==> (dir_path matches Ok(d) ==> d@.len()
            + entry@.name.len() + 1 <= PATH_MAX ==> path is Ok),
{
    if entry@.parent == Some(Box::new(dir@)) {
        let names = names_path(dir@);
        assert(names_path(entry@) == names + seq![SLASH] + entry@.name);
        if dir@.parent is None {
            assert(names =~= Seq::<u8>::empty());
            assert(names_path(entry@) =~= seq![SLASH] + entry@.name);
        }
    }
}

} // verus!
