//! What the operations of the VFS ask of the services, and what they make of the answers.
//!
//! The laws name the calls one by one, with their arguments, and the replies by their positions in
//! the stream.

use crate::errno::{
    EACCES, EMLINK, ENODEV, ENOENT, ENOTDIR, ENOTTY, EPERM, EUCLEAN, EXDEV,
};
use crate::history::World;
use crate::ioctl::Request;
use crate::limits::LINK_MAX;
use crate::perm::{directory_writable, AccessProfile};
use crate::stat::{DeviceID, DeviceType, FileLocation, FileType, Stat};
use crate::vfs::backend::{Call, Device, DirEntry, MountPoint, Node, Ops, Reply};
use crate::vfs::edit::{create, link_to, unlink_of};
use crate::vfs::entry::EntryView;
use crate::vfs::file_ops::{filled, filled_len, ioctl_of, poll_node, poll_of, read_of, write_of};
use crate::vfs::references::{RefCall, RefReply};
use crate::vfs::resolve::find_entry;
use crate::vfs::state::{mountpoint_of, release_of, stat_of, type_of, VfsView};
use vstd::prelude::*;

verus! {

/// The bits of `mode` stand for a device, and this is its type.
pub open spec fn is_device(mode: u32, dev_type: DeviceType) -> bool {
    match dev_type {
        DeviceType::Block => mode & 0o170000 == 0o060000,
        DeviceType::Char => mode & 0o170000 == 0o020000,
    }
}

/// The bits of `mode` stand for no device.
pub open spec fn is_no_device(mode: u32) -> bool {
    mode & 0o170000 != 0o060000 && mode & 0o170000 != 0o020000
}

/// A write to a device file goes to the device that the status of the file names, at exactly the
/// offset that was given and with exactly the bytes that were given, and the device's reply is the
/// result.
pub proof fn law_write_goes_to_the_device(
    w: World<Reply>,
    s: VfsView,
    node: Node,
    off: u64,
    data: Seq<u8>,
    stat: Stat,
    dev_type: DeviceType,
    dev: Device,
)
    requires
        w(s.log.len() as int) == Reply::Stat(Ok(stat)),
        is_device(stat.mode, dev_type),
        w((s.log.len() + 1) as int) == Reply::Device(Some(dev)),
    ensures
        ({
            let n = s.log.len() as int;
            let id = DeviceID { dev_type, major: stat.dev_major, minor: stat.dev_minor };
            let (s1, r) = write_of(w, s, node, off, data);
            &&& s1.log == s.log.push((Call::GetStat(node.ops, node.location), w(n))).push(
                (Call::GetDevice(id), w(n + 1)),
            ).push((Call::DeviceWrite(dev, off, data), w(n + 2)))
            &&& s1 == VfsView { log: s1.log, ..s }
            &&& w(n + 2) matches Reply::Written(reply) ==> r == reply
        }),
{
}

/// A write to any other file goes to its file system, at the offset and with the bytes that were
/// given, and the file system's reply is the result.
pub proof fn law_write_goes_to_the_file_system(
    w: World<Reply>,
    s: VfsView,
    node: Node,
    off: u64,
    data: Seq<u8>,
    stat: Stat,
)
    requires
        w(s.log.len() as int) == Reply::Stat(Ok(stat)),
        is_no_device(stat.mode),
    ensures
        ({
            let n = s.log.len() as int;
            let (s1, r) = write_of(w, s, node, off, data);
            &&& s1.log == s.log.push((Call::GetStat(node.ops, node.location), w(n))).push(
                (Call::WriteContent(node.ops, node.location, off, data), w(n + 1)),
            )
            &&& s1 == VfsView { log: s1.log, ..s }
            &&& w(n + 1) matches Reply::Written(reply) ==> r == reply
        }),
{
}

/// A read from a device file comes from the device that the status of the file names, from exactly
/// the offset that was given, and the device's reply is what was read.
pub proof fn law_read_comes_from_the_device(
    w: World<Reply>,
    s: VfsView,
    node: Node,
    off: u64,
    len: usize,
    stat: Stat,
    dev_type: DeviceType,
    dev: Device,
)
    requires
        w(s.log.len() as int) == Reply::Stat(Ok(stat)),
        is_device(stat.mode, dev_type),
        w((s.log.len() + 1) as int) == Reply::Device(Some(dev)),
    ensures
        ({
            let n = s.log.len() as int;
            let id = DeviceID { dev_type, major: stat.dev_major, minor: stat.dev_minor };
            let (s1, r) = read_of(w, s, node, off, len);
            &&& s1.log == s.log.push((Call::GetStat(node.ops, node.location), w(n))).push(
                (Call::GetDevice(id), w(n + 1)),
            ).push((Call::DeviceRead(dev, off, len), w(n + 2)))
            &&& s1 == VfsView { log: s1.log, ..s }
            &&& w(n + 2) matches Reply::Data(reply) ==> r == reply
        }),
{
}

/// A read from any other file comes from its file system, from the offset that was given.
pub proof fn law_read_comes_from_the_file_system(
    w: World<Reply>,
    s: VfsView,
    node: Node,
    off: u64,
    len: usize,
    stat: Stat,
)
    requires
        w(s.log.len() as int) == Reply::Stat(Ok(stat)),
        is_no_device(stat.mode),
    ensures
        ({
            let n = s.log.len() as int;
            let (s1, r) = read_of(w, s, node, off, len);
            &&& s1.log == s.log.push((Call::GetStat(node.ops, node.location), w(n))).push(
                (Call::ReadContent(node.ops, node.location, off, len), w(n + 1)),
            )
            &&& s1 == VfsView { log: s1.log, ..s }
            &&& w(n + 1) matches Reply::Data(reply) ==> r == reply
        }),
{
}

/// A control request on a device file goes to the device as it was given, and the device's reply is
/// the result. On any other file, it is refused.
pub proof fn law_ioctl_goes_to_the_device(
    w: World<Reply>,
    s: VfsView,
    node: Node,
    request: Request,
    argp: usize,
    stat: Stat,
    dev_type: DeviceType,
    dev: Device,
)
    requires
        w(s.log.len() as int) == Reply::Stat(Ok(stat)),
        w((s.log.len() + 1) as int) == Reply::Device(Some(dev)),
    ensures
        ({
            let n = s.log.len() as int;
            let id = DeviceID { dev_type, major: stat.dev_major, minor: stat.dev_minor };
            let l1 = s.log.push((Call::GetStat(node.ops, node.location), w(n)));
            let (s1, r) = ioctl_of(w, s, node, request, argp);
            &&& s1 == VfsView { log: s1.log, ..s }
            &&& is_device(stat.mode, dev_type) ==> {
                &&& s1.log == l1.push((Call::GetDevice(id), w(n + 1))).push(
                    (Call::DeviceIoctl(dev, request, argp), w(n + 2)),
                )
                &&& w(n + 2) matches Reply::Value(reply) ==> r == reply
            }
            &&& is_no_device(stat.mode) ==> s1.log == l1 && r == Err::<u32, i32>(ENOTTY)
        }),
{
}

/// A device file is polled by asking its device for the events in the mask that was given. Any
/// other file cannot be waited for.
pub proof fn law_poll_goes_to_the_device(
    w: World<Reply>,
    s: VfsView,
    node: Node,
    mask: u32,
    stat: Stat,
    dev_type: DeviceType,
    dev: Device,
)
    requires
        w(s.log.len() as int) == Reply::Stat(Ok(stat)),
        w((s.log.len() + 1) as int) == Reply::Device(Some(dev)),
    ensures
        ({
            let n = s.log.len() as int;
            let id = DeviceID { dev_type, major: stat.dev_major, minor: stat.dev_minor };
            let l1 = s.log.push((Call::GetStat(node.ops, node.location), w(n)));
            let (s1, r) = poll_node(w, s, node, mask);
            &&& s1 == VfsView { log: s1.log, ..s }
            &&& is_device(stat.mode, dev_type) ==> {
                &&& s1.log == l1.push((Call::GetDevice(id), w(n + 1))).push(
                    (Call::DevicePoll(dev, mask), w(n + 2)),
                )
                &&& w(n + 2) matches Reply::Value(Ok(events)) ==> r == Ok::<Option<u32>, i32>(
                    Some(events),
                )
                &&& w(n + 2) matches Reply::Value(Err(e)) ==> r == Err::<Option<u32>, i32>(e)
            }
            &&& is_no_device(stat.mode) ==> s1.log == l1 && r == Ok::<Option<u32>, i32>(None)
        }),
{
}

/// A device that is polled by its identity is asked for that identity and that mask.
pub proof fn law_poll_of_a_device(
    w: World<Reply>,
    s: VfsView,
    id: DeviceID,
    mask: u32,
    dev: Device,
)
    requires
        w(s.log.len() as int) == Reply::Device(Some(dev)),
    ensures
        ({
            let n = s.log.len() as int;
            let (s1, r) = poll_of(w, s, id, mask);
            &&& s1.log == s.log.push((Call::GetDevice(id), w(n))).push(
                (Call::DevicePoll(dev, mask), w(n + 1)),
            )
            &&& s1 == VfsView { log: s1.log, ..s }
            &&& w(n + 1) matches Reply::Value(reply) ==> r == reply
        }),
{
}

/// A device file whose device does not exist is neither read, nor written, nor controlled, nor
/// polled: the error says so, and nothing else is asked.
pub proof fn law_missing_device_is_reported(
    w: World<Reply>,
    s: VfsView,
    node: Node,
    off: u64,
    data: Seq<u8>,
    len: usize,
    request: Request,
    argp: usize,
    stat: Stat,
    dev_type: DeviceType,
)
    requires
        w(s.log.len() as int) == Reply::Stat(Ok(stat)),
        is_device(stat.mode, dev_type),
        w((s.log.len() + 1) as int) == Reply::Device(None),
    ensures
        ({
            let n = s.log.len() as int;
            let id = DeviceID { dev_type, major: stat.dev_major, minor: stat.dev_minor };
            let s2 = VfsView {
                log: s.log.push((Call::GetStat(node.ops, node.location), w(n))).push(
                    (Call::GetDevice(id), w(n + 1)),
                ),
                ..s
            };
            &&& write_of(w, s, node, off, data) == (s2, Err::<usize, i32>(ENODEV))
            &&& read_of(w, s, node, off, len) == (s2, Err::<Seq<u8>, i32>(ENODEV))
            &&& ioctl_of(w, s, node, request, argp) == (s2, Err::<u32, i32>(ENODEV))
            &&& poll_node(w, s, node, argp as u32) == (s2, Err::<Option<u32>, i32>(ENODEV))
        }),
{
}

/// When the status of a file cannot be had, its error is the result of every operation on the file,
/// and nothing else is asked.
pub proof fn law_missing_status_ends_file_operations(
    w: World<Reply>,
    s: VfsView,
    node: Node,
    off: u64,
    data: Seq<u8>,
    len: usize,
    request: Request,
    argp: usize,
    mask: u32,
    e: i32,
)
    requires
        w(s.log.len() as int) == Reply::Stat(Err(e)),
    ensures
        ({
            let s1 = VfsView {
                log: s.log.push(
                    (Call::GetStat(node.ops, node.location), w(s.log.len() as int)),
                ),
                ..s
            };
            &&& write_of(w, s, node, off, data) == (s1, Err::<usize, i32>(e))
            &&& read_of(w, s, node, off, len) == (s1, Err::<Seq<u8>, i32>(e))
            &&& ioctl_of(w, s, node, request, argp) == (s1, Err::<u32, i32>(e))
            &&& poll_node(w, s, node, mask) == (s1, Err::<Option<u32>, i32>(e))
            &&& type_of(w, s, node) == (s1, Err::<FileType, i32>(e))
        }),
{
}

/// What a read gave stands at the beginning of the buffer, as far as there is room, and the rest of
/// the buffer is as before. The number of bytes is that of those that were put there.
pub proof fn law_read_fills_the_buffer(data: Seq<u8>, buf: Seq<u8>, e: i32)
    requires
        buf.len() <= usize::MAX,
    ensures
        filled(Ok(data), buf).len() == buf.len(),
        forall|i: int|
            0 <= i < buf.len() && i < data.len() ==> #[trigger] filled(Ok(data), buf)[i] == data[i],
        forall|i: int|
            data.len() <= i < buf.len() ==> #[trigger] filled(Ok(data), buf)[i] == buf[i],
        filled_len(Ok(data), buf.len() as int) matches Ok(n) && (n == data.len() || n == buf.len())
            && n <= data.len() && n <= buf.len(),
        filled(Err(e), buf) == buf,
        filled_len(Err(e), buf.len() as int) == Err::<usize, i32>(e),
{
}

/// What was written to a device that keeps it is read back from the same offset: the read asks the
/// same device for the bytes at the offset where the write put them.
pub proof fn law_device_gives_back_what_was_written(
    w: World<Reply>,
    s: VfsView,
    later: World<Reply>,
    s1: VfsView,
    node: Node,
    off: u64,
    data: Seq<u8>,
    buf: Seq<u8>,
    stat: Stat,
    dev_type: DeviceType,
    dev: Device,
)
    requires
        data.len() == buf.len() <= usize::MAX,
        is_device(stat.mode, dev_type),
        w(s.log.len() as int) == Reply::Stat(Ok(stat)),
        w((s.log.len() + 1) as int) == Reply::Device(Some(dev)),
        later(s1.log.len() as int) == Reply::Stat(Ok(stat)),
        later((s1.log.len() + 1) as int) == Reply::Device(Some(dev)),
        // The device keeps what the write asked it to keep, and gives it to who asks for it there
        write_of(w, s, node, off, data).0.log.last().0 matches Call::DeviceWrite(d, o, kept)
            && (read_of(later, s1, node, off, buf.len() as usize).0.log.last().0
            == Call::DeviceRead(d, o, kept.len() as usize) ==> later((s1.log.len() + 2) as int)
            == Reply::Data(Ok(kept))),
    ensures
        filled(read_of(later, s1, node, off, buf.len() as usize).1, buf) == data,
{
    let r = read_of(later, s1, node, off, buf.len() as usize).1;
    assert(filled(r, buf) =~= data);
}

/// A created file belongs to who created it: whenever a creation succeeds, the file system was asked
/// to add the file to the directory, under its name, with the effective user as its owner, with the
/// effective group or, if the directory has the set-group-ID bit, the group of the directory, and
/// with everything else as it was given.
pub proof fn law_created_file_belongs_to_its_creator(
    w: World<Reply>,
    s: VfsView,
    parent: EntryView,
    name: Seq<u8>,
    ap: AccessProfile,
    stat: Stat,
)
    ensures
        ({
            let n = s.log.len() as int;
            let (s1, r) = create(w, s, parent, name, ap, stat);
            let parent_stat = w(n)->Stat_0->Ok_0;
            r is Ok ==> {
                &&& s1.log.len() == n + 3
                &&& s1.log[n].0 == Call::GetStat(parent.node->0.ops, parent.node->0.location)
                &&& parent_stat.mode & 0o170000 == 0o040000
                &&& directory_writable(ap, parent_stat)
                &&& s1.log[n + 1].0 matches Call::AddFile(ops, location, asked_name, given) && {
                    &&& ops == parent.node->0.ops
                    &&& location == parent.node->0.location
                    &&& asked_name == name
                    &&& given.uid == ap.euid
                    &&& parent_stat.mode & 0o2000 != 0 ==> given.gid == parent_stat.gid
                    &&& parent_stat.mode & 0o2000 == 0 ==> given.gid == ap.egid
                    &&& given.file_type == stat.file_type
                    &&& given.mode == stat.mode
                    &&& given.nlink == stat.nlink
                    &&& given.size == stat.size
                    &&& given.dev_major == stat.dev_major
                    &&& given.dev_minor == stat.dev_minor
                }
            }
        }),
{
}

/// In a directory that the agent may write, a file is created if the file system adds it and the
/// table of nodes takes it; and the error of either is the error of the creation. The new entry
/// stands for the node that the table gave, and nothing else in the cache changes.
pub proof fn law_creation_is_up_to_the_services(
    w: World<Reply>,
    s: VfsView,
    parent: EntryView,
    name: Seq<u8>,
    ap: AccessProfile,
    stat: Stat,
    parent_stat: Stat,
)
    requires
        w(s.log.len() as int) == Reply::Stat(Ok(parent_stat)),
        parent_stat.mode & 0o170000 == 0o040000,
        directory_writable(ap, parent_stat),
    ensures
        ({
            let n = s.log.len() as int;
            let (s1, r) = create(w, s, parent, name, ap, stat);
            let mountpoint_id = parent.node->0.location.mountpoint_id;
            &&& s1.log.len() > n + 1 && s1.log[n + 1].0 is AddFile
            &&& w(n + 1) matches Reply::Added(Err(e)) ==> r == Err::<EntryView, i32>(e)
                && s1.log.len() == n + 2 && s1.children == s.children
            &&& w(n + 1) matches Reply::Added(Ok((inode, ops))) ==> {
                &&& s1.log.len() == n + 3
                &&& s1.log[n + 2].0 == Call::GetOrInsertNode(
                    FileLocation { mountpoint_id, inode },
                    ops,
                )
                &&& w(n + 2) matches Reply::Node(Err(e)) ==> r == Err::<EntryView, i32>(e)
                    && s1.children == s.children
                &&& w(n + 2) matches Reply::Node(Ok(node)) ==> s.next_id < u64::MAX ==> {
                    &&& r matches Ok(e) && e.node == Some(node) && e.name == name && e.parent
                        == Some(Box::new(parent))
                    &&& s1.children == s.children.insert((parent.id, name), r->Ok_0)
                }
            }
        }),
{
}

/// Nothing is created in what is not a directory, and nothing is linked or unlinked there: the error
/// says so, and nothing but the status was asked.
pub proof fn law_only_directories_are_edited(
    w: World<Reply>,
    v: World<RefReply>,
    s: VfsView,
    parent: EntryView,
    name: Seq<u8>,
    ap: AccessProfile,
    stat: Stat,
    target: Node,
    parent_stat: Stat,
)
    requires
        w(s.log.len() as int) == Reply::Stat(Ok(parent_stat)),
        parent_stat.mode & 0o170000 != 0o040000,
    ensures
        ({
            let node = parent.node->0;
            let s1 = VfsView {
                log: s.log.push((Call::GetStat(node.ops, node.location), w(s.log.len() as int))),
                ..s
            };
            &&& create(w, s, parent, name, ap, stat) == (s1, Err::<EntryView, i32>(ENOTDIR))
            &&& link_to(w, s, node, name, target, ap) == (s1, Err::<(), i32>(ENOTDIR))
            &&& unlink_of(w, v, s, parent, name, ap) == (s1, Err::<(), i32>(ENOTDIR))
        }),
{
}

/// When the status of the directory cannot be had, its error is the result of every change of the
/// directory, and nothing else is asked.
pub proof fn law_missing_status_ends_edits(
    w: World<Reply>,
    v: World<RefReply>,
    s: VfsView,
    parent: EntryView,
    name: Seq<u8>,
    ap: AccessProfile,
    stat: Stat,
    target: Node,
    e: i32,
)
    requires
        w(s.log.len() as int) == Reply::Stat(Err(e)),
    ensures
        ({
            let node = parent.node->0;
            let s1 = VfsView {
                log: s.log.push((Call::GetStat(node.ops, node.location), w(s.log.len() as int))),
                ..s
            };
            &&& create(w, s, parent, name, ap, stat) == (s1, Err::<EntryView, i32>(e))
            &&& link_to(w, s, node, name, target, ap) == (s1, Err::<(), i32>(e))
            &&& unlink_of(w, v, s, parent, name, ap) == (s1, Err::<(), i32>(e))
        }),
{
}

/// A link to a file that is not a directory, has room for one more link and lies on the same
/// mountpoint as the directory, which the agent may write, is made: the file system is asked for
/// exactly this name and this file, and its reply is the result.
pub proof fn law_link_is_asked_for(
    w: World<Reply>,
    s: VfsView,
    parent: Node,
    name: Seq<u8>,
    target: Node,
    ap: AccessProfile,
    parent_stat: Stat,
    target_stat: Stat,
)
    requires
        w(s.log.len() as int) == Reply::Stat(Ok(parent_stat)),
        parent_stat.mode & 0o170000 == 0o040000,
        w((s.log.len() + 1) as int) == Reply::Stat(Ok(target_stat)),
        target_stat.mode & 0o170000 != 0o040000,
        target_stat.nlink < LINK_MAX,
        directory_writable(ap, parent_stat),
        parent.location.mountpoint_id == target.location.mountpoint_id,
    ensures
        ({
            let n = s.log.len() as int;
            let (s1, r) = link_to(w, s, parent, name, target, ap);
            &&& s1.log == s.log.push((Call::GetStat(parent.ops, parent.location), w(n))).push(
                (Call::GetStat(target.ops, target.location), w(n + 1)),
            ).push(
                (Call::Link(parent.ops, parent.location, name, target.location.inode), w(n + 2)),
            )
            &&& s1 == VfsView { log: s1.log, ..s }
            &&& w(n + 2) matches Reply::Done(reply) ==> r == reply
        }),
{
}

/// A link is refused for one of four reasons, the first of which that applies is the error: the
/// target is a directory, it has as many links as it may have, the agent may not write the
/// directory, or the two lie on different mountpoints. The file system is not asked for the link
/// then.
pub proof fn law_link_is_refused_for_a_reason(
    w: World<Reply>,
    s: VfsView,
    parent: Node,
    name: Seq<u8>,
    target: Node,
    ap: AccessProfile,
    parent_stat: Stat,
    target_stat: Stat,
)
    requires
        w(s.log.len() as int) == Reply::Stat(Ok(parent_stat)),
        parent_stat.mode & 0o170000 == 0o040000,
        w((s.log.len() + 1) as int) == Reply::Stat(Ok(target_stat)),
    ensures
        ({
            let n = s.log.len() as int;
            let (s1, r) = link_to(w, s, parent, name, target, ap);
            let is_dir = target_stat.mode & 0o170000 == 0o040000;
            let is_full = target_stat.nlink >= LINK_MAX;
            let is_denied = !directory_writable(ap, parent_stat);
            let is_elsewhere = parent.location.mountpoint_id != target.location.mountpoint_id;
            &&& is_dir ==> r == Err::<(), i32>(EPERM)
            &&& !is_dir && is_full ==> r == Err::<(), i32>(EMLINK)
            &&& !is_dir && !is_full && is_denied ==> r == Err::<(), i32>(EACCES)
            &&& !is_dir && !is_full && !is_denied && is_elsewhere ==> r == Err::<(), i32>(EXDEV)
            &&& is_dir || is_full || is_denied || is_elsewhere ==> s1.log.len() == n + 2
        }),
{
}

/// When the status of the target of a link cannot be had, its error is the result.
pub proof fn law_missing_target_ends_link(
    w: World<Reply>,
    s: VfsView,
    parent: Node,
    name: Seq<u8>,
    target: Node,
    ap: AccessProfile,
    parent_stat: Stat,
    e: i32,
)
    requires
        w(s.log.len() as int) == Reply::Stat(Ok(parent_stat)),
        parent_stat.mode & 0o170000 == 0o040000,
        w((s.log.len() + 1) as int) == Reply::Stat(Err(e)),
    ensures
        link_to(w, s, parent, name, target, ap).1 == Err::<(), i32>(e),
        link_to(w, s, parent, name, target, ap).0.log.len() == s.log.len() + 2,
{
}

/// Nothing keeps the agent `ap` from removing a file with the status `stat` from a directory with
/// the status `parent_stat`: either the directory has no sticky bit, whoever owns the file and the
/// directory, or the agent owns one of them.
pub open spec fn is_free_to_remove(ap: AccessProfile, stat: Stat, parent_stat: Stat) -> bool {
    parent_stat.mode & 0o1000 == 0 || ap.euid == stat.uid || ap.euid == parent_stat.uid
}

/// A cached file is unlinked from a directory that the agent may write when nothing else protects
/// it: the file system is asked to remove exactly this name from exactly this directory. Its error
/// is the result, and leaves the cache as it was. Else, no entry is cached for the name, and the
/// result can only be an error of giving the node of the file back.
pub proof fn law_free_cached_file_is_unlinked(
    w: World<Reply>,
    v: World<RefReply>,
    s: VfsView,
    parent: EntryView,
    name: Seq<u8>,
    ap: AccessProfile,
    parent_stat: Stat,
    stat: Stat,
    e: EntryView,
    node: Node,
)
    requires
        w(s.log.len() as int) == Reply::Stat(Ok(parent_stat)),
        parent_stat.mode & 0o170000 == 0o040000,
        directory_writable(ap, parent_stat),
        s.wf(),
        s.children.contains_key((parent.id, name)),
        s.children[(parent.id, name)] == e,
        e.node == Some(node),
        node.location.mountpoint_id == parent.node->0.location.mountpoint_id,
        w((s.log.len() + 1) as int) == Reply::Stat(Ok(stat)),
        is_free_to_remove(ap, stat, parent_stat),
    ensures
        ({
            let n = s.log.len() as int;
            let dir = parent.node->0;
            let (s1, r) = unlink_of(w, v, s, parent, name, ap);
            let l2 = s.log.push((Call::GetStat(dir.ops, dir.location), w(n))).push(
                (Call::GetStat(node.ops, node.location), w(n + 1)),
            ).push((Call::Unlink(dir.ops, dir.location, name), w(n + 2)));
            &&& w(n + 2) matches Reply::Done(Err(err)) ==> {
                &&& s1 == VfsView { log: l2, ..s }
                &&& r == Err::<(), i32>(err)
            }
            &&& w(n + 2) == Reply::Done(Ok(())) ==> {
                &&& s1.children == s.children.remove((parent.id, name))
                &&& s1.log == l2 && r == Ok::<(), i32>(()) || s1.log == l2.push(
                    (Call::ReleaseNode(node), w(n + 3)),
                ) && (w(n + 3) matches Reply::Done(reply) ==> r == reply)
            }
        }),
{
    let key = (parent.id, name);
    assert(s.children.contains_key(key));
    assert(s.children.remove(key).remove(key) =~= s.children.remove(key));
    let (s1, r) = unlink_of(w, v, s, parent, name, ap);
    match r {
        Ok(u) => assert(u == ()),
        Err(_) => {},
    }
}

/// A file that is not cached is unlinked alike, once its directory was asked for it. Afterwards, the
/// file itself is removed if no link to it is left and nothing uses it.
pub proof fn law_free_uncached_file_is_unlinked(
    w: World<Reply>,
    v: World<RefReply>,
    s: VfsView,
    parent: EntryView,
    name: Seq<u8>,
    ap: AccessProfile,
    parent_stat: Stat,
    stat: Stat,
    entry: DirEntry,
    ops: Ops,
)
    requires
        w(s.log.len() as int) == Reply::Stat(Ok(parent_stat)),
        parent_stat.mode & 0o170000 == 0o040000,
        directory_writable(ap, parent_stat),
        !s.children.contains_key((parent.id, name)),
        w((s.log.len() + 1) as int) == Reply::Entry(Ok(Some((entry, ops)))),
        w((s.log.len() + 2) as int) == Reply::Stat(Ok(stat)),
        is_free_to_remove(ap, stat, parent_stat),
    ensures
        ({
            let n = s.log.len() as int;
            let dir = parent.node->0;
            let location = FileLocation {
                mountpoint_id: dir.location.mountpoint_id,
                inode: entry.inode,
            };
            let (s1, r) = unlink_of(w, v, s, parent, name, ap);
            let l3 = s.log.push((Call::GetStat(dir.ops, dir.location), w(n))).push(
                (Call::EntryByName(dir.ops, dir.location, name), w(n + 1)),
            ).push((Call::GetStat(ops, location), w(n + 2))).push(
                (Call::Unlink(dir.ops, dir.location, name), w(n + 3)),
            );
            &&& s1 == VfsView { log: s1.log, ..s }
            &&& w(n + 3) matches Reply::Done(Err(err)) ==> s1.log == l3 && r == Err::<(), i32>(err)
            &&& w(n + 3) == Reply::Done(Ok(())) ==> {
                &&& s1.log == l3.push((Call::TryRemoveNode(location, ops), w(n + 4)))
                &&& w(n + 4) matches Reply::Done(reply) ==> r == reply
            }
        }),
{
}

/// What is not there is not unlinked: neither a name that the directory does not have, nor one whose
/// cached entry stands for no file. An error of looking for it is the result.
pub proof fn law_missing_file_is_not_unlinked(
    w: World<Reply>,
    v: World<RefReply>,
    s: VfsView,
    parent: EntryView,
    name: Seq<u8>,
    ap: AccessProfile,
    parent_stat: Stat,
)
    requires
        w(s.log.len() as int) == Reply::Stat(Ok(parent_stat)),
        parent_stat.mode & 0o170000 == 0o040000,
        directory_writable(ap, parent_stat),
    ensures
        ({
            let n = s.log.len() as int;
            let key = (parent.id, name);
            let (s1, r) = unlink_of(w, v, s, parent, name, ap);
            &&& s.children.contains_key(key) && s.children[key].node is None ==> r == Err::<(), i32>(
                ENOENT,
            ) && s1.log.len() == n + 1
            &&& !s.children.contains_key(key) ==> {
                &&& w(n + 1) == Reply::Entry(Ok(None)) ==> r == Err::<(), i32>(ENOENT)
                    && s1.log.len() == n + 2
                &&& w(n + 1) matches Reply::Entry(Err(e)) ==> r == Err::<(), i32>(e)
                    && s1.log.len() == n + 2
            }
        }),
{
}

/// The root of the VFS is never released: it stays, and nothing is asked.
pub proof fn law_root_is_never_released(
    w: World<Reply>,
    v: World<RefReply>,
    s: VfsView,
    e: EntryView,
)
    requires
        e.parent is None,
    ensures
        release_of(w, v, s, e) == (s, Ok::<(), i32>(())),
{
}

/// Whether an entry that is released leaves the cache rests on the number of references to it, and
/// whether its node is given back on whether the last one went. No other entry leaves the cache.
pub proof fn law_release_follows_the_references(
    w: World<Reply>,
    v: World<RefReply>,
    s: VfsView,
    e: EntryView,
    p: EntryView,
    node: Node,
    count: usize,
)
    requires
        e.parent == Some(Box::new(p)),
        e.node == Some(node),
        v(s.refs.len() as int) == RefReply::Count(count),
    ensures
        ({
            let n = s.log.len() as int;
            let m = s.refs.len() as int;
            let (s1, r) = release_of(w, v, s, e);
            &&& s1.refs[m].0 == RefCall::Count(e.id)
            &&& count > 2 ==> s1.children == s.children && s1.log == s.log && r == Ok::<(), i32>(())
            &&& count <= 2 ==> {
                &&& s1.children == s.children.remove((p.id, e.name))
                &&& s1.refs[m + 1].0 == RefCall::Take(e.id)
                &&& v(m + 1) == RefReply::Taken(false) ==> s1.log == s.log && r == Ok::<(), i32>(())
                &&& v(m + 1) == RefReply::Taken(true) ==> {
                    &&& s1.log == s.log.push((Call::ReleaseNode(node), w(n)))
                    &&& w(n) matches Reply::Done(reply) ==> r == reply
                }
            }
        }),
{
}

/// An entry is the root of a mountpoint if it has no parent, or if its parent lies on another
/// mountpoint: then the mountpoint is asked for by the one that the entry lies on. Any other entry is
/// not, and nothing is asked.
pub proof fn law_mountpoint_is_where_the_mountpoint_changes(
    w: World<Reply>,
    s: VfsView,
    e: EntryView,
    node: Node,
    mountpoint: Option<MountPoint>,
)
    requires
        e.node == Some(node),
        w(s.log.len() as int) == Reply::MountPoint(mountpoint),
    ensures
        ({
            let id = node.location.mountpoint_id;
            let (s1, r) = mountpoint_of(w, s, e);
            let asked = VfsView {
                log: s.log.push((Call::MountPointFromId(id), w(s.log.len() as int))),
                ..s
            };
            match e.parent {
                None => s1 == asked && r == mountpoint,
                Some(p) => {
                    &&& p.node matches Some(above) ==> above.location.mountpoint_id == id ==> s1 == s
                        && r is None
                    &&& p.node matches Some(above) ==> above.location.mountpoint_id != id ==> s1
                        == asked && r == mountpoint
                },
            }
        }),
{
}

/// An entry without a file is no mountpoint.
pub proof fn law_missing_file_is_no_mountpoint(w: World<Reply>, s: VfsView, e: EntryView)
    requires
        e.node is None,
    ensures
        mountpoint_of(w, s, e) == (s, None::<MountPoint>),
{
}

/// The type of a file is read from the bits of its mode, whatever its permissions are; a mode that
/// holds no type is an error.
pub proof fn law_type_is_read_from_the_mode(w: World<Reply>, s: VfsView, node: Node, stat: Stat)
    requires
        w(s.log.len() as int) == Reply::Stat(Ok(stat)),
    ensures
        ({
            let bits = stat.mode & 0o170000;
            let (s1, r) = type_of(w, s, node);
            &&& s1.log == s.log.push((Call::GetStat(node.ops, node.location), w(s.log.len() as int)))
            &&& r == Ok::<FileType, i32>(FileType::Socket) <==> bits == 0o140000
            &&& r == Ok::<FileType, i32>(FileType::Link) <==> bits == 0o120000
            &&& r == Ok::<FileType, i32>(FileType::Regular) <==> bits == 0o100000
            &&& r == Ok::<FileType, i32>(FileType::BlockDevice) <==> bits == 0o060000
            &&& r == Ok::<FileType, i32>(FileType::Directory) <==> bits == 0o040000
            &&& r == Ok::<FileType, i32>(FileType::CharDevice) <==> bits == 0o020000
            &&& r == Ok::<FileType, i32>(FileType::Fifo) <==> bits == 0o010000
            &&& r matches Err(e) ==> e == EUCLEAN
        }),
{
}

/// The status of a file is what its file system replies.
pub proof fn law_status_is_asked_for(w: World<Reply>, s: VfsView, node: Node)
    ensures
        ({
            let n = s.log.len() as int;
            let (s1, r) = stat_of(w, s, node);
            &&& s1 == VfsView { log: s.log.push((Call::GetStat(node.ops, node.location), w(n))), ..s }
            &&& w(n) matches Reply::Stat(reply) ==> r == reply
        }),
{
}

/// A name that is cached is not asked for: its entry is what is found, or nothing if the entry
/// stands for no file.
pub proof fn law_cached_name_is_not_asked_for(
    w: World<Reply>,
    s: VfsView,
    dir: EntryView,
    name: Seq<u8>,
)
    requires
        s.children.contains_key((dir.id, name)),
    ensures
        ({
            let e = s.children[(dir.id, name)];
            let (s1, r) = find_entry(w, s, dir, name);
            &&& s1 == s
            &&& e.node is Some ==> r == Ok::<Option<EntryView>, i32>(Some(e))
            &&& e.node is None ==> r == Ok::<Option<EntryView>, i32>(None)
        }),
{
}

/// A name that is not cached is asked of the file system, in exactly this directory. What it does not
/// know is not there. What it knows becomes a cached entry of the directory, for the node that the
/// table of nodes gives for the inode on the mountpoint of the directory. Errors are the result.
pub proof fn law_uncached_name_is_asked_for(
    w: World<Reply>,
    s: VfsView,
    dir: EntryView,
    name: Seq<u8>,
)
    requires
        !s.children.contains_key((dir.id, name)),
    ensures
        ({
            let n = s.log.len() as int;
            let at = dir.node->0;
            let (s1, r) = find_entry(w, s, dir, name);
            let l1 = s.log.push((Call::EntryByName(at.ops, at.location, name), w(n)));
            &&& w(n) == Reply::Entry(Ok(None)) ==> s1 == VfsView { log: l1, ..s } && r == Ok::<
                Option<EntryView>,
                i32,
            >(None)
            &&& w(n) matches Reply::Entry(Err(e)) ==> s1 == VfsView { log: l1, ..s } && r == Err::<
                Option<EntryView>,
                i32,
            >(e)
            &&& w(n) matches Reply::Entry(Ok(Some((entry, ops)))) ==> {
                let location = FileLocation {
                    mountpoint_id: at.location.mountpoint_id,
                    inode: entry.inode,
                };
                &&& s1.log == l1.push((Call::InsertNode(Node { location, ops }), w(n + 1)))
                &&& w(n + 1) matches Reply::Node(Err(e)) ==> s1.children == s.children && r == Err::<
                    Option<EntryView>,
                    i32,
                >(e)
                &&& w(n + 1) matches Reply::Node(Ok(node)) ==> s.next_id < u64::MAX ==> {
                    &&& r matches Ok(Some(e)) && e.name == name && e.parent == Some(Box::new(dir))
                        && e.node == Some(node)
                    &&& s1.children == s.children.insert((dir.id, name), r->Ok_0->0)
                }
            }
        }),
{
}

/// When the status of the file to unlink cannot be had, its error is the result, and nothing is
/// removed.
pub proof fn law_missing_status_ends_unlink(
    w: World<Reply>,
    v: World<RefReply>,
    s: VfsView,
    parent: EntryView,
    name: Seq<u8>,
    ap: AccessProfile,
    parent_stat: Stat,
    e: i32,
)
    requires
        w(s.log.len() as int) == Reply::Stat(Ok(parent_stat)),
        parent_stat.mode & 0o170000 == 0o040000,
        directory_writable(ap, parent_stat),
    ensures
        ({
            let n = s.log.len() as int;
            let key = (parent.id, name);
            let (s1, r) = unlink_of(w, v, s, parent, name, ap);
            &&& s.children.contains_key(key) ==> (s.children[key].node matches Some(node)
                ==> node.location.mountpoint_id == parent.node->0.location.mountpoint_id ==> w(n + 1)
                == Reply::Stat(Err(e)) ==> r == Err::<(), i32>(e) && s1.log.len() == n + 2)
            &&& !s.children.contains_key(key) ==> (w(n + 1) matches Reply::Entry(Ok(Some(_)))
                ==> w(n + 2) == Reply::Stat(Err(e)) ==> r == Err::<(), i32>(e) && s1.log.len() == n
                + 3)
        }),
{
}

} // verus!
