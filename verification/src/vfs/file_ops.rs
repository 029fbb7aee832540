//! The operations on an open file of the VFS.

use crate::errno::{EResult, EACCES, ENODEV, ENOTTY};
use crate::ioctl::Request;
use crate::stat::{device_type, mode_type, DeviceID, Stat};
use crate::history::{heard, World};
use crate::vfs::backend::{data_view, Backend, Call, Device, Node, Reply};
use crate::vfs::entry::Entry;
use crate::vfs::state::{
    at_most, lemma_extends, lemma_heard, lemma_said, stat_of, Vfs, VfsView,
};
use std::sync::Arc;
use vstd::prelude::*;

verus! {

/// An open file.
pub struct File {
    /// The VFS entry of the file.
    pub vfs_entry: Option<Arc<Entry>>,
    /// The file is open for reading.
    pub readable: bool,
    /// The file is open for writing.
    pub writable: bool,
}

/// The file is on the VFS, and its entry exists.
pub open spec fn on_vfs(file: &File) -> bool {
    file.vfs_entry matches Some(e) && e@.node is Some
}

/// The node of a file that is on the VFS.
pub open spec fn node_of(file: &File) -> Node {
    file.vfs_entry->0@.node->0
}

/// The device that a file with the status `stat` stands for, if any.
pub open spec fn device_of(stat: Stat) -> Option<DeviceID> {
    match mode_type(stat.mode) {
        None => None,
        Some(t) => match device_type(t) {
            None => None,
            Some(dev_type) => Some(
                DeviceID { dev_type, major: stat.dev_major, minor: stat.dev_minor },
            ),
        },
    }
}

/// Asks for the I/O interface of the device with the ID `id`, which must exist.
pub open spec fn open_device(w: World<Reply>, s: VfsView, id: DeviceID) -> (
    VfsView,
    EResult<Device>,
) {
    (
        s.ask(w, Call::GetDevice(id)),
        match s.reply(w)->Device_0 {
            None => Err(ENODEV),
            Some(dev) => Ok(dev),
        },
    )
}

/// Asks the device with the ID `id` which of the events in `mask` it is ready for.
pub open spec fn poll_of(w: World<Reply>, s: VfsView, id: DeviceID, mask: u32) -> (
    VfsView,
    EResult<u32>,
) {
    let (s1, dev) = open_device(w, s, id);
    match dev {
        Err(e) => (s1, Err(e)),
        Ok(dev) => (s1.ask(w, Call::DevicePoll(dev, mask)), s1.reply(w)->Value_0),
    }
}

/// Asks the device of `node` which of the events in `mask` it is ready for. There is no answer if
/// `node` is not a device.
pub open spec fn poll_node(w: World<Reply>, s: VfsView, node: Node, mask: u32) -> (
    VfsView,
    EResult<Option<u32>>,
) {
    let (s1, stat) = stat_of(w, s, node);
    match stat {
        Err(e) => (s1, Err(e)),
        Ok(stat) => match device_of(stat) {
            None => (s1, Ok(None)),
            Some(id) => {
                let (s2, events) = poll_of(w, s1, id, mask);
                match events {
                    Err(e) => (s2, Err(e)),
                    Ok(events) => (s2, Ok(Some(events))),
                }
            },
        },
    }
}

/// Performs an I/O control request on the device of `node`.
pub open spec fn ioctl_of(
    w: World<Reply>,
    s: VfsView,
    node: Node,
    request: Request,
    argp: usize,
) -> (VfsView, EResult<u32>) {
    let (s1, stat) = stat_of(w, s, node);
    match stat {
        Err(e) => (s1, Err(e)),
        Ok(stat) => match device_of(stat) {
            None => (s1, Err(ENOTTY)),
            Some(id) => {
                let (s2, dev) = open_device(w, s1, id);
                match dev {
                    Err(e) => (s2, Err(e)),
                    Ok(dev) => (
                        s2.ask(w, Call::DeviceIoctl(dev, request, argp)),
                        s2.reply(w)->Value_0,
                    ),
                }
            },
        },
    }
}

/// Reads at most `len` bytes of `node`: from the device, if it stands for one, else from its
/// file system.
pub open spec fn read_of(w: World<Reply>, s: VfsView, node: Node, off: u64, len: usize) -> (
    VfsView,
    EResult<Seq<u8>>,
) {
    let (s1, stat) = stat_of(w, s, node);
    match stat {
        Err(e) => (s1, Err(e)),
        Ok(stat) => match device_of(stat) {
            Some(id) => {
                let (s2, dev) = open_device(w, s1, id);
                match dev {
                    Err(e) => (s2, Err(e)),
                    Ok(dev) => (
                        s2.ask(w, Call::DeviceRead(dev, off, len)),
                        s2.reply(w)->Data_0,
                    ),
                }
            },
            None => (
                s1.ask(w, Call::ReadContent(node.ops, node.location, off, len)),
                s1.reply(w)->Data_0,
            ),
        },
    }
}

/// Writes `data` to `node`: to the device, if it stands for one, else to its file system.
pub open spec fn write_of(w: World<Reply>, s: VfsView, node: Node, off: u64, data: Seq<u8>) -> (
    VfsView,
    EResult<usize>,
) {
    let (s1, stat) = stat_of(w, s, node);
    match stat {
        Err(e) => (s1, Err(e)),
        Ok(stat) => match device_of(stat) {
            Some(id) => {
                let (s2, dev) = open_device(w, s1, id);
                match dev {
                    Err(e) => (s2, Err(e)),
                    Ok(dev) => (
                        s2.ask(w, Call::DeviceWrite(dev, off, data)),
                        s2.reply(w)->Written_0,
                    ),
                }
            },
            None => (
                s1.ask(w, Call::WriteContent(node.ops, node.location, off, data)),
                s1.reply(w)->Written_0,
            ),
        },
    }
}

/// What a read that gave `data` leaves in a buffer that held `buf`.
pub open spec fn filled(data: EResult<Seq<u8>>, buf: Seq<u8>) -> Seq<u8> {
    match data {
        Err(_) => buf,
        Ok(data) => {
            let part = at_most(data, buf.len() as int);
            part + buf.skip(part.len() as int)
        },
    }
}

/// The number of bytes that a read which gave `data` put into a buffer of `len` bytes.
pub open spec fn filled_len(data: EResult<Seq<u8>>, len: int) -> EResult<usize> {
    match data {
        Err(e) => Err(e),
        Ok(data) => Ok(at_most(data, len).len() as usize),
    }
}

/// Copies the beginning of `data` into `buf`, and returns the number of bytes copied.
fn fill(buf: &mut [u8], data: &Vec<u8>) -> (n: usize)
    ensures
        final(buf)@ == filled(Ok(data@), old(buf)@),
        n == at_most(data@, old(buf)@.len() as int).len(),
{
    let n: usize = if data.len() > buf.len() {
        buf.len()
    } else {
        data.len()
    };
    let mut i: usize = 0;
    while i < n
        invariant
            i <= n <= data@.len(),
            n <= buf@.len() == old(buf)@.len(),
            forall|j: int| 0 <= j < i ==> buf@[j] == data@[j],
            forall|j: int| i <= j < buf@.len() ==> buf@[j] == old(buf)@[j],
        decreases n - i,
    {
        buf[i] = data[i];
        i = i + 1;
    }
    assert(buf@ =~= filled(Ok(data@), old(buf)@));
    n
}

/// Returns the device that a file with the status `stat` stands for.
fn get_device_id(stat: &Stat) -> (id: Option<DeviceID>)
    ensures
        id == device_of(*stat),
{
    match stat.get_type() {
        Some(t) => match t.to_device_type() {
            Some(dev_type) => Some(
                DeviceID { dev_type, major: stat.dev_major, minor: stat.dev_minor },
            ),
            None => None,
        },
        None => None,
    }
}

/// Returns the I/O interface of the device with the ID `id`.
///
/// If there is no such device, the function returns [`ENODEV`].
fn get_device<B: Backend>(id: DeviceID, vfs: &mut Vfs<B>) -> (r: EResult<Device>)
    requires
        old(vfs).wf(),
    ensures
        final(vfs).wf(),
        final(vfs)@.extends(old(vfs)@),
        forall|w: World<Reply>| #[trigger]
            heard(final(vfs)@.log, w) ==> open_device(w, old(vfs)@, id) == (final(vfs)@, r),
{
    let dev = vfs.services.get_device(id);
    proof {
        lemma_said(old(vfs)@, vfs@, Call::GetDevice(id), Reply::Device(dev));
    }
    match dev {
        Some(dev) => Ok(dev),
        None => Err(ENODEV),
    }
}

/// The operations on a file from the VFS.
#[derive(Clone, Copy, Debug)]
pub struct FileOps;

impl FileOps {
    /// Returns the status of the file.
    pub fn get_stat<B: Backend>(&self, file: &File, vfs: &mut Vfs<B>) -> (r: EResult<Stat>)
        requires
            old(vfs).wf(),
            on_vfs(file),
        ensures
            final(vfs).wf(),
            final(vfs)@.extends(old(vfs)@),
            forall|w: World<Reply>| #[trigger]
                heard(final(vfs)@.log, w) ==> stat_of(w, old(vfs)@, node_of(file)) == (
                    final(vfs)@,
                    r,
                ),
    {
        match &file.vfs_entry {
            Some(entry) => entry.stat(vfs),
            None => vstd::pervasive::unreached(),
        }
    }

    /// Returns which of the events in `mask` the device with the ID `id` is ready for.
    pub fn poll_device<B: Backend>(&self, id: DeviceID, mask: u32, vfs: &mut Vfs<B>) -> (r:
        EResult<u32>)
        requires
            old(vfs).wf(),
        ensures
            final(vfs).wf(),
            final(vfs)@.extends(old(vfs)@),
            forall|w: World<Reply>| #[trigger]
                heard(final(vfs)@.log, w) ==> poll_of(w, old(vfs)@, id, mask) == (
                    final(vfs)@,
                    r,
                ),
    {
        broadcast use lemma_heard;

        let dev: Device = get_device(id, vfs)?;
        let ghost s1 = vfs@;
        let r = vfs.services.device_poll(dev, mask);
        proof {
            lemma_said(s1, vfs@, Call::DevicePoll(dev, mask), Reply::Value(r));
            lemma_extends(old(vfs)@, s1, vfs@);
        }
        r
    }

    /// Returns which of the events in `mask` the file is ready for, or `None` if it is not a
    /// device: only devices can be waited for.
    pub fn poll<B: Backend>(&self, file: &File, mask: u32, vfs: &mut Vfs<B>) -> (r: EResult<
        Option<u32>,
    >)
        requires
            old(vfs).wf(),
            on_vfs(file),
        ensures
            final(vfs).wf(),
            final(vfs)@.extends(old(vfs)@),
            forall|w: World<Reply>| #[trigger]
                heard(final(vfs)@.log, w) ==> poll_node(w, old(vfs)@, node_of(file), mask) == (
                    final(vfs)@,
                    r,
                ),
    {
        broadcast use lemma_heard;

        let stat: Stat = self.get_stat(file, vfs)?;
        let ghost s1 = vfs@;
        match get_device_id(&stat) {
            Some(id) => {
                let r = self.poll_device(id, mask, vfs);
                proof {
                    lemma_extends(old(vfs)@, s1, vfs@);
                }
                Ok(Some(r?))
            },
            None => Ok(None),
        }
    }

    /// Performs an I/O control request on the device that the file stands for.
    ///
    /// If the file is not a device, the function returns [`ENOTTY`]. If there is no such device,
    /// it returns [`ENODEV`].
    pub fn ioctl<B: Backend>(
        &self,
        file: &File,
        request: Request,
        argp: usize,
        vfs: &mut Vfs<B>,
    ) -> (r: EResult<u32>)
        requires
            old(vfs).wf(),
            on_vfs(file),
        ensures
            final(vfs).wf(),
            final(vfs)@.extends(old(vfs)@),
            forall|w: World<Reply>| #[trigger]
                heard(final(vfs)@.log, w) ==> ioctl_of(
                    w,
                    old(vfs)@,
                    node_of(file),
                    request,
                    argp,
                ) == (final(vfs)@, r),
    {
        broadcast use lemma_heard;

        let stat: Stat = self.get_stat(file, vfs)?;
        let ghost s1 = vfs@;
        let id: DeviceID = match get_device_id(&stat) {
            Some(id) => id,
            None => {
                return Err(ENOTTY);
            },
        };
        let r = get_device(id, vfs);
        let ghost s2 = vfs@;
        proof {
            lemma_extends(old(vfs)@, s1, s2);
        }
        let dev: Device = r?;
        let r = vfs.services.device_ioctl(dev, request, argp);
        proof {
            lemma_said(s2, vfs@, Call::DeviceIoctl(dev, request, argp), Reply::Value(r));
            lemma_extends(old(vfs)@, s2, vfs@);
        }
        r
    }

    /// Reads from the file into `buf`, from the offset `off`. Returns the number of bytes read.
    ///
    /// If the file is not open for reading, the function returns [`EACCES`]. If it stands for a
    /// device that does not exist, the function returns [`ENODEV`].
    pub fn read<B: Backend>(&self, file: &File, off: u64, buf: &mut [u8], vfs: &mut Vfs<B>) -> (r:
        EResult<usize>)
        requires
            old(vfs).wf(),
            on_vfs(file),
        ensures
            final(vfs).wf(),
            final(vfs)@.extends(old(vfs)@),
            !file.readable ==> r == Err::<usize, i32>(EACCES) && final(vfs)@ == old(vfs)@
                && final(buf)@ == old(buf)@,
            file.readable ==> forall|w: World<Reply>| #[trigger]
                heard(final(vfs)@.log, w) ==> {
                    let (s1, data) = read_of(
                        w,
                        old(vfs)@,
                        node_of(file),
                        off,
                        old(buf)@.len() as usize,
                    );
                    &&& s1 == final(vfs)@
                    &&& final(buf)@ == filled(data, old(buf)@)
                    &&& r == filled_len(data, old(buf)@.len() as int)
                },
    {
        broadcast use lemma_heard;

        assert(vfs@.log =~= vfs@.log.subrange(0, vfs@.log.len() as int));
        if !file.readable {
            return Err(EACCES);
        }
        let len: usize = buf.len();
        let stat: Stat = self.get_stat(file, vfs)?;
        let ghost s1 = vfs@;
        let data = match get_device_id(&stat) {
            Some(id) => {
                let r = get_device(id, vfs);
                let ghost s2 = vfs@;
                proof {
                    lemma_extends(old(vfs)@, s1, s2);
                }
                let dev: Device = r?;
                let r = vfs.services.device_read(dev, off, len);
                proof {
                    lemma_said(
                        s2,
                        vfs@,
                        Call::DeviceRead(dev, off, len),
                        Reply::Data(data_view(r)),
                    );
                    lemma_extends(old(vfs)@, s2, vfs@);
                }
                r
            },
            None => {
                let node: Node = match &file.vfs_entry {
                    Some(entry) => **entry.node(),
                    None => vstd::pervasive::unreached(),
                };
                let r = vfs.services.read_content(node.ops, node.location, off, len);
                proof {
                    lemma_said(
                        s1,
                        vfs@,
                        Call::ReadContent(node.ops, node.location, off, len),
                        Reply::Data(data_view(r)),
                    );
                    lemma_extends(old(vfs)@, s1, vfs@);
                }
                r
            },
        };
        let data: Vec<u8> = data?;
        let n: usize = fill(buf, &data);
        Ok(n)
    }

    /// Writes `buf` to the file, from the offset `off`. Returns the number of bytes written.
    ///
    /// If the file is not open for writing, the function returns [`EACCES`]. If it stands for a
    /// device that does not exist, the function returns [`ENODEV`].
    pub fn write<B: Backend>(&self, file: &File, off: u64, buf: &[u8], vfs: &mut Vfs<B>) -> (r:
        EResult<usize>)
        requires
            old(vfs).wf(),
            on_vfs(file),
        ensures
            final(vfs).wf(),
            final(vfs)@.extends(old(vfs)@),
            !file.writable ==> r == Err::<usize, i32>(EACCES) && final(vfs)@ == old(vfs)@,
            file.writable ==> forall|w: World<Reply>| #[trigger]
                heard(final(vfs)@.log, w) ==> write_of(w, old(vfs)@, node_of(file), off, buf@)
                    == (final(vfs)@, r),
    {
        broadcast use lemma_heard;

        assert(vfs@.log =~= vfs@.log.subrange(0, vfs@.log.len() as int));
        if !file.writable {
            return Err(EACCES);
        }
        let stat: Stat = self.get_stat(file, vfs)?;
        let ghost s1 = vfs@;
        match get_device_id(&stat) {
            Some(id) => {
                let r = get_device(id, vfs);
                let ghost s2 = vfs@;
                proof {
                    lemma_extends(old(vfs)@, s1, s2);
                }
                let dev: Device = r?;
                let r = vfs.services.device_write(dev, off, buf);
                proof {
                    lemma_said(s2, vfs@, Call::DeviceWrite(dev, off, buf@), Reply::Written(r));
                    lemma_extends(old(vfs)@, s2, vfs@);
                }
                r
            },
            None => {
                let node: Node = match &file.vfs_entry {
                    Some(entry) => **entry.node(),
                    None => vstd::pervasive::unreached(),
                };
                let r = vfs.services.write_content(node.ops, node.location, off, buf);
                proof {
                    lemma_said(
                        s1,
                        vfs@,
                        Call::WriteContent(node.ops, node.location, off, buf@),
                        Reply::Written(r),
                    );
                    lemma_extends(old(vfs)@, s1, vfs@);
                }
                r
            },
        }
    }
}

} // verus!
