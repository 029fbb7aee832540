//! What the VFS asks of the rest of the kernel: file systems, the table of nodes in use, the
//! mountpoints and the devices.

use crate::errno::EResult;
use crate::ioctl::Request;
use crate::stat::{DeviceID, FileLocation, FileType, INode, Stat};
use std::sync::Arc;
use vstd::prelude::*;

verus! {

/// A handle to the operations of a file system on one of its nodes.
#[derive(Clone, Copy, PartialEq, Eq, Structural, Debug)]
pub struct Ops {
    pub id: u64,
}

/// A node of a file system: where it is, and the operations on it.
#[derive(Clone, Copy, PartialEq, Eq, Structural, Debug)]
pub struct Node {
    pub location: FileLocation,
    pub ops: Ops,
}

/// An entry of a directory on a file system.
#[derive(Clone, Copy, PartialEq, Eq, Structural, Debug)]
pub struct DirEntry {
    pub inode: INode,
    pub entry_type: FileType,
}

/// A mountpoint.
#[derive(Clone, Copy, PartialEq, Eq, Structural, Debug)]
pub struct MountPoint {
    pub id: u32,
}

/// A handle to the I/O interface of a device.
#[derive(Clone, Copy, PartialEq, Eq, Structural, Debug)]
pub struct Device {
    pub id: u64,
}

/// The services that the VFS rests on. Nothing is taken for granted of what they answer:
/// a method only adds itself to the history of what was asked.
pub trait Backend: Sized {
    /// What was asked so far, each call with its reply, oldest first.
    ///
    /// This is ghost: an implementation outside of verified code has nothing to provide. A verified
    /// implementation gives a body of its own, in place of the default one, of which nothing is
    /// known.
    closed spec fn calls(&self) -> Seq<(Call, Reply)> {
        arbitrary()
    }

    /// Returns the status of the file at `loc`.
    fn get_stat(&mut self, ops: Ops, loc: FileLocation) -> (r: EResult<Stat>)
        ensures
            final(self).calls() == old(self).calls().push((Call::GetStat(ops, loc), Reply::Stat(r))),
    ;

    /// Returns the entry `name` of the directory at `loc`, with the operations on its node.
    ///
    /// If there is none, the function returns `None`.
    fn entry_by_name(&mut self, ops: Ops, loc: FileLocation, name: &[u8]) -> (r: EResult<
        Option<(DirEntry, Ops)>,
    >)
        ensures
            final(self).calls() == old(self).calls().push(
                (Call::EntryByName(ops, loc, name@), Reply::Entry(r)),
            ),
    ;

    /// Reads at most `len` bytes of the file at `loc`, from the offset `off`. At the end of the
    /// file, nothing is left to read.
    fn read_content(&mut self, ops: Ops, loc: FileLocation, off: u64, len: usize) -> (r:
        EResult<Vec<u8>>)
        ensures
            final(self).calls() == old(self).calls().push(
                (Call::ReadContent(ops, loc, off, len), Reply::Data(data_view(r))),
            ),
    ;

    /// Writes `buf` to the file at `loc`, from the offset `off`. Returns the number of bytes
    /// written.
    fn write_content(&mut self, ops: Ops, loc: FileLocation, off: u64, buf: &[u8]) -> (r:
        EResult<usize>)
        ensures
            final(self).calls() == old(self).calls().push(
                (Call::WriteContent(ops, loc, off, buf@), Reply::Written(r)),
            ),
    ;

    /// Adds a file with the name `name` and the status `stat` to the directory at `loc`. Returns
    /// its inode, with the operations on it.
    fn add_file(&mut self, ops: Ops, loc: FileLocation, name: &[u8], stat: Stat) -> (r: EResult<
        (INode, Ops),
    >)
        ensures
            final(self).calls() == old(self).calls().push(
                (Call::AddFile(ops, loc, name@, stat), Reply::Added(r)),
            ),
    ;

    /// Adds the name `name` for the file `inode` to the directory at `loc`.
    fn link(&mut self, ops: Ops, loc: FileLocation, name: &[u8], inode: INode) -> (r: EResult<
        (),
    >)
        ensures
            final(self).calls() == old(self).calls().push(
                (Call::Link(ops, loc, name@, inode), Reply::Done(r)),
            ),
    ;

    /// Removes the name `name` from the directory at `loc`.
    fn unlink(&mut self, ops: Ops, loc: FileLocation, name: &[u8]) -> (r: EResult<()>)
        ensures
            final(self).calls() == old(self).calls().push(
                (Call::Unlink(ops, loc, name@), Reply::Done(r)),
            ),
    ;

    /// Adds a node to the table of nodes in use, and returns it.
    fn insert_node(&mut self, node: Node) -> (r: EResult<Arc<Node>>)
        ensures
            final(self).calls() == old(self).calls().push(
                (Call::InsertNode(node), Reply::Node(node_view(r))),
            ),
    ;

    /// Returns the node at `location` from the table of nodes in use. If there is none, adds one
    /// with the operations `ops`.
    fn get_or_insert_node(&mut self, location: FileLocation, ops: Ops) -> (r: EResult<
        Arc<Node>,
    >)
        ensures
            final(self).calls() == old(self).calls().push(
                (Call::GetOrInsertNode(location, ops), Reply::Node(node_view(r))),
            ),
    ;

    /// Removes the file at `loc` from its file system, if nothing uses it and no link to it is
    /// left.
    fn try_remove_node(&mut self, loc: FileLocation, ops: Ops) -> (r: EResult<()>)
        ensures
            final(self).calls() == old(self).calls().push(
                (Call::TryRemoveNode(loc, ops), Reply::Done(r)),
            ),
    ;

    /// Gives a node in use back, removing the file from its file system if nothing uses it and
    /// no link to it is left.
    fn release_node(&mut self, node: Arc<Node>) -> (r: EResult<()>)
        ensures
            final(self).calls() == old(self).calls().push((Call::ReleaseNode(*node), Reply::Done(r))),
    ;

    /// Returns the mountpoint with the given ID.
    fn mountpoint_from_id(&mut self, id: u32) -> (r: Option<MountPoint>)
        ensures
            final(self).calls() == old(self).calls().push(
                (Call::MountPointFromId(id), Reply::MountPoint(r)),
            ),
    ;

    /// Returns the device with the given ID.
    fn get_device(&mut self, id: DeviceID) -> (r: Option<Device>)
        ensures
            final(self).calls() == old(self).calls().push((Call::GetDevice(id), Reply::Device(r))),
    ;

    /// Tells which of the events in `mask` the device is ready for.
    fn device_poll(&mut self, dev: Device, mask: u32) -> (r: EResult<u32>)
        ensures
            final(self).calls() == old(self).calls().push((Call::DevicePoll(dev, mask), Reply::Value(r))),
    ;

    /// Performs an I/O control request on the device.
    fn device_ioctl(&mut self, dev: Device, request: Request, argp: usize) -> (r: EResult<u32>)
        ensures
            final(self).calls() == old(self).calls().push(
                (Call::DeviceIoctl(dev, request, argp), Reply::Value(r)),
            ),
    ;

    /// Reads at most `len` bytes from the device, from the offset `off`.
    fn device_read(&mut self, dev: Device, off: u64, len: usize) -> (r: EResult<Vec<u8>>)
        ensures
            final(self).calls() == old(self).calls().push(
                (Call::DeviceRead(dev, off, len), Reply::Data(data_view(r))),
            ),
    ;

    /// Writes `buf` to the device, from the offset `off`. Returns the number of bytes written.
    fn device_write(&mut self, dev: Device, off: u64, buf: &[u8]) -> (r: EResult<usize>)
        ensures
            final(self).calls() == old(self).calls().push(
                (Call::DeviceWrite(dev, off, buf@), Reply::Written(r)),
            ),
    ;
}

/// What the VFS asks.
pub enum Call {
    GetStat(Ops, FileLocation),
    EntryByName(Ops, FileLocation, Seq<u8>),
    ReadContent(Ops, FileLocation, u64, usize),
    WriteContent(Ops, FileLocation, u64, Seq<u8>),
    AddFile(Ops, FileLocation, Seq<u8>, Stat),
    Link(Ops, FileLocation, Seq<u8>, INode),
    Unlink(Ops, FileLocation, Seq<u8>),
    InsertNode(Node),
    GetOrInsertNode(FileLocation, Ops),
    TryRemoveNode(FileLocation, Ops),
    ReleaseNode(Node),
    MountPointFromId(u32),
    GetDevice(DeviceID),
    DevicePoll(Device, u32),
    DeviceIoctl(Device, Request, usize),
    DeviceRead(Device, u64, usize),
    DeviceWrite(Device, u64, Seq<u8>),
}

/// What the VFS is answered.
pub enum Reply {
    Stat(EResult<Stat>),
    Entry(EResult<Option<(DirEntry, Ops)>>),
    Data(EResult<Seq<u8>>),
    Written(EResult<usize>),
    Added(EResult<(INode, Ops)>),
    Done(EResult<()>),
    Node(EResult<Node>),
    MountPoint(Option<MountPoint>),
    Device(Option<Device>),
    Value(EResult<u32>),
}

/// The bytes that were read, in contracts.
pub open spec fn data_view(r: EResult<Vec<u8>>) -> EResult<Seq<u8>> {
    match r {
        Ok(data) => Ok(data@),
        Err(e) => Err(e),
    }
}

/// The node that was handed out, in contracts.
pub open spec fn node_view(r: EResult<Arc<Node>>) -> EResult<Node> {
    match r {
        Ok(node) => Ok(*node),
        Err(e) => Err(e),
    }
}

} // verus!
