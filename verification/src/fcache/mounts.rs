//! What the file cache asks of the rest of the kernel: the mountpoints, and the file systems
//! mounted there.

use crate::errno::EResult;
use crate::fcache::file::{ContentView, File, FileContent, FileView, Mode};
use crate::file_path::{FilePath, FilePathView};
use crate::stat::{FileLocation, Gid, INode, Uid};
use vstd::prelude::*;

verus! {

/// A mountpoint, and the file system mounted there.
#[derive(Clone, Copy, PartialEq, Eq, Structural, Debug)]
pub struct Mount {
    /// The ID of the mountpoint.
    pub id: u32,
    /// The number of names in the path of the mountpoint.
    pub depth: usize,
}

/// A handle to the I/O interface of the source of a mountpoint.
#[derive(Clone, Copy, PartialEq, Eq, Structural, Debug)]
pub struct Io {
    pub id: u64,
}

/// The services that the file cache rests on. Nothing is taken for granted of what they
/// answer: a method only adds itself to the history of what was asked.
pub trait Mounts: Sized {
    /// What was asked so far, each call with its reply, oldest first.
    ///
    /// This is ghost: an implementation outside of verified code has nothing to provide. A verified
    /// implementation gives a body of its own, in place of the default one, of which nothing is
    /// known.
    closed spec fn calls(&self) -> Seq<(MountCall, MountReply)> {
        arbitrary()
    }

    /// Returns the deepest mountpoint on the way to `path`.
    fn get_deepest(&mut self, path: &FilePath) -> (r: Option<Mount>)
        ensures
            final(self).calls() == old(self).calls().push(
                (MountCall::GetDeepest(path@), MountReply::Mount(r)),
            ),
    ;

    /// Returns the mountpoint of the file at `loc`.
    fn get_mountpoint(&mut self, loc: FileLocation) -> (r: Option<Mount>)
        ensures
            final(self).calls() == old(self).calls().push(
                (MountCall::GetMountpoint(loc), MountReply::Mount(r)),
            ),
    ;

    /// Returns the I/O interface of the source of a mountpoint.
    fn get_io(&mut self, mount: Mount) -> (r: EResult<Io>)
        ensures
            final(self).calls() == old(self).calls().push((MountCall::GetIo(mount), MountReply::Io(r))),
    ;

    /// Returns the inode of the root of the file system.
    fn get_root_inode(&mut self, mount: Mount, io: Io) -> (r: EResult<INode>)
        ensures
            final(self).calls() == old(self).calls().push(
                (MountCall::GetRootInode(mount, io), MountReply::INode(r)),
            ),
    ;

    /// Returns the inode of the file `name` in the directory `parent`.
    fn get_inode(&mut self, mount: Mount, io: Io, parent: INode, name: &[u8]) -> (r: EResult<
        INode,
    >)
        ensures
            final(self).calls() == old(self).calls().push(
                (MountCall::GetInode(mount, io, parent, name@), MountReply::INode(r)),
            ),
    ;

    /// Loads the file at `inode`, under the name `name`.
    fn load_file(&mut self, mount: Mount, io: Io, inode: INode, name: &[u8]) -> (r: EResult<
        File,
    >)
        ensures
            final(self).calls() == old(self).calls().push(
                (MountCall::LoadFile(mount, io, inode, name@), MountReply::File(file_view(r))),
            ),
    ;

    /// Tells whether the file system is read-only.
    fn is_readonly(&mut self, mount: Mount) -> (r: bool)
        ensures
            final(self).calls() == old(self).calls().push(
                (MountCall::IsReadonly(mount), MountReply::Readonly(r)),
            ),
    ;

    /// Adds a file to the directory `parent`.
    fn add_file(
        &mut self,
        mount: Mount,
        io: Io,
        parent: INode,
        name: &[u8],
        uid: Uid,
        gid: Gid,
        mode: Mode,
        content: FileContent,
    ) -> (r: EResult<File>)
        ensures
            final(self).calls() == old(self).calls().push(
                (
                    MountCall::AddFile(mount, io, parent, name@, uid, gid, mode, content@),
                    MountReply::File(file_view(r)),
                ),
            ),
    ;

    /// Removes the file `name` from the directory `parent`.
    fn remove_file(&mut self, mount: Mount, io: Io, parent: INode, name: &[u8]) -> (r: EResult<
        (),
    >)
        ensures
            final(self).calls() == old(self).calls().push(
                (MountCall::RemoveFile(mount, io, parent, name@), MountReply::Done(r)),
            ),
    ;

    /// Writes a file back to the disk.
    fn sync(&mut self, file: &File) -> (r: EResult<()>)
        ensures
            final(self).calls() == old(self).calls().push(
                (MountCall::Sync(file@), MountReply::Done(r)),
            ),
    ;
}

/// What the file cache asks.
pub enum MountCall {
    GetDeepest(FilePathView),
    GetMountpoint(FileLocation),
    GetIo(Mount),
    GetRootInode(Mount, Io),
    GetInode(Mount, Io, INode, Seq<u8>),
    LoadFile(Mount, Io, INode, Seq<u8>),
    IsReadonly(Mount),
    AddFile(Mount, Io, INode, Seq<u8>, Uid, Gid, Mode, ContentView),
    RemoveFile(Mount, Io, INode, Seq<u8>),
    Sync(FileView),
}

/// What the file cache is answered.
pub enum MountReply {
    Mount(Option<Mount>),
    Io(EResult<Io>),
    INode(EResult<INode>),
    File(EResult<FileView>),
    Readonly(bool),
    Done(EResult<()>),
}

/// A file that was handed out, in contracts.
pub open spec fn file_view(r: EResult<File>) -> EResult<FileView> {
    match r {
        Ok(file) => Ok(file@),
        Err(e) => Err(e),
    }
}

} // verus!
