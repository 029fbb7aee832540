//! The status of a file: its type, mode, owners and location.

use vstd::prelude::*;

verus! {

/// A user ID.
pub type Uid = u16;

/// A group ID.
pub type Gid = u16;

/// An inode number, unique within a file system.
pub type INode = u64;

/// The bits of a mode that hold the type of the file.
pub const S_IFMT: u32 = 0o170000;

/// The type bits of a socket.
pub const S_IFSOCK: u32 = 0o140000;

/// The type bits of a symbolic link.
pub const S_IFLNK: u32 = 0o120000;

/// The type bits of a regular file.
pub const S_IFREG: u32 = 0o100000;

/// The type bits of a block device.
pub const S_IFBLK: u32 = 0o060000;

/// The type bits of a directory.
pub const S_IFDIR: u32 = 0o040000;

/// The type bits of a character device.
pub const S_IFCHR: u32 = 0o020000;

/// The type bits of a FIFO.
pub const S_IFIFO: u32 = 0o010000;

/// The type of a file.
#[derive(Clone, Copy, PartialEq, Eq, Structural, Debug)]
pub enum FileType {
    Regular,
    Directory,
    Link,
    Fifo,
    Socket,
    BlockDevice,
    CharDevice,
}

/// The type of a device.
#[derive(Clone, Copy, PartialEq, Eq, Structural, Debug)]
pub enum DeviceType {
    Block,
    Char,
}

/// The identity of a device.
#[derive(Clone, Copy, PartialEq, Eq, Structural, Debug)]
pub struct DeviceID {
    pub dev_type: DeviceType,
    pub major: u32,
    pub minor: u32,
}

/// The file type that the type bits of `mode` stand for, if any.
pub open spec fn mode_type(mode: u32) -> Option<FileType> {
    let bits = mode & S_IFMT;
    if bits == S_IFSOCK {
        Some(FileType::Socket)
    } else if bits == S_IFLNK {
        Some(FileType::Link)
    } else if bits == S_IFREG {
        Some(FileType::Regular)
    } else if bits == S_IFBLK {
        Some(FileType::BlockDevice)
    } else if bits == S_IFDIR {
        Some(FileType::Directory)
    } else if bits == S_IFCHR {
        Some(FileType::CharDevice)
    } else if bits == S_IFIFO {
        Some(FileType::Fifo)
    } else {
        None
    }
}

/// The device type of a file of type `t`, if it is a device.
pub open spec fn device_type(t: FileType) -> Option<DeviceType> {
    match t {
        FileType::BlockDevice => Some(DeviceType::Block),
        FileType::CharDevice => Some(DeviceType::Char),
        _ => None,
    }
}

/// The number that stands for `t` in a directory entry.
pub open spec fn dirent_type(t: FileType) -> u8 {
    match t {
        FileType::Fifo => 1,
        FileType::CharDevice => 2,
        FileType::Directory => 4,
        FileType::BlockDevice => 6,
        FileType::Regular => 8,
        FileType::Link => 10,
        FileType::Socket => 12,
    }
}

impl FileType {
    /// Returns the type that the type bits of `mode` stand for.
    pub fn from_mode(mode: u32) -> (t: Option<FileType>)
        ensures
            t == mode_type(mode),
    {
        let bits: u32 = mode & S_IFMT;
        if bits == S_IFSOCK {
            Some(FileType::Socket)
        } else if bits == S_IFLNK {
            Some(FileType::Link)
        } else if bits == S_IFREG {
            Some(FileType::Regular)
        } else if bits == S_IFBLK {
            Some(FileType::BlockDevice)
        } else if bits == S_IFDIR {
            Some(FileType::Directory)
        } else if bits == S_IFCHR {
            Some(FileType::CharDevice)
        } else if bits == S_IFIFO {
            Some(FileType::Fifo)
        } else {
            None
        }
    }

    /// Returns the device type, if the file is a device.
    pub fn to_device_type(self) -> (t: Option<DeviceType>)
        ensures
            t == device_type(self),
    {
        match self {
            FileType::BlockDevice => Some(DeviceType::Block),
            FileType::CharDevice => Some(DeviceType::Char),
            _ => None,
        }
    }

    /// Returns the number that stands for the type in a directory entry.
    pub fn to_dirent_type(self) -> (t: u8)
        ensures
            t == dirent_type(self),
    {
        match self {
            FileType::Fifo => 1,
            FileType::CharDevice => 2,
            FileType::Directory => 4,
            FileType::BlockDevice => 6,
            FileType::Regular => 8,
            FileType::Link => 10,
            FileType::Socket => 12,
        }
    }
}

/// The status of a file.
#[derive(Clone, Copy, PartialEq, Eq, Structural, Debug)]
pub struct Stat {
    /// The type of the file, on its own.
    pub file_type: FileType,
    /// The permissions of the file, and its type where the bits of [`S_IFMT`] hold one.
    pub mode: u32,
    /// The number of hard links to the file.
    pub nlink: u16,
    /// The owner of the file.
    pub uid: Uid,
    /// The group of the file.
    pub gid: Gid,
    /// The size of the file in bytes.
    pub size: u64,
    /// The major number, if the file is a device.
    pub dev_major: u32,
    /// The minor number, if the file is a device.
    pub dev_minor: u32,
}

impl Stat {
    /// Returns the type of the file that its mode holds, if it holds a valid one.
    pub fn get_type(&self) -> (t: Option<FileType>)
        ensures
            t == mode_type(self.mode),
    {
        FileType::from_mode(self.mode)
    }
}

/// Where a file is: a mountpoint, and an inode of the file system mounted there.
#[derive(Clone, Copy, PartialEq, Eq, Structural, Debug)]
pub struct FileLocation {
    pub mountpoint_id: u32,
    pub inode: INode,
}

/// The type of a file stands in four bits of its mode, and the other bits do not matter. No two types
/// share their bits.
pub proof fn law_type_stands_in_the_mode(mode: u32)
    ensures
        mode_type(mode) == Some(FileType::Socket) <==> mode & 0o170000 == 0o140000,
        mode_type(mode) == Some(FileType::Link) <==> mode & 0o170000 == 0o120000,
        mode_type(mode) == Some(FileType::Regular) <==> mode & 0o170000 == 0o100000,
        mode_type(mode) == Some(FileType::BlockDevice) <==> mode & 0o170000 == 0o060000,
        mode_type(mode) == Some(FileType::Directory) <==> mode & 0o170000 == 0o040000,
        mode_type(mode) == Some(FileType::CharDevice) <==> mode & 0o170000 == 0o020000,
        mode_type(mode) == Some(FileType::Fifo) <==> mode & 0o170000 == 0o010000,
{
}

/// Devices, and nothing else, have a device type, and it tells block devices from character devices.
pub proof fn law_devices_have_a_device_type(t: FileType)
    ensures
        device_type(t) == Some(DeviceType::Block) <==> t == FileType::BlockDevice,
        device_type(t) == Some(DeviceType::Char) <==> t == FileType::CharDevice,
{
}

/// The number of a type in a directory entry is that of its bits in a mode: the upper four of the
/// sixteen.
pub proof fn law_entry_types_are_mode_types(mode: u32, t: FileType)
    requires
        mode_type(mode) == Some(t),
    ensures
        dirent_type(t) == (mode & 0o170000) / 0o010000,
{
}

/// The answers on types are those for exactly the mode or the type that was given.
pub proof fn law_type_answers(
    mode: u32,
    from_mode: Option<FileType>,
    stat: &Stat,
    of_stat: Option<FileType>,
    t: FileType,
    device: Option<DeviceType>,
    number: u8,
)
    requires
        call_ensures(FileType::from_mode, (mode,), from_mode),
        call_ensures(Stat::get_type, (stat,), of_stat),
        call_ensures(FileType::to_device_type, (t,), device),
        call_ensures(FileType::to_dirent_type, (t,), number),
    ensures
        from_mode == mode_type(mode),
        of_stat == mode_type(stat.mode),
        device == device_type(t),
        from_mode == Some(t) ==> number == (mode & 0o170000) / 0o010000,
{
}

} // verus!
