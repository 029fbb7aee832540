//! A file, as it is loaded from a file system.

use crate::bytes::bytes_eq;
use crate::errno::{EResult, ENOTDIR};
use crate::file_path::{FilePath, FilePathView};
use crate::path::DOT;
use crate::perm::{
    granted, is_granted, superuser, ROOT_GID, ROOT_UID, S_IRGRP, S_IROTH, S_IRUSR, S_IWGRP,
    S_IWOTH, S_IWUSR,
};
use crate::stat::{FileLocation, FileType, Gid, INode, Uid};
use vstd::prelude::*;

verus! {

/// The permissions of a file.
pub type Mode = u32;

/// What a directory tells of a file in it.
#[derive(Clone, Copy, PartialEq, Eq, Structural, Debug)]
pub struct DirEntry {
    pub entry_type: FileType,
    pub inode: INode,
}

/// A name in a directory, and what it stands for.
pub struct NamedEntry {
    pub name: Vec<u8>,
    pub entry: DirEntry,
}

/// The content of a file. It also determines the type of the file.
pub enum FileContent {
    Regular,
    Directory(Vec<NamedEntry>),
    Link(Vec<u8>),
    Fifo,
    Socket,
    BlockDevice { major: u32, minor: u32 },
    CharDevice { major: u32, minor: u32 },
}

/// The content of a file, in contracts.
pub enum ContentView {
    Regular,
    Directory(Seq<(Seq<u8>, DirEntry)>),
    Link(Seq<u8>),
    Fifo,
    Socket,
    BlockDevice(u32, u32),
    CharDevice(u32, u32),
}

/// The entries of a directory, in contracts.
pub open spec fn entries_view(entries: Seq<NamedEntry>) -> Seq<(Seq<u8>, DirEntry)> {
    entries.map_values(|e: NamedEntry| (e.name@, e.entry))
}

impl FileContent {
    pub open spec fn view(&self) -> ContentView {
        match self {
            FileContent::Regular => ContentView::Regular,
            FileContent::Directory(entries) => ContentView::Directory(entries_view(entries@)),
            FileContent::Link(target) => ContentView::Link(target@),
            FileContent::Fifo => ContentView::Fifo,
            FileContent::Socket => ContentView::Socket,
            FileContent::BlockDevice { major, minor } => ContentView::BlockDevice(*major, *minor),
            FileContent::CharDevice { major, minor } => ContentView::CharDevice(*major, *minor),
        }
    }
}

impl FileContent {
    /// Returns a copy of the content.
    pub fn copied(&self) -> (content: Self)
        ensures
            content@ == self@,
    {
        match self {
            FileContent::Regular => FileContent::Regular,
            FileContent::Directory(entries) => {
                let mut copies: Vec<NamedEntry> = Vec::new();
                let ghost all = entries_view(entries@);
                let mut i: usize = 0;
                assert(entries_view(copies@) =~= all.take(0));
                while i < entries.len()
                    invariant
                        i <= entries@.len(),
                        all == entries_view(entries@),
                        entries_view(copies@) == all.take(i as int),
                    decreases entries@.len() - i,
                {
                    let ghost before = copies@;
                    let name: Vec<u8> = vstd::slice::slice_to_vec(entries[i].name.as_slice());
                    copies.push(NamedEntry { name, entry: entries[i].entry });
                    proof {
                        assert(all[i as int] == (name@, entries@[i as int].entry));
                        assert(entries_view(copies@) =~= entries_view(before).push(all[i as int]));
                        assert(all.take(i + 1) =~= all.take(i as int).push(all[i as int]));
                    }
                    i = i + 1;
                }
                assert(all.take(i as int) =~= all);
                FileContent::Directory(copies)
            },
            FileContent::Link(target) => FileContent::Link(
                vstd::slice::slice_to_vec(target.as_slice()),
            ),
            FileContent::Fifo => FileContent::Fifo,
            FileContent::Socket => FileContent::Socket,
            FileContent::BlockDevice { major, minor } => FileContent::BlockDevice {
                major: *major,
                minor: *minor,
            },
            FileContent::CharDevice { major, minor } => FileContent::CharDevice {
                major: *major,
                minor: *minor,
            },
        }
    }
}

/// The type of a file with the content `content`.
pub open spec fn content_type(content: ContentView) -> FileType {
    match content {
        ContentView::Regular => FileType::Regular,
        ContentView::Directory(_) => FileType::Directory,
        ContentView::Link(_) => FileType::Link,
        ContentView::Fifo => FileType::Fifo,
        ContentView::Socket => FileType::Socket,
        ContentView::BlockDevice(_, _) => FileType::BlockDevice,
        ContentView::CharDevice(_, _) => FileType::CharDevice,
    }
}

/// `name` is `.` or `..`.
pub open spec fn is_dots(name: Seq<u8>) -> bool {
    name == seq![DOT] || name == seq![DOT, DOT]
}

/// One of the entries is neither `.` nor `..`.
pub open spec fn names_file(entries: Seq<(Seq<u8>, DirEntry)>) -> bool {
    exists|i: int| 0 <= i < entries.len() && !is_dots((#[trigger] entries[i]).0)
}

/// The content is that of a directory that holds something besides `.` and `..`.
pub open spec fn holds_files(content: ContentView) -> bool {
    match content {
        ContentView::Directory(entries) => names_file(entries),
        _ => false,
    }
}

/// The entries `s` with the entry `entry` for `name`, in place of what stood for `name` if
/// anything did; looking from the position `i` on.
pub open spec fn put_entry(s: Seq<(Seq<u8>, DirEntry)>, i: int, name: Seq<u8>, entry: DirEntry) -> Seq<
    (Seq<u8>, DirEntry),
>
    decreases s.len() - i,
{
    if i < 0 || i >= s.len() {
        s.push((name, entry))
    } else if s[i].0 == name {
        s.update(i, (name, entry))
    } else {
        put_entry(s, i + 1, name, entry)
    }
}

/// A file.
pub struct File {
    /// The name of the file.
    pub name: Vec<u8>,
    /// The owner of the file.
    pub uid: Uid,
    /// The group of the file.
    pub gid: Gid,
    /// The permissions of the file.
    pub mode: Mode,
    /// The content of the file.
    pub content: FileContent,
    /// Where the file is.
    pub location: FileLocation,
    /// The path of the directory that holds the file.
    pub parent_path: FilePath,
    /// The file is in use, and cannot be removed.
    pub busy: bool,
}

/// A file, in contracts.
pub struct FileView {
    pub name: Seq<u8>,
    pub uid: Uid,
    pub gid: Gid,
    pub mode: Mode,
    pub content: ContentView,
    pub location: FileLocation,
    pub parent_path: FilePathView,
    pub busy: bool,
}

/// The user `uid` of the group `gid` may read the file.
pub open spec fn may_read(file: FileView, uid: Uid, gid: Gid) -> bool {
    superuser(uid, gid) || granted(
        uid,
        gid,
        file.uid,
        file.gid,
        file.mode,
        S_IRUSR,
        S_IRGRP,
        S_IROTH,
    )
}

/// The user `uid` of the group `gid` may write the file.
pub open spec fn may_write(file: FileView, uid: Uid, gid: Gid) -> bool {
    superuser(uid, gid) || granted(
        uid,
        gid,
        file.uid,
        file.gid,
        file.mode,
        S_IWUSR,
        S_IWGRP,
        S_IWOTH,
    )
}

/// The path of the file. The root, which has no name, is its own parent.
pub open spec fn file_path_of(file: FileView) -> FilePathView {
    if file.name.len() == 0 {
        file.parent_path
    } else {
        FilePathView {
            absolute: file.parent_path.absolute,
            parts: file.parent_path.parts.push(file.name),
        }
    }
}

/// The entry that stands for the file in its directory.
pub open spec fn dir_entry_of(file: FileView) -> DirEntry {
    DirEntry { entry_type: content_type(file.content), inode: file.location.inode }
}

/// The directory `dir` with the entry `entry` for `name`.
pub open spec fn with_entry(dir: FileView, name: Seq<u8>, entry: DirEntry) -> FileView {
    match dir.content {
        ContentView::Directory(entries) => FileView {
            content: ContentView::Directory(put_entry(entries, 0, name, entry)),
            ..dir
        },
        _ => dir,
    }
}

impl File {
    pub open spec fn view(&self) -> FileView {
        FileView {
            name: self.name@,
            uid: self.uid,
            gid: self.gid,
            mode: self.mode,
            content: self.content@,
            location: self.location,
            parent_path: self.parent_path@,
            busy: self.busy,
        }
    }

    /// Returns a copy of the file.
    pub fn copied(&self) -> (file: Self)
        ensures
            file@ == self@,
    {
        File {
            name: vstd::slice::slice_to_vec(self.name.as_slice()),
            uid: self.uid,
            gid: self.gid,
            mode: self.mode,
            content: self.content.copied(),
            location: self.location,
            parent_path: self.parent_path.copied(),
            busy: self.busy,
        }
    }

    /// Returns the type of the file.
    pub fn get_file_type(&self) -> (t: FileType)
        ensures
            t == content_type(self@.content),
    {
        match &self.content {
            FileContent::Regular => FileType::Regular,
            FileContent::Directory(_) => FileType::Directory,
            FileContent::Link(_) => FileType::Link,
            FileContent::Fifo => FileType::Fifo,
            FileContent::Socket => FileType::Socket,
            FileContent::BlockDevice { .. } => FileType::BlockDevice,
            FileContent::CharDevice { .. } => FileType::CharDevice,
        }
    }

    /// Tells whether the user `uid` of the group `gid` can read the file.
    pub fn can_read(&self, uid: Uid, gid: Gid) -> (r: bool)
        ensures
            r == may_read(self@, uid, gid),
    {
        uid == ROOT_UID || gid == ROOT_GID || is_granted(
            uid,
            gid,
            self.uid,
            self.gid,
            self.mode,
            S_IRUSR,
            S_IRGRP,
            S_IROTH,
        )
    }

    /// Tells whether the user `uid` of the group `gid` can write the file.
    pub fn can_write(&self, uid: Uid, gid: Gid) -> (r: bool)
        ensures
            r == may_write(self@, uid, gid),
    {
        uid == ROOT_UID || gid == ROOT_GID || is_granted(
            uid,
            gid,
            self.uid,
            self.gid,
            self.mode,
            S_IWUSR,
            S_IWGRP,
            S_IWOTH,
        )
    }

    /// Returns the path of the file.
    pub fn get_path(&self) -> (path: FilePath)
        ensures
            path@ == file_path_of(self@),
    {
        let mut path: FilePath = self.parent_path.copied();
        if self.name.len() > 0 {
            path.push(vstd::slice::slice_to_vec(self.name.as_slice()));
        }
        path
    }

    /// Returns the entry that stands for the file in its directory.
    pub fn to_dir_entry(&self) -> (entry: DirEntry)
        ensures
            entry == dir_entry_of(self@),
    {
        DirEntry { entry_type: self.get_file_type(), inode: self.location.inode }
    }

    /// Tells whether the file is a directory that holds something besides `.` and `..`.
    pub fn is_nonempty_directory(&self) -> (r: bool)
        ensures
            r == holds_files(self@.content),
    {
        let dot: [u8; 1] = [DOT];
        let dots: [u8; 2] = [DOT, DOT];
        assert(dot@ =~= seq![DOT]);
        assert(dots@ =~= seq![DOT, DOT]);
        match &self.content {
            FileContent::Directory(entries) => {
                let ghost all = entries_view(entries@);
                let mut i: usize = 0;
                while i < entries.len()
                    invariant
                        i <= entries@.len(),
                        all == entries_view(entries@),
                        dot@ == seq![DOT],
                        dots@ == seq![DOT, DOT],
                        self.content == FileContent::Directory(*entries),
                        forall|j: int| 0 <= j < i ==> is_dots((#[trigger] all[j]).0),
                    decreases entries@.len() - i,
                {
                    let name: &[u8] = entries[i].name.as_slice();
                    assert(all[i as int].0 == name@);
                    if !bytes_eq(name, &dot) && !bytes_eq(name, &dots) {
                        assert(!is_dots(all[i as int].0));
                        assert(names_file(all));
                        return true;
                    }
                    i = i + 1;
                }
                false
            },
            _ => false,
        }
    }

    /// Adds an entry for `name` to the directory, in place of the one that is there, if any.
    ///
    /// If the file is not a directory, the function returns [`ENOTDIR`].
    pub fn add_entry(&mut self, name: Vec<u8>, entry: DirEntry) -> (r: EResult<()>)
        ensures
            final(self)@ == with_entry(old(self)@, name@, entry),
            match r {
                Ok(()) => old(self)@.content is Directory,
                Err(e) => e == ENOTDIR && !(old(self)@.content is Directory),
            },
    {
        match &mut self.content {
            FileContent::Directory(entries) => {
                put_named(entries, name, entry);
                Ok(())
            },
            _ => Err(ENOTDIR),
        }
    }
}

/// Adds an entry for `name`, in place of the one that is there, if any.
fn put_named(entries: &mut Vec<NamedEntry>, name: Vec<u8>, entry: DirEntry)
    ensures
        entries_view(final(entries)@) == put_entry(
            entries_view(old(entries)@),
            0,
            name@,
            entry,
        ),
{
    let ghost all = entries_view(old(entries)@);
    let mut i: usize = 0;
    while i < entries.len()
        invariant
            i <= entries@.len(),
            entries@ == old(entries)@,
            all == entries_view(entries@),
            put_entry(all, 0, name@, entry) == put_entry(all, i as int, name@, entry),
        decreases entries@.len() - i,
    {
        assert(all[i as int].0 == entries@[i as int].name@);
        if bytes_eq(entries[i].name.as_slice(), name.as_slice()) {
            entries.set(i, NamedEntry { name, entry });
            assert(entries_view(entries@) =~= all.update(i as int, (name@, entry)));
            return;
        }
        i = i + 1;
    }
    entries.push(NamedEntry { name, entry });
    assert(entries_view(entries@) =~= all.push((name@, entry)));
}

} // verus!
