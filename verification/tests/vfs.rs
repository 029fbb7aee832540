use maestro::errno::{
    EResult, EACCES, EBUSY, ELOOP, EMLINK, ENAMETOOLONG, ENODEV, ENOENT, ENOMEM, ENOTDIR, ENOTTY,
    EOVERFLOW, EPERM, EUCLEAN, EXDEV,
};
use maestro::ioctl::Request;
use maestro::limits::{LINK_MAX, PATH_MAX, SYMLOOP_MAX};
use maestro::path::Path;
use maestro::perm::{AccessProfile, S_ISGID, S_ISVTX};
use maestro::stat::{
    DeviceID, DeviceType, FileLocation, FileType, INode, Stat, S_IFCHR, S_IFDIR, S_IFLNK, S_IFREG,
};
use maestro::vfs::backend::{Backend, Device, DirEntry, MountPoint, Node, Ops};
use maestro::vfs::edit::{create_file, link, unlink, unlink_from_path};
use maestro::vfs::entry::Entry;
use maestro::vfs::file_ops::{File, FileOps};
use maestro::vfs::resolve::{
    get_file_from_path, get_file_from_path_opt, resolve_entry, resolve_path, root, ProcessFs,
    ResolutionSettings, Resolved,
};
use maestro::vfs::state::Vfs;
use std::cell::RefCell;
use std::collections::HashMap;
use std::rc::Rc;
use std::sync::Arc;

const ROOT: INode = 2;
const MAIN: u32 = 1;

struct Record {
    stat: Stat,
    content: Vec<u8>,
    entries: Vec<(Vec<u8>, INode)>,
}

struct Disk {
    records: HashMap<INode, Record>,
    next: INode,
    /// The mountpoint of the inodes that are not on the main one.
    mounts: HashMap<INode, u32>,
    /// The most bytes that a read gives at once.
    chunk: usize,
    devices: Vec<DeviceID>,
    lookups: usize,
    unlinked: Vec<Vec<u8>>,
    released: Vec<INode>,
    tried: Vec<INode>,
    device_data: Vec<u8>,
}

#[derive(Clone)]
struct Shared(Rc<RefCell<Disk>>);

fn dir_entry(disk: &Disk, inode: INode) -> DirEntry {
    let entry_type = FileType::from_mode(disk.records[&inode].stat.mode);
    DirEntry { inode, entry_type: entry_type.unwrap_or(FileType::Regular) }
}

impl Backend for Shared {
    fn get_stat(&mut self, _ops: Ops, loc: FileLocation) -> EResult<Stat> {
        Ok(self.0.borrow().records[&loc.inode].stat)
    }

    fn entry_by_name(
        &mut self,
        _ops: Ops,
        loc: FileLocation,
        name: &[u8],
    ) -> EResult<Option<(DirEntry, Ops)>> {
        let mut disk = self.0.borrow_mut();
        disk.lookups += 1;
        let found = disk.records[&loc.inode].entries.iter().find(|e| e.0 == name).map(|e| e.1);
        Ok(found.map(|inode| (dir_entry(&disk, inode), Ops { id: inode })))
    }

    fn read_content(&mut self, _: Ops, loc: FileLocation, off: u64, len: usize) -> EResult<Vec<u8>> {
        let disk = self.0.borrow();
        let content = &disk.records[&loc.inode].content;
        let start = (off as usize).min(content.len());
        let end = (start + len.min(disk.chunk)).min(content.len());
        Ok(content[start..end].to_vec())
    }

    fn write_content(&mut self, _: Ops, loc: FileLocation, off: u64, buf: &[u8]) -> EResult<usize> {
        let mut disk = self.0.borrow_mut();
        let content = &mut disk.records.get_mut(&loc.inode).unwrap().content;
        content.truncate(off as usize);
        content.extend_from_slice(buf);
        Ok(buf.len())
    }

    fn add_file(
        &mut self,
        _: Ops,
        loc: FileLocation,
        name: &[u8],
        stat: Stat,
    ) -> EResult<(INode, Ops)> {
        let inode = add(self, loc.inode, name, stat, b"");
        Ok((inode, Ops { id: inode }))
    }

    fn link(&mut self, _: Ops, loc: FileLocation, name: &[u8], inode: INode) -> EResult<()> {
        let mut disk = self.0.borrow_mut();
        disk.records.get_mut(&loc.inode).unwrap().entries.push((name.to_vec(), inode));
        disk.records.get_mut(&inode).unwrap().stat.nlink += 1;
        Ok(())
    }

    fn unlink(&mut self, _: Ops, loc: FileLocation, name: &[u8]) -> EResult<()> {
        let mut disk = self.0.borrow_mut();
        disk.records.get_mut(&loc.inode).unwrap().entries.retain(|e| e.0 != name);
        disk.unlinked.push(name.to_vec());
        Ok(())
    }

    fn insert_node(&mut self, node: Node) -> EResult<Arc<Node>> {
        let mut node = node;
        if let Some(id) = self.0.borrow().mounts.get(&node.location.inode) {
            node.location.mountpoint_id = *id;
        }
        Ok(Arc::new(node))
    }

    fn get_or_insert_node(&mut self, location: FileLocation, ops: Ops) -> EResult<Arc<Node>> {
        Ok(Arc::new(Node { location, ops }))
    }

    fn try_remove_node(&mut self, loc: FileLocation, _ops: Ops) -> EResult<()> {
        self.0.borrow_mut().tried.push(loc.inode);
        Ok(())
    }

    fn release_node(&mut self, node: Arc<Node>) -> EResult<()> {
        self.0.borrow_mut().released.push(node.location.inode);
        Ok(())
    }

    fn mountpoint_from_id(&mut self, id: u32) -> Option<MountPoint> {
        Some(MountPoint { id })
    }

    fn get_device(&mut self, id: DeviceID) -> Option<Device> {
        self.0.borrow().devices.iter().position(|d| *d == id).map(|i| Device { id: i as u64 })
    }

    fn device_poll(&mut self, dev: Device, mask: u32) -> EResult<u32> {
        Ok(mask & (1 << dev.id))
    }

    fn device_ioctl(&mut self, dev: Device, request: Request, argp: usize) -> EResult<u32> {
        Ok(dev.id as u32 + request.get_old_format() + argp as u32)
    }

    fn device_read(&mut self, _dev: Device, off: u64, len: usize) -> EResult<Vec<u8>> {
        Ok(vec![off as u8; len + 1])
    }

    fn device_write(&mut self, _dev: Device, _off: u64, buf: &[u8]) -> EResult<usize> {
        self.0.borrow_mut().device_data.extend_from_slice(buf);
        Ok(buf.len())
    }
}

fn status(mode: u32, uid: u16, gid: u16, size: usize) -> Stat {
    Stat {
        file_type: FileType::from_mode(mode).unwrap_or(FileType::Regular),
        mode,
        nlink: 1,
        uid,
        gid,
        size: size as u64,
        dev_major: 0,
        dev_minor: 0,
    }
}

/// Adds a file to the disk, and returns its inode.
fn add(disk: &Shared, dir: INode, name: &[u8], stat: Stat, content: &[u8]) -> INode {
    let mut disk = disk.0.borrow_mut();
    let inode = disk.next;
    disk.next += 1;
    let record = Record { stat, content: content.to_vec(), entries: Vec::new() };
    disk.records.insert(inode, record);
    disk.records.get_mut(&dir).unwrap().entries.push((name.to_vec(), inode));
    inode
}

fn add_dir(disk: &Shared, dir: INode, name: &[u8]) -> INode {
    add(disk, dir, name, status(S_IFDIR | 0o755, 0, 0, 0), b"")
}

fn add_file_with(disk: &Shared, dir: INode, name: &[u8], content: &[u8]) -> INode {
    add(disk, dir, name, status(S_IFREG | 0o644, 0, 0, content.len()), content)
}

fn add_link(disk: &Shared, dir: INode, name: &[u8], target: &[u8]) -> INode {
    add(disk, dir, name, status(S_IFLNK | 0o777, 0, 0, target.len()), target)
}

/// A disk with an empty root directory, and a VFS on it.
fn setup() -> (Shared, Vfs<Shared>) {
    let mut records = HashMap::new();
    let stat = status(S_IFDIR | 0o755, 0, 0, 0);
    records.insert(ROOT, Record { stat, content: Vec::new(), entries: Vec::new() });
    let disk = Shared(Rc::new(RefCell::new(Disk {
        records,
        next: ROOT + 1,
        mounts: HashMap::new(),
        chunk: usize::MAX,
        devices: Vec::new(),
        lookups: 0,
        unlinked: Vec::new(),
        released: Vec::new(),
        tried: Vec::new(),
        device_data: Vec::new(),
    })));
    let node = Node {
        location: FileLocation { mountpoint_id: MAIN, inode: ROOT },
        ops: Ops { id: ROOT },
    };
    let vfs = Vfs::new(Arc::new(node), disk.clone());
    (disk, vfs)
}

fn user(uid: u16, gid: u16) -> AccessProfile {
    AccessProfile { uid, gid, euid: uid, egid: gid, suid: uid, sgid: gid }
}

fn get(vfs: &mut Vfs<Shared>, path: &[u8]) -> EResult<Arc<Entry>> {
    let settings = ResolutionSettings::kernel_follow(vfs);
    get_file_from_path(Path::new(path), &settings, vfs)
}

fn inode_at(vfs: &mut Vfs<Shared>, path: &[u8]) -> EResult<INode> {
    get(vfs, path).map(|e| e.node().location.inode)
}

#[test]
fn root_path_leads_to_root() {
    let (_, mut vfs) = setup();
    let root = root(&vfs);
    let found = get(&mut vfs, b"/").unwrap();
    assert_eq!(found.get_id(), root.get_id());
    assert!(found.get_parent().is_none());
    assert_eq!(get(&mut vfs, b".").unwrap().get_id(), root.get_id());
}

#[test]
fn nested_path_leads_to_file() {
    let (disk, mut vfs) = setup();
    let a = add_dir(&disk, ROOT, b"a");
    let b = add_dir(&disk, a, b"b");
    let c = add_file_with(&disk, b, b"c", b"hello");
    assert_eq!(inode_at(&mut vfs, b"/a/b/c"), Ok(c));
    assert_eq!(inode_at(&mut vfs, b"a//b/./c"), Ok(c));
    assert_eq!(inode_at(&mut vfs, b"/a/b/../b/c"), Ok(c));
    assert_eq!(inode_at(&mut vfs, b"/a/b/.."), Ok(a));
}

#[test]
fn found_entry_is_cached() {
    let (disk, mut vfs) = setup();
    add_file_with(&disk, ROOT, b"f", b"");
    let first = get(&mut vfs, b"/f").unwrap();
    assert_eq!(disk.0.borrow().lookups, 1);
    let second = get(&mut vfs, b"/f").unwrap();
    assert_eq!(disk.0.borrow().lookups, 1);
    assert!(Arc::ptr_eq(&first, &second));
}

#[test]
fn empty_path_is_refused() {
    let (_, mut vfs) = setup();
    assert_eq!(get(&mut vfs, b"").err(), Some(ENOMEM));
    let settings = ResolutionSettings::kernel_nofollow(&vfs);
    assert_eq!(resolve_path(Path::new(b""), &settings, &mut vfs).err(), Some(ENOMEM));
}

#[test]
fn missing_file_is_not_found() {
    let (disk, mut vfs) = setup();
    add_dir(&disk, ROOT, b"a");
    assert_eq!(get(&mut vfs, b"/nope").err(), Some(ENOENT));
    assert_eq!(get(&mut vfs, b"/a/nope/x").err(), Some(ENOENT));
    let settings = ResolutionSettings::kernel_follow(&vfs);
    let opt = get_file_from_path_opt(Path::new(b"/nope"), &settings, &mut vfs);
    assert!(matches!(opt, Ok(None)));
    let opt = get_file_from_path_opt(Path::new(b"/a"), &settings, &mut vfs);
    assert!(matches!(opt, Ok(Some(_))));
}

#[test]
fn missing_file_is_creatable() {
    let (disk, mut vfs) = setup();
    let a = add_dir(&disk, ROOT, b"a");
    let settings = ResolutionSettings { create: true, ..ResolutionSettings::kernel_follow(&vfs) };
    match resolve_path(Path::new(b"/a/new"), &settings, &mut vfs) {
        Ok(Resolved::Creatable { parent, name }) => {
            assert_eq!(parent.node().location.inode, a);
            assert_eq!(name, b"new");
        }
        _ => panic!("not creatable"),
    }
    assert!(matches!(
        resolve_path(Path::new(b"/x/new"), &settings, &mut vfs),
        Err(ENOENT)
    ));
}

#[test]
fn unsearchable_directory_is_refused() {
    let (disk, mut vfs) = setup();
    let a = add(&disk, ROOT, b"a", status(S_IFDIR | 0o600, 5, 5, 0), b"");
    add_file_with(&disk, a, b"f", b"");
    let settings = ResolutionSettings {
        access_profile: user(5, 5),
        ..ResolutionSettings::kernel_follow(&vfs)
    };
    let r = get_file_from_path(Path::new(b"/a/f"), &settings, &mut vfs);
    assert_eq!(r.err(), Some(EACCES));
    let r = get_file_from_path(Path::new(b"/a/f/../x"), &settings, &mut vfs);
    assert_eq!(r.err(), Some(EACCES));
    assert!(get(&mut vfs, b"/a/f").is_ok());
}

#[test]
fn file_is_not_a_directory() {
    let (disk, mut vfs) = setup();
    add_file_with(&disk, ROOT, b"f", b"");
    assert_eq!(get(&mut vfs, b"/f/x").err(), Some(ENOTDIR));
}

#[test]
fn links_are_followed() {
    let (disk, mut vfs) = setup();
    let a = add_dir(&disk, ROOT, b"a");
    let f = add_file_with(&disk, a, b"f", b"");
    let l = add_link(&disk, ROOT, b"l", b"a");
    let m = add_link(&disk, a, b"m", b"../l/f");
    assert_eq!(inode_at(&mut vfs, b"/l/f"), Ok(f));
    assert_eq!(inode_at(&mut vfs, b"/l"), Ok(a));
    assert_eq!(inode_at(&mut vfs, b"/l/m"), Ok(f));
    let nofollow = ResolutionSettings::kernel_nofollow(&vfs);
    let r = get_file_from_path(Path::new(b"/l"), &nofollow, &mut vfs);
    assert_eq!(r.unwrap().node().location.inode, l);
    let r = get_file_from_path(Path::new(b"/a/m"), &nofollow, &mut vfs);
    assert_eq!(r.unwrap().node().location.inode, m);
    let r = get_file_from_path(Path::new(b"/l/f"), &nofollow, &mut vfs);
    assert_eq!(r.err(), Some(ENOTDIR));
}

#[test]
fn nested_links_are_limited() {
    let (disk, mut vfs) = setup();
    let f = add_file_with(&disk, ROOT, b"l0", b"");
    for i in 1..=SYMLOOP_MAX + 1 {
        let name = format!("l{}", i);
        let target = format!("l{}", i - 1);
        add_link(&disk, ROOT, name.as_bytes(), target.as_bytes());
    }
    let most = format!("/l{}", SYMLOOP_MAX);
    assert_eq!(inode_at(&mut vfs, most.as_bytes()), Ok(f));
    let more = format!("/l{}", SYMLOOP_MAX + 1);
    assert_eq!(get(&mut vfs, more.as_bytes()).err(), Some(ELOOP));
    add_link(&disk, ROOT, b"self", b"self");
    assert_eq!(get(&mut vfs, b"/self").err(), Some(ELOOP));
}

#[test]
fn links_side_by_side_are_limited() {
    let (disk, mut vfs) = setup();
    let f = add_file_with(&disk, ROOT, b"f", b"");
    add_link(&disk, ROOT, b"l", b".");
    add_link(&disk, ROOT, b"m", b"l/l/f");
    let most = [b"l/".repeat(SYMLOOP_MAX), b"f".to_vec()].concat();
    assert_eq!(inode_at(&mut vfs, &most), Ok(f));
    let more = [b"l/".repeat(SYMLOOP_MAX + 1), b"f".to_vec()].concat();
    assert_eq!(get(&mut vfs, &more).err(), Some(ELOOP));
    // Three links for `m`
    let most = [b"l/".repeat(SYMLOOP_MAX - 3), b"m".to_vec()].concat();
    assert_eq!(inode_at(&mut vfs, &most), Ok(f));
    let more = [b"l/".repeat(SYMLOOP_MAX - 2), b"m".to_vec()].concat();
    assert_eq!(get(&mut vfs, &more).err(), Some(ELOOP));
}

#[test]
fn long_link_is_refused() {
    let (disk, mut vfs) = setup();
    add_link(&disk, ROOT, b"l", &vec![b'/'; PATH_MAX]);
    add_link(&disk, ROOT, b"m", &vec![b'/'; PATH_MAX + 1]);
    assert_eq!(inode_at(&mut vfs, b"/l"), Ok(ROOT));
    assert_eq!(get(&mut vfs, b"/m").err(), Some(ENAMETOOLONG));
}

#[test]
fn resolution_stays_within_chroot() {
    let (disk, mut vfs) = setup();
    let a = add_dir(&disk, ROOT, b"a");
    let b = add_dir(&disk, a, b"b");
    add_file_with(&disk, ROOT, b"secret", b"");
    add_link(&disk, b, b"up", b"../../..");
    add_link(&disk, b, b"top", b"/");
    let chroot = get(&mut vfs, b"/a").unwrap();
    let cwd = get(&mut vfs, b"/a/b").unwrap();
    let fs = ProcessFs { chroot, cwd, access_profile: user(0, 0) };
    let settings = ResolutionSettings::for_process(&fs, true);
    let mut inode = |path: &[u8]| {
        get_file_from_path(Path::new(path), &settings, &mut vfs).map(|e| e.node().location.inode)
    };
    assert_eq!(inode(b"/"), Ok(a));
    assert_eq!(inode(b"."), Ok(b));
    assert_eq!(inode(b".."), Ok(a));
    assert_eq!(inode(b"../../.."), Ok(a));
    assert_eq!(inode(b"/../../b"), Ok(b));
    assert_eq!(inode(b"up"), Ok(a));
    assert_eq!(inode(b"top"), Ok(a));
    assert_eq!(inode(b"../../secret"), Err(ENOENT));
}

#[test]
fn parents_of_chroot_are_out_of_reach() {
    let (disk, mut vfs) = setup();
    let a = add_dir(&disk, ROOT, b"a");
    let b = add_dir(&disk, a, b"b");
    let c = add_dir(&disk, ROOT, b"c");
    let d = add_dir(&disk, c, b"d");
    let e = add_dir(&disk, a, b"e");
    add_file_with(&disk, ROOT, b"secret", b"");
    add_link(&disk, d, b"up", b"../..");
    let chroot = get(&mut vfs, b"/a/b").unwrap();
    let cwd = get(&mut vfs, b"/c/d").unwrap();
    let fs = ProcessFs { chroot: chroot.clone(), cwd, access_profile: user(0, 0) };
    let settings = ResolutionSettings::for_process(&fs, true);
    let mut inode = |path: &[u8]| {
        get_file_from_path(Path::new(path), &settings, &mut vfs).map(|e| e.node().location.inode)
    };
    assert_eq!(inode(b"."), Ok(d));
    assert_eq!(inode(b".."), Ok(c));
    assert_eq!(inode(b"../.."), Ok(c));
    assert_eq!(inode(b"../../d"), Ok(d));
    assert_eq!(inode(b"up"), Ok(c));
    assert_eq!(inode(b"../../secret"), Err(ENOENT));
    assert_eq!(inode(b"/.."), Ok(b));
    // Right beside the root
    let cwd = get(&mut vfs, b"/a/e").unwrap();
    let fs = ProcessFs { chroot, cwd, access_profile: user(0, 0) };
    let settings = ResolutionSettings::for_process(&fs, true);
    let r = get_file_from_path(Path::new(b".."), &settings, &mut vfs);
    assert_eq!(r.unwrap().node().location.inode, e);
}

#[test]
fn no_cwd_means_root() {
    let (disk, mut vfs) = setup();
    let a = add_dir(&disk, ROOT, b"a");
    let f = add_file_with(&disk, a, b"f", b"");
    let chroot = get(&mut vfs, b"/a").unwrap();
    let nowhere = ResolutionSettings {
        root: chroot.clone(),
        cwd: None,
        ..ResolutionSettings::kernel_follow(&vfs)
    };
    let there = ResolutionSettings {
        root: chroot.clone(),
        cwd: Some(chroot),
        ..ResolutionSettings::kernel_follow(&vfs)
    };
    for settings in [nowhere, there] {
        let r = get_file_from_path(Path::new(b"f"), &settings, &mut vfs);
        assert_eq!(r.unwrap().node().location.inode, f);
        let r = get_file_from_path(Path::new(b".."), &settings, &mut vfs);
        assert_eq!(r.unwrap().node().location.inode, a);
    }
}

#[test]
fn found_file_is_no_link_when_links_are_followed() {
    let (disk, mut vfs) = setup();
    let f = add_file_with(&disk, ROOT, b"f", b"");
    add_link(&disk, ROOT, b"m", b"f");
    let l = add_link(&disk, ROOT, b"l", b"m");
    assert_eq!(inode_at(&mut vfs, b"/l"), Ok(f));
    let settings = ResolutionSettings::kernel_nofollow(&vfs);
    let r = get_file_from_path(Path::new(b"/l"), &settings, &mut vfs);
    assert_eq!(r.unwrap().node().location.inode, l);
}

#[test]
fn absolute_path_ignores_cwd() {
    let (disk, mut vfs) = setup();
    let a = add_dir(&disk, ROOT, b"a");
    let f = add_file_with(&disk, ROOT, b"f", b"");
    let g = add_file_with(&disk, a, b"f", b"");
    let settings = ResolutionSettings {
        cwd: Some(get(&mut vfs, b"/a").unwrap()),
        ..ResolutionSettings::kernel_follow(&vfs)
    };
    let r = get_file_from_path(Path::new(b"/f"), &settings, &mut vfs);
    assert_eq!(r.unwrap().node().location.inode, f);
    let r = get_file_from_path(Path::new(b"f"), &settings, &mut vfs);
    assert_eq!(r.unwrap().node().location.inode, g);
}

#[test]
fn path_of_entry_leads_to_it() {
    let (disk, mut vfs) = setup();
    let a = add_dir(&disk, ROOT, b"a");
    let b = add_dir(&disk, a, b"b");
    add_file_with(&disk, b, b"c", b"");
    assert_eq!(Entry::get_path(&root(&vfs)).unwrap().as_bytes(), b"/");
    let c = get(&mut vfs, b"a/b/c").unwrap();
    let path = Entry::get_path(&c).unwrap();
    assert_eq!(path.as_bytes(), b"/a/b/c");
    assert!(Arc::ptr_eq(&get(&mut vfs, path.as_bytes()).unwrap(), &c));
}

#[test]
fn long_path_of_entry_is_refused() {
    let (disk, mut vfs) = setup();
    let name = vec![b'n'; 255];
    let mut dir = ROOT;
    let mut entry = root(&vfs);
    for i in 1..=17 {
        dir = add_dir(&disk, dir, &name);
        entry = resolve_entry(&entry, &name, &mut vfs).unwrap().unwrap();
        let path = Entry::get_path(&entry);
        if i <= 16 {
            assert_eq!(path.unwrap().as_bytes().len(), 256 * i);
        } else {
            assert_eq!(path.err(), Some(ENAMETOOLONG));
        }
    }
}

#[test]
fn whole_content_is_read() {
    let (disk, mut vfs) = setup();
    let content: Vec<u8> = (0..2000).map(|i| i as u8).collect();
    let f = add_file_with(&disk, ROOT, b"f", &content);
    let entry = get(&mut vfs, b"/f").unwrap();
    assert_eq!(entry.read_all(&mut vfs), Ok(content.clone()));
    disk.0.borrow_mut().chunk = 7;
    assert_eq!(entry.read_all(&mut vfs), Ok(content.clone()));
    disk.0.borrow_mut().records.get_mut(&f).unwrap().stat.size = 0;
    assert_eq!(entry.read_all(&mut vfs), Ok(content));
    disk.0.borrow_mut().records.get_mut(&f).unwrap().stat.size = u64::MAX;
    assert_eq!(entry.read_all(&mut vfs), Err(EOVERFLOW));
}

#[test]
fn type_of_entry_is_read_from_its_mode() {
    let (disk, mut vfs) = setup();
    add_file_with(&disk, ROOT, b"f", b"");
    add(&disk, ROOT, b"bad", status(0o644, 0, 0, 0), b"");
    assert_eq!(root(&vfs).get_type(&mut vfs), Ok(FileType::Directory));
    assert_eq!(get(&mut vfs, b"/f").unwrap().get_type(&mut vfs), Ok(FileType::Regular));
    assert_eq!(get(&mut vfs, b"/bad").unwrap().get_type(&mut vfs), Err(EUCLEAN));
    assert_eq!(get(&mut vfs, b"/f").unwrap().stat(&mut vfs).unwrap().mode, S_IFREG | 0o644);
}

#[test]
fn mountpoint_is_told_from_other_entries() {
    let (disk, mut vfs) = setup();
    let a = add_dir(&disk, ROOT, b"a");
    let b = add_dir(&disk, a, b"b");
    disk.0.borrow_mut().mounts.insert(a, 7);
    let found = root(&vfs).get_mountpoint(&mut vfs);
    assert_eq!(found, Some(MountPoint { id: MAIN }));
    let found = get(&mut vfs, b"/a").unwrap().get_mountpoint(&mut vfs);
    assert_eq!(found, Some(MountPoint { id: 7 }));
    let entry = get(&mut vfs, b"/a/b").unwrap();
    assert_eq!(entry.node().location, FileLocation { mountpoint_id: 7, inode: b });
    assert_eq!(entry.get_mountpoint(&mut vfs), None);
}

#[test]
fn created_file_is_found() {
    let (disk, mut vfs) = setup();
    let ap = user(0, 9);
    let stat = status(S_IFREG | 0o640, 77, 78, 0);
    let parent = root(&vfs);
    let created = create_file(parent.clone(), b"new", &ap, stat, &mut vfs).unwrap();
    assert_eq!(created.get_name(), b"new");
    assert_eq!(disk.0.borrow().lookups, 0);
    assert!(Arc::ptr_eq(&get(&mut vfs, b"/new").unwrap(), &created));
    assert_eq!(disk.0.borrow().lookups, 0);
    let stat = created.stat(&mut vfs).unwrap();
    assert_eq!((stat.uid, stat.gid, stat.mode), (0, 9, S_IFREG | 0o640));
}

#[test]
fn created_file_inherits_group_of_sgid_directory() {
    let (disk, mut vfs) = setup();
    add(&disk, ROOT, b"d", status(S_IFDIR | S_ISGID | 0o777, 3, 4, 0), b"");
    let parent = get(&mut vfs, b"/d").unwrap();
    let stat = status(S_IFREG | 0o644, 0, 0, 0);
    let created = create_file(parent, b"f", &user(8, 9), stat, &mut vfs).unwrap();
    let stat = created.stat(&mut vfs).unwrap();
    assert_eq!((stat.uid, stat.gid), (8, 4));
}

#[test]
fn creation_needs_a_writable_directory() {
    let (disk, mut vfs) = setup();
    add_file_with(&disk, ROOT, b"f", b"");
    let stat = status(S_IFREG | 0o644, 0, 0, 0);
    let file = get(&mut vfs, b"/f").unwrap();
    let r = create_file(file, b"x", &user(0, 0), stat, &mut vfs);
    assert_eq!(r.err(), Some(ENOTDIR));
    let parent = root(&vfs);
    let r = create_file(parent, b"x", &user(5, 5), stat, &mut vfs);
    assert_eq!(r.err(), Some(EACCES));
    assert_eq!(disk.0.borrow().records[&ROOT].entries.len(), 1);
}

#[test]
fn link_adds_a_name() {
    let (disk, mut vfs) = setup();
    let f = add_file_with(&disk, ROOT, b"f", b"");
    let file = get(&mut vfs, b"/f").unwrap();
    let parent = root(&vfs);
    assert_eq!(link(&parent, b"g", &file, &user(0, 0), &mut vfs), Ok(()));
    assert_eq!(inode_at(&mut vfs, b"/g"), Ok(f));
    assert_eq!(disk.0.borrow().records[&f].stat.nlink, 2);
}

#[test]
fn link_is_refused() {
    let (disk, mut vfs) = setup();
    let f = add_file_with(&disk, ROOT, b"f", b"");
    let far = add_file_with(&disk, ROOT, b"far", b"");
    disk.0.borrow_mut().mounts.insert(far, 7);
    let full = add_file_with(&disk, ROOT, b"full", b"");
    disk.0.borrow_mut().records.get_mut(&full).unwrap().stat.nlink = LINK_MAX;
    add_dir(&disk, ROOT, b"d");
    let kernel = user(0, 0);
    let parent = root(&vfs);
    let file = get(&mut vfs, b"/f").unwrap();
    let dir = get(&mut vfs, b"/d").unwrap();
    let full = get(&mut vfs, b"/full").unwrap();
    let far = get(&mut vfs, b"/far").unwrap();
    assert_eq!(link(&file, b"g", &file, &kernel, &mut vfs), Err(ENOTDIR));
    assert_eq!(link(&parent, b"g", &dir, &kernel, &mut vfs), Err(EPERM));
    assert_eq!(link(&parent, b"g", &full, &kernel, &mut vfs), Err(EMLINK));
    assert_eq!(link(&parent, b"g", &file, &user(5, 5), &mut vfs), Err(EACCES));
    assert_eq!(link(&parent, b"g", &far, &kernel, &mut vfs), Err(EXDEV));
    assert_eq!(disk.0.borrow().records[&f].stat.nlink, 1);
    disk.0.borrow_mut().records.get_mut(&f).unwrap().stat.nlink = LINK_MAX - 1;
    assert_eq!(link(&parent, b"g", &file, &kernel, &mut vfs), Ok(()));
}

#[test]
fn unlink_of_uncached_entry() {
    let (disk, mut vfs) = setup();
    let f = add_file_with(&disk, ROOT, b"f", b"");
    let parent = root(&vfs);
    assert_eq!(unlink(parent.clone(), b"f", &user(0, 0), &mut vfs), Ok(()));
    assert_eq!(disk.0.borrow().tried, vec![f]);
    assert_eq!(disk.0.borrow().released, Vec::<INode>::new());
    assert_eq!(get(&mut vfs, b"/f").err(), Some(ENOENT));
    assert_eq!(unlink(parent, b"f", &user(0, 0), &mut vfs), Err(ENOENT));
}

#[test]
fn unlink_of_cached_entry_releases_its_node() {
    let (disk, mut vfs) = setup();
    let f = add_file_with(&disk, ROOT, b"f", b"");
    assert_eq!(inode_at(&mut vfs, b"/f"), Ok(f));
    let parent = root(&vfs);
    assert_eq!(unlink(parent, b"f", &user(0, 0), &mut vfs), Ok(()));
    assert_eq!(disk.0.borrow().unlinked, vec![b"f".to_vec()]);
    assert_eq!(disk.0.borrow().released, vec![f]);
    assert_eq!(disk.0.borrow().tried, Vec::<INode>::new());
    assert_eq!(get(&mut vfs, b"/f").err(), Some(ENOENT));
}

#[test]
fn unlinked_file_lives_while_it_is_used() {
    let (disk, mut vfs) = setup();
    let f = add_file_with(&disk, ROOT, b"f", b"data");
    let held = get(&mut vfs, b"/f").unwrap();
    let parent = root(&vfs);
    assert_eq!(unlink(parent, b"f", &user(0, 0), &mut vfs), Ok(()));
    assert_eq!(disk.0.borrow().released, Vec::<INode>::new());
    assert_eq!(get(&mut vfs, b"/f").err(), Some(ENOENT));
    assert_eq!(held.read_all(&mut vfs), Ok(b"data".to_vec()));
    assert_eq!(Entry::release(held, &mut vfs), Ok(()));
    assert_eq!(disk.0.borrow().released, vec![f]);
}

#[test]
fn entry_in_use_is_not_released() {
    let (disk, mut vfs) = setup();
    let f = add_file_with(&disk, ROOT, b"f", b"");
    let first = get(&mut vfs, b"/f").unwrap();
    let second = first.clone();
    assert_eq!(Entry::release(first, &mut vfs), Ok(()));
    assert_eq!(disk.0.borrow().released, Vec::<INode>::new());
    assert_eq!(Entry::release(second, &mut vfs), Ok(()));
    assert_eq!(disk.0.borrow().released, vec![f]);
    assert_eq!(disk.0.borrow().lookups, 1);
    assert_eq!(inode_at(&mut vfs, b"/f"), Ok(f));
    assert_eq!(disk.0.borrow().lookups, 2);
}

#[test]
fn root_is_never_released() {
    let (disk, mut vfs) = setup();
    let entry = root(&vfs);
    assert_eq!(Entry::release(entry, &mut vfs), Ok(()));
    assert_eq!(disk.0.borrow().released, Vec::<INode>::new());
    assert!(get(&mut vfs, b"/").is_ok());
}

#[test]
fn unlink_needs_permission() {
    let (disk, mut vfs) = setup();
    add_file_with(&disk, ROOT, b"f", b"");
    let parent = root(&vfs);
    assert_eq!(unlink(parent, b"f", &user(5, 5), &mut vfs), Err(EACCES));
    let file = get(&mut vfs, b"/f").unwrap();
    assert_eq!(unlink(file, b"f", &user(0, 0), &mut vfs), Err(ENOTDIR));
    assert_eq!(disk.0.borrow().unlinked, Vec::<Vec<u8>>::new());
}

#[test]
fn sticky_bit_protects_files() {
    let (disk, mut vfs) = setup();
    let d = add(&disk, ROOT, b"d", status(S_IFDIR | S_ISVTX | 0o777, 3, 3, 0), b"");
    add(&disk, d, b"mine", status(S_IFREG | 0o644, 5, 5, 0), b"");
    add(&disk, d, b"theirs", status(S_IFREG | 0o644, 6, 6, 0), b"");
    add(&disk, d, b"cached", status(S_IFREG | 0o644, 6, 6, 0), b"");
    get(&mut vfs, b"/d/cached").unwrap();
    let dir = get(&mut vfs, b"/d").unwrap();
    assert_eq!(unlink(dir.clone(), b"mine", &user(5, 5), &mut vfs), Ok(()));
    assert_eq!(unlink(dir.clone(), b"theirs", &user(5, 5), &mut vfs), Err(EACCES));
    assert_eq!(unlink(dir.clone(), b"cached", &user(5, 5), &mut vfs), Err(EACCES));
    assert_eq!(disk.0.borrow().unlinked, vec![b"mine".to_vec()]);
    assert_eq!(unlink(dir.clone(), b"cached", &user(3, 3), &mut vfs), Ok(()));
    assert_eq!(unlink(dir, b"theirs", &user(6, 6), &mut vfs), Ok(()));
}

#[test]
fn mountpoint_is_busy() {
    let (disk, mut vfs) = setup();
    let a = add_dir(&disk, ROOT, b"a");
    disk.0.borrow_mut().mounts.insert(a, 7);
    get(&mut vfs, b"/a").unwrap();
    let parent = root(&vfs);
    assert_eq!(unlink(parent, b"a", &user(0, 0), &mut vfs), Err(EBUSY));
    assert_eq!(disk.0.borrow().unlinked, Vec::<Vec<u8>>::new());
}

#[test]
fn unlink_from_a_path() {
    let (disk, mut vfs) = setup();
    let a = add_dir(&disk, ROOT, b"a");
    add_file_with(&disk, a, b"f", b"");
    add_file_with(&disk, ROOT, b"g", b"");
    add_link(&disk, ROOT, b"l", b"a/f");
    let settings = ResolutionSettings::kernel_follow(&vfs);
    assert_eq!(unlink_from_path(Path::new(b"/a/f"), &settings, &mut vfs), Ok(()));
    assert_eq!(unlink_from_path(Path::new(b"g"), &settings, &mut vfs), Ok(()));
    assert_eq!(unlink_from_path(Path::new(b"/l"), &settings, &mut vfs), Ok(()));
    let removed = vec![b"f".to_vec(), b"g".to_vec(), b"l".to_vec()];
    assert_eq!(disk.0.borrow().unlinked, removed);
    assert_eq!(unlink_from_path(Path::new(b"/"), &settings, &mut vfs), Err(ENOENT));
    assert_eq!(unlink_from_path(Path::new(b""), &settings, &mut vfs), Err(ENOENT));
    assert_eq!(unlink_from_path(Path::new(b"/a/.."), &settings, &mut vfs), Err(ENOENT));
    assert_eq!(unlink_from_path(Path::new(b"/none/f"), &settings, &mut vfs), Err(ENOENT));
}

fn open(vfs: &mut Vfs<Shared>, path: &[u8], readable: bool, writable: bool) -> File {
    File { vfs_entry: Some(get(vfs, path).unwrap()), readable, writable }
}

#[test]
fn regular_file_is_read_and_written() {
    let (disk, mut vfs) = setup();
    let f = add_file_with(&disk, ROOT, b"f", b"hello world");
    let file = open(&mut vfs, b"/f", true, true);
    let mut buf = [b'-'; 8];
    assert_eq!(FileOps.read(&file, 6, &mut buf, &mut vfs), Ok(5));
    assert_eq!(&buf, b"world---");
    assert_eq!(FileOps.write(&file, 5, b"!", &mut vfs), Ok(1));
    assert_eq!(disk.0.borrow().records[&f].content, b"hello!");
    assert_eq!(FileOps.get_stat(&file, &mut vfs).unwrap().size, 11);
    assert_eq!(FileOps.poll(&file, 3, &mut vfs), Ok(None));
    let request = Request { major: 0x54, minor: 0x1b };
    assert_eq!(FileOps.ioctl(&file, request, 0, &mut vfs), Err(ENOTTY));
}

#[test]
fn file_must_be_open_for_the_access() {
    let (disk, mut vfs) = setup();
    let f = add_file_with(&disk, ROOT, b"f", b"hello");
    let file = open(&mut vfs, b"/f", false, false);
    let mut buf = [0; 4];
    assert_eq!(FileOps.read(&file, 0, &mut buf, &mut vfs), Err(EACCES));
    assert_eq!(buf, [0; 4]);
    assert_eq!(FileOps.write(&file, 0, b"x", &mut vfs), Err(EACCES));
    assert_eq!(disk.0.borrow().records[&f].content, b"hello");
}

#[test]
fn device_file_leads_to_its_device() {
    let (disk, mut vfs) = setup();
    let mut stat = status(S_IFCHR | 0o666, 0, 0, 0);
    stat.dev_major = 1;
    stat.dev_minor = 3;
    let dev = add(&disk, ROOT, b"dev", stat, b"content");
    let id = DeviceID { dev_type: DeviceType::Char, major: 1, minor: 3 };
    let other = DeviceID { dev_type: DeviceType::Block, major: 1, minor: 3 };
    disk.0.borrow_mut().devices = vec![other, id];
    let file = open(&mut vfs, b"/dev", true, true);
    let mut buf = [0; 4];
    assert_eq!(FileOps.read(&file, 9, &mut buf, &mut vfs), Ok(4));
    assert_eq!(buf, [9; 4]);
    assert_eq!(FileOps.write(&file, 0, b"abc", &mut vfs), Ok(3));
    assert_eq!(disk.0.borrow().device_data, b"abc");
    assert_eq!(disk.0.borrow().records[&dev].content, b"content");
    assert_eq!(FileOps.poll(&file, 0b111, &mut vfs), Ok(Some(0b010)));
    let request = Request { major: 1, minor: 2 };
    assert_eq!(FileOps.ioctl(&file, request, 10, &mut vfs), Ok(1 + 0x102 + 10));
    assert_eq!(FileOps.poll_device(other, 0b111, &mut vfs), Ok(0b001));
}

#[test]
fn missing_device_is_reported() {
    let (disk, mut vfs) = setup();
    add(&disk, ROOT, b"dev", status(S_IFCHR | 0o666, 0, 0, 0), b"");
    let file = open(&mut vfs, b"/dev", true, true);
    let mut buf = [0; 4];
    assert_eq!(FileOps.read(&file, 0, &mut buf, &mut vfs), Err(ENODEV));
    assert_eq!(FileOps.write(&file, 0, b"abc", &mut vfs), Err(ENODEV));
    assert_eq!(FileOps.poll(&file, 1, &mut vfs), Err(ENODEV));
    let request = Request { major: 1, minor: 2 };
    assert_eq!(FileOps.ioctl(&file, request, 0, &mut vfs), Err(ENODEV));
}
