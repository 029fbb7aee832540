use maestro::errno::{
    EResult, EBUSY, ELOOP, ENOENT, ENOTDIR, ENOTEMPTY, EPERM, EROFS,
};
use maestro::fcache::file::{DirEntry, File, FileContent, Mode, NamedEntry};
use maestro::fcache::mounts::{Io, Mount, Mounts};
use maestro::fcache::pool::FILES_POOL_SIZE;
use maestro::fcache::FCache;
use maestro::file_path::FilePath;
use maestro::limits::SYMLOOP_MAX;
use maestro::stat::{FileLocation, FileType, Gid, INode, Uid};
use std::collections::HashMap;

const ROOT: INode = 2;

enum Kind {
    Regular,
    Directory(Vec<(Vec<u8>, INode)>),
    Link(Vec<u8>),
}

struct Record {
    uid: Uid,
    gid: Gid,
    mode: Mode,
    kind: Kind,
}

/// Two file systems: one at the root, and one at `/mnt`.
struct Disks {
    records: HashMap<(u32, INode), Record>,
    next: INode,
    readonly: bool,
    searches: usize,
    removed: Vec<(u32, INode, Vec<u8>)>,
    synced: Vec<Vec<u8>>,
    sync_reply: EResult<()>,
}

fn is_below_mnt(path: &FilePath) -> bool {
    path.get_elements_count() > 0 && path.get_element(0) == b"mnt"
}

fn mount(id: u32) -> Mount {
    Mount { id, depth: if id == 0 { 0 } else { 1 } }
}

impl Disks {
    fn file(&self, id: u32, inode: INode, name: &[u8]) -> File {
        let record = &self.records[&(id, inode)];
        let content = match &record.kind {
            Kind::Regular => FileContent::Regular,
            Kind::Directory(entries) => FileContent::Directory(
                entries
                    .iter()
                    .map(|(name, inode)| NamedEntry {
                        name: name.clone(),
                        entry: DirEntry { entry_type: FileType::Regular, inode: *inode },
                    })
                    .collect(),
            ),
            Kind::Link(target) => FileContent::Link(target.clone()),
        };
        File {
            name: name.to_vec(),
            uid: record.uid,
            gid: record.gid,
            mode: record.mode,
            content,
            location: FileLocation { mountpoint_id: id, inode },
            parent_path: FilePath::root(),
            busy: false,
        }
    }

    fn entries(&mut self, id: u32, inode: INode) -> &mut Vec<(Vec<u8>, INode)> {
        match &mut self.records.get_mut(&(id, inode)).unwrap().kind {
            Kind::Directory(entries) => entries,
            _ => panic!("not a directory"),
        }
    }

    fn add(&mut self, id: u32, dir: INode, name: &[u8], record: Record) -> INode {
        let inode = self.next;
        self.next += 1;
        self.records.insert((id, inode), record);
        self.entries(id, dir).push((name.to_vec(), inode));
        inode
    }
}

impl Mounts for Disks {
    fn get_deepest(&mut self, path: &FilePath) -> Option<Mount> {
        self.searches += 1;
        if path.get_elements_count() > 0 && path.get_element(0) == b"nowhere" {
            return None;
        }
        Some(mount(if is_below_mnt(path) { 1 } else { 0 }))
    }

    fn get_mountpoint(&mut self, loc: FileLocation) -> Option<Mount> {
        if loc.mountpoint_id <= 1 {
            Some(mount(loc.mountpoint_id))
        } else {
            None
        }
    }

    fn get_io(&mut self, mount: Mount) -> EResult<Io> {
        Ok(Io { id: mount.id as u64 + 100 })
    }

    fn get_root_inode(&mut self, _mount: Mount, _io: Io) -> EResult<INode> {
        Ok(ROOT)
    }

    fn get_inode(&mut self, mount: Mount, io: Io, parent: INode, name: &[u8]) -> EResult<INode> {
        assert_eq!(io.id, mount.id as u64 + 100);
        match &self.records[&(mount.id, parent)].kind {
            Kind::Directory(entries) => {
                entries.iter().find(|e| e.0 == name).map(|e| e.1).ok_or(ENOENT)
            }
            _ => Err(ENOTDIR),
        }
    }

    fn load_file(&mut self, mount: Mount, _io: Io, inode: INode, name: &[u8]) -> EResult<File> {
        Ok(self.file(mount.id, inode, name))
    }

    fn is_readonly(&mut self, _mount: Mount) -> bool {
        self.readonly
    }

    fn add_file(
        &mut self,
        mount: Mount,
        _io: Io,
        parent: INode,
        name: &[u8],
        uid: Uid,
        gid: Gid,
        mode: Mode,
        content: FileContent,
    ) -> EResult<File> {
        let kind = match content {
            FileContent::Directory(_) => Kind::Directory(Vec::new()),
            FileContent::Link(target) => Kind::Link(target),
            _ => Kind::Regular,
        };
        let inode = self.add(mount.id, parent, name, Record { uid, gid, mode, kind });
        Ok(self.file(mount.id, inode, name))
    }

    fn remove_file(&mut self, mount: Mount, _io: Io, parent: INode, name: &[u8]) -> EResult<()> {
        self.entries(mount.id, parent).retain(|e| e.0 != name);
        self.removed.push((mount.id, parent, name.to_vec()));
        Ok(())
    }

    fn sync(&mut self, file: &File) -> EResult<()> {
        self.synced.push(file.name.clone());
        self.sync_reply
    }
}

fn record(uid: Uid, mode: Mode, kind: Kind) -> Record {
    Record { uid, gid: uid, mode, kind }
}

fn dir(mode: Mode) -> Record {
    record(1, mode, Kind::Directory(Vec::new()))
}

fn regular() -> Record {
    record(1, 0o644, Kind::Regular)
}

fn link_to(target: &[u8]) -> Record {
    record(1, 0o777, Kind::Link(target.to_vec()))
}

fn setup() -> (FCache, Disks) {
    let mut records = HashMap::new();
    records.insert((0, ROOT), dir(0o755));
    records.insert((1, ROOT), dir(0o755));
    let disks = Disks {
        records,
        next: ROOT + 1,
        readonly: false,
        searches: 0,
        removed: Vec::new(),
        synced: Vec::new(),
        sync_reply: Ok(()),
    };
    (FCache::new().unwrap(), disks)
}

fn path(bytes: &[u8]) -> FilePath {
    FilePath::from_bytes(bytes)
}

/// Looks up a file as the user 1.
fn inode_at(
    cache: &mut FCache,
    mounts: &mut Disks,
    bytes: &[u8],
    follow: bool,
) -> EResult<INode> {
    cache.get_file_from_path(mounts, &path(bytes), 1, 1, follow).map(|f| f.location.inode)
}

#[test]
fn file_is_looked_up() {
    let (mut cache, mut mounts) = setup();
    let a = mounts.add(0, ROOT, b"a", dir(0o755));
    let f = mounts.add(0, a, b"f", regular());
    assert_eq!(inode_at(&mut cache, &mut mounts, b"/a/f", true), Ok(f));
    assert_eq!(inode_at(&mut cache, &mut mounts, b"/", true), Ok(ROOT));
    assert_eq!(inode_at(&mut cache, &mut mounts, b"/a/g", true), Err(ENOENT));
    assert_eq!(inode_at(&mut cache, &mut mounts, b"/nowhere", true), Err(ENOENT));
    let file = cache.get_file_from_path(&mut mounts, &path(b"/a/f"), 1, 1, true).unwrap();
    assert!(file.parent_path.is_same(&path(b"/a")));
    assert!(file.get_path().is_same(&path(b"/a/f")));
    assert_eq!(file.name, b"f");
}

#[test]
fn relative_path_starts_at_the_root() {
    let (mut cache, mut mounts) = setup();
    let f = mounts.add(0, ROOT, b"f", regular());
    assert_eq!(inode_at(&mut cache, &mut mounts, b"f", true), Ok(f));
    assert_eq!(inode_at(&mut cache, &mut mounts, b"/f", true), Ok(f));
}

#[test]
fn file_is_looked_up_below_its_mountpoint() {
    let (mut cache, mut mounts) = setup();
    let a = mounts.add(1, ROOT, b"a", regular());
    assert_eq!(inode_at(&mut cache, &mut mounts, b"/mnt/a", true), Ok(a));
    let root = cache.get_file_from_path(&mut mounts, &path(b"/mnt"), 1, 1, true).unwrap();
    assert_eq!(root.location, FileLocation { mountpoint_id: 1, inode: ROOT });
}

#[test]
fn directories_on_the_way_must_be_readable() {
    let (mut cache, mut mounts) = setup();
    let a = mounts.add(0, ROOT, b"a", dir(0o077));
    mounts.records.get_mut(&(0, a)).unwrap().mode = 0o300;
    mounts.add(0, a, b"f", regular());
    assert_eq!(inode_at(&mut cache, &mut mounts, b"/a", true), Ok(a));
    assert_eq!(inode_at(&mut cache, &mut mounts, b"/a/f", true), Err(EPERM));
    assert!(cache.get_file_from_path(&mut mounts, &path(b"/a/f"), 0, 5, true).is_ok());
    mounts.records.get_mut(&(0, ROOT)).unwrap().mode = 0;
    assert_eq!(inode_at(&mut cache, &mut mounts, b"/a", true), Err(EPERM));
    assert_eq!(inode_at(&mut cache, &mut mounts, b"/", true), Ok(ROOT));
}

#[test]
fn last_link_is_followed() {
    let (mut cache, mut mounts) = setup();
    let a = mounts.add(0, ROOT, b"a", dir(0o755));
    let f = mounts.add(0, a, b"f", regular());
    let l = mounts.add(0, a, b"l", link_to(b"f"));
    mounts.add(0, a, b"m", link_to(b"/a/f"));
    assert_eq!(inode_at(&mut cache, &mut mounts, b"/a/l", true), Ok(f));
    assert_eq!(inode_at(&mut cache, &mut mounts, b"/a/m", true), Ok(f));
    assert_eq!(inode_at(&mut cache, &mut mounts, b"/a/l", false), Ok(l));
}

#[test]
fn link_in_the_middle_is_followed() {
    let (mut cache, mut mounts) = setup();
    let a = mounts.add(0, ROOT, b"a", dir(0o755));
    let x = mounts.add(0, a, b"x", dir(0o755));
    let b = mounts.add(0, x, b"b", regular());
    mounts.add(0, a, b"l", link_to(b"x"));
    mounts.add(0, a, b"m", link_to(b"/a/x"));
    mounts.add(0, x, b"up", link_to(b"b"));
    let file = cache.get_file_from_path(&mut mounts, &path(b"/a/l/b"), 1, 1, true).unwrap();
    assert_eq!(file.location.inode, b);
    assert_eq!(file.name, b"b");
    assert!(file.parent_path.is_same(&path(b"/a/x")));
    assert_eq!(inode_at(&mut cache, &mut mounts, b"/a/m/b", true), Ok(b));
    assert_eq!(inode_at(&mut cache, &mut mounts, b"/a/l/up", true), Ok(b));
    assert_eq!(inode_at(&mut cache, &mut mounts, b"/a/l/none", true), Err(ENOENT));
    assert_eq!(inode_at(&mut cache, &mut mounts, b"/a/l/b", false), Err(ENOTDIR));
}

#[test]
fn link_leads_into_another_file_system() {
    let (mut cache, mut mounts) = setup();
    let d = mounts.add(1, ROOT, b"d", dir(0o755));
    let f = mounts.add(1, d, b"f", regular());
    mounts.add(0, ROOT, b"l", link_to(b"mnt/d"));
    mounts.add(1, ROOT, b"l", link_to(b"d"));
    let file = cache.get_file_from_path(&mut mounts, &path(b"/l/f"), 1, 1, true).unwrap();
    assert_eq!(file.location, FileLocation { mountpoint_id: 1, inode: f });
    assert!(file.get_path().is_same(&path(b"/mnt/d/f")));
    assert_eq!(inode_at(&mut cache, &mut mounts, b"/mnt/l/f", true), Ok(f));
}

#[test]
fn file_below_a_link_is_removed() {
    let (mut cache, mut mounts) = setup();
    let a = mounts.add(0, ROOT, b"a", dir(0o755));
    let d = mounts.add(0, a, b"d", dir(0o755));
    mounts.add(0, d, b"f", regular());
    mounts.add(0, ROOT, b"l", link_to(b"a"));
    let mut file = load(&mut cache, &mut mounts, b"/a/d/f");
    file.parent_path = path(b"/l/d");
    assert_eq!(cache.remove_file(&mut mounts, &file, 1, 1), Ok(()));
    assert_eq!(mounts.removed, vec![(0, d, b"f".to_vec())]);
}

#[test]
fn links_are_limited() {
    let (mut cache, mut mounts) = setup();
    let f = mounts.add(0, ROOT, b"l0", regular());
    for i in 1..=SYMLOOP_MAX + 2 {
        let name = format!("l{}", i);
        let target = format!("l{}", i - 1);
        mounts.add(0, ROOT, name.as_bytes(), link_to(target.as_bytes()));
    }
    let most = format!("/l{}", SYMLOOP_MAX + 1);
    assert_eq!(inode_at(&mut cache, &mut mounts, most.as_bytes(), true), Ok(f));
    assert_eq!(mounts.searches, SYMLOOP_MAX + 2);
    let more = format!("/l{}", SYMLOOP_MAX + 2);
    assert_eq!(inode_at(&mut cache, &mut mounts, more.as_bytes(), true), Err(ELOOP));
}

fn load(cache: &mut FCache, mounts: &mut Disks, bytes: &[u8]) -> File {
    cache.get_file_from_path(mounts, &path(bytes), 0, 0, false).unwrap()
}

/// Looks up a file as the user 1, through links.
fn followed(cache: &mut FCache, mounts: &mut Disks, bytes: &[u8]) -> File {
    cache.get_file_from_path(mounts, &path(bytes), 1, 1, true).unwrap()
}

#[test]
fn file_is_looked_up_in_its_parent() {
    let (mut cache, mut mounts) = setup();
    let a = mounts.add(0, ROOT, b"a", dir(0o755));
    let f = mounts.add(0, a, b"f", regular());
    let l = mounts.add(0, a, b"l", link_to(b"f"));
    let mut parent = load(&mut cache, &mut mounts, b"/a");
    let mut get = |name: &[u8], follow: bool| {
        cache.get_file_from_parent(&mut mounts, &mut parent, name.to_vec(), 1, 1, follow)
    };
    let file = get(b"f", true).unwrap();
    assert_eq!(file.location.inode, f);
    assert!(file.get_path().is_same(&path(b"/a/f")));
    assert_eq!(get(b"l", true).unwrap().location.inode, f);
    assert_eq!(get(b"l", false).unwrap().location.inode, l);
    assert_eq!(get(b"g", true).err(), Some(ENOENT));
}

#[test]
fn parent_must_be_a_readable_directory() {
    let (mut cache, mut mounts) = setup();
    mounts.add(0, ROOT, b"f", regular());
    mounts.add(0, ROOT, b"a", dir(0o700));
    let mut f = load(&mut cache, &mut mounts, b"/f");
    let mut a = load(&mut cache, &mut mounts, b"/a");
    let r = cache.get_file_from_parent(&mut mounts, &mut f, b"x".to_vec(), 1, 1, true);
    assert_eq!(r.err(), Some(ENOTDIR));
    let r = cache.get_file_from_parent(&mut mounts, &mut a, b"x".to_vec(), 9, 9, true);
    assert_eq!(r.err(), Some(EPERM));
    a.location.mountpoint_id = 5;
    let r = cache.get_file_from_parent(&mut mounts, &mut a, b"x".to_vec(), 1, 1, true);
    assert_eq!(r.err(), Some(ENOENT));
}

fn entry_names(file: &File) -> Vec<Vec<u8>> {
    match &file.content {
        FileContent::Directory(entries) => entries.iter().map(|e| e.name.clone()).collect(),
        _ => panic!("not a directory"),
    }
}

#[test]
fn created_file_is_an_entry_of_its_parent() {
    let (mut cache, mut mounts) = setup();
    let mut parent = load(&mut cache, &mut mounts, b"/");
    let content = FileContent::Link(b"target".to_vec());
    let file = cache
        .create_file(&mut mounts, &mut parent, b"new".to_vec(), 1, 7, 0o640, content)
        .unwrap();
    assert_eq!((file.uid, file.gid, file.mode), (1, 7, 0o640));
    assert_eq!(file.get_file_type(), FileType::Link);
    assert!(file.get_path().is_same(&path(b"/new")));
    assert_eq!(entry_names(&parent), vec![b"new".to_vec()]);
    match &parent.content {
        FileContent::Directory(entries) => assert_eq!(entries[0].entry, file.to_dir_entry()),
        _ => panic!("not a directory"),
    }
    assert_eq!(inode_at(&mut cache, &mut mounts, b"/new", false), Ok(file.location.inode));
    let content = FileContent::Regular;
    let again = cache
        .create_file(&mut mounts, &mut parent, b"new".to_vec(), 1, 1, 0o600, content)
        .unwrap();
    assert_eq!(entry_names(&parent), vec![b"new".to_vec()]);
    match &parent.content {
        FileContent::Directory(entries) => assert_eq!(entries[0].entry, again.to_dir_entry()),
        _ => panic!("not a directory"),
    }
}

#[test]
fn creation_is_refused() {
    let (mut cache, mut mounts) = setup();
    mounts.add(0, ROOT, b"f", regular());
    let mut f = load(&mut cache, &mut mounts, b"/f");
    let mut root = load(&mut cache, &mut mounts, b"/");
    let mut create = |mounts: &mut Disks, parent: &mut File, uid: Uid| {
        let content = FileContent::Regular;
        cache.create_file(mounts, parent, b"x".to_vec(), uid, uid, 0o644, content).err()
    };
    assert_eq!(create(&mut mounts, &mut f, 0), Some(ENOTDIR));
    assert_eq!(create(&mut mounts, &mut root, 9), Some(EPERM));
    mounts.readonly = true;
    assert_eq!(create(&mut mounts, &mut root, 1), Some(EROFS));
    root.location.mountpoint_id = 5;
    assert_eq!(create(&mut mounts, &mut root, 1), Some(ENOENT));
    assert_eq!(entry_names(&root), vec![b"f".to_vec()]);
}

#[test]
fn file_is_removed() {
    let (mut cache, mut mounts) = setup();
    let a = mounts.add(0, ROOT, b"a", dir(0o755));
    mounts.add(0, a, b"f", regular());
    let f = load(&mut cache, &mut mounts, b"/a/f");
    assert_eq!(cache.remove_file(&mut mounts, &f, 1, 1), Ok(()));
    assert_eq!(mounts.removed, vec![(0, a, b"f".to_vec())]);
    assert_eq!(inode_at(&mut cache, &mut mounts, b"/a/f", true), Err(ENOENT));
}

#[test]
fn protected_file_is_not_removed() {
    let (mut cache, mut mounts) = setup();
    let a = mounts.add(0, ROOT, b"a", dir(0o755));
    mounts.add(0, a, b"f", regular());
    let full = load(&mut cache, &mut mounts, b"/a");
    assert_eq!(cache.remove_file(&mut mounts, &full, 1, 1), Err(ENOTEMPTY));
    let mut f = load(&mut cache, &mut mounts, b"/a/f");
    assert_eq!(cache.remove_file(&mut mounts, &f, 9, 9), Err(EPERM));
    f.busy = true;
    assert_eq!(cache.remove_file(&mut mounts, &f, 1, 1), Err(EBUSY));
    f.busy = false;
    f.location.mountpoint_id = 5;
    assert_eq!(cache.remove_file(&mut mounts, &f, 1, 1), Err(ENOENT));
    f.location.mountpoint_id = 0;
    mounts.records.get_mut(&(0, a)).unwrap().mode = 0o555;
    assert_eq!(cache.remove_file(&mut mounts, &f, 1, 1), Err(EPERM));
    f.parent_path = path(b"/gone");
    assert_eq!(cache.remove_file(&mut mounts, &f, 1, 1), Err(ENOENT));
    assert_eq!(mounts.removed, Vec::new());
}

#[test]
fn directory_with_dots_only_is_removed() {
    let (mut cache, mut mounts) = setup();
    let a = mounts.add(0, ROOT, b"a", dir(0o755));
    mounts.entries(0, a).push((b".".to_vec(), a));
    mounts.entries(0, a).push((b"..".to_vec(), ROOT));
    let file = load(&mut cache, &mut mounts, b"/a");
    assert!(!file.is_nonempty_directory());
    assert_eq!(cache.remove_file(&mut mounts, &file, 1, 1), Ok(()));
}

#[test]
fn flush_writes_every_loaded_file() {
    let (mut cache, mut mounts) = setup();
    mounts.add(0, ROOT, b"f", regular());
    mounts.add(0, ROOT, b"g", regular());
    cache.load_file(&mut mounts, &path(b"/f"));
    cache.load_file(&mut mounts, &path(b"g"));
    cache.load_file(&mut mounts, &path(b"/f"));
    cache.load_file(&mut mounts, &path(b"/none"));
    mounts.sync_reply = Err(5);
    assert_eq!(cache.flush_all(&mut mounts), Err(5));
    assert_eq!(mounts.synced, vec![b"f".to_vec()]);
    mounts.sync_reply = Ok(());
    assert_eq!(cache.flush_all(&mut mounts), Ok(()));
    assert_eq!(mounts.synced[1..], [b"f".to_vec(), b"g".to_vec()]);
    assert_eq!(cache.flush_all(&mut mounts), Ok(()));
    assert_eq!(mounts.synced.len(), 3);
}

#[test]
fn looked_up_file_is_in_the_pool() {
    let (mut cache, mut mounts) = setup();
    mounts.add(0, ROOT, b"f", regular());
    mounts.add(0, ROOT, b"l", link_to(b"f"));
    assert!(inode_at(&mut cache, &mut mounts, b"f", true).is_ok());
    assert!(inode_at(&mut cache, &mut mounts, b"/f", true).is_ok());
    assert!(inode_at(&mut cache, &mut mounts, b"/g", true).is_err());
    assert_eq!(cache.flush_all(&mut mounts), Ok(()));
    assert_eq!(mounts.synced, vec![b"f".to_vec()]);
    let mut root = load(&mut cache, &mut mounts, b"/");
    let r = cache.get_file_from_parent(&mut mounts, &mut root, b"l".to_vec(), 1, 1, true);
    assert!(r.is_ok());
    assert_eq!(cache.flush_all(&mut mounts), Ok(()));
    assert_eq!(mounts.synced[1..], [b"".to_vec(), b"f".to_vec()]);
}

#[test]
fn removed_file_leaves_the_pool() {
    let (mut cache, mut mounts) = setup();
    mounts.add(0, ROOT, b"f", regular());
    mounts.add(0, ROOT, b"g", regular());
    let f = load(&mut cache, &mut mounts, b"/f");
    load(&mut cache, &mut mounts, b"/g");
    assert_eq!(cache.remove_file(&mut mounts, &f, 1, 1), Ok(()));
    load(&mut cache, &mut mounts, b"/g");
    assert_eq!(cache.flush_all(&mut mounts), Ok(()));
    // The root was looked up to remove the file, but changed with it
    assert_eq!(mounts.synced, vec![b"g".to_vec()]);
}

#[test]
fn removed_file_leaves_the_pool_under_every_path() {
    let (mut cache, mut mounts) = setup();
    let a = mounts.add(0, ROOT, b"a", dir(0o755));
    mounts.add(0, a, b"f", regular());
    mounts.add(0, a, b"g", regular());
    mounts.add(0, ROOT, b"l", link_to(b"a/f"));
    mounts.add(0, ROOT, b"d", link_to(b"a"));
    followed(&mut cache, &mut mounts, b"/d/f");
    let f = followed(&mut cache, &mut mounts, b"/l");
    load(&mut cache, &mut mounts, b"/a/g");
    followed(&mut cache, &mut mounts, b"/d");
    assert!(f.get_path().is_same(&path(b"/a/f")));
    assert_eq!(cache.remove_file(&mut mounts, &f, 1, 1), Ok(()));
    assert_eq!(inode_at(&mut cache, &mut mounts, b"/l", true), Err(ENOENT));
    assert_eq!(cache.flush_all(&mut mounts), Ok(()));
    assert_eq!(mounts.synced, vec![b"g".to_vec()]);
}

#[test]
fn removed_link_leaves_the_pool() {
    let (mut cache, mut mounts) = setup();
    mounts.add(0, ROOT, b"f", regular());
    mounts.add(0, ROOT, b"l", link_to(b"f"));
    followed(&mut cache, &mut mounts, b"/l");
    let mut root = load(&mut cache, &mut mounts, b"/");
    let link = cache
        .get_file_from_parent(&mut mounts, &mut root, b"l".to_vec(), 1, 1, false)
        .unwrap();
    assert_eq!(cache.remove_file(&mut mounts, &link, 1, 1), Ok(()));
    assert_eq!(cache.flush_all(&mut mounts), Ok(()));
    assert!(mounts.synced.is_empty());
}

#[test]
fn directory_of_created_file_leaves_the_pool() {
    let (mut cache, mut mounts) = setup();
    let a = mounts.add(0, ROOT, b"a", dir(0o755));
    mounts.add(0, a, b"f", regular());
    mounts.add(0, ROOT, b"d", link_to(b"a"));
    followed(&mut cache, &mut mounts, b"/d");
    load(&mut cache, &mut mounts, b"/a/f");
    let mut parent = load(&mut cache, &mut mounts, b"/a");
    let created = cache.create_file(
        &mut mounts,
        &mut parent,
        b"g".to_vec(),
        1,
        1,
        0o644,
        FileContent::Regular,
    );
    assert!(created.is_ok());
    assert_eq!(cache.flush_all(&mut mounts), Ok(()));
    assert_eq!(mounts.synced, vec![b"f".to_vec()]);
    // A creation that is refused leaves the pool as it is
    let mut parent = load(&mut cache, &mut mounts, b"/a");
    mounts.readonly = true;
    let refused = cache.create_file(
        &mut mounts,
        &mut parent,
        b"h".to_vec(),
        1,
        1,
        0o644,
        FileContent::Regular,
    );
    assert_eq!(refused.err(), Some(EROFS));
    assert_eq!(cache.flush_all(&mut mounts), Ok(()));
    assert_eq!(mounts.synced[1..], [b"a".to_vec()]);
}

#[test]
fn followed_links_give_no_link() {
    let (mut cache, mut mounts) = setup();
    let f = mounts.add(0, ROOT, b"f", regular());
    mounts.add(0, ROOT, b"m", link_to(b"f"));
    let l = mounts.add(0, ROOT, b"l", link_to(b"m"));
    assert_eq!(inode_at(&mut cache, &mut mounts, b"/l", true), Ok(f));
    assert_eq!(inode_at(&mut cache, &mut mounts, b"/l", false), Ok(l));
    let mut root = load(&mut cache, &mut mounts, b"/");
    let found = cache.get_file_from_parent(&mut mounts, &mut root, b"l".to_vec(), 1, 1, true);
    assert_eq!(found.map(|file| file.location.inode), Ok(f));
}

#[test]
fn pool_does_not_outgrow_its_size() {
    let (mut cache, mut mounts) = setup();
    for i in 0..FILES_POOL_SIZE + 2 {
        let name = format!("f{}", i);
        mounts.add(0, ROOT, name.as_bytes(), regular());
        cache.load_file(&mut mounts, &path(name.as_bytes()));
    }
    assert_eq!(cache.flush_all(&mut mounts), Ok(()));
    let synced = &mounts.synced;
    assert_eq!(synced.len(), FILES_POOL_SIZE);
    let last = format!("f{}", FILES_POOL_SIZE + 1);
    assert_eq!(synced[FILES_POOL_SIZE - 1], last.as_bytes());
    let before = format!("f{}", FILES_POOL_SIZE - 2);
    assert_eq!(synced[FILES_POOL_SIZE - 2], before.as_bytes());
}
