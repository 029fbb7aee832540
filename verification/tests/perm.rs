use maestro::perm::AccessProfile;
use maestro::stat::{
    DeviceType, FileType, Stat, S_IFBLK, S_IFCHR, S_IFDIR, S_IFIFO, S_IFLNK, S_IFREG, S_IFSOCK,
};

fn stat(mode: u32) -> Stat {
    Stat {
        file_type: FileType::from_mode(mode).unwrap_or(FileType::Regular),
        mode,
        nlink: 1,
        uid: 10,
        gid: 20,
        size: 0,
        dev_major: 0,
        dev_minor: 0,
    }
}

fn agent(uid: u16, gid: u16) -> AccessProfile {
    AccessProfile { uid: 99, gid: 99, euid: uid, egid: gid, suid: 99, sgid: 99 }
}

#[test]
fn write_permission_is_checked() {
    assert!(agent(10, 9).can_write_file(&stat(S_IFREG | 0o200)));
    assert!(!agent(10, 9).can_write_file(&stat(S_IFREG | 0o575)));
    assert!(agent(9, 20).can_write_file(&stat(S_IFREG | 0o020)));
    assert!(!agent(9, 20).can_write_file(&stat(S_IFREG | 0o200)));
    assert!(agent(9, 9).can_write_file(&stat(S_IFREG | 0o002)));
    assert!(agent(0, 9).can_write_file(&stat(S_IFREG)));
    assert!(agent(9, 0).can_write_file(&stat(S_IFREG)));
}

#[test]
fn superuser_needs_execute_permission_on_files() {
    assert!(!AccessProfile::kernel().can_execute_file(&stat(S_IFREG | 0o666)));
    assert!(AccessProfile::kernel().can_execute_file(&stat(S_IFREG | 0o001)));
    assert!(AccessProfile::kernel().can_search_directory(&stat(S_IFDIR)));
    assert!(!agent(9, 9).can_search_directory(&stat(S_IFDIR | 0o770)));
}

#[test]
fn directory_must_be_writable_and_searchable() {
    assert!(agent(10, 9).can_write_directory(&stat(S_IFDIR | 0o300)));
    assert!(!agent(10, 9).can_write_directory(&stat(S_IFDIR | 0o200)));
    assert!(!agent(10, 9).can_write_directory(&stat(S_IFDIR | 0o100)));
}

#[test]
fn types_of_files() {
    let types = [
        (S_IFSOCK, FileType::Socket, 12),
        (S_IFLNK, FileType::Link, 10),
        (S_IFREG, FileType::Regular, 8),
        (S_IFBLK, FileType::BlockDevice, 6),
        (S_IFDIR, FileType::Directory, 4),
        (S_IFCHR, FileType::CharDevice, 2),
        (S_IFIFO, FileType::Fifo, 1),
    ];
    for (bits, t, number) in types {
        assert_eq!(stat(bits | 0o644).get_type(), Some(t));
        assert_eq!(t.to_dirent_type(), number);
    }
    assert_eq!(stat(0o644).get_type(), None);
    assert_eq!(FileType::BlockDevice.to_device_type(), Some(DeviceType::Block));
    assert_eq!(FileType::CharDevice.to_device_type(), Some(DeviceType::Char));
    assert_eq!(FileType::Regular.to_device_type(), None);
}
