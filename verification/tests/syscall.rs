use maestro::errno::{EResult, EBADF};
use maestro::stat::FileType;
use maestro::syscall::descriptors::{Descriptors, DirentFormat};
use maestro::syscall::fcntl64::fcntl64;
use maestro::syscall::getdents64::{getdents64, LinuxDirent64};
use maestro::user::UserMemory;

struct Table {
    fcntls: Vec<(i32, i32, usize, bool)>,
    getdents: Vec<(DirentFormat, u32, usize, usize)>,
}

impl Descriptors for Table {
    fn do_fcntl(&mut self, fd: i32, cmd: i32, arg: usize, fcntl64: bool) -> EResult<usize> {
        self.fcntls.push((fd, cmd, arg, fcntl64));
        Ok(42)
    }

    fn do_getdents(
        &mut self,
        format: DirentFormat,
        fd: u32,
        dirp: usize,
        count: usize,
    ) -> EResult<usize> {
        self.getdents.push((format, fd, dirp, count));
        Ok(24)
    }
}

fn table() -> Table {
    Table { fcntls: Vec::new(), getdents: Vec::new() }
}

/// A memory of 256 bytes, of which copies beyond `limit` fail.
struct Memory {
    bytes: Vec<u8>,
    limit: usize,
}

impl UserMemory for Memory {
    fn copy_to_user(&mut self, ptr: usize, off: usize, bytes: &[u8]) -> EResult<()> {
        let start = ptr + off;
        if start + bytes.len() > self.limit {
            return Err(14);
        }
        self.bytes[start..start + bytes.len()].copy_from_slice(bytes);
        Ok(())
    }
}

fn user_memory(limit: usize) -> Memory {
    Memory { bytes: vec![0xaa; 256], limit }
}

#[test]
fn fcntl64_has_wide_offsets() {
    let mut fds = table();
    assert_eq!(fcntl64(3, 1, 0x1000, &mut fds), Ok(42));
    assert_eq!(fcntl64(-1, 2, 0, &mut fds), Ok(42));
    assert_eq!(fds.fcntls, vec![(3, 1, 0x1000, true), (-1, 2, 0, true)]);
}

#[test]
fn getdents64_asks_for_wide_entries() {
    let mut fds = table();
    assert_eq!(getdents64(5, 0x2000, 512, &mut fds), Ok(24));
    assert_eq!(fds.getdents, vec![(DirentFormat::Linux64, 5, 0x2000, 512)]);
}

#[test]
fn getdents64_refuses_negative_descriptors() {
    let mut fds = table();
    assert_eq!(getdents64(-1, 0x2000, 512, &mut fds), Err(EBADF));
    assert_eq!(getdents64(i32::MIN, 0x2000, 512, &mut fds), Err(EBADF));
    assert_eq!(fds.getdents, Vec::new());
}

#[test]
fn length_of_an_entry() {
    assert_eq!(LinuxDirent64::required_length(b""), 32);
    assert_eq!(LinuxDirent64::required_length(b"1234567"), 32);
    assert_eq!(LinuxDirent64::required_length(b"12345678"), 40);
    assert_eq!(LinuxDirent64::INODE_MAX, u64::MAX);
}

#[test]
fn entry_is_laid_out_in_memory() {
    let mut user = user_memory(256);
    let r = LinuxDirent64::write(&mut user, 16, 8, 0x0102, FileType::Directory, b"name");
    assert_eq!(r, Ok(()));
    let bytes = &user.bytes;
    assert!(bytes[..24].iter().all(|b| *b == 0xaa));
    // Inode
    assert_eq!(&bytes[24..32], &[2, 1, 0, 0, 0, 0, 0, 0]);
    // Offset of the next entry
    assert_eq!(&bytes[32..40], &[40, 0, 0, 0, 0, 0, 0, 0]);
    // Length and type
    assert_eq!(&bytes[40..43], &[32, 0, 4]);
    assert_eq!(&bytes[43..48], b"name\0");
    assert!(bytes[48..].iter().all(|b| *b == 0xaa));
}

#[test]
fn long_name_goes_beyond_the_header() {
    let mut user = user_memory(256);
    let r = LinuxDirent64::write(&mut user, 0, 0, 1, FileType::Regular, b"a long file name");
    assert_eq!(r, Ok(()));
    assert_eq!(&user.bytes[19..36], b"a long file name\0");
    assert_eq!(user.bytes[8], 48);
}

#[test]
fn failed_copy_ends_the_entry() {
    let mut user = user_memory(20);
    let r = LinuxDirent64::write(&mut user, 0, 0, 1, FileType::Regular, b"n");
    assert_eq!(r, Err(14));
    assert!(user.bytes.iter().all(|b| *b == 0xaa));
    let mut user = user_memory(24);
    let r = LinuxDirent64::write(&mut user, 0, 0, 1, FileType::Regular, b"123456");
    assert_eq!(r, Err(14));
    assert_eq!(&user.bytes[18..25], &[8, 0, 0, 0, 0, 0, 0xaa]);
}
