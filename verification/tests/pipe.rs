use maestro::errno::{EResult, ENOTTY, EPIPE};
use maestro::ioctl::{Request, FIONREAD};
use maestro::limits::PIPE_BUF;
use maestro::pipe::{PipeBuffer, PipeEvent};
use maestro::ring_buffer::RingBuffer;
use maestro::stat::FileType;
use maestro::user::UserMemory;

struct Memory {
    copies: Vec<(usize, usize, Vec<u8>)>,
    reply: EResult<()>,
}

impl UserMemory for Memory {
    fn copy_to_user(&mut self, ptr: usize, off: usize, bytes: &[u8]) -> EResult<()> {
        self.copies.push((ptr, off, bytes.to_vec()));
        self.reply
    }
}

fn memory(reply: EResult<()>) -> Memory {
    Memory { copies: Vec::new(), reply }
}

#[test]
fn ring_buffer_wraps_around() {
    let mut ring = RingBuffer::new(4);
    let mut buf = [0; 8];
    assert_eq!(ring.get_size(), 4);
    assert_eq!(ring.write(b"abc"), 3);
    assert_eq!(ring.read(&mut buf[..2]), 2);
    assert_eq!(&buf[..2], b"ab");
    assert_eq!(ring.get_available_len(), 3);
    assert_eq!(ring.write(b"defgh"), 3);
    assert_eq!(ring.get_available_len(), 0);
    assert_eq!(ring.read(&mut buf), 4);
    assert_eq!(&buf[..4], b"cdef");
    assert_eq!(ring.read(&mut buf), 0);
}

#[test]
fn new_pipe_is_empty() {
    let mut pipe = PipeBuffer::try_default().unwrap();
    assert_eq!(pipe.get_capacity(), PIPE_BUF);
    assert_eq!(pipe.get_available_len(), PIPE_BUF);
    let mut buf = [0; 4];
    assert_eq!(pipe.read_content(&mut buf), Ok(0));
    assert_eq!(pipe.take_events(), Vec::new());
}

#[test]
fn read_gives_back_what_was_written() {
    let mut pipe = PipeBuffer::try_default().unwrap();
    pipe.acquire(true, true);
    assert_eq!(pipe.write_content(b"hello "), Ok(6));
    assert_eq!(pipe.write_content(b"world"), Ok(5));
    assert_eq!(pipe.get_available_len(), PIPE_BUF - 11);
    let mut buf = [0; 7];
    assert_eq!(pipe.read_content(&mut buf), Ok(7));
    assert_eq!(&buf, b"hello w");
    assert_eq!(pipe.read_content(&mut buf), Ok(4));
    assert_eq!(&buf, b"orldo w");
    let events = pipe.take_events();
    assert_eq!(
        events,
        vec![
            PipeEvent::WakeNextReader,
            PipeEvent::WakeNextReader,
            PipeEvent::WakeNextWriter,
            PipeEvent::WakeNextWriter,
        ]
    );
    assert_eq!(pipe.take_events(), Vec::new());
}

#[test]
fn full_pipe_takes_nothing_more() {
    let mut pipe = PipeBuffer::try_default().unwrap();
    pipe.acquire(true, true);
    assert_eq!(pipe.write_content(&vec![7; PIPE_BUF - 1]), Ok(PIPE_BUF - 1));
    assert_eq!(pipe.write_content(b"abc"), Ok(1));
    assert_eq!(pipe.write_content(b"abc"), Ok(0));
    assert_eq!(pipe.get_available_len(), 0);
    assert_eq!(pipe.get_capacity(), PIPE_BUF);
}

#[test]
fn pipe_without_readers_is_broken() {
    let mut pipe = PipeBuffer::try_default().unwrap();
    pipe.acquire(false, true);
    assert_eq!(pipe.write_content(b""), Ok(0));
    assert_eq!(pipe.take_events(), Vec::new());
    assert_eq!(pipe.write_content(b"x"), Err(EPIPE));
    assert_eq!(pipe.take_events(), vec![PipeEvent::KillCurrent]);
    assert_eq!(pipe.get_available_len(), PIPE_BUF);
}

#[test]
fn last_reader_wakes_everyone() {
    let mut pipe = PipeBuffer::try_default().unwrap();
    pipe.acquire(true, false);
    pipe.acquire(true, true);
    pipe.release(true, false);
    assert_eq!(pipe.take_events(), Vec::new());
    pipe.release(true, false);
    assert_eq!(pipe.take_events(), vec![PipeEvent::WakeAllReaders, PipeEvent::WakeAllWriters]);
    pipe.release(false, true);
    assert_eq!(pipe.take_events(), Vec::new());
}

#[test]
fn pipe_is_a_fifo() {
    let stat = PipeBuffer::try_default().unwrap().get_stat().unwrap();
    assert_eq!(stat.file_type, FileType::Fifo);
    assert_eq!(stat.mode, 0o666);
    assert_eq!((stat.nlink, stat.uid, stat.gid, stat.size), (0, 0, 0, 0));
    assert_eq!((stat.dev_major, stat.dev_minor), (0, 0));
}

#[test]
fn fionread_copies_available_space() {
    let mut pipe = PipeBuffer::try_default().unwrap();
    pipe.acquire(true, true);
    assert_eq!(pipe.write_content(b"abcde"), Ok(5));
    let request = Request { major: 0x54, minor: 0x1b };
    assert_eq!(request.get_old_format(), FIONREAD);
    let mut user = memory(Ok(()));
    assert_eq!(pipe.ioctl(request, 0x1000, &mut user), Ok(0));
    // 4091 is 0x0ffb
    assert_eq!(user.copies, vec![(0x1000, 0, vec![0xfb, 0x0f, 0, 0])]);
    let mut user = memory(Err(14));
    assert_eq!(pipe.ioctl(request, 0x1000, &mut user), Err(14));
}

#[test]
fn other_requests_on_a_pipe_are_refused() {
    let pipe = PipeBuffer::try_default().unwrap();
    let mut user = memory(Ok(()));
    assert_eq!(pipe.ioctl(Request { major: 0x54, minor: 1 }, 0, &mut user), Err(ENOTTY));
    assert_eq!(user.copies.len(), 0);
}
