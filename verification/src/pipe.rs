//! A pipe is an object that links two file descriptors together. One reading
//! and another writing, with a buffer in between.

use crate::bytes::{fits, le_bytes, le_value, lemma_le_bytes, push_le};
use crate::errno::{EResult, ENOTTY, EPIPE};
use crate::ioctl::{law_old_format_holds_the_request, old_format, Request, FIONREAD};
use crate::limits::PIPE_BUF;
use crate::ring_buffer::{lesser, RingBuffer};
use crate::stat::{FileType, Stat};
use crate::history::{asked, heard, lemma_asked, replies_of, World};
use crate::user::{CopyToUser, UserMemory};
use vstd::prelude::*;

verus! {

/// What the scheduler is to do on behalf of a pipe.
#[derive(Clone, Copy, PartialEq, Eq, Structural, Debug)]
pub enum PipeEvent {
    /// Wake the process that waits the longest to read from the pipe.
    WakeNextReader,
    /// Wake the process that waits the longest to write to the pipe.
    WakeNextWriter,
    /// Wake every process that waits to read from the pipe.
    WakeAllReaders,
    /// Wake every process that waits to write to the pipe.
    WakeAllWriters,
    /// Send `SIGPIPE` to the current process.
    KillCurrent,
}

/// A pipe, in contracts.
#[verifier::ext_equal]
pub struct PipeView {
    /// The bytes in the pipe, oldest first.
    pub data: Seq<u8>,
    /// The number of readers.
    pub readers: usize,
    /// The number of writers.
    pub writers: usize,
    /// What the scheduler is to do.
    pub events: Seq<PipeEvent>,
}

/// `n`, and one more if `more`.
pub open spec fn counted(n: usize, more: bool) -> usize {
    if more {
        (n + 1) as usize
    } else {
        n
    }
}

/// `n`, but one less if `less`.
pub open spec fn discounted(n: usize, less: bool) -> usize {
    if less {
        (n - 1) as usize
    } else {
        n
    }
}

/// The pipe after a reader, a writer or both came.
pub open spec fn acquired(p: PipeView, read: bool, write: bool) -> PipeView {
    PipeView { readers: counted(p.readers, read), writers: counted(p.writers, write), ..p }
}

/// The pipe after a reader, a writer or both left. If that leaves readers without writers, or
/// writers without readers, everyone who waits is woken.
pub open spec fn released(p: PipeView, read: bool, write: bool) -> PipeView {
    let readers = discounted(p.readers, read);
    let writers = discounted(p.writers, write);
    PipeView {
        readers,
        writers,
        events: if (readers == 0) != (writers == 0) {
            p.events.push(PipeEvent::WakeAllReaders).push(PipeEvent::WakeAllWriters)
        } else {
            p.events
        },
        ..p
    }
}

/// The number of bytes that a read with a buffer of `len` bytes takes out of the pipe.
pub open spec fn read_len(p: PipeView, len: nat) -> int {
    lesser(p.data.len() as int, len as int)
}

/// The pipe after a read with a buffer of `len` bytes. If that made room, a writer is woken.
pub open spec fn read_out(p: PipeView, len: nat) -> PipeView {
    let n = read_len(p, len);
    PipeView {
        data: p.data.skip(n),
        events: if n > 0 {
            p.events.push(PipeEvent::WakeNextWriter)
        } else {
            p.events
        },
        ..p
    }
}

/// The space that is left in the pipe.
pub open spec fn available(p: PipeView) -> int {
    PIPE_BUF - p.data.len()
}

/// The pipe after a write of `buf`, and what the write returns. Nothing can be written when
/// there are no readers.
pub open spec fn write_in(p: PipeView, buf: Seq<u8>) -> (PipeView, EResult<usize>) {
    if buf.len() == 0 {
        (p, Ok(0))
    } else if p.readers == 0 {
        (PipeView { events: p.events.push(PipeEvent::KillCurrent), ..p }, Err(EPIPE))
    } else {
        let n = lesser(available(p), buf.len() as int);
        (
            PipeView {
                data: p.data + buf.take(n),
                events: p.events.push(PipeEvent::WakeNextReader),
                ..p
            },
            Ok(n as usize),
        )
    }
}

/// Answers an I/O control request on the pipe, with the space that is left in it or not at all.
pub open spec fn ioctl_on(
    w: World<EResult<()>>,
    log: Seq<(CopyToUser, EResult<()>)>,
    p: PipeView,
    request: Request,
    argp: usize,
) -> (Seq<(CopyToUser, EResult<()>)>, EResult<u32>) {
    if old_format(request) == FIONREAD {
        let copy = CopyToUser {
            ptr: argp,
            off: 0,
            bytes: le_bytes(available(p) as nat, 4),
        };
        (
            asked(log, w, copy),
            match w(log.len() as int) {
                Ok(()) => Ok(0),
                Err(e) => Err(e),
            },
        )
    } else {
        (log, Err(ENOTTY))
    }
}

/// Representing a FIFO buffer.
pub struct PipeBuffer {
    /// The pipe's buffer.
    buffer: RingBuffer,
    /// The number of readers on the pipe.
    readers: usize,
    /// The number of writers on the pipe.
    writers: usize,
    /// What the scheduler is to do on behalf of the pipe.
    events: Vec<PipeEvent>,
}

impl PipeBuffer {
    pub closed spec fn view(&self) -> PipeView {
        PipeView {
            data: self.buffer@,
            readers: self.readers,
            writers: self.writers,
            events: self.events@,
        }
    }

    /// The invariant of the pipe.
    pub closed spec fn wf(&self) -> bool {
        self.buffer.wf() && self.buffer.size() == PIPE_BUF
    }

    /// Creates an empty pipe, without readers nor writers.
    pub fn try_default() -> (r: EResult<Self>)
        ensures
            r matches Ok(pipe) && pipe.wf() && pipe@ == (PipeView {
                data: Seq::empty(),
                readers: 0,
                writers: 0,
                events: Seq::empty(),
            }),
    {
        Ok(
            PipeBuffer {
                buffer: RingBuffer::new(PIPE_BUF),
                readers: 0,
                writers: 0,
                events: Vec::new(),
            },
        )
    }

    /// Returns the capacity of the pipe in bytes.
    pub fn get_capacity(&self) -> (n: usize)
        requires
            self.wf(),
        ensures
            n == PIPE_BUF,
    {
        self.buffer.get_size()
    }

    /// Returns the available space in the buffer in bytes.
    pub fn get_available_len(&self) -> (n: usize)
        requires
            self.wf(),
        ensures
            n == available(self@),
            n + self@.data.len() == PIPE_BUF,
    {
        self.buffer.get_available_len()
    }

    /// Takes the list of what the scheduler is to do.
    pub fn take_events(&mut self) -> (events: Vec<PipeEvent>)
        requires
            old(self).wf(),
        ensures
            final(self).wf(),
            events@ == old(self)@.events,
            final(self)@ == (PipeView { events: Seq::empty(), ..old(self)@ }),
    {
        let mut events: Vec<PipeEvent> = Vec::new();
        std::mem::swap(&mut events, &mut self.events);
        events
    }

    /// Adds a reader, a writer or both.
    pub fn acquire(&mut self, read: bool, write: bool)
        requires
            old(self).wf(),
            read ==> old(self)@.readers < usize::MAX,
            write ==> old(self)@.writers < usize::MAX,
        ensures
            final(self).wf(),
            final(self)@ == acquired(old(self)@, read, write),
    {
        if read {
            self.readers = self.readers + 1;
        }
        if write {
            self.writers = self.writers + 1;
        }
    }

    /// Removes a reader, a writer or both, which must be there.
    pub fn release(&mut self, read: bool, write: bool)
        requires
            old(self).wf(),
            read ==> old(self)@.readers > 0,
            write ==> old(self)@.writers > 0,
        ensures
            final(self).wf(),
            final(self)@ == released(old(self)@, read, write),
    {
        if read {
            self.readers = self.readers - 1;
        }
        if write {
            self.writers = self.writers - 1;
        }
        if (self.readers == 0) != (self.writers == 0) {
            self.events.push(PipeEvent::WakeAllReaders);
            self.events.push(PipeEvent::WakeAllWriters);
        }
    }

    /// Returns the status of the pipe.
    pub fn get_stat(&self) -> (r: EResult<Stat>)
        ensures
            r == Ok::<Stat, i32>(
                Stat {
                    file_type: FileType::Fifo,
                    mode: 0o666,
                    nlink: 0,
                    uid: 0,
                    gid: 0,
                    size: 0,
                    dev_major: 0,
                    dev_minor: 0,
                },
            ),
    {
        Ok(
            Stat {
                file_type: FileType::Fifo,
                mode: 0o666,
                nlink: 0,
                uid: 0,
                gid: 0,
                size: 0,
                dev_major: 0,
                dev_minor: 0,
            },
        )
    }

    /// Performs an I/O control request on the pipe.
    ///
    /// [`FIONREAD`] copies the available space in the buffer to `argp`, in user space. On any
    /// other request, the function returns [`ENOTTY`].
    pub fn ioctl<U: UserMemory>(&self, request: Request, argp: usize, user: &mut U) -> (r:
        EResult<u32>)
        requires
            self.wf(),
        ensures
            old(user).calls().is_prefix_of(final(user).calls()),
            forall|w: World<EResult<()>>| #[trigger]
                heard(final(user).calls(), w) ==> ioctl_on(w, old(user).calls(), self@, request, argp)
                    == (final(user).calls(), r),
    {
        assert(user.calls() =~= user.calls().subrange(0, user.calls().len() as int));
        if request.get_old_format() == FIONREAD {
            let n: usize = self.get_available_len();
            let mut bytes: Vec<u8> = Vec::new();
            push_le(&mut bytes, n as u64, 4);
            assert(bytes@ =~= le_bytes(n as nat, 4));
            let copied = user.copy_to_user(argp, 0, bytes.as_slice());
            proof {
                lemma_asked(
                    old(user).calls(),
                    user.calls(),
                    CopyToUser { ptr: argp, off: 0, bytes: bytes@ },
                    copied,
                );
            }
            copied?;
            Ok(0)
        } else {
            Err(ENOTTY)
        }
    }

    /// Reads from the pipe into `buf`. Returns the number of bytes read.
    pub fn read_content(&mut self, buf: &mut [u8]) -> (r: EResult<usize>)
        requires
            old(self).wf(),
        ensures
            final(self).wf(),
            ({
                let n = read_len(old(self)@, old(buf)@.len());
                &&& r == Ok::<usize, i32>(n as usize)
                &&& final(buf)@ == old(self)@.data.take(n) + old(buf)@.skip(n)
                &&& final(self)@ == read_out(old(self)@, old(buf)@.len())
            }),
    {
        let len: usize = self.buffer.read(buf);
        if len > 0 {
            self.events.push(PipeEvent::WakeNextWriter);
        }
        assert(self@ =~= read_out(old(self)@, old(buf)@.len()));
        Ok(len)
    }

    /// Writes `buf` to the pipe. Returns the number of bytes written.
    ///
    /// If there are no readers, the current process gets `SIGPIPE`, and the function returns
    /// [`EPIPE`].
    pub fn write_content(&mut self, buf: &[u8]) -> (r: EResult<usize>)
        requires
            old(self).wf(),
        ensures
            final(self).wf(),
            write_in(old(self)@, buf@) == (final(self)@, r),
    {
        if buf.len() == 0 {
            return Ok(0);
        }
        if self.readers == 0 {
            self.events.push(PipeEvent::KillCurrent);
            return Err(EPIPE);
        }
        let len: usize = self.buffer.write(buf);
        self.events.push(PipeEvent::WakeNextReader);
        assert(self@ =~= write_in(old(self)@, buf@).0);
        Ok(len)
    }
}

/// What is written to an empty pipe is read back, as long as it fits and there is a reader.
pub proof fn law_read_gives_back_write(p: PipeView, buf: Seq<u8>)
    requires
        p.data == Seq::<u8>::empty(),
        p.readers > 0,
        buf.len() <= PIPE_BUF,
    ensures
        ({
            let (p1, r) = write_in(p, buf);
            &&& r == Ok::<usize, i32>(buf.len() as usize)
            &&& p1.data.take(read_len(p1, buf.len())) == buf
            &&& read_out(p1, buf.len()).data == Seq::<u8>::empty()
        }),
{
    let (p1, r) = write_in(p, buf);
    if buf.len() == 0 {
        assert(p1.data.take(0) =~= buf);
        assert(read_out(p1, buf.len()).data =~= Seq::<u8>::empty());
    } else {
        assert(buf.take(buf.len() as int) =~= buf);
        assert(p1.data =~= buf);
        assert(p1.data.take(buf.len() as int) =~= buf);
        assert(read_out(p1, buf.len()).data =~= Seq::<u8>::empty());
    }
}

/// Bytes leave the pipe in the order in which they came: what is read, then what is left, is what
/// was there; and what is accepted goes behind what was there.
pub proof fn law_bytes_keep_their_order(p: PipeView, len: nat, buf: Seq<u8>)
    requires
        p.data.len() <= PIPE_BUF,
    ensures
        p.data.take(read_len(p, len)) + read_out(p, len).data == p.data,
        write_in(p, buf).1 matches Ok(n) ==> n <= buf.len() && write_in(p, buf).0.data == p.data
            + buf.take(n as int),
{
    assert(p.data.take(read_len(p, len)) + read_out(p, len).data =~= p.data);
    if buf.len() == 0 {
        assert(p.data + buf.take(0) =~= p.data);
    }
}

/// A pipe holds no more than its capacity.
pub proof fn law_pipe_fits_its_capacity(pipe: &PipeBuffer)
    requires
        pipe.wf(),
    ensures
        pipe@.data.len() <= PIPE_BUF,
{
    pipe.buffer.lemma_fits();
}

/// Reading and writing never leave more in the pipe than its capacity.
pub proof fn law_pipe_keeps_its_capacity(p: PipeView, len: nat, buf: Seq<u8>)
    requires
        p.data.len() <= PIPE_BUF,
    ensures
        read_out(p, len).data.len() <= PIPE_BUF,
        write_in(p, buf).0.data.len() <= PIPE_BUF,
{
}

/// A reader or writer that came and left leaves the numbers of readers and writers, and the
/// bytes in the pipe, as they were.
pub proof fn law_release_undoes_acquire(p: PipeView, read: bool, write: bool)
    requires
        read ==> p.readers < usize::MAX,
        write ==> p.writers < usize::MAX,
    ensures
        ({
            let p1 = released(acquired(p, read, write), read, write);
            &&& p1.readers == p.readers
            &&& p1.writers == p.writers
            &&& p1.data == p.data
        }),
{
}

/// A read takes as much as there is room for: all that is in the pipe, or as much as was asked for.
/// If it took anything, one writer is woken, and no one else; the readers and writers stay.
pub proof fn law_read_takes_what_there_is(p: PipeView, len: nat)
    ensures
        ({
            let n = read_len(p, len);
            let p1 = read_out(p, len);
            &&& n <= p.data.len() && n <= len
            &&& n == p.data.len() || n == len
            &&& p1.data == p.data.skip(n)
            &&& p1.readers == p.readers && p1.writers == p.writers
            &&& n > 0 ==> p1.events == p.events.push(PipeEvent::WakeNextWriter)
            &&& n == 0 ==> p1.events == p.events
        }),
{
}

/// A write puts as much behind the bytes in the pipe as there is space for, wakes one reader, and
/// returns how much that was. An empty one changes nothing.
pub proof fn law_write_puts_what_fits(p: PipeView, buf: Seq<u8>)
    requires
        p.data.len() <= PIPE_BUF,
        buf.len() <= usize::MAX,
        p.readers > 0,
    ensures
        ({
            let (p1, r) = write_in(p, buf);
            let n = r->Ok_0;
            &&& r is Ok
            &&& n <= buf.len() && p.data.len() + n <= PIPE_BUF
            &&& n == buf.len() || p.data.len() + n == PIPE_BUF
            &&& p1.data == p.data + buf.take(n as int)
            &&& p1.readers == p.readers && p1.writers == p.writers
            &&& buf.len() > 0 ==> p1.events == p.events.push(PipeEvent::WakeNextReader)
            &&& buf.len() == 0 ==> p1.events == p.events
        }),
{
    assert(p.data + buf.take(0) =~= p.data);
}

/// Without readers, nothing is written: the process is to be killed, and the error says why. An empty
/// write is no error even then.
pub proof fn law_write_needs_a_reader(p: PipeView, buf: Seq<u8>)
    requires
        p.readers == 0,
    ensures
        buf.len() > 0 ==> write_in(p, buf) == (
            PipeView { events: p.events.push(PipeEvent::KillCurrent), ..p },
            Err::<usize, i32>(EPIPE),
        ),
        buf.len() == 0 ==> write_in(p, buf) == (p, Ok::<usize, i32>(0)),
{
}

/// Whoever comes is counted, whoever leaves is not any more, and nothing else changes. When the last
/// reader leaves writers behind, or the last writer readers, all who wait are woken: first the
/// readers, then the writers. Else, no one is.
pub proof fn law_ends_of_the_pipe_are_counted(p: PipeView, read: bool, write: bool)
    requires
        0 < p.readers < usize::MAX,
        0 < p.writers < usize::MAX,
    ensures
        ({
            let p1 = acquired(p, read, write);
            &&& p1.readers == p.readers + if read {
                1int
            } else {
                0
            }
            &&& p1.writers == p.writers + if write {
                1int
            } else {
                0
            }
            &&& p1.data == p.data && p1.events == p.events
        }),
        ({
            let p1 = released(p, read, write);
            &&& p1.readers == p.readers - if read {
                1int
            } else {
                0
            }
            &&& p1.writers == p.writers - if write {
                1int
            } else {
                0
            }
            &&& p1.data == p.data
            &&& p1.readers > 0 && p1.writers > 0 || p1.readers == 0 && p1.writers == 0 ==> p1.events
                == p.events
            &&& p1.readers == 0 && p1.writers > 0 || p1.readers > 0 && p1.writers == 0 ==> p1.events
                == p.events.push(PipeEvent::WakeAllReaders).push(PipeEvent::WakeAllWriters)
        }),
{
}

/// The first reader, writer or both of a pipe are counted, and the last to leave leave none behind.
pub proof fn law_first_and_last_are_counted(p: PipeView, read: bool, write: bool)
    ensures
        p.readers == 0 ==> acquired(p, read, write).readers == if read {
            1int
        } else {
            0
        },
        p.writers == 0 ==> acquired(p, read, write).writers == if write {
            1int
        } else {
            0
        },
        p.readers == 1 && p.writers == 0 && !write ==> released(p, true, write).events == p.events,
        p.writers == 1 && p.readers == 0 && !read ==> released(p, read, true).events == p.events,
{
}

/// The request for the space in the pipe copies it to the address that was given, as four bytes, and
/// succeeds if that does; the error of the copy is the error of the request. Any other request is
/// refused, and nothing is copied.
pub proof fn law_ioctl_copies_the_space(
    w: World<EResult<()>>,
    log: Seq<(CopyToUser, EResult<()>)>,
    p: PipeView,
    request: Request,
    argp: usize,
)
    requires
        p.data.len() <= PIPE_BUF,
    ensures
        ({
            let n = log.len() as int;
            let (log1, r) = ioctl_on(w, log, p, request, argp);
            let is_fionread = request.major == 0x54 && request.minor == 0x1b;
            &&& is_fionread ==> {
                &&& log1.len() == n + 1 && log1.take(n) == log && log1[n].1 == w(n)
                &&& log1[n].0.ptr == argp && log1[n].0.off == 0
                &&& log1[n].0.bytes.len() == 4
                &&& le_value(log1[n].0.bytes) + p.data.len() == PIPE_BUF
                &&& w(n) is Ok ==> r == Ok::<u32, i32>(0)
                &&& w(n) matches Err(e) ==> r == Err::<u32, i32>(e)
            }
            &&& !is_fionread ==> log1 == log && r == Err::<u32, i32>(ENOTTY)
        }),
{
    law_old_format_holds_the_request(request, request);
    let x = available(p) as nat;
    lemma_le_bytes(x, 4);
    reveal_with_fuel(fits, 5);
    assert(x <= PIPE_BUF);
    assert(fits(x, 4));
    assert(ioctl_on(w, log, p, request, argp).0.take(log.len() as int) =~= log);
}

/// A write to a pipe that returns put the beginning of what was given behind what was there, as much
/// as fits, and woke a reader. Without readers it is an error, and the process is to be killed.
pub proof fn law_write_content(pipe: &mut PipeBuffer, buf: &[u8], r: EResult<usize>)
    requires
        call_ensures(PipeBuffer::write_content, (pipe, buf), r),
        old(pipe).wf(),
        buf@.len() <= usize::MAX,
    ensures
        ({
            let p = old(pipe)@;
            let p1 = final(pipe)@;
            &&& p1.readers == p.readers && p1.writers == p.writers
            &&& buf@.len() == 0 ==> r == Ok::<usize, i32>(0) && p1 == p
            &&& buf@.len() > 0 && p.readers == 0 ==> r == Err::<usize, i32>(EPIPE) && p1.data
                == p.data && p1.events == p.events.push(PipeEvent::KillCurrent)
            &&& buf@.len() > 0 && p.readers > 0 ==> {
                &&& r matches Ok(n) && n <= buf@.len() && p.data.len() + n <= PIPE_BUF && (n
                    == buf@.len() || p.data.len() + n == PIPE_BUF) && p1.data == p.data
                    + buf@.take(n as int)
                &&& p1.events == p.events.push(PipeEvent::WakeNextReader)
            }
        }),
{
    law_pipe_fits_its_capacity(old(pipe));
}

/// A read from a pipe that returns took the oldest bytes, as many as there were and as the buffer has
/// room for, into the beginning of the buffer, and woke a writer if there were any.
pub proof fn law_read_content(pipe: &mut PipeBuffer, buf: &mut [u8], r: EResult<usize>)
    requires
        call_ensures(PipeBuffer::read_content, (pipe, buf), r),
        old(pipe).wf(),
        old(buf)@.len() <= usize::MAX,
    ensures
        ({
            let p = old(pipe)@;
            let p1 = final(pipe)@;
            let len = old(buf)@.len();
            &&& p1.readers == p.readers && p1.writers == p.writers
            &&& r matches Ok(n) && n <= len && n <= p.data.len() && (n == len || n == p.data.len())
            &&& p.data == p.data.take(r->Ok_0 as int) + p1.data
            &&& final(buf)@ == p.data.take(r->Ok_0 as int) + old(buf)@.skip(r->Ok_0 as int)
            &&& r->Ok_0 > 0 ==> p1.events == p.events.push(PipeEvent::WakeNextWriter)
            &&& r->Ok_0 == 0 ==> p1.events == p.events
        }),
{
    let p = old(pipe)@;
    law_pipe_fits_its_capacity(old(pipe));
    assert(p.data =~= p.data.take(r->Ok_0 as int) + final(pipe)@.data);
}

/// Who acquires a pipe is counted, and who releases it is not any more; everyone who waits is woken
/// when that leaves readers without writers or writers without readers.
pub proof fn law_acquire_and_release(
    pipe: &mut PipeBuffer,
    other: &mut PipeBuffer,
    read: bool,
    write: bool,
)
    requires
        call_ensures(PipeBuffer::acquire, (pipe, read, write), ()),
        call_ensures(PipeBuffer::release, (other, read, write), ()),
        read ==> old(pipe)@.readers < usize::MAX && old(other)@.readers > 0,
        write ==> old(pipe)@.writers < usize::MAX && old(other)@.writers > 0,
    ensures
        ({
            let readers: int = if read {
                1
            } else {
                0
            };
            let writers: int = if write {
                1
            } else {
                0
            };
            let p = old(other)@;
            let p1 = final(other)@;
            &&& final(pipe)@.readers == old(pipe)@.readers + readers
            &&& final(pipe)@.writers == old(pipe)@.writers + writers
            &&& final(pipe)@.data == old(pipe)@.data && final(pipe)@.events == old(pipe)@.events
            &&& p1.readers == p.readers - readers && p1.writers == p.writers - writers
            &&& p1.data == p.data
            &&& p1.readers == 0 && p1.writers > 0 || p1.readers > 0 && p1.writers == 0 ==> p1.events
                == p.events.push(PipeEvent::WakeAllReaders).push(PipeEvent::WakeAllWriters)
            &&& p1.readers == 0 && p1.writers == 0 || p1.readers > 0 && p1.writers > 0 ==> p1.events
                == p.events
        }),
{
}

/// What the scheduler is to do is handed out once, all of it, in its order.
pub proof fn law_take_events(pipe: &mut PipeBuffer, events: Vec<PipeEvent>)
    requires
        call_ensures(PipeBuffer::take_events, (pipe,), events),
    ensures
        events@ == old(pipe)@.events,
        final(pipe)@.events.len() == 0,
        final(pipe)@.data == old(pipe)@.data,
        final(pipe)@.readers == old(pipe)@.readers,
        final(pipe)@.writers == old(pipe)@.writers,
{
}

/// A new pipe is empty, without readers and writers, and its space is its capacity. Space and content
/// make up the capacity at any time.
pub proof fn law_space_of_a_pipe(
    r: EResult<PipeBuffer>,
    pipe: &PipeBuffer,
    capacity: usize,
    space: usize,
)
    requires
        call_ensures(PipeBuffer::try_default, (), r),
        call_ensures(PipeBuffer::get_capacity, (pipe,), capacity),
        call_ensures(PipeBuffer::get_available_len, (pipe,), space),
    ensures
        r matches Ok(new) && new.wf() && new@.data.len() == 0 && new@.readers == 0 && new@.writers
            == 0 && new@.events.len() == 0,
        capacity == PIPE_BUF,
        space + pipe@.data.len() == capacity,
{
}

/// The status of a pipe says that it is one, and that everyone may read and write it.
pub proof fn law_pipe_status(pipe: &PipeBuffer, r: EResult<Stat>)
    requires
        call_ensures(PipeBuffer::get_stat, (pipe,), r),
    ensures
        r matches Ok(stat) && stat.file_type == FileType::Fifo && stat.mode == 0o666 && stat.uid == 0
            && stat.gid == 0 && stat.size == 0,
{
}

/// The request for the space in a pipe that returns copied it to the address that was given, as four
/// bytes; any other request is refused, and copies nothing.
pub proof fn law_pipe_ioctl<U: UserMemory>(
    pipe: &PipeBuffer,
    request: Request,
    argp: usize,
    user: &mut U,
    r: EResult<u32>,
)
    requires
        call_ensures(PipeBuffer::ioctl::<U>, (pipe, request, argp, user), r),
        pipe.wf(),
    ensures
        ({
            let n = old(user).calls().len() as int;
            let log = final(user).calls();
            let is_fionread = request.major == 0x54 && request.minor == 0x1b;
            &&& is_fionread ==> {
                &&& log.len() == n + 1 && log.take(n) == old(user).calls()
                &&& log[n].0.ptr == argp && log[n].0.off == 0 && log[n].0.bytes.len() == 4
                &&& le_value(log[n].0.bytes) + pipe@.data.len() == PIPE_BUF
                &&& log[n].1 is Ok ==> r == Ok::<u32, i32>(0)
                &&& log[n].1 matches Err(e) ==> r == Err::<u32, i32>(e)
            }
            &&& !is_fionread ==> log == old(user).calls() && r == Err::<u32, i32>(ENOTTY)
        }),
{
    let log = final(user).calls();
    let w = replies_of(log);
    assert(heard(log, w));
    law_pipe_fits_its_capacity(pipe);
    law_ioctl_copies_the_space(w, old(user).calls(), pipe@, request, argp);
    if request.major == 0x54 && request.minor == 0x1b {
        assert(w(old(user).calls().len() as int) == log[old(user).calls().len() as int].1);
    }
}

} // verus!
