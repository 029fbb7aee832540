//! A ring buffer: a queue of bytes in a memory area of fixed size.

use vstd::prelude::*;

verus! {

/// A queue of bytes with a fixed capacity.
pub struct RingBuffer {
    /// The memory area.
    buffer: Vec<u8>,
    /// The position of the oldest byte.
    head: usize,
    /// The number of bytes in the queue.
    len: usize,
}

/// The position of the byte number `i` of the queue, when the oldest one is at `head` in an area
/// of `size` bytes.
spec fn slot(head: int, size: int, i: int) -> int {
    if i < size - head {
        head + i
    } else {
        i - (size - head)
    }
}

/// The lesser of two numbers.
pub open spec fn lesser(a: int, b: int) -> int {
    if a < b {
        a
    } else {
        b
    }
}

impl RingBuffer {
    /// The bytes in the queue, oldest first.
    pub closed spec fn view(&self) -> Seq<u8> {
        Seq::new(
            self.len as nat,
            |i: int| self.buffer@[slot(self.head as int, self.buffer@.len() as int, i)],
        )
    }

    /// The capacity of the queue.
    pub closed spec fn size(&self) -> nat {
        self.buffer@.len()
    }

    /// The invariant of the queue.
    pub closed spec fn wf(&self) -> bool {
        &&& self.len <= self.buffer@.len()
        &&& self.head < self.buffer@.len() || self.head == 0
    }

    /// The queue holds at most as many bytes as its capacity.
    pub proof fn lemma_fits(&self)
        requires
            self.wf(),
        ensures
            self@.len() <= self.size(),
    {
    }

    /// Creates an empty queue with the capacity `size`.
    pub fn new(size: usize) -> (ring: Self)
        ensures
            ring.wf(),
            ring.size() == size,
            ring@ == Seq::<u8>::empty(),
    {
        let ring = RingBuffer { buffer: vec![0u8; size], head: 0, len: 0 };
        assert(ring@ =~= Seq::<u8>::empty());
        ring
    }

    /// Returns the capacity of the queue.
    pub fn get_size(&self) -> (n: usize)
        ensures
            n == self.size(),
    {
        self.buffer.len()
    }

    /// Returns the number of bytes that can still be written.
    pub fn get_available_len(&self) -> (n: usize)
        requires
            self.wf(),
        ensures
            n == self.size() - self@.len(),
    {
        self.buffer.len() - self.len
    }

    /// Adds a byte at the end of the queue, which must not be full.
    fn push(&mut self, byte: u8)
        requires
            old(self).wf(),
            old(self)@.len() < old(self).size(),
        ensures
            final(self).wf(),
            final(self).size() == old(self).size(),
            final(self)@ == old(self)@.push(byte),
    {
        let room: usize = self.buffer.len() - self.head;
        let at: usize = if self.len < room {
            self.head + self.len
        } else {
            self.len - room
        };
        self.buffer.set(at, byte);
        self.len = self.len + 1;
        assert(self@ =~= old(self)@.push(byte));
    }

    /// Takes the oldest byte out of the queue, which must not be empty.
    fn pop(&mut self) -> (byte: u8)
        requires
            old(self).wf(),
            old(self)@.len() > 0,
        ensures
            final(self).wf(),
            final(self).size() == old(self).size(),
            byte == old(self)@[0],
            final(self)@ == old(self)@.skip(1),
    {
        let byte: u8 = self.buffer[self.head];
        self.head = if self.head < self.buffer.len() - 1 {
            self.head + 1
        } else {
            0
        };
        self.len = self.len - 1;
        assert(self@ =~= old(self)@.skip(1));
        byte
    }

    /// Writes the beginning of `buf`, as much as fits. Returns the number of bytes written.
    pub fn write(&mut self, buf: &[u8]) -> (n: usize)
        requires
            old(self).wf(),
        ensures
            final(self).wf(),
            final(self).size() == old(self).size(),
            n == lesser(old(self).size() - old(self)@.len(), buf@.len() as int),
            final(self)@ == old(self)@ + buf@.take(n as int),
    {
        let available: usize = self.get_available_len();
        let n: usize = if available < buf.len() {
            available
        } else {
            buf.len()
        };
        let mut i: usize = 0;
        assert(self@ =~= old(self)@ + buf@.take(0));
        while i < n
            invariant
                self.wf(),
                self.size() == old(self).size(),
                i <= n <= buf@.len(),
                n <= old(self).size() - old(self)@.len(),
                self@ == old(self)@ + buf@.take(i as int),
            decreases n - i,
        {
            self.push(buf[i]);
            assert(buf@.take(i as int).push(buf@[i as int]) =~= buf@.take(i + 1));
            i = i + 1;
            assert(self@ =~= old(self)@ + buf@.take(i as int));
        }
        n
    }

    /// Reads into the beginning of `buf`, as much as there is. Returns the number of bytes read.
    pub fn read(&mut self, buf: &mut [u8]) -> (n: usize)
        requires
            old(self).wf(),
        ensures
            final(self).wf(),
            final(self).size() == old(self).size(),
            n == lesser(old(self)@.len() as int, old(buf)@.len() as int),
            final(self)@ == old(self)@.skip(n as int),
            final(buf)@ == old(self)@.take(n as int) + old(buf)@.skip(n as int),
    {
        let n: usize = if self.len < buf.len() {
            self.len
        } else {
            buf.len()
        };
        let mut i: usize = 0;
        assert(self@ =~= old(self)@.skip(0));
        while i < n
            invariant
                self.wf(),
                self.size() == old(self).size(),
                i <= n <= buf@.len() == old(buf)@.len(),
                n <= old(self)@.len(),
                self@ == old(self)@.skip(i as int),
                forall|j: int| 0 <= j < i ==> buf@[j] == old(self)@[j],
                forall|j: int| i <= j < buf@.len() ==> buf@[j] == old(buf)@[j],
            decreases n - i,
        {
            buf[i] = self.pop();
            assert(old(self)@.skip(i as int).skip(1) =~= old(self)@.skip(i + 1));
            i = i + 1;
        }
        assert(buf@ =~= old(self)@.take(n as int) + old(buf)@.skip(n as int));
        n
    }
}

} // verus!
