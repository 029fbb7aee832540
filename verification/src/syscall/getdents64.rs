//! The `getdents64` system call allows to get the list of entries in a given
//! directory.

use crate::bytes::{fits, le_bytes, le_value, lemma_le_bytes, lemma_u64_fits, push_le};
use crate::errno::{EResult, EBADF};
use crate::stat::{dirent_type, FileType, INode};
use crate::syscall::descriptors::{DescriptorCall, Descriptors, DirentFormat};
use crate::history::{
    asked, heard, lemma_asked, lemma_heard_before, lemma_prefix, replies_of, World,
};
use crate::user::{CopyToUser, UserMemory};
use vstd::prelude::*;

verus! {

/// Where the name stands in an entry: behind the fields of the header, in its padding.
pub const NAME_OFFSET: usize = 19;

/// The copies to user space so far.
pub type Copies = Seq<(CopyToUser, EResult<()>)>;

/// The number of bytes in a word of the machine.
pub open spec fn word_size() -> nat {
    if usize::BITS == 32 {
        4
    } else {
        8
    }
}

/// `n` bytes, rounded up to whole words.
pub open spec fn in_words(n: nat) -> nat {
    if usize::BITS == 32 {
        (n + 3) / 4 * 4
    } else {
        (n + 7) / 8 * 8
    }
}

/// The size of the header of an entry, with the padding that makes it whole words.
pub open spec fn header_size() -> nat {
    in_words(NAME_OFFSET as nat)
}

/// The length of an entry with a name of `n` bytes.
pub open spec fn entry_len(n: nat) -> nat {
    in_words(header_size() + n + 1)
}

/// The header of the entry at `off`, for a file with a name of `n` bytes: the inode, the offset of
/// the next entry, the length of the entry (its lower 16 bits), the type of the file and padding.
pub open spec fn header(off: usize, inode: INode, entry_type: FileType, n: nat) -> Seq<u8> {
    le_bytes(inode as nat, 8) + le_bytes((off + entry_len(n)) as nat, 8) + le_bytes(
        entry_len(n),
        2,
    ) + seq![dirent_type(entry_type)] + le_bytes(0, (header_size() - NAME_OFFSET) as nat)
}

/// Returns the least number of whole words' bytes that is not below `n`.
fn round_to_words(n: usize) -> (r: usize)
    requires
        in_words(n as nat) <= usize::MAX,
    ensures
        r == in_words(n as nat),
{
    let word: usize = if usize::BITS == 32 {
        4
    } else {
        8
    };
    let over: usize = n % word;
    if over == 0 {
        n
    } else {
        n + (word - over)
    }
}

/// The three copies that write an entry: its header, the name, and the nul byte behind it.
pub open spec fn entry_copies(
    ptr: usize,
    off: usize,
    inode: INode,
    entry_type: FileType,
    name: Seq<u8>,
) -> Seq<CopyToUser> {
    seq![
        CopyToUser { ptr, off, bytes: header(off, inode, entry_type, name.len()) },
        CopyToUser { ptr, off: (off + NAME_OFFSET) as usize, bytes: name },
        CopyToUser { ptr, off: (off + NAME_OFFSET + name.len()) as usize, bytes: seq![0u8] },
    ]
}

/// Making the copies `copies`, from the one at `i` on, up to the first failure.
pub open spec fn copy_all(w: World<EResult<()>>, log: Copies, copies: Seq<CopyToUser>, i: int) -> (
    Copies,
    EResult<()>,
)
    decreases copies.len() - i,
{
    if i < 0 || i >= copies.len() {
        (log, Ok(()))
    } else {
        let log1 = asked(log, w, copies[i]);
        match w(log.len() as int) {
            Err(e) => (log1, Err(e)),
            Ok(_) => copy_all(w, log1, copies, i + 1),
        }
    }
}

/// A Linux directory entry with 64 bits offsets.
pub struct LinuxDirent64;

impl LinuxDirent64 {
    /// The greatest inode that an entry has room for.
    pub const INODE_MAX: u64 = 0xffff_ffff_ffff_ffff;

    /// Returns the length of an entry with the name `name`.
    pub fn required_length(name: &[u8]) -> (len: usize)
        requires
            entry_len(name@.len()) <= usize::MAX,
        ensures
            len == entry_len(name@.len()),
    {
        let len: usize = round_to_words(NAME_OFFSET) + name.len() + 1;
        // Padding for alignment
        round_to_words(len)
    }

    /// Writes an entry to user space, `off` bytes after the address `ptr`.
    ///
    /// If a copy to user space fails, the function returns its error, and copies nothing more.
    pub fn write<U: UserMemory>(
        user: &mut U,
        ptr: usize,
        off: usize,
        inode: INode,
        entry_type: FileType,
        name: &[u8],
    ) -> (r: EResult<()>)
        requires
            off + entry_len(name@.len()) <= usize::MAX,
        ensures
            old(user).calls().is_prefix_of(final(user).calls()),
            forall|w: World<EResult<()>>| #[trigger]
                heard(final(user).calls(), w) ==> copy_all(
                    w,
                    old(user).calls(),
                    entry_copies(ptr, off, inode, entry_type, name@),
                    0,
                ) == (final(user).calls(), r),
    {
        broadcast use lemma_heard_before;

        let ghost log0 = user.calls();
        let ghost copies = entry_copies(ptr, off, inode, entry_type, name@);
        reveal_with_fuel(copy_all, 4);
        let len: usize = Self::required_length(name);
        let mut ent: Vec<u8> = Vec::new();
        push_le(&mut ent, inode, 8);
        push_le(&mut ent, (off + len) as u64, 8);
        push_le(&mut ent, len as u64, 2);
        ent.push(entry_type.to_dirent_type());
        push_le(&mut ent, 0, round_to_words(NAME_OFFSET) - NAME_OFFSET);
        proof {
            assert(ent@ =~= header(off, inode, entry_type, name@.len()));
        }
        // Write entry
        let r = user.copy_to_user(ptr, off, ent.as_slice());
        let ghost log1 = user.calls();
        proof {
            lemma_asked(log0, log1, copies[0], r);
        }
        r?;
        // Copy file name
        let r = user.copy_to_user(ptr, off + NAME_OFFSET, name);
        let ghost log2 = user.calls();
        proof {
            lemma_asked(log1, log2, copies[1], r);
            lemma_prefix(log0, log1, log2);
        }
        r?;
        let nul: [u8; 1] = [0];
        assert(nul@ =~= seq![0u8]);
        let r = user.copy_to_user(ptr, off + NAME_OFFSET + name.len(), &nul);
        proof {
            lemma_asked(log2, user.calls(), copies[2], r);
            lemma_prefix(log0, log2, user.calls());
        }
        r?;
        Ok(())
    }
}

/// Writes the entries of the directory behind the file descriptor `fd` to `dirp`, in user space,
/// in at most `count` bytes.
///
/// If `fd` is negative, the function returns [`EBADF`].
pub fn getdents64<D: Descriptors>(
    fd: i32,
    dirp: usize,
    count: usize,
    fds: &mut D,
) -> (r: EResult<usize>)
    ensures
        if fd < 0 {
            r == Err::<usize, i32>(EBADF) && *final(fds) == *old(fds)
        } else {
            final(fds).calls() == old(fds).calls().push(
                (DescriptorCall::Getdents(DirentFormat::Linux64, fd as u32, dirp, count), r),
            )
        },
{
    if fd < 0 {
        return Err(EBADF);
    }
    fds.do_getdents(DirentFormat::Linux64, fd as u32, dirp, count)
}

/// A memory: the byte at every address.
pub type Memory = spec_fn(int) -> u8;

/// The memory `mem` after a copy.
pub open spec fn after_copy(mem: Memory, copy: CopyToUser) -> Memory {
    |addr: int|
        {
            let i = addr - copy.ptr - copy.off;
            if 0 <= i < copy.bytes.len() {
                copy.bytes[i]
            } else {
                mem(addr)
            }
        }
}

/// `n` bytes of the memory `mem`, from the address `addr` on.
pub open spec fn bytes_at(mem: Memory, addr: int, n: nat) -> Seq<u8> {
    Seq::new(n, |i: int| mem(addr + i))
}

/// The three copies leave in memory an entry whose fields can be read back: the inode, the offset
/// of the next entry, the length of the entry, the type of the file, and the name, ended by a nul
/// byte. Nothing is written outside the entry, and the next one is aligned if this one is.
#[verifier::spinoff_prover]
#[verifier::rlimit(40)]
pub proof fn law_entry_can_be_read_back(
    mem: Memory,
    ptr: usize,
    off: usize,
    inode: INode,
    entry_type: FileType,
    name: Seq<u8>,
)
    requires
        off + entry_len(name.len()) <= usize::MAX,
    ensures
        ({
            let copies = entry_copies(ptr, off, inode, entry_type, name);
            let m = after_copy(after_copy(after_copy(mem, copies[0]), copies[1]), copies[2]);
            let base = ptr + off;
            let len = entry_len(name.len());
            &&& le_value(bytes_at(m, base, 8)) == inode
            &&& le_value(bytes_at(m, base + 8, 8)) == off + len
            &&& len < 0x10000 ==> le_value(bytes_at(m, base + 16, 2)) == len
            &&& m(base + 18) == dirent_type(entry_type)
            &&& bytes_at(m, base + NAME_OFFSET, name.len()) == name
            &&& m(base + NAME_OFFSET + name.len()) == 0
            &&& forall|addr: int| !(base <= addr < base + len) ==> #[trigger] m(addr) == mem(addr)
            &&& off as int % word_size() as int == 0 ==> (off + len) % word_size() as int == 0
        }),
{
    let copies = entry_copies(ptr, off, inode, entry_type, name);
    let m = after_copy(after_copy(after_copy(mem, copies[0]), copies[1]), copies[2]);
    let base = ptr + off;
    let len = entry_len(name.len());
    let head = header(off, inode, entry_type, name.len());
    lemma_le_bytes(inode as nat, 8);
    lemma_le_bytes((off + len) as nat, 8);
    lemma_le_bytes(len, 2);
    lemma_u64_fits(inode);
    lemma_u64_fits((off + len) as u64);
    lemma_le_bytes(0, (header_size() - NAME_OFFSET) as nat);
    assert(head.len() == header_size());
    assert(bytes_at(m, base, 8) =~= le_bytes(inode as nat, 8));
    assert(bytes_at(m, base + 8, 8) =~= le_bytes((off + len) as nat, 8));
    assert(bytes_at(m, base + 16, 2) =~= le_bytes(len, 2));
    assert(bytes_at(m, base + NAME_OFFSET, name.len()) =~= name);
    if len < 0x10000 {
        reveal_with_fuel(fits, 3);
        assert(fits(len, 2));
    }
}

/// An entry is as short as can be: it has room for the header, the name and the nul byte behind it,
/// is made of whole words, and has less than a word to spare. The header itself takes whole words.
pub proof fn law_entry_is_as_short_as_can_be(n: nat)
    ensures
        ({
            let word: nat = if usize::BITS == 32 {
                4
            } else {
                8
            };
            &&& word_size() == word
            &&& header_size() >= 19 && header_size() < 19 + word && header_size() % word == 0
            &&& entry_len(n) % word == 0
            &&& header_size() + n + 1 <= entry_len(n) < header_size() + n + 1 + word
        }),
{
}

/// Copies are made one after the other, up to the first one that fails, whose error is the result;
/// when none fails, all of them were made, and nothing else was copied.
pub proof fn law_copies_end_at_the_first_failure(
    w: World<EResult<()>>,
    log: Copies,
    copies: Seq<CopyToUser>,
    failed: int,
)
    requires
        0 <= failed <= copies.len(),
        forall|i: int| 0 <= i < failed ==> (#[trigger] w(log.len() + i)) is Ok,
        failed < copies.len() ==> w(log.len() + failed) is Err,
    ensures
        ({
            let (log1, r) = copy_all(w, log, copies, 0);
            let made = if failed < copies.len() {
                failed + 1
            } else {
                failed
            };
            &&& log1.len() == log.len() + made
            &&& log1.take(log.len() as int) == log
            &&& forall|i: int|
                0 <= i < made ==> #[trigger] log1[log.len() + i] == (copies[i], w(log.len() + i))
            &&& failed < copies.len() ==> r is Err && r == w(log.len() + failed)
            &&& failed == copies.len() ==> r == Ok::<(), i32>(())
        }),
{
    lemma_copies(w, log, copies, failed, 0);
    assert(copy_all(w, log, copies, 0).0.take(log.len() as int) =~= log);
}

proof fn lemma_copies(
    w: World<EResult<()>>,
    log: Copies,
    copies: Seq<CopyToUser>,
    failed: int,
    at: int,
)
    requires
        0 <= at <= failed <= copies.len(),
        forall|i: int| at <= i < failed ==> (#[trigger] w(log.len() - at + i)) is Ok,
        failed < copies.len() ==> w(log.len() - at + failed) is Err,
    ensures
        ({
            let (log1, r) = copy_all(w, log, copies, at);
            let base = log.len() - at;
            let made = if failed < copies.len() {
                failed + 1
            } else {
                failed
            };
            &&& log1.len() == base + made
            &&& forall|i: int| 0 <= i < log.len() ==> #[trigger] log1[i] == log[i]
            &&& forall|i: int|
                at <= i < made ==> #[trigger] log1[base + i] == (copies[i], w(base + i))
            &&& failed < copies.len() ==> r is Err && r == w(base + failed)
            &&& failed == copies.len() ==> r == Ok::<(), i32>(())
        }),
    decreases copies.len() - at,
{
    if at < failed {
        let log1 = asked(log, w, copies[at]);
        assert(w(log.len() - at + at) is Ok);
        assert(log1.len() - (at + 1) == log.len() - at);
        lemma_copies(w, log1, copies, failed, at + 1);
        let log2 = copy_all(w, log, copies, at).0;
        assert(log2[log.len() as int] == log1[log.len() as int]);
        assert forall|i: int| 0 <= i < log.len() implies #[trigger] log2[i] == log[i] by {
            assert(log2[i] == log1[i]);
        }
    } else if at < copies.len() {
        assert(w(log.len() as int) is Err);
    }
}

/// An entry is written in three copies to the address that was given, at the offset that was given
/// and right behind: a header, the name at byte 19 of the entry, and one nul byte behind the name.
pub proof fn law_entry_is_written_where_asked(
    ptr: usize,
    off: usize,
    inode: INode,
    entry_type: FileType,
    name: Seq<u8>,
)
    requires
        off + entry_len(name.len()) <= usize::MAX,
    ensures
        ({
            let copies = entry_copies(ptr, off, inode, entry_type, name);
            &&& copies.len() == 3
            &&& copies[0].ptr == ptr && copies[0].off == off && copies[0].bytes.len()
                == header_size()
            &&& copies[1].ptr == ptr && copies[1].off == off + 19 && copies[1].bytes == name
            &&& copies[2].ptr == ptr && copies[2].off == off + 19 + name.len() && copies[2].bytes
                == seq![0u8]
        }),
{
    lemma_le_bytes(inode as nat, 8);
    lemma_le_bytes((off + entry_len(name.len())) as nat, 8);
    lemma_le_bytes(entry_len(name.len()), 2);
    lemma_le_bytes(0, (header_size() - NAME_OFFSET) as nat);
}

/// The entries are asked of the table for exactly the file descriptor, the address and the number of
/// bytes that were given, in the layout with 64 bit offsets, and the reply is the result. A negative
/// file descriptor is refused, and nothing is asked.
pub proof fn law_getdents64<D: Descriptors>(
    fd: i32,
    dirp: usize,
    count: usize,
    fds: &mut D,
    r: EResult<usize>,
)
    requires
        call_ensures(getdents64::<D>, (fd, dirp, count, fds), r),
    ensures
        fd < 0 ==> r == Err::<usize, i32>(EBADF) && final(fds).calls() == old(fds).calls(),
        fd >= 0 ==> {
            &&& final(fds).calls().len() == old(fds).calls().len() + 1
            &&& final(fds).calls().last().0 == DescriptorCall::Getdents(
                DirentFormat::Linux64,
                fd as u32,
                dirp,
                count,
            )
            &&& final(fds).calls().last().1 == r
        },
{
}

/// An entry that was written whole leaves in memory what was given: the inode, the offset of the next
/// entry, the length, the type and the name. The first copy that fails ends the writing, and its error
/// is the result.
pub proof fn law_write_entry<U: UserMemory>(
    user: &mut U,
    ptr: usize,
    off: usize,
    inode: INode,
    entry_type: FileType,
    name: &[u8],
    r: EResult<()>,
    mem: Memory,
)
    requires
        call_ensures(LinuxDirent64::write::<U>, (user, ptr, off, inode, entry_type, name), r),
        off + entry_len(name@.len()) <= usize::MAX,
    ensures
        ({
            let n = old(user).calls().len() as int;
            let log = final(user).calls();
            let base = ptr + off;
            let len = entry_len(name@.len());
            &&& n < log.len() <= n + 3
            &&& r matches Err(e) ==> log.last().1 == Err::<(), i32>(e)
            &&& r is Ok ==> log.len() == n + 3 && {
                let m = after_copy(
                    after_copy(after_copy(mem, log[n].0), log[n + 1].0),
                    log[n + 2].0,
                );
                &&& le_value(bytes_at(m, base, 8)) == inode
                &&& le_value(bytes_at(m, base + 8, 8)) == off + len
                &&& len < 0x10000 ==> le_value(bytes_at(m, base + 16, 2)) == len
                &&& m(base + 18) == dirent_type(entry_type)
                &&& bytes_at(m, base + 19, name@.len()) == name@
                &&& m(base + 19 + name@.len()) == 0
                &&& forall|addr: int|
                    !(base <= addr < base + len) ==> #[trigger] m(addr) == mem(addr)
            }
        }),
{
    let log = final(user).calls();
    let log0 = old(user).calls();
    let w = replies_of(log);
    assert(heard(log, w));
    let n = log0.len() as int;
    let copies = entry_copies(ptr, off, inode, entry_type, name@);
    assert(copy_all(w, log0, copies, 0) == (log, r));
    reveal_with_fuel(copy_all, 4);
    law_entry_can_be_read_back(mem, ptr, off, inode, entry_type, name@);
}

/// The length that an entry requires is the shortest one that holds it.
pub proof fn law_required_length(name: &[u8], len: usize)
    requires
        call_ensures(LinuxDirent64::required_length, (name,), len),
    ensures
        len >= 19 + name@.len() + 1,
        len < header_size() + name@.len() + 1 + word_size(),
        len as nat % word_size() == 0,
{
}

} // verus!
