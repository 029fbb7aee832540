//! Memory usage tracing utility functions.

use crate::bytes::{
    le_bytes, le_value, lemma_le_bytes, lemma_u64_fits, push_bytes, push_le,
};
use vstd::prelude::*;
use vstd::string::StringSliceAdditionalSpecFns;

verus! {

/// The number of frames that a callstack has room for.
pub const CALLSTACK_DEPTH: usize = 64;

/// The number of frames in `callstack`: it ends before the first null pointer, looking from the
/// position `i` on.
pub open spec fn frame_count(callstack: Seq<u64>, i: int) -> int
    decreases callstack.len() - i,
{
    if i < 0 || i >= callstack.len() || callstack[i] == 0 {
        i
    } else {
        frame_count(callstack, i + 1)
    }
}

/// The frames `frames`, eight bytes each.
pub open spec fn frame_bytes(frames: Seq<u64>) -> Seq<u8>
    decreases frames.len(),
{
    if frames.len() == 0 {
        Seq::empty()
    } else {
        frame_bytes(frames.drop_last()) + le_bytes(frames.last() as nat, 8)
    }
}

/// A memory tracing sample: the name of the allocator behind its length, the operation, the
/// pointer, the size, and the frames of the callstack behind their number. Numbers take eight
/// bytes, the operation and the number of frames take one.
pub open spec fn sample_bytes(
    allocator: Seq<u8>,
    op: u8,
    ptr: u64,
    size: usize,
    callstack: Seq<u64>,
) -> Seq<u8> {
    let frames = callstack.take(frame_count(callstack, 0));
    le_bytes(allocator.len(), 8) + allocator + seq![op] + le_bytes(ptr as nat, 8) + le_bytes(
        size as nat,
        8,
    ) + seq![frames.len() as u8] + frame_bytes(frames)
}

/// Returns a memory tracing sample.
///
/// Arguments:
/// - `allocator` is the name of the allocator.
/// - `op` is the operation number.
/// - `ptr` is the affected pointer.
/// - `size` is the new size of the allocation. The unit is dependent on the allocator.
/// - `callstack` is the callstack, with null pointers behind its last frame.
pub fn sample(
    allocator: &str,
    op: u8,
    ptr: u64,
    size: usize,
    callstack: &[u64; CALLSTACK_DEPTH],
) -> (bytes: Vec<u8>)
    ensures
        bytes@ == sample_bytes(allocator.spec_bytes(), op, ptr, size, callstack@),
{
    let mut out: Vec<u8> = Vec::new();
    let name: &[u8] = allocator.as_bytes();
    // Write name of allocator
    push_le(&mut out, name.len() as u64, 8);
    push_bytes(&mut out, name);
    // Write op
    out.push(op);
    // Write ptr and size
    push_le(&mut out, ptr, 8);
    push_le(&mut out, size as u64, 8);
    // Write callstack
    let len: usize = count_frames(callstack);
    out.push(len as u8);
    let ghost start = out@;
    let ghost frames = callstack@.take(len as int);
    proof {
        assert(start =~= le_bytes(name@.len(), 8) + name@ + seq![op] + le_bytes(ptr as nat, 8)
            + le_bytes(size as nat, 8) + seq![frames.len() as u8]);
        assert(start =~= start + frame_bytes(frames.take(0)));
    }
    let mut i: usize = 0;
    while i < len
        invariant
            i <= len <= CALLSTACK_DEPTH,
            frames == callstack@.take(len as int),
            out@ == start + frame_bytes(frames.take(i as int)),
        decreases len - i,
    {
        push_le(&mut out, callstack[i], 8);
        proof {
            let next = frames.take(i + 1);
            assert(next.drop_last() =~= frames.take(i as int));
            assert(next.last() == callstack@[i as int]);
            assert(out@ =~= start + frame_bytes(next));
        }
        i = i + 1;
    }
    assert(frames.take(len as int) =~= frames);
    out
}

/// Returns the number of frames in `callstack`.
fn count_frames(callstack: &[u64; CALLSTACK_DEPTH]) -> (n: usize)
    ensures
        n == frame_count(callstack@, 0),
        n <= CALLSTACK_DEPTH,
{
    let mut i: usize = 0;
    while i < CALLSTACK_DEPTH && callstack[i] != 0
        invariant
            i <= CALLSTACK_DEPTH,
            frame_count(callstack@, 0) == frame_count(callstack@, i as int),
        decreases CALLSTACK_DEPTH - i,
    {
        i = i + 1;
    }
    i
}

proof fn lemma_frame_count(callstack: Seq<u64>, i: int)
    requires
        0 <= i <= callstack.len(),
    ensures
        i <= frame_count(callstack, i) <= callstack.len(),
    decreases callstack.len() - i,
{
    if i < callstack.len() && callstack[i] != 0 {
        lemma_frame_count(callstack, i + 1);
    }
}

proof fn lemma_frame_bytes(frames: Seq<u64>)
    ensures
        frame_bytes(frames).len() == 8 * frames.len(),
        forall|k: int|
            0 <= k < frames.len() ==> frame_bytes(frames).subrange(8 * k, 8 * k + 8) == le_bytes(
                #[trigger] frames[k] as nat,
                8,
            ),
    decreases frames.len(),
{
    if frames.len() > 0 {
        let before = frames.drop_last();
        let last = le_bytes(frames.last() as nat, 8);
        let all = frame_bytes(frames);
        lemma_frame_bytes(before);
        lemma_le_bytes(frames.last() as nat, 8);
        assert forall|k: int| 0 <= k < frames.len() implies all.subrange(8 * k, 8 * k + 8)
            == le_bytes(#[trigger] frames[k] as nat, 8) by {
            if k < before.len() {
                assert(before[k] == frames[k]);
                assert(all.subrange(8 * k, 8 * k + 8) =~= frame_bytes(before).subrange(
                    8 * k,
                    8 * k + 8,
                ));
            } else {
                assert(all.subrange(8 * k, 8 * k + 8) =~= last);
            }
        }
    }
}

proof fn lemma_read_u64(s: Seq<u8>, at: int, x: u64)
    requires
        0 <= at,
        at + 8 <= s.len(),
        s.subrange(at, at + 8) == le_bytes(x as nat, 8),
    ensures
        le_value(s.subrange(at, at + 8)) == x,
{
    lemma_u64_fits(x);
    lemma_le_bytes(x as nat, 8);
}

/// Everything that goes into a sample can be read back from it.
pub proof fn law_sample_can_be_read_back(
    allocator: Seq<u8>,
    op: u8,
    ptr: u64,
    size: usize,
    callstack: Seq<u64>,
)
    requires
        allocator.len() <= u64::MAX,
        callstack.len() <= CALLSTACK_DEPTH,
    ensures
        ({
            let s = sample_bytes(allocator, op, ptr, size, callstack);
            let n = allocator.len() as int;
            let count = frame_count(callstack, 0);
            &&& s.len() == 26 + n + 8 * count
            &&& le_value(s.subrange(0, 8)) == n
            &&& s.subrange(8, 8 + n) == allocator
            &&& s[8 + n] == op
            &&& le_value(s.subrange(9 + n, 17 + n)) == ptr
            &&& le_value(s.subrange(17 + n, 25 + n)) == size
            &&& s[25 + n] == count
            &&& forall|k: int|
                0 <= k < count ==> le_value(s.subrange(26 + n + 8 * k, 34 + n + 8 * k))
                    == #[trigger] callstack[k]
        }),
{
    let s = sample_bytes(allocator, op, ptr, size, callstack);
    let n = allocator.len() as int;
    let count = frame_count(callstack, 0);
    let frames = callstack.take(count);
    lemma_frame_count(callstack, 0);
    lemma_le_bytes(allocator.len(), 8);
    lemma_le_bytes(ptr as nat, 8);
    lemma_le_bytes(size as nat, 8);
    lemma_frame_bytes(frames);
    assert(s.subrange(0, 8) =~= le_bytes(n as u64 as nat, 8));
    lemma_read_u64(s, 0, n as u64);
    assert(s.subrange(8, 8 + n) =~= allocator);
    assert(s.subrange(9 + n, 9 + n + 8) =~= le_bytes(ptr as nat, 8));
    lemma_read_u64(s, 9 + n, ptr);
    assert(s.subrange(17 + n, 17 + n + 8) =~= le_bytes(size as u64 as nat, 8));
    lemma_read_u64(s, 17 + n, size as u64);
    assert forall|k: int| 0 <= k < count implies le_value(
        s.subrange(26 + n + 8 * k, 34 + n + 8 * k),
    ) == #[trigger] callstack[k] by {
        let at = 26 + n + 8 * k;
        assert(frames[k] == callstack[k]);
        assert(s.subrange(at, at + 8) =~= frame_bytes(frames).subrange(8 * k, 8 * k + 8));
        lemma_read_u64(s, at, callstack[k]);
    }
}

/// The frames of a callstack are the pointers before the first null one: none of them is null, and
/// behind the last one stands a null pointer or nothing.
pub proof fn law_frames_end_before_null(callstack: Seq<u64>)
    ensures
        ({
            let n = frame_count(callstack, 0);
            &&& 0 <= n <= callstack.len()
            &&& forall|k: int| 0 <= k < n ==> #[trigger] callstack[k] != 0
            &&& n < callstack.len() ==> callstack[n] == 0
        }),
{
    lemma_frames(callstack, 0);
}

proof fn lemma_frames(callstack: Seq<u64>, i: int)
    requires
        0 <= i <= callstack.len(),
        forall|k: int| 0 <= k < i ==> #[trigger] callstack[k] != 0,
    ensures
        ({
            let n = frame_count(callstack, i);
            &&& i <= n <= callstack.len()
            &&& forall|k: int| 0 <= k < n ==> #[trigger] callstack[k] != 0
            &&& n < callstack.len() ==> callstack[n] == 0
        }),
    decreases callstack.len() - i,
{
    if i < callstack.len() && callstack[i] != 0 {
        lemma_frames(callstack, i + 1);
    }
}

/// A sample holds what was given: the name of the allocator behind its length, the operation, the
/// pointer, the size, and the frames of the callstack before its first null pointer behind their
/// number.
pub proof fn law_sample(
    allocator: &str,
    op: u8,
    ptr: u64,
    size: usize,
    callstack: &[u64; CALLSTACK_DEPTH],
    bytes: Vec<u8>,
)
    requires
        call_ensures(sample, (allocator, op, ptr, size, callstack), bytes),
        allocator.spec_bytes().len() <= u64::MAX,
    ensures
        ({
            let s = bytes@;
            let name = allocator.spec_bytes();
            let n = name.len() as int;
            &&& s.len() >= 26 + n
            &&& le_value(s.subrange(0, 8)) == n
            &&& s.subrange(8, 8 + n) == name
            &&& s[8 + n] == op
            &&& le_value(s.subrange(9 + n, 17 + n)) == ptr
            &&& le_value(s.subrange(17 + n, 25 + n)) == size
            &&& s.len() == 26 + n + 8 * s[25 + n]
            &&& s[25 + n] <= callstack@.len()
            &&& s[25 + n] < callstack@.len() ==> callstack@[s[25 + n] as int] == 0
            &&& forall|k: int|
                0 <= k < s[25 + n] ==> #[trigger] callstack@[k] != 0 && le_value(
                    s.subrange(26 + n + 8 * k, 34 + n + 8 * k),
                ) == callstack@[k]
        }),
{
    law_sample_can_be_read_back(allocator.spec_bytes(), op, ptr, size, callstack@);
    law_frames_end_before_null(callstack@);
}

} // verus!
