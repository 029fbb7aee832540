//! Services outside this library, and the history of what was asked of them.
//!
//! The library cannot know what a file system or a device answers. It can say what it asks, in
//! which order, and what it makes of the answers. For that, the trait of a service has a ghost
//! history, to which every method adds its call with the reply, and nothing else can add to it. A
//! contract then reads: *for every stream of replies that begins as the history does, the
//! operation is this function of the stream*.

use vstd::prelude::*;

verus! {

/// A stream of replies: `w(i)` is the reply to the call number `i`.
pub type World<R> = spec_fn(int) -> R;

/// The replies in `log` are the first ones of the stream `w`.
pub open spec fn heard<C, R>(log: Seq<(C, R)>, w: World<R>) -> bool {
    forall|i: int| 0 <= i < log.len() ==> #[trigger] w(i) == log[i].1
}

/// The log after `call`, when the stream `w` answers it.
pub open spec fn asked<C, R>(log: Seq<(C, R)>, w: World<R>, call: C) -> Seq<(C, R)> {
    log.push((call, w(log.len() as int)))
}

/// The stream that answers as `log` does.
pub open spec fn replies_of<C, R>(log: Seq<(C, R)>) -> World<R> {
    |i: int| log[i].1
}

/// What a call and its reply do to the log.
pub proof fn lemma_asked<C, R>(old: Seq<(C, R)>, new: Seq<(C, R)>, call: C, reply: R)
    requires
        new == old.push((call, reply)),
    ensures
        old.is_prefix_of(new),
        forall|w: World<R>| #[trigger]
            heard(new, w) ==> asked(old, w, call) == new && w(old.len() as int) == reply,
{
    assert(old =~= new.subrange(0, old.len() as int));
    assert forall|w: World<R>| #[trigger] heard(new, w) implies asked(old, w, call) == new && w(
        old.len() as int,
    ) == reply by {
        assert(w(old.len() as int) == new[old.len() as int].1);
    }
}

/// A stream that begins as a log does begins as every earlier log did.
pub broadcast proof fn lemma_heard_before<C, R>(a: Seq<(C, R)>, b: Seq<(C, R)>, w: World<R>)
    requires
        #[trigger] a.is_prefix_of(b),
        #[trigger] heard(b, w),
    ensures
        heard(a, w),
{
    assert forall|i: int| 0 <= i < a.len() implies #[trigger] w(i) == a[i].1 by {
        assert(a[i] == b.subrange(0, a.len() as int)[i]);
    }
}

/// The beginning of the beginning of a log is a beginning of that log.
pub proof fn lemma_prefix<C, R>(a: Seq<(C, R)>, b: Seq<(C, R)>, c: Seq<(C, R)>)
    requires
        a.is_prefix_of(b),
        b.is_prefix_of(c),
    ensures
        a.is_prefix_of(c),
{
    assert forall|i: int| 0 <= i < a.len() implies a[i] == c.subrange(0, a.len() as int)[i] by {
        assert(a[i] == b.subrange(0, a.len() as int)[i]);
        assert(b[i] == c.subrange(0, b.len() as int)[i]);
    }
    assert(a =~= c.subrange(0, a.len() as int));
}

} // verus!
