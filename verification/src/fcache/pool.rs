//! The pool of the files cache: slots that hold files, and the list of those that are free.

use crate::errno::EResult;
use crate::fcache::file::{file_path_of, FileView};
use crate::file_path::{joined, root_path, FilePathView};
use vstd::prelude::*;

verus! {

/// The size of the files pool.
pub const FILES_POOL_SIZE: usize = 1024;

/// The slots of the pool: a free one, or a file with the path it was loaded from.
pub type Pool = Seq<Option<(FilePathView, FileView)>>;

/// The files cache, in contracts.
#[verifier::ext_equal]
pub struct CacheView {
    /// The slots.
    pub pool: Pool,
    /// The free slots.
    pub free: Seq<usize>,
}

impl CacheView {
    /// The invariant of the cache: the list of free slots holds those that are free, each once,
    /// and no two slots hold a file for the same path.
    pub open spec fn wf(self) -> bool {
        &&& self.pool.len() == FILES_POOL_SIZE
        &&& forall|k: int|
            0 <= k < self.free.len() ==> (#[trigger] self.free[k]) < FILES_POOL_SIZE
                && self.pool[self.free[k] as int] is None
        &&& self.free.no_duplicates()
        &&& forall|i: int|
            0 <= i < self.pool.len() && (#[trigger] self.pool[i]) is None ==> self.free.contains(
                i as usize,
            )
        &&& forall|i: int, j: int|
            0 <= i < j < self.pool.len() && (#[trigger] self.pool[i]) is Some && (
            #[trigger] self.pool[j]) is Some ==> (self.pool[i]->0).0 != (self.pool[j]->0).0
    }

    /// The cache holds the file `file` for the path `path`.
    pub open spec fn holds(self, path: FilePathView, file: FileView) -> bool {
        self.pool.contains(Some((path, file)))
    }
}

/// The cache without any file: all the slots are free.
pub open spec fn empty_cache() -> CacheView {
    CacheView {
        pool: Seq::new(FILES_POOL_SIZE as nat, |i: int| None),
        free: Seq::new(FILES_POOL_SIZE as nat, |k: int| (FILES_POOL_SIZE - 1 - k) as usize),
    }
}

/// The first slot from `i` on that holds the file at `path`; the number of slots if there is none.
pub open spec fn slot_of(pool: Pool, path: FilePathView, i: int) -> int
    decreases pool.len() - i,
{
    if i >= pool.len() {
        pool.len() as int
    } else if pool[i] matches Some((p, _)) && p == path {
        i
    } else {
        slot_of(pool, path, i + 1)
    }
}

/// The cache with the file at `path`. It takes the slot of what was loaded for this path before,
/// else a free one, else the last one. A file in the pool is as it was loaded, so nothing is lost
/// with the one that leaves.
pub open spec fn stored(cache: CacheView, path: FilePathView, file: FileView) -> CacheView {
    let i = slot_of(cache.pool, path, 0);
    if i < cache.pool.len() {
        CacheView { pool: cache.pool.update(i, Some((path, file))), ..cache }
    } else if cache.free.len() > 0 {
        CacheView {
            pool: cache.pool.update(cache.free.last() as int, Some((path, file))),
            free: cache.free.drop_last(),
        }
    } else {
        CacheView { pool: cache.pool.update(FILES_POOL_SIZE - 1, Some((path, file))), ..cache }
    }
}

/// The absolute path of a file.
pub open spec fn own_path(file: FileView) -> FilePathView {
    joined(root_path(), file_path_of(file))
}

/// The slot holds the file `file` under any path, or anything under the path of `file`.
pub open spec fn concerns(slot: Option<(FilePathView, FileView)>, file: FileView) -> bool {
    slot matches Some((p, f)) && (p == own_path(file) || own_path(f) == own_path(file) || f.location
        == file.location)
}

/// The slots before `n` that concern the file `file`, in order.
pub open spec fn freed(pool: Pool, file: FileView, n: int) -> Seq<usize>
    decreases n,
{
    if n <= 0 {
        Seq::empty()
    } else if concerns(pool[n - 1], file) {
        freed(pool, file, n - 1).push((n - 1) as usize)
    } else {
        freed(pool, file, n - 1)
    }
}

/// The cache without the file `file`: the slots that concern it are free.
pub open spec fn forgotten(cache: CacheView, file: FileView) -> CacheView {
    CacheView {
        pool: Seq::new(
            cache.pool.len(),
            |i: int| if concerns(cache.pool[i], file) {
                None
            } else {
                cache.pool[i]
            },
        ),
        free: cache.free + freed(cache.pool, file, cache.pool.len() as int),
    }
}

/// The cache after the file at `path` was looked up: it holds what was found, under the absolute
/// path.
pub open spec fn after_lookup(
    cache: CacheView,
    path: FilePathView,
    found: EResult<FileView>,
) -> CacheView {
    match found {
        Ok(file) => stored(cache, joined(root_path(), path), file),
        Err(_) => cache,
    }
}

/// The slot of a path is the first one that holds it.
pub proof fn lemma_slot(pool: Pool, path: FilePathView, i: int)
    requires
        0 <= i <= pool.len(),
    ensures
        i <= slot_of(pool, path, i) <= pool.len(),
        slot_of(pool, path, i) < pool.len() ==> (pool[slot_of(pool, path, i)] matches Some((p, _))
            && p == path),
        forall|j: int|
            i <= j < slot_of(pool, path, i) ==> !(#[trigger] pool[j] matches Some((p, _)) && p
                == path),
    decreases pool.len() - i,
{
    if i < pool.len() && !(pool[i] matches Some((p, _)) && p == path) {
        lemma_slot(pool, path, i + 1);
    }
}

/// The cache without any file satisfies the invariant.
pub proof fn lemma_empty_cache()
    ensures
        empty_cache().wf(),
{
    let c = empty_cache();
    assert forall|i: int|
        0 <= i < c.pool.len() && (#[trigger] c.pool[i]) is None implies c.free.contains(
        i as usize,
    ) by {
        assert(c.free[FILES_POOL_SIZE - 1 - i] == i);
    }
}

/// Storing a file keeps the invariant.
pub proof fn lemma_stored(cache: CacheView, path: FilePathView, file: FileView)
    requires
        cache.wf(),
    ensures
        stored(cache, path, file).wf(),
        stored(cache, path, file).holds(path, file),
{
    let i = slot_of(cache.pool, path, 0);
    let after = stored(cache, path, file);
    lemma_slot(cache.pool, path, 0);
    if i < cache.pool.len() {
        assert(after.pool[i] == Some((path, file)));
    } else if cache.free.len() > 0 {
        let last = cache.free.last();
        assert(cache.free[cache.free.len() - 1] == last);
        assert(after.pool[last as int] == Some((path, file)));
        assert forall|j: int|
            0 <= j < after.pool.len() && (#[trigger] after.pool[j]) is None implies after.free.contains(
            j as usize,
        ) by {
            assert(cache.pool[j] is None);
            let k = choose|k: int| 0 <= k < cache.free.len() && cache.free[k] == j as usize;
            assert(after.free[k] == j as usize);
        }
    } else {
        assert(after.pool[FILES_POOL_SIZE - 1] == Some((path, file)));
        assert forall|j: int| 0 <= j < after.pool.len() implies (#[trigger] after.pool[j]) is Some by {
            if cache.pool[j] is None {
                assert(cache.free.contains(j as usize));
            }
        }
    }
}

/// The freed slots are those that concern the file, each once.
pub proof fn lemma_freed(pool: Pool, file: FileView, n: int)
    requires
        0 <= n <= pool.len() <= FILES_POOL_SIZE,
    ensures
        forall|k: int|
            0 <= k < freed(pool, file, n).len() ==> (#[trigger] freed(pool, file, n)[k]) < n
                && concerns(pool[freed(pool, file, n)[k] as int], file),
        freed(pool, file, n).no_duplicates(),
        forall|i: int|
            0 <= i < n && concerns(#[trigger] pool[i], file) ==> freed(pool, file, n).contains(
                i as usize,
            ),
    decreases n,
{
    if n > 0 {
        lemma_freed(pool, file, n - 1);
        let before = freed(pool, file, n - 1);
        let all = freed(pool, file, n);
        assert forall|i: int|
            0 <= i < n && concerns(#[trigger] pool[i], file) implies all.contains(i as usize) by {
            if i == n - 1 {
                assert(all[before.len() as int] == i as usize);
            } else {
                let k = choose|k: int| 0 <= k < before.len() && before[k] == i as usize;
                assert(all[k] == i as usize);
            }
        }
    }
}

/// Forgetting a file keeps the invariant, and leaves nothing that concerns the file.
pub proof fn lemma_forgotten(cache: CacheView, file: FileView)
    requires
        cache.wf(),
    ensures
        forgotten(cache, file).wf(),
        forall|p: FilePathView, f: FileView| #[trigger]
            forgotten(cache, file).holds(p, f) <==> cache.holds(p, f) && !concerns(
                Some((p, f)),
                file,
            ),
{
    let after = forgotten(cache, file);
    let n = cache.pool.len() as int;
    let more = freed(cache.pool, file, n);
    lemma_freed(cache.pool, file, n);
    assert forall|k: int| 0 <= k < after.free.len() implies (#[trigger] after.free[k])
        < FILES_POOL_SIZE && after.pool[after.free[k] as int] is None by {
        if k < cache.free.len() {
            assert(after.free[k] == cache.free[k]);
        } else {
            assert(after.free[k] == more[k - cache.free.len()]);
        }
    }
    assert(after.free.no_duplicates()) by {
        assert forall|j: int, k: int| 0 <= j < after.free.len() && 0 <= k < after.free.len() && j
            != k implies after.free[j] != after.free[k] by {
            assert(j < cache.free.len() ==> after.free[j] == cache.free[j]);
            assert(k < cache.free.len() ==> after.free[k] == cache.free[k]);
            assert(j >= cache.free.len() ==> after.free[j] == more[j - cache.free.len()]);
            assert(k >= cache.free.len() ==> after.free[k] == more[k - cache.free.len()]);
        }
    }
    assert forall|i: int|
        0 <= i < after.pool.len() && (#[trigger] after.pool[i]) is None implies after.free.contains(
        i as usize,
    ) by {
        if cache.pool[i] is None {
            let k = choose|k: int| 0 <= k < cache.free.len() && cache.free[k] == i as usize;
            assert(after.free[k] == i as usize);
        } else {
            assert(concerns(cache.pool[i], file));
            let k = choose|k: int| 0 <= k < more.len() && more[k] == i as usize;
            assert(after.free[cache.free.len() + k] == i as usize);
        }
    }
    assert forall|p: FilePathView, f: FileView| #[trigger]
        after.holds(p, f) <==> cache.holds(p, f) && !concerns(Some((p, f)), file) by {
        if after.holds(p, f) {
            let i = choose|i: int| 0 <= i < after.pool.len() && after.pool[i] == Some((p, f));
            assert(cache.pool[i] == Some((p, f)));
        }
        if cache.holds(p, f) && !concerns(Some((p, f)), file) {
            let i = choose|i: int| 0 <= i < cache.pool.len() && cache.pool[i] == Some((p, f));
            assert(after.pool[i] == Some((p, f)));
        }
    }
}

} // verus!
