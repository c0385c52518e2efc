//! Chunked append-only event log with the contiguous-commit protocol.
//!
//! Writers reserve contiguous slot ranges, fill them in place, and then
//! complete them. Because writers may finish out of order, a completed range
//! whose start is not yet committed is parked as a *permit*; whenever the
//! earliest permit becomes contiguous with the committed prefix, the leading
//! run of contiguous permits is drained and the committed offset advances
//! over it. Readers see exactly the committed prefix: every index below
//! `len()` reads a filled slot, entries are never deleted, overwritten or
//! reordered, and the committed offset never decreases.
//!
//! The three phases are public so that a schedule of interleaved writers —
//! reservations and completions in any order — can be driven and checked
//! step by step; `acquire_write_inplace` runs all three for one batch.
use vstd::prelude::*;

use crate::chunk_vec::{ChunkVecRaw, ChunkedRange};

verus! {

/// A finished but not-yet-published write: its slot range awaits
/// contiguous-merge into the committed offset.
struct WriteComplete {
    offset: usize,
    size: usize,
}

/// Append-only chunked storage: concurrent-writer bookkeeping (reserved and
/// committed offsets, commit permits) over a `ChunkVecRaw`.
pub struct ConcurrentChunkVec<T> {
    inner: ChunkVecRaw<T>,
    commited_size: usize,
    size: usize,
    complete_permits: Vec<WriteComplete>,
}

/// Inserts a permit, keyed by its offset, into an offset-sorted permit list.
pub open spec fn insert_sorted(ps: Seq<(int, int)>, w: (int, int)) -> Seq<(int, int)>
    decreases ps.len(),
{
    if ps.len() > 0 && ps[0].0 < w.0 {
        seq![ps[0]] + insert_sorted(ps.drop_first(), w)
    } else {
        seq![w] + ps
    }
}

/// Where the committed offset comes to rest: starting from `c`, it advances
/// over the leading run of permits that sit exactly at the committed
/// boundary.
pub open spec fn merge_target(c: int, ps: Seq<(int, int)>) -> int
    decreases ps.len(),
{
    if ps.len() > 0 && ps[0].0 == c {
        merge_target(c + ps[0].1, ps.drop_first())
    } else {
        c
    }
}

/// The permits still outstanding once the leading contiguous run has been
/// drained.
pub open spec fn remaining_permits(c: int, ps: Seq<(int, int)>) -> Seq<(int, int)>
    decreases ps.len(),
{
    if ps.len() > 0 && ps[0].0 == c {
        remaining_permits(c + ps[0].1, ps.drop_first())
    } else {
        ps
    }
}

proof fn lemma_insert_sorted_at(ps: Seq<(int, int)>, w: (int, int), pos: int)
    requires
        0 <= pos <= ps.len(),
        forall|k: int| 0 <= k < pos ==> ps[k].0 < w.0,
        pos < ps.len() ==> ps[pos].0 >= w.0,
    ensures
        insert_sorted(ps, w) == ps.insert(pos, w),
    decreases pos,
{
    if pos == 0 {
        assert(insert_sorted(ps, w) =~= ps.insert(pos, w));
    } else {
        lemma_insert_sorted_at(ps.drop_first(), w, pos - 1);
        assert(insert_sorted(ps, w) =~= ps.insert(pos, w));
    }
}

impl<T> View for ConcurrentChunkVec<T> {
    type V = Seq<T>;

    /// The committed prefix of the log, in index order.
    closed spec fn view(&self) -> Seq<T> {
        Seq::new(self.commited_size as nat, |i: int| self.slot(i).unwrap())
    }
}

impl<T> ConcurrentChunkVec<T> {
    /// Number of committed elements.
    pub closed spec fn committed(&self) -> int {
        self.commited_size as int
    }

    /// Number of reserved slots; reservation hands out `[0, reserved)` in
    /// contiguous disjoint ranges, so this never decreases.
    pub closed spec fn reserved(&self) -> int {
        self.size as int
    }

    /// Capacity of one backing chunk.
    pub closed spec fn chunk_capacity(&self) -> int {
        self.inner.chunk_capacity()
    }

    /// Number of slots currently backed by allocated chunks.
    pub closed spec fn capacity(&self) -> int {
        self.inner.capacity()
    }

    /// The slot at logical index `i`.
    pub closed spec fn slot(&self, i: int) -> Option<T> {
        self.inner.slot(i)
    }

    /// The outstanding commit permits, as `(offset, size)` pairs sorted by
    /// offset.
    pub closed spec fn permits(&self) -> Seq<(int, int)> {
        self.complete_permits@.map_values(|w: WriteComplete| (w.offset as int, w.size as int))
    }

    /// Permit bookkeeping that holds at rest and during a merge: permits lie
    /// in `[committed, reserved)`, are non-empty, sorted and pairwise
    /// disjoint, and cover only filled slots.
    spec fn permits_ok(&self) -> bool {
        &&& forall|k: int|
            0 <= k < self.permits().len() ==> 1 <= (#[trigger] self.permits()[k]).1
                && self.committed() <= self.permits()[k].0 && self.permits()[k].0
                + self.permits()[k].1 <= self.reserved()
        &&& forall|k: int, l: int|
            0 <= k < l < self.permits().len() ==> (#[trigger] self.permits()[k]).0
                + self.permits()[k].1 <= (#[trigger] self.permits()[l]).0
        &&& forall|k: int, j: int|
            0 <= k < self.permits().len() && (#[trigger] self.permits()[k]).0 <= j
                < self.permits()[k].0 + self.permits()[k].1 ==> (#[trigger] self.slot(j)) is Some
    }

    /// Well-formedness: the backing store is sound, offsets are ordered
    /// `committed <= reserved <= capacity`, the committed prefix is fully
    /// filled, the permits are sound, and no permit sits exactly at the
    /// committed offset (such a permit is always drained at once).
    pub closed spec fn wf(&self) -> bool {
        &&& self.inner.wf()
        &&& self.committed() <= self.reserved() <= self.capacity()
        &&& forall|i: int| 0 <= i < self.committed() ==> (#[trigger] self.slot(i)) is Some
        &&& self.permits_ok()
        &&& self.permits().len() > 0 ==> self.permits()[0].0 > self.committed()
    }

    /// Creates a log whose chunks hold `inner_size` elements, rounded up to
    /// a power of two. One chunk is allocated up front.
    pub fn new(inner_size: usize) -> (r: Self)
        requires
            1 <= inner_size <= 0x1000_0000,
        ensures
            r.wf(),
            r@ == Seq::<T>::empty(),
            r.committed() == 0,
            r.reserved() == 0,
            r.permits() == Seq::<(int, int)>::empty(),
            inner_size <= r.chunk_capacity() < 2 * inner_size,
            r.capacity() == r.chunk_capacity(),
    {
        let r = ConcurrentChunkVec {
            inner: ChunkVecRaw::new(inner_size),
            commited_size: 0,
            size: 0,
            complete_permits: Vec::new(),
        };
        proof {
            assert(r@ =~= Seq::<T>::empty());
            assert(r.permits() =~= Seq::<(int, int)>::empty());
        }
        r
    }

    /// Reservation phase: hands out the next `count` slots as the contiguous
    /// range `[r, r + count)` and grows the backing chunks to cover it.
    /// Successive reservations start exactly where the previous one ended,
    /// so all handed-out ranges are disjoint and their union is
    /// `[0, reserved)`.
    pub fn reserve(&mut self, count: usize) -> (r: usize)
        requires
            old(self).wf(),
            1 <= count <= old(self).chunk_capacity(),
            old(self).reserved() + count + old(self).chunk_capacity() <= usize::MAX,
        ensures
            final(self).wf(),
            r == old(self).reserved(),
            final(self).reserved() == old(self).reserved() + count,
            final(self).committed() == old(self).committed(),
            final(self).permits() == old(self).permits(),
            final(self).chunk_capacity() == old(self).chunk_capacity(),
            final(self).capacity() >= final(self).reserved(),
            forall|i: int|
                0 <= i < old(self).capacity() ==> final(self).slot(i) == old(self).slot(i),
            final(self)@ == old(self)@,
    {
        let offset = self.size;
        self.size = self.size + count;
        self.inner.resize_if_necessary(offset, count);
        proof {
            assert(self@ =~= old(self)@);
            assert forall|i: int| 0 <= i < self.committed() implies (#[trigger] self.slot(
                i,
            )) is Some by {
                assert(old(self).slot(i) is Some);
            }
            assert forall|k: int, j: int|
                0 <= k < self.permits().len() && (#[trigger] self.permits()[k]).0 <= j
                    < self.permits()[k].0 + self.permits()[k].1 implies (#[trigger] self.slot(
                j,
            )) is Some by {
                assert(old(self).permits()[k] == self.permits()[k]);
                assert(old(self).slot(j) is Some);
            }
        }
        offset
    }

    /// Fill phase: writes one slot of a reserved range. The slot must not be
    /// committed yet and must not belong to an already-completed range, so
    /// nothing a reader can see is ever overwritten.
    pub fn fill_slot(&mut self, index: usize, value: T)
        requires
            old(self).wf(),
            old(self).committed() <= index < old(self).reserved(),
            forall|k: int|
                0 <= k < old(self).permits().len() ==> !((#[trigger] old(self).permits()[k]).0
                    <= index < old(self).permits()[k].0 + old(self).permits()[k].1),
        ensures
            final(self).wf(),
            final(self).committed() == old(self).committed(),
            final(self).reserved() == old(self).reserved(),
            final(self).permits() == old(self).permits(),
            final(self).chunk_capacity() == old(self).chunk_capacity(),
            final(self).capacity() == old(self).capacity(),
            final(self).slot(index as int) == Some(value),
            forall|i: int|
                0 <= i < final(self).capacity() && i != index ==> final(self).slot(i) == old(
                    self,
                ).slot(i),
            final(self)@ == old(self)@,
    {
        self.inner.set_slot(index, value);
        proof {
            assert forall|i: int| 0 <= i < self.committed() implies (#[trigger] self.slot(
                i,
            )) is Some by {
                assert(self.slot(i) == old(self).slot(i));
                assert(old(self).slot(i) is Some);
            }
            assert forall|k: int, j: int|
                0 <= k < self.permits().len() && (#[trigger] self.permits()[k]).0 <= j
                    < self.permits()[k].0 + self.permits()[k].1 implies (#[trigger] self.slot(
                j,
            )) is Some by {
                assert(old(self).permits()[k] == self.permits()[k]);
                assert(j != index);
                assert(self.slot(j) == old(self).slot(j));
                assert(old(self).slot(j) is Some);
            }
            assert(self@ =~= old(self)@);
        }
    }

    /// Completion phase: publishes the filled range `[offset, offset+size)`.
    /// The range is parked as a permit at its sorted position; the committed
    /// offset then advances over the leading run of contiguous permits, so
    /// it rests exactly at `merge_target` of the new permit list. The
    /// already-committed prefix is never touched: the old view stays a
    /// prefix of the new one and the committed offset never decreases.
    pub fn complete(&mut self, offset: usize, size: usize)
        requires
            old(self).wf(),
            1 <= size,
            old(self).committed() <= offset,
            offset + size <= old(self).reserved(),
            forall|j: int| offset <= j < offset + size ==> (#[trigger] old(self).slot(j)) is Some,
            forall|k: int|
                0 <= k < old(self).permits().len() ==> offset + size <= (#[trigger] old(
                    self,
                ).permits()[k]).0 || old(self).permits()[k].0 + old(self).permits()[k].1 <= offset,
        ensures
            final(self).wf(),
            final(self).reserved() == old(self).reserved(),
            final(self).chunk_capacity() == old(self).chunk_capacity(),
            final(self).capacity() == old(self).capacity(),
            forall|i: int|
                0 <= i < final(self).capacity() ==> final(self).slot(i) == old(self).slot(i),
            final(self).committed() == merge_target(
                old(self).committed(),
                insert_sorted(old(self).permits(), (offset as int, size as int)),
            ),
            final(self).permits() == remaining_permits(
                old(self).committed(),
                insert_sorted(old(self).permits(), (offset as int, size as int)),
            ),
            old(self).committed() <= final(self).committed(),
            old(self)@.is_prefix_of(final(self)@),
    {
        let ghost pre = *old(self);
        let ghost wpair = (offset as int, size as int);

        // Park the permit at its sorted position.
        let mut pos: usize = 0;
        while pos < self.complete_permits.len() && self.complete_permits[pos].offset < offset
            invariant
                *self == pre,
                pos <= self.complete_permits@.len(),
                forall|k: int| 0 <= k < pos ==> (#[trigger] self.permits()[k]).0 < offset,
            decreases self.complete_permits@.len() - pos,
        {
            pos = pos + 1;
        }
        proof {
            lemma_insert_sorted_at(pre.permits(), wpair, pos as int);
        }
        self.complete_permits.insert(pos, WriteComplete { offset, size });
        let ghost inserted = insert_sorted(pre.permits(), wpair);
        proof {
            assert(self.permits() =~= pre.permits().insert(pos as int, wpair));
            assert(self.permits() == inserted);
            assert forall|k: int|
                0 <= k < self.permits().len() implies 1 <= (#[trigger] self.permits()[k]).1
                && self.committed() <= self.permits()[k].0 && self.permits()[k].0
                + self.permits()[k].1 <= self.reserved() by {
                if k < pos {
                    assert(self.permits()[k] == pre.permits()[k]);
                } else if k > pos {
                    assert(self.permits()[k] == pre.permits()[k - 1]);
                }
            }
            assert forall|k: int, l: int|
                0 <= k < l < self.permits().len() implies (#[trigger] self.permits()[k]).0
                + self.permits()[k].1 <= (#[trigger] self.permits()[l]).0 by {
                if l < pos {
                } else if k >= pos + 1 {
                    assert(self.permits()[k] == pre.permits()[k - 1]);
                    assert(self.permits()[l] == pre.permits()[l - 1]);
                } else if k < pos && l == pos {
                    assert(self.permits()[k] == pre.permits()[k]);
                    assert(pre.permits()[k].0 < offset);
                } else if k < pos && l > pos {
                    assert(self.permits()[k] == pre.permits()[k]);
                    assert(self.permits()[l] == pre.permits()[l - 1]);
                } else if k == pos && l > pos {
                    assert(self.permits()[l] == pre.permits()[l - 1]);
                    assert(pre.permits()[l - 1].0 >= offset);
                    assert(offset + size <= pre.permits()[l - 1].0 || pre.permits()[l - 1].0
                        + pre.permits()[l - 1].1 <= offset);
                }
            }
            assert forall|k: int, j: int|
                0 <= k < self.permits().len() && (#[trigger] self.permits()[k]).0 <= j
                    < self.permits()[k].0 + self.permits()[k].1 implies (#[trigger] self.slot(
                j,
            )) is Some by {
                if k < pos {
                    assert(self.permits()[k] == pre.permits()[k]);
                    assert(pre.slot(j) is Some);
                } else if k > pos {
                    assert(self.permits()[k] == pre.permits()[k - 1]);
                    assert(pre.slot(j) is Some);
                } else {
                    assert(pre.slot(j) is Some);
                }
                assert(self.slot(j) == pre.slot(j));
            }
            assert forall|i: int| 0 <= i < self.committed() implies (#[trigger] self.slot(
                i,
            )) is Some by {
                assert(pre.slot(i) is Some);
                assert(self.slot(i) == pre.slot(i));
            }
        }

        // Drain the leading run of contiguous permits.
        while self.complete_permits.len() > 0 && self.complete_permits[0].offset
            == self.commited_size
            invariant
                self.inner == pre.inner,
                self.size == pre.size,
                pre.committed() <= self.committed() <= self.reserved(),
                self.permits_ok(),
                forall|i: int| 0 <= i < self.committed() ==> (#[trigger] self.slot(i)) is Some,
                merge_target(pre.committed(), inserted) == merge_target(
                    self.committed(),
                    self.permits(),
                ),
                remaining_permits(pre.committed(), inserted) == remaining_permits(
                    self.committed(),
                    self.permits(),
                ),
            decreases self.complete_permits@.len(),
        {
            let ghost iter_pre = *self;
            let w = self.complete_permits.remove(0);
            proof {
                assert(self.permits() =~= iter_pre.permits().drop_first());
                assert(iter_pre.permits()[0] == (w.offset as int, w.size as int));
                assert(forall|k: int|
                    0 <= k < self.permits().len() ==> #[trigger] self.permits()[k]
                        == iter_pre.permits()[k + 1]);
            }
            self.commited_size = self.commited_size + w.size;
            proof {
                assert(merge_target(iter_pre.committed(), iter_pre.permits()) == merge_target(
                    self.committed(),
                    self.permits(),
                ));
                assert(remaining_permits(iter_pre.committed(), iter_pre.permits())
                    == remaining_permits(self.committed(), self.permits()));
                assert forall|k: int, j: int|
                    0 <= k < self.permits().len() && (#[trigger] self.permits()[k]).0 <= j
                        < self.permits()[k].0 + self.permits()[k].1 implies (
                #[trigger] self.slot(j)) is Some by {
                    assert(self.permits()[k] == iter_pre.permits()[k + 1]);
                    assert(iter_pre.slot(j) is Some);
                }
                assert forall|i: int| 0 <= i < self.committed() implies (#[trigger] self.slot(
                    i,
                )) is Some by {
                    if i < iter_pre.committed() {
                        assert(iter_pre.slot(i) is Some);
                    } else {
                        assert(iter_pre.permits()[0].0 <= i < iter_pre.permits()[0].0
                            + iter_pre.permits()[0].1);
                        assert(iter_pre.slot(i) is Some);
                    }
                }
            }
        }
        proof {
            assert(merge_target(self.committed(), self.permits()) == self.committed());
            assert(remaining_permits(self.committed(), self.permits()) == self.permits());
            if self.permits().len() > 0 {
                assert(self.permits()[0].0 != self.committed());
            }
            assert(pre@.is_prefix_of(self@)) by {
                assert(pre@ =~= self@.subrange(0, pre.committed()));
            }
        }
    }

    /// Publishes one whole batch: reserves `values.len()` slots, fills them
    /// in place, and completes the range. Returns `false`, changing nothing,
    /// only when the batch is larger than one chunk. When no other writer
    /// has a reservation open (`committed == reserved`), the batch becomes
    /// visible at once and the log's contents are exactly the old contents
    /// followed by the batch.
    pub fn acquire_write_inplace(&mut self, values: Vec<T>) -> (r: bool)
        requires
            old(self).wf(),
            old(self).reserved() + values@.len() + old(self).chunk_capacity() <= usize::MAX,
        ensures
            r == (values@.len() <= old(self).chunk_capacity()),
            final(self).wf(),
            final(self).chunk_capacity() == old(self).chunk_capacity(),
            !r ==> *final(self) == *old(self),
            values@.len() == 0 ==> *final(self) == *old(self),
            r && values@.len() > 0 ==> {
                &&& final(self).reserved() == old(self).reserved() + values@.len()
                &&& forall|j: int|
                    0 <= j < values@.len() ==> final(self).slot(old(self).reserved() + j) == Some(
                        values@[j],
                    )
                &&& final(self).committed() == merge_target(
                    old(self).committed(),
                    insert_sorted(
                        old(self).permits(),
                        (old(self).reserved(), values@.len() as int),
                    ),
                )
            },
            old(self).committed() <= final(self).committed(),
            old(self)@.is_prefix_of(final(self)@),
            r && old(self).committed() == old(self).reserved() ==> final(self)@ == old(self)@
                + values@ && final(self).committed() == old(self).committed() + values@.len()
                && final(self).reserved() == old(self).reserved() + values@.len(),
    {
        let mut vals = values;
        let n = vals.len();
        if n > self.inner.default_size() {
            return false;
        }
        if n == 0 {
            proof {
                assert(self@ + vals@ =~= self@);
            }
            return true;
        }
        let offset = self.reserve(n);
        let ghost mid = *self;
        let mut j: usize = n;
        while j > 0
            invariant
                self.wf(),
                j <= n,
                n == values@.len(),
                self.committed() == mid.committed(),
                self.reserved() == mid.reserved(),
                self.permits() == mid.permits(),
                self.chunk_capacity() == mid.chunk_capacity(),
                self.capacity() == mid.capacity(),
                self@ == mid@,
                offset == mid.reserved() - n,
                n <= mid.reserved(),
                mid.reserved() <= mid.capacity(),
                mid.committed() <= offset,
                forall|k: int|
                    0 <= k < mid.permits().len() ==> (#[trigger] mid.permits()[k]).0
                        + mid.permits()[k].1 <= offset,
                vals@.len() == j,
                vals@ == values@.subrange(0, j as int),
                forall|i: int|
                    0 <= i < self.capacity() && !(offset + j <= i < offset + n) ==> self.slot(i)
                        == mid.slot(i),
                forall|i: int|
                    offset + j <= i < offset + n ==> self.slot(i) == Some(
                        values@[i - offset as int],
                    ),
            decreases j,
        {
            j = j - 1;
            let value = match vals.pop() {
                Some(v) => v,
                None => unreached(),
            };
            proof {
                assert(vals@ =~= values@.subrange(0, j as int));
                assert(value == values@[j as int]);
            }
            self.fill_slot(offset + j, value);
        }
        self.complete(offset, n);
        proof {
            if old(self).committed() == old(self).reserved() {
                let pre = *old(self);
                if pre.permits().len() > 0 {
                    assert(1 <= pre.permits()[0].1 && pre.committed() <= pre.permits()[0].0
                        && pre.permits()[0].0 + pre.permits()[0].1 <= pre.reserved());
                }
                assert(pre.permits() =~= Seq::<(int, int)>::empty());
                let ins = insert_sorted(pre.permits(), (offset as int, n as int));
                assert(ins =~= seq![(offset as int, n as int)]);
                assert(ins.drop_first() =~= Seq::<(int, int)>::empty());
                assert(merge_target(pre.committed() + n, ins.drop_first()) == pre.committed()
                    + n);
                assert(merge_target(pre.committed(), ins) == pre.committed() + n);
                assert(self@ =~= pre@ + values@);
            }
        }
        true
    }

    /// Reads committed entry `index`: `Some` exactly when `index` is below
    /// the committed length, and then always the value the slot was filled
    /// with.
    pub fn get(&self, index: usize) -> (r: Option<&T>)
        requires
            self.wf(),
        ensures
            match r {
                Some(value) => index < self@.len() && *value == self@[index as int],
                None => index >= self@.len(),
            },
    {
        if index >= self.len() {
            return None;
        }
        proof {
            assert(self.slot(index as int) is Some);
        }
        match self.inner.get(index) {
            Some(value) => Some(value),
            None => unreached(),
        }
    }

    /// The committed length: how many entries readers can see.
    pub fn len(&self) -> (r: usize)
        requires
            self.wf(),
        ensures
            r == self@.len(),
    {
        self.commited_size
    }

    /// A read-only window onto the committed entries
    /// `[range.start, range.end)`.
    pub fn get_range<'a>(&'a self, range: core::ops::Range<usize>) -> (r: ConcurrentChunkVecRange<
        'a,
        T,
    >)
        requires
            self.wf(),
            range.start <= range.end,
            range.end <= self@.len(),
        ensures
            r.wf(),
            r.len_spec() == range.end - range.start,
            forall|k: int|
                0 <= k < r.len_spec() ==> #[trigger] r.element(k) == self@[range.start + k],
    {
        proof {
            assert forall|i: int|
                range.start <= i < range.end implies self.inner.slot(i) is Some by {
                assert(self.slot(i) is Some);
            }
        }
        ConcurrentChunkVecRange(self.inner.get_range(range))
    }
}

/// A read-only window onto a committed range of a `ConcurrentChunkVec`.
pub struct ConcurrentChunkVecRange<'a, T>(ChunkedRange<'a, T>);

impl<'a, T> ConcurrentChunkVecRange<'a, T> {
    /// The window covers only filled slots of a sound store.
    pub closed spec fn wf(&self) -> bool {
        self.0.wf()
    }

    /// Number of entries in the window.
    pub closed spec fn len_spec(&self) -> int {
        self.0.len_spec()
    }

    /// The `k`-th entry of the window.
    pub closed spec fn element(&self, k: int) -> T {
        self.0.element(k)
    }

    /// Number of entries in the window.
    pub fn len(&self) -> (r: usize)
        ensures
            r == self.len_spec(),
    {
        self.0.len()
    }

    /// Reads the `k`-th entry of the window.
    pub fn get(&self, k: usize) -> (r: &T)
        requires
            self.wf(),
            k < self.len_spec(),
        ensures
            *r == self.element(k as int),
    {
        self.0.get(k)
    }
}

/// Reservation never trails publication: in any sound log the committed
/// offset is at most the reserved one, and the view holds exactly the
/// committed entries.
pub proof fn lemma_committed_within_reserved<T>(log: ConcurrentChunkVec<T>)
    requires
        log.wf(),
    ensures
        log.committed() <= log.reserved(),
        log@.len() == log.committed(),
{
}

/// Append-only visibility: once an index is committed, any later log state
/// whose view extends the current one returns the same value for it; `get`
/// can never change its answer for a committed index.
pub proof fn lemma_append_only_visibility<T>(earlier: Seq<T>, later: Seq<T>, i: int)
    requires
        earlier.is_prefix_of(later),
        0 <= i < earlier.len(),
    ensures
        later[i] == earlier[i],
{
}

/// Sum of the first `k` reservation counts: the offset at which the `k`-th
/// reservation starts.
pub open spec fn reservation_offset(counts: Seq<int>, k: int) -> int
    decreases k,
{
    if k <= 0 {
        0
    } else {
        reservation_offset(counts, k - 1) + counts[k - 1]
    }
}

/// Reservation ordering: reservations of `counts[0]`, `counts[1]`, ... slots
/// in turn produce contiguous ranges `[offset_k, offset_k + counts[k])` that
/// are pairwise disjoint and whose union is exactly `[0, reserved)`.
pub proof fn lemma_reservation_partition(counts: Seq<int>, a: int, b: int)
    requires
        forall|k: int| 0 <= k < counts.len() ==> #[trigger] counts[k] >= 0,
        0 <= a <= b <= counts.len(),
    ensures
        reservation_offset(counts, a) + counts_total(counts, a, b) == reservation_offset(
            counts,
            b,
        ),
        a < b ==> reservation_offset(counts, a) + counts[a] <= reservation_offset(counts, b),
        0 <= reservation_offset(counts, a),
    decreases b - a,
{
    if a == b {
        lemma_reservation_offset_nonneg(counts, a);
    } else {
        lemma_reservation_partition(counts, a + 1, b);
        lemma_reservation_offset_nonneg(counts, a);
        lemma_counts_total_nonneg(counts, a + 1, b);
    }
}

/// Total of `counts[a..b)`.
pub open spec fn counts_total(counts: Seq<int>, a: int, b: int) -> int
    decreases b - a,
{
    if a >= b {
        0
    } else {
        counts[a] + counts_total(counts, a + 1, b)
    }
}

proof fn lemma_counts_total_nonneg(counts: Seq<int>, a: int, b: int)
    requires
        forall|k: int| 0 <= k < counts.len() ==> #[trigger] counts[k] >= 0,
        0 <= a <= b <= counts.len(),
    ensures
        counts_total(counts, a, b) >= 0,
    decreases b - a,
{
    if a < b {
        lemma_counts_total_nonneg(counts, a + 1, b);
    }
}

proof fn lemma_reservation_offset_nonneg(counts: Seq<int>, k: int)
    requires
        forall|j: int| 0 <= j < counts.len() ==> #[trigger] counts[j] >= 0,
        0 <= k <= counts.len(),
    ensures
        reservation_offset(counts, k) >= 0,
    decreases k,
{
    if k > 0 {
        lemma_reservation_offset_nonneg(counts, k - 1);
    }
}

} // verus!
