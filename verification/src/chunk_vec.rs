//! Raw chunked slot storage.
//!
//! A `ChunkVecRaw<T>` is a growing array of fixed-size chunks. Each logical
//! slot is either empty or filled; an element at logical index `i` lives in
//! chunk `i / C` at offset `i % C`, where `C`, the chunk capacity, is a power
//! of two. Chunks, once allocated, are never freed or moved, so an index
//! keeps naming the same slot for the storage's lifetime. Writers fill slots
//! one by one; the committed/reserved bookkeeping that makes filled slots
//! visible to readers lives one layer up, in the event log.
use vstd::prelude::*;

use vstd::arithmetic::div_mod::{
    lemma_fundamental_div_mod, lemma_remainder_lower, lemma_remainder_upper,
};

verus! {

/// True iff `n` is a power of two.
pub open spec fn is_power_of_two(n: int) -> bool
    decreases n,
{
    if n <= 0 {
        false
    } else if n == 1 {
        true
    } else {
        n % 2 == 0 && is_power_of_two(n / 2)
    }
}

/// Chunked slot storage: `containers[c][o]` holds logical slot
/// `c * default_size + o`, `None` while unfilled.
pub struct ChunkVecRaw<T> {
    default_size: usize,
    containers: Vec<Vec<Option<T>>>,
}

impl<T> ChunkVecRaw<T> {
    /// Capacity of each chunk.
    pub closed spec fn chunk_capacity(&self) -> int {
        self.default_size as int
    }

    /// Total number of slots currently backed by an allocated chunk.
    pub closed spec fn capacity(&self) -> int {
        self.containers@.len() * self.default_size
    }

    /// The slot at logical index `i`.
    pub closed spec fn slot(&self, i: int) -> Option<T> {
        self.containers@[i / self.default_size as int]@[i % self.default_size as int]
    }

    /// Structural invariant: the chunk capacity is a positive power of two,
    /// every chunk has exactly that many slots, and the whole capacity fits
    /// in a `usize`.
    pub closed spec fn wf(&self) -> bool {
        &&& is_power_of_two(self.default_size as int)
        &&& forall|c: int|
            0 <= c < self.containers@.len() ==> (#[trigger] self.containers@[c])@.len()
                == self.default_size
        &&& self.capacity() <= usize::MAX
    }

    /// Index arithmetic: a logical index below the capacity names a valid
    /// chunk and a valid offset within it, and is recovered from them.
    proof fn lemma_index_math(&self, i: int)
        requires
            self.wf(),
            0 <= i < self.capacity(),
        ensures
            0 <= i / self.chunk_capacity() < self.containers@.len(),
            0 <= i % self.chunk_capacity() < self.chunk_capacity(),
            i == (i / self.chunk_capacity()) * self.chunk_capacity() + i % self.chunk_capacity(),
    {
        let c = self.default_size as int;
        let n = self.containers@.len() as int;
        lemma_fundamental_div_mod(i, c);
        lemma_remainder_lower(i, c);
        lemma_remainder_upper(i, c);
        assert(i / c < n) by (nonlinear_arith)
            requires
                c > 0,
                i < n * c,
                i == c * (i / c) + i % c,
                0 <= i % c < c,
        ;
        assert(i == (i / c) * c + i % c) by (nonlinear_arith)
            requires
                i == c * (i / c) + i % c,
        ;
    }

    /// Two distinct logical indices never share a chunk and an offset.
    proof fn lemma_index_injective(&self, i: int, j: int)
        requires
            self.wf(),
            0 <= i < self.capacity(),
            0 <= j < self.capacity(),
            i != j,
        ensures
            i / self.chunk_capacity() != j / self.chunk_capacity() || i % self.chunk_capacity()
                != j % self.chunk_capacity(),
    {
        let c = self.default_size as int;
        self.lemma_index_math(i);
        self.lemma_index_math(j);
        if i / c == j / c && i % c == j % c {
            assert(i == j);
        }
    }

    /// Creates storage with no chunks allocated yet. The requested chunk
    /// size is rounded up to a power of two.
    pub fn empty(inner_size: usize) -> (r: Self)
        requires
            1 <= inner_size <= 0x1000_0000,
        ensures
            r.wf(),
            r.capacity() == 0,
            inner_size <= r.chunk_capacity() < 2 * inner_size,
    {
        let default_size = next_power_of_two(inner_size);
        ChunkVecRaw { default_size, containers: Vec::new() }
    }

    /// Creates storage with one chunk already allocated.
    pub fn new(inner_size: usize) -> (r: Self)
        requires
            1 <= inner_size <= 0x1000_0000,
        ensures
            r.wf(),
            r.capacity() == r.chunk_capacity(),
            inner_size <= r.chunk_capacity() < 2 * inner_size,
            forall|i: int| 0 <= i < r.capacity() ==> r.slot(i) is None,
    {
        let default_size = next_power_of_two(inner_size);
        let container = Self::alloc_container(default_size);
        let mut containers: Vec<Vec<Option<T>>> = Vec::new();
        containers.push(container);
        let r = ChunkVecRaw { default_size, containers };
        proof {
            assert(r.capacity() == r.chunk_capacity()) by (nonlinear_arith)
                requires
                    r.containers@.len() == 1,
                    r.capacity() == r.containers@.len() * r.default_size,
                    r.chunk_capacity() == r.default_size as int,
            ;
            assert(r.wf());
            assert forall|i: int| 0 <= i < r.capacity() implies r.slot(i) is None by {
                r.lemma_index_math(i);
            }
        }
        r
    }

    /// Allocates one chunk of empty slots.
    fn alloc_container(capacity: usize) -> (r: Vec<Option<T>>)
        ensures
            r@.len() == capacity,
            forall|o: int| 0 <= o < capacity ==> r@[o] is None,
    {
        let mut container: Vec<Option<T>> = Vec::new();
        let mut k: usize = 0;
        while k < capacity
            invariant
                k <= capacity,
                container@.len() == k,
                forall|o: int| 0 <= o < k ==> container@[o] is None,
            decreases capacity - k,
        {
            container.push(None);
            k = k + 1;
        }
        container
    }

    /// The chunk holding logical index `index`.
    pub fn container_id(&self, index: usize) -> (r: usize)
        requires
            self.wf(),
        ensures
            r == index as int / self.chunk_capacity(),
    {
        proof {
            vstd::arithmetic::div_mod::lemma_div_pos_is_pos(index as int, self.default_size as int);
            vstd::arithmetic::div_mod::lemma_div_nonincreasing(
                index as int,
                self.default_size as int,
            );
        }
        index / self.default_size
    }

    /// The offset of logical index `index` within its chunk.
    pub fn offset_in_container(&self, index: usize) -> (r: usize)
        requires
            self.wf(),
        ensures
            r == index as int % self.chunk_capacity(),
    {
        index % self.default_size
    }

    /// Grows the storage, one chunk at a time, until slots
    /// `[offset, offset + len)` are all backed. Already-allocated slots are
    /// untouched.
    pub fn resize_if_necessary(&mut self, offset: usize, len: usize)
        requires
            old(self).wf(),
            offset + len + old(self).chunk_capacity() <= usize::MAX,
        ensures
            final(self).wf(),
            final(self).chunk_capacity() == old(self).chunk_capacity(),
            final(self).capacity() >= offset + len,
            final(self).capacity() >= old(self).capacity(),
            forall|i: int|
                0 <= i < old(self).capacity() ==> final(self).slot(i) == old(self).slot(i),
            forall|i: int|
                old(self).capacity() <= i < final(self).capacity() ==> final(self).slot(i) is None,
    {
        let end = offset + len;
        let mut cap = self.current_capacity();
        while cap < end
            invariant
                self.wf(),
                0 < self.chunk_capacity(),
                cap == self.capacity(),
                self.chunk_capacity() == old(self).chunk_capacity(),
                self.capacity() >= old(self).capacity(),
                end == offset + len,
                end + self.chunk_capacity() <= usize::MAX,
                forall|i: int| 0 <= i < old(self).capacity() ==> self.slot(i) == old(self).slot(i),
                forall|i: int|
                    old(self).capacity() <= i < self.capacity() ==> self.slot(i) is None,
            decreases end + self.chunk_capacity() - cap,
        {
            self.push_container();
            cap = cap + self.default_size;
        }
    }

    /// The number of slots currently backed, as a machine word.
    fn current_capacity(&self) -> (r: usize)
        requires
            self.wf(),
        ensures
            r == self.capacity(),
    {
        proof {
            assert(self.containers@.len() * self.default_size >= 0) by (nonlinear_arith);
        }
        let mut cap: usize = 0;
        let mut c: usize = 0;
        while c < self.containers.len()
            invariant
                self.wf(),
                c <= self.containers@.len(),
                cap == c * self.default_size,
                self.capacity() <= usize::MAX,
            decreases self.containers@.len() - c,
        {
            proof {
                assert((c + 1) * self.default_size == c * self.default_size + self.default_size)
                    by (nonlinear_arith);
                assert((c + 1) * self.default_size <= self.containers@.len()
                    * self.default_size) by (nonlinear_arith)
                    requires
                        c + 1 <= self.containers@.len(),
                        self.default_size > 0,
                ;
            }
            cap = cap + self.default_size;
            c = c + 1;
        }
        cap
    }

    /// Appends one fresh chunk of empty slots.
    pub fn push_container(&mut self)
        requires
            old(self).wf(),
            old(self).capacity() + old(self).chunk_capacity() <= usize::MAX,
        ensures
            final(self).wf(),
            final(self).chunk_capacity() == old(self).chunk_capacity(),
            final(self).capacity() == old(self).capacity() + final(self).chunk_capacity(),
            forall|i: int|
                0 <= i < old(self).capacity() ==> final(self).slot(i) == old(self).slot(i),
            forall|i: int|
                old(self).capacity() <= i < final(self).capacity() ==> final(self).slot(i) is None,
    {
        let container = Self::alloc_container(self.default_size);
        self.containers.push(container);
        proof {
            let pre = *old(self);
            assert((pre.containers@.len() + 1) * pre.default_size == pre.containers@.len()
                * pre.default_size + pre.default_size) by (nonlinear_arith);
            assert forall|i: int|
                0 <= i < pre.capacity() implies self.slot(i) == pre.slot(i) by {
                pre.lemma_index_math(i);
            }
            assert forall|i: int|
                pre.capacity() <= i < self.capacity() implies self.slot(i) is None by {
                self.lemma_index_math(i);
                if i / self.chunk_capacity() < pre.containers@.len() {
                    assert(i < pre.capacity()) by (nonlinear_arith)
                        requires
                            i == (i / self.chunk_capacity()) * self.chunk_capacity() + i
                                % self.chunk_capacity(),
                            i / self.chunk_capacity() + 1 <= pre.containers@.len(),
                            0 <= i % self.chunk_capacity() < self.chunk_capacity(),
                            self.chunk_capacity() == pre.default_size as int,
                            pre.capacity() == pre.containers@.len() * pre.default_size,
                    ;
                }
            }
        }
    }

    /// Reads the slot at logical index `index`.
    pub fn get(&self, index: usize) -> (r: &Option<T>)
        requires
            self.wf(),
            index < self.capacity(),
        ensures
            *r == self.slot(index as int),
    {
        proof {
            self.lemma_index_math(index as int);
        }
        let container_idx = index / self.default_size;
        let offset = index % self.default_size;
        &self.containers[container_idx][offset]
    }

    /// Fills the slot at logical index `index`. Every other slot keeps its
    /// value.
    pub fn set_slot(&mut self, index: usize, value: T)
        requires
            old(self).wf(),
            index < old(self).capacity(),
        ensures
            final(self).wf(),
            final(self).chunk_capacity() == old(self).chunk_capacity(),
            final(self).capacity() == old(self).capacity(),
            final(self).slot(index as int) == Some(value),
            forall|i: int|
                0 <= i < final(self).capacity() && i != index ==> final(self).slot(i) == old(
                    self,
                ).slot(i),
    {
        proof {
            self.lemma_index_math(index as int);
        }
        let container_idx = index / self.default_size;
        let offset = index % self.default_size;
        self.containers[container_idx][offset] = Some(value);
        proof {
            let pre = *old(self);
            assert(self.containers@.len() == pre.containers@.len());
            assert(self.containers@[container_idx as int]@ == pre.containers@[
                container_idx as int
            ]@.update(offset as int, Some(value)));
            assert(forall|d: int|
                0 <= d < pre.containers@.len() && d != container_idx
                    ==> #[trigger] self.containers@[d] == pre.containers@[d]);
            assert forall|i: int|
                0 <= i < self.capacity() && i != index implies self.slot(i) == pre.slot(i) by {
                pre.lemma_index_injective(i, index as int);
                pre.lemma_index_math(i);
            }
        }
    }

    /// A read-only view of the filled slots `[range.start, range.end)`.
    pub fn get_range<'a>(&'a self, range: core::ops::Range<usize>) -> (r: ChunkedRange<'a, T>)
        requires
            self.wf(),
            range.start <= range.end,
            range.end <= self.capacity(),
            forall|i: int| range.start <= i < range.end ==> self.slot(i) is Some,
        ensures
            r.wf(),
            r.start() == range.start,
            r.len_spec() == range.end - range.start,
            forall|k: int|
                0 <= k < r.len_spec() ==> #[trigger] r.element(k) == self.slot(
                    range.start + k,
                ).unwrap(),
    {
        ChunkedRange { owner: self, start: range.start, size: range.end - range.start }
    }

    /// A write descriptor for the slots `[range.start, range.end)`. The
    /// descriptor carries no borrow: each write goes back through the owner.
    pub fn get_range_mut(&self, range: core::ops::Range<usize>) -> (r: ChunkedRangeMut)
        requires
            range.start <= range.end,
        ensures
            r.start() == range.start,
            r.len_spec() == range.end - range.start,
    {
        ChunkedRangeMut { start: range.start, size: range.end - range.start }
    }

    /// Scans the filled slots `[0, index)` from high to low and returns the
    /// absolute index of the first element satisfying the predicate, i.e.
    /// the last match in the range.
    pub fn reverse_find<F: Fn(&T) -> bool>(
        &self,
        index: usize,
        f: F,
        Ghost(pred): Ghost<spec_fn(T) -> bool>,
    ) -> (r: Option<usize>)
        requires
            self.wf(),
            index <= self.capacity(),
            forall|j: int| 0 <= j < index ==> self.slot(j) is Some,
            forall|t: &T| #[trigger] call_requires(f, (t,)),
            forall|t: &T, b: bool| #[trigger] call_ensures(f, (t,), b) ==> b == pred(*t),
        ensures
            match r {
                Some(j) => {
                    &&& j < index
                    &&& pred(self.slot(j as int).unwrap())
                    &&& forall|k: int| j < k < index ==> !pred(self.slot(k).unwrap())
                },
                None => forall|k: int| 0 <= k < index ==> !pred(self.slot(k).unwrap()),
            },
    {
        let mut j: usize = index;
        while j > 0
            invariant
                self.wf(),
                j <= index,
                index <= self.capacity(),
                forall|k: int| 0 <= k < index ==> self.slot(k) is Some,
                forall|t: &T| #[trigger] call_requires(f, (t,)),
                forall|t: &T, b: bool| #[trigger] call_ensures(f, (t,), b) ==> b == pred(*t),
                forall|k: int| j <= k < index ==> !pred(self.slot(k).unwrap()),
            decreases j,
        {
            j = j - 1;
            let candidate = self.get(j);
            match candidate {
                Some(value) => {
                    if f(value) {
                        return Some(j);
                    }
                },
                None => (),
            }
        }
        None
    }

    /// The capacity of each chunk, as configured at construction.
    pub fn default_size(&self) -> (r: usize)
        ensures
            r == self.chunk_capacity(),
    {
        self.default_size
    }
}

/// Rounds up to the next power of two.
fn next_power_of_two(n: usize) -> (r: usize)
    requires
        1 <= n <= 0x1000_0000,
    ensures
        is_power_of_two(r as int),
        n <= r < 2 * n,
{
    let mut p: usize = 1;
    while p < n
        invariant
            1 <= p,
            is_power_of_two(p as int),
            p < 2 * n,
            n <= 0x1000_0000,
        decreases 2 * n - p,
    {
        p = p * 2;
        proof {
            assert(is_power_of_two(p as int));
        }
    }
    p
}

/// A read-only window onto a contiguous, fully filled range of a
/// `ChunkVecRaw`.
pub struct ChunkedRange<'a, T> {
    owner: &'a ChunkVecRaw<T>,
    start: usize,
    size: usize,
}

impl<'a, T> ChunkedRange<'a, T> {
    /// First logical index of the window.
    pub closed spec fn start(&self) -> int {
        self.start as int
    }

    /// Number of elements in the window.
    pub closed spec fn len_spec(&self) -> int {
        self.size as int
    }

    /// The `k`-th element of the window.
    pub closed spec fn element(&self, k: int) -> T {
        self.owner.slot(self.start + k).unwrap()
    }

    /// The window lies within the owner and covers only filled slots.
    pub closed spec fn wf(&self) -> bool {
        &&& self.owner.wf()
        &&& self.start + self.size <= self.owner.capacity()
        &&& forall|i: int| self.start <= i < self.start + self.size ==> self.owner.slot(i) is Some
    }

    /// Number of elements in the window.
    pub fn len(&self) -> (r: usize)
        ensures
            r == self.len_spec(),
    {
        self.size
    }

    /// Reads the `k`-th element of the window.
    pub fn get(&self, k: usize) -> (r: &T)
        requires
            self.wf(),
            k < self.len_spec(),
        ensures
            *r == self.element(k as int),
    {
        let slot = self.owner.get(self.start + k);
        match slot {
            Some(value) => value,
            None => unreached(),
        }
    }
}

/// A write descriptor for a contiguous slot range of a `ChunkVecRaw`. It
/// holds no borrow; each write names the owner explicitly.
pub struct ChunkedRangeMut {
    start: usize,
    size: usize,
}

impl ChunkedRangeMut {
    /// First logical index of the described range.
    pub closed spec fn start(&self) -> int {
        self.start as int
    }

    /// Number of slots in the described range.
    pub closed spec fn len_spec(&self) -> int {
        self.size as int
    }

    /// Fills the `k`-th slot of the described range.
    pub fn set<T>(&self, owner: &mut ChunkVecRaw<T>, k: usize, value: T)
        requires
            old(owner).wf(),
            k < self.len_spec(),
            self.start() + self.len_spec() <= old(owner).capacity(),
        ensures
            final(owner).wf(),
            final(owner).chunk_capacity() == old(owner).chunk_capacity(),
            final(owner).capacity() == old(owner).capacity(),
            final(owner).slot(self.start() + k) == Some(value),
            forall|i: int|
                0 <= i < final(owner).capacity() && i != self.start() + k ==> final(owner).slot(i)
                    == old(owner).slot(i),
    {
        owner.set_slot(self.start + k, value);
    }
}

} // verus!
