//! The ingest-to-display pipeline: event storage, the filter stage, the
//! time-ordered indexer and the façade that composes them.
//!
//! Storage workers push received batches into the append-only event log
//! and signal the notification bus. On each growth notification the filter
//! stage walks the newly committed range, keeps the events the active
//! filter set accepts, and hands their index entries to the indexer, which
//! keeps one sequence sorted by event timestamp. The display layer reads
//! row counts and entry ranges from the indexer and fetches the underlying
//! events from the log.
use vstd::prelude::*;

use vstd::seq_lib::lemma_multiset_commutative;

use crate::event_log::ConcurrentChunkVec;
use crate::filters::{all_match, SimpleFilter};
use crate::messages::KmMessage;
use crate::notifier::NotificationBus;

verus! {

/// The event log of the pipeline: a chunked append-only store of ingest
/// messages. Chunks hold 100 000 events, rounded up to a power of two.
pub struct EventStorage {
    storage: ConcurrentChunkVec<KmMessage>,
}

impl View for EventStorage {
    type V = Seq<KmMessage>;

    /// The committed events, in log order.
    closed spec fn view(&self) -> Seq<KmMessage> {
        self.storage@
    }
}

impl EventStorage {
    /// The underlying log is sound.
    pub closed spec fn wf(&self) -> bool {
        self.storage.wf()
    }

    /// Slots handed out to writers so far.
    pub closed spec fn reserved(&self) -> int {
        self.storage.reserved()
    }

    /// Capacity of one backing chunk.
    pub closed spec fn chunk_capacity(&self) -> int {
        self.storage.chunk_capacity()
    }

    /// No writer holds an unpublished reservation.
    pub closed spec fn quiescent(&self) -> bool {
        self.storage.committed() == self.storage.reserved()
    }

    /// A fresh, empty log.
    pub fn new() -> (r: Self)
        ensures
            r.wf(),
            r@ == Seq::<KmMessage>::empty(),
            r.quiescent(),
            r.reserved() == 0,
            100000 <= r.chunk_capacity() < 200000,
    {
        EventStorage { storage: ConcurrentChunkVec::new(100000) }
    }

    /// Appends one received batch. Fails, changing nothing, only when the
    /// batch is larger than one chunk. With no other writer in flight the
    /// batch becomes visible at once, in order, after the existing events.
    pub fn push_events(&mut self, events: Vec<KmMessage>) -> (r: bool)
        requires
            old(self).wf(),
            old(self).reserved() + events@.len() + old(self).chunk_capacity() <= usize::MAX,
        ensures
            final(self).wf(),
            r == (events@.len() <= old(self).chunk_capacity()),
            final(self).chunk_capacity() == old(self).chunk_capacity(),
            old(self)@.is_prefix_of(final(self)@),
            !r ==> *final(self) == *old(self),
            r ==> final(self).reserved() == old(self).reserved() + events@.len(),
            r && old(self).quiescent() ==> {
                &&& final(self)@ == old(self)@ + events@
                &&& final(self).quiescent()
                &&& final(self).reserved() == old(self).reserved() + events@.len()
            },
    {
        self.storage.acquire_write_inplace(events)
    }

    /// Reads the committed event at `index`.
    pub fn read_event(&self, index: usize) -> (r: &KmMessage)
        requires
            self.wf(),
            index < self@.len(),
        ensures
            *r == self@[index as int],
    {
        match self.storage.get(index) {
            Some(event) => event,
            None => unreached(),
        }
    }

    /// How many events are committed and visible.
    pub fn len(&self) -> (r: usize)
        requires
            self.wf(),
        ensures
            r == self@.len(),
    {
        self.storage.len()
    }
}

/// Stores one received batch and signals the bus, as one storage worker
/// iteration does once it has drained its channel.
pub fn store_batch(storage: &mut EventStorage, bus: &mut NotificationBus, events: Vec<KmMessage>)
    requires
        old(storage).wf(),
        old(bus).wf(),
        old(storage).reserved() + events@.len() + old(storage).chunk_capacity() <= usize::MAX,
        events@.len() <= old(storage).chunk_capacity(),
    ensures
        final(storage).wf(),
        final(bus).wf(),
        old(storage)@.is_prefix_of(final(storage)@),
        old(storage).quiescent() ==> final(storage)@ == old(storage)@ + events@
            && final(storage).quiescent(),
        final(bus).pending(),
        final(bus).notified() == old(bus).notified() + 1,
        final(bus).subscribers() == old(bus).subscribers(),
{
    storage.push_events(events);
    bus.notify();
}

/// One entry of the time-ordered index: the event's timestamp and its
/// position in the event log. A weak reference — never a pointer.
#[derive(Clone, Copy, PartialEq, Eq, Structural, Debug)]
pub struct IndexData {
    pub event_timestamp: u64,
    pub event_index: usize,
}

/// The index entries that the range `[start, end)` of the log contributes
/// under a filter set: one entry per accepted event, in log order.
pub open spec fn spec_filter_range(
    events: Seq<KmMessage>,
    start: int,
    end: int,
    filters: Seq<SimpleFilter>,
) -> Seq<IndexData>
    decreases end - start,
{
    if start >= end {
        Seq::<IndexData>::empty()
    } else {
        spec_filter_range(events, start, end - 1, filters) + (if all_match(
            filters,
            events[end - 1]@,
        ) {
            seq![
                IndexData {
                    event_timestamp: events[end - 1].event.date,
                    event_index: (end - 1) as usize,
                },
            ]
        } else {
            Seq::<IndexData>::empty()
        })
    }
}

/// Every produced entry points into `[start, end)`, carries the timestamp
/// of the event it names, names an accepted event, and the entries come in
/// strictly increasing log order.
pub proof fn lemma_filter_range_entries(
    events: Seq<KmMessage>,
    start: int,
    end: int,
    filters: Seq<SimpleFilter>,
)
    requires
        0 <= start <= end <= events.len(),
        end <= usize::MAX,
    ensures
        forall|j: int|
            0 <= j < spec_filter_range(events, start, end, filters).len() ==> {
                let entry = #[trigger] spec_filter_range(events, start, end, filters)[j];
                &&& start <= entry.event_index < end
                &&& entry.event_timestamp == events[entry.event_index as int].event.date
                &&& all_match(filters, events[entry.event_index as int]@)
            },
        forall|j: int, l: int|
            0 <= j < l < spec_filter_range(events, start, end, filters).len() ==> spec_filter_range(
                events,
                start,
                end,
                filters,
            )[j].event_index < spec_filter_range(events, start, end, filters)[l].event_index,
    decreases end - start,
{
    if start < end {
        lemma_filter_range_entries(events, start, end - 1, filters);
        let r = spec_filter_range(events, start, end, filters);
        let r0 = spec_filter_range(events, start, end - 1, filters);
        assert forall|j: int|
            0 <= j < r.len() implies {
            let entry = #[trigger] r[j];
            &&& start <= entry.event_index < end
            &&& entry.event_timestamp == events[entry.event_index as int].event.date
            &&& all_match(filters, events[entry.event_index as int]@)
        } by {
            if j < r0.len() {
                assert(r[j] == r0[j]);
            } else {
                assert(r[j].event_index == end - 1);
            }
        }
        assert forall|j: int, l: int| 0 <= j < l < r.len() implies r[j].event_index
            < r[l].event_index by {
            assert(r[j] == r0[j]);
            if l < r0.len() {
                assert(r[l] == r0[l]);
            } else {
                assert(r[j].event_index < end - 1);
                assert(r[l].event_index == end - 1);
            }
        }
    }
}

/// Completeness: every accepted event of the range has an entry.
pub proof fn lemma_filter_range_complete(
    events: Seq<KmMessage>,
    start: int,
    end: int,
    filters: Seq<SimpleFilter>,
    i: int,
)
    requires
        0 <= start <= i < end <= events.len(),
        end <= usize::MAX,
        all_match(filters, events[i]@),
    ensures
        exists|j: int|
            0 <= j < spec_filter_range(events, start, end, filters).len()
                && (#[trigger] spec_filter_range(events, start, end, filters)[j]).event_index == i,
    decreases end - start,
{
    let r = spec_filter_range(events, start, end, filters);
    if i == end - 1 {
        let r0 = spec_filter_range(events, start, end - 1, filters);
        assert(r.len() == r0.len() + 1);
        assert(r[r0.len() as int].event_index == i);
    } else {
        lemma_filter_range_complete(events, start, end - 1, filters, i);
        let r0 = spec_filter_range(events, start, end - 1, filters);
        let j = choose|j: int| 0 <= j < r0.len() && (#[trigger] r0[j]).event_index == i;
        assert(r[j].event_index == i);
    }
}

/// Under the empty filter set the range `[start, end)` contributes exactly
/// one entry per position, in order.
pub proof fn lemma_filter_range_top(events: Seq<KmMessage>, start: int, end: int)
    requires
        0 <= start <= end <= events.len(),
        end <= usize::MAX,
    ensures
        spec_filter_range(events, start, end, Seq::<SimpleFilter>::empty()) == Seq::new(
            (end - start) as nat,
            |k: int|
                IndexData {
                    event_timestamp: events[start + k].event.date,
                    event_index: (start + k) as usize,
                },
        ),
    decreases end - start,
{
    if start < end {
        lemma_filter_range_top(events, start, end - 1);
    }
    assert(spec_filter_range(events, start, end, Seq::<SimpleFilter>::empty()) =~= Seq::new(
        (end - start) as nat,
        |k: int|
            IndexData {
                event_timestamp: events[start + k].event.date,
                event_index: (start + k) as usize,
            },
    ));
}

/// Splitting a range splits its contribution.
pub proof fn lemma_filter_range_concat(
    events: Seq<KmMessage>,
    start: int,
    mid: int,
    end: int,
    filters: Seq<SimpleFilter>,
)
    requires
        0 <= start <= mid <= end <= events.len(),
    ensures
        spec_filter_range(events, start, end, filters) == spec_filter_range(
            events,
            start,
            mid,
            filters,
        ) + spec_filter_range(events, mid, end, filters),
    decreases end - mid,
{
    if mid == end {
        assert(spec_filter_range(events, start, end, filters) =~= spec_filter_range(
            events,
            start,
            mid,
            filters,
        ) + spec_filter_range(events, mid, end, filters));
    } else {
        lemma_filter_range_concat(events, start, mid, end - 1, filters);
        assert(spec_filter_range(events, start, end, filters) =~= spec_filter_range(
            events,
            start,
            mid,
            filters,
        ) + spec_filter_range(events, mid, end, filters));
    }
}

/// What a range contributes depends only on the events below `end`: a
/// grown log contributes the same entries for an old range.
pub proof fn lemma_filter_range_prefix(
    shorter: Seq<KmMessage>,
    longer: Seq<KmMessage>,
    start: int,
    end: int,
    filters: Seq<SimpleFilter>,
)
    requires
        shorter.is_prefix_of(longer),
        0 <= start <= end <= shorter.len(),
    ensures
        spec_filter_range(shorter, start, end, filters) == spec_filter_range(
            longer,
            start,
            end,
            filters,
        ),
    decreases end - start,
{
    if start < end {
        lemma_filter_range_prefix(shorter, longer, start, end - 1, filters);
        assert(shorter[end - 1] == longer[end - 1]);
    }
}

/// Computes the entries the range `[start, end)` of the log contributes
/// under the filter set: the filter stage's per-task routine.
pub fn filter_routine(
    storage: &EventStorage,
    start_range: usize,
    end_range: usize,
    filters: &Vec<SimpleFilter>,
) -> (r: Vec<IndexData>)
    requires
        storage.wf(),
        start_range <= end_range,
        end_range <= storage@.len(),
    ensures
        r@ == spec_filter_range(storage@, start_range as int, end_range as int, filters@),
{
    let mut out: Vec<IndexData> = Vec::new();
    let mut i: usize = start_range;
    while i < end_range
        invariant
            storage.wf(),
            start_range <= i <= end_range,
            end_range <= storage@.len(),
            out@ == spec_filter_range(storage@, start_range as int, i as int, filters@),
        decreases end_range - i,
    {
        let event = storage.read_event(i);
        if crate::filters::event_visible(filters, event) {
            out.push(IndexData { event_timestamp: event.event.date, event_index: i });
        }
        i = i + 1;
        proof {
            assert(out@ =~= spec_filter_range(storage@, start_range as int, i as int, filters@));
        }
    }
    out
}

/// Cuts the range `[start, end)` into consecutive batches of at most
/// `max_batch` positions each: how the filter stage fans new events out to
/// its pool.
pub fn split_into_batches(start: usize, end: usize, max_batch: usize) -> (r: Vec<(usize, usize)>)
    requires
        start <= end,
        max_batch >= 1,
    ensures
        forall|k: int|
            0 <= k < r@.len() ==> ((#[trigger] r@[k]).0 < r@[k].1 && r@[k].1 - r@[k].0
                <= max_batch),
        r@.len() > 0 ==> r@[0].0 == start && r@[r@.len() - 1].1 == end,
        forall|k: int| 0 <= k < r@.len() - 1 ==> (#[trigger] r@[k]).1 == r@[k + 1].0,
        r@.len() == 0 <==> start == end,
    {
    let mut out: Vec<(usize, usize)> = Vec::new();
    let mut at: usize = start;
    while at < end
        invariant
            start <= at <= end,
            max_batch >= 1,
            forall|k: int|
                0 <= k < out@.len() ==> ((#[trigger] out@[k]).0 < out@[k].1 && out@[k].1 - out@[k].0
                    <= max_batch),
            out@.len() > 0 ==> out@[0].0 == start && out@[out@.len() - 1].1 == at,
            out@.len() == 0 <==> at == start,
            forall|k: int| 0 <= k < out@.len() - 1 ==> (#[trigger] out@[k]).1 == out@[k + 1].0,
        decreases end - at,
    {
        let step = if end - at < max_batch {
            end - at
        } else {
            max_batch
        };
        out.push((at, at + step));
        at = at + step;
    }
    out
}

/// The filter stage: an immutable filter snapshot and the length of the
/// log prefix already handed downstream.
pub struct EventFilterService {
    filters: Vec<SimpleFilter>,
    previous_size: usize,
}

impl EventFilterService {
    /// The active filter set.
    pub closed spec fn filters(&self) -> Seq<SimpleFilter> {
        self.filters@
    }

    /// How much of the log has been filtered already.
    pub closed spec fn previous(&self) -> int {
        self.previous_size as int
    }

    /// A fresh stage with the given filter snapshot; nothing filtered yet.
    pub fn new(filters: Vec<SimpleFilter>) -> (r: Self)
        ensures
            r.filters() == filters@,
            r.previous() == 0,
    {
        EventFilterService { filters, previous_size: 0 }
    }

    /// Handles one growth notification: filters the newly committed range
    /// `[previous, len)` and returns its index entries, in log order.
    pub fn on_notify(&mut self, storage: &EventStorage) -> (r: Vec<IndexData>)
        requires
            storage.wf(),
            old(self).previous() <= storage@.len(),
        ensures
            final(self).filters() == old(self).filters(),
            final(self).previous() == storage@.len(),
            r@ == spec_filter_range(
                storage@,
                old(self).previous(),
                storage@.len() as int,
                old(self).filters(),
            ),
    {
        let new_len = storage.len();
        let r = filter_routine(storage, self.previous_size, new_len, &self.filters);
        self.previous_size = new_len;
        r
    }
}

/// Where a new entry lands in the time-sorted index: just past the
/// leading run of entries whose timestamp is at most the new one — after
/// its equals, so what is already indexed keeps its relative order.
pub open spec fn stable_insert_pos(entries: Seq<IndexData>, ts: u64) -> int
    decreases entries.len(),
{
    if entries.len() == 0 {
        0
    } else if entries[0].event_timestamp > ts {
        0
    } else {
        1 + stable_insert_pos(entries.drop_first(), ts)
    }
}

/// One batch merged into the index, entry by entry in batch order, each
/// at its stable position: the functional result of a merge.
pub open spec fn spec_merge_batch(entries: Seq<IndexData>, batch: Seq<IndexData>) -> Seq<
    IndexData,
>
    decreases batch.len(),
{
    if batch.len() == 0 {
        entries
    } else {
        spec_merge_batch(
            entries.insert(stable_insert_pos(entries, batch[0].event_timestamp), batch[0]),
            batch.drop_first(),
        )
    }
}

/// The stable position lies in range, and everything before it has a
/// timestamp at most the new one.
proof fn lemma_stable_pos_bounds(entries: Seq<IndexData>, ts: u64)
    ensures
        0 <= stable_insert_pos(entries, ts) <= entries.len(),
        forall|j: int|
            0 <= j < stable_insert_pos(entries, ts) ==> (#[trigger] entries[j]).event_timestamp
                <= ts,
    decreases entries.len(),
{
    if entries.len() > 0 && entries[0].event_timestamp <= ts {
        lemma_stable_pos_bounds(entries.drop_first(), ts);
        assert(forall|j: int|
            0 < j < stable_insert_pos(entries, ts) ==> entries[j] == entries.drop_first()[j - 1]);
    }
}

/// An index with timestamps at most `ts` up to `pos` and above `ts` from
/// `pos` on has `pos` as its stable position.
proof fn lemma_stable_pos_unique(entries: Seq<IndexData>, ts: u64, pos: int)
    requires
        0 <= pos <= entries.len(),
        forall|j: int| 0 <= j < pos ==> (#[trigger] entries[j]).event_timestamp <= ts,
        forall|j: int| pos <= j < entries.len() ==> (#[trigger] entries[j]).event_timestamp > ts,
    ensures
        pos == stable_insert_pos(entries, ts),
    decreases entries.len(),
{
    if pos == 0 {
    } else {
        assert(entries[0].event_timestamp <= ts);
        let rest = entries.drop_first();
        assert(forall|j: int| 0 <= j < rest.len() ==> #[trigger] rest[j] == entries[j + 1]);
        lemma_stable_pos_unique(rest, ts, pos - 1);
    }
}

/// Merging one more entry after a batch is one more stable insertion into
/// the merged result.
proof fn lemma_merge_batch_snoc(entries: Seq<IndexData>, batch: Seq<IndexData>, e: IndexData)
    ensures
        spec_merge_batch(entries, batch.push(e)) == spec_merge_batch(entries, batch).insert(
            stable_insert_pos(spec_merge_batch(entries, batch), e.event_timestamp),
            e,
        ),
    decreases batch.len(),
{
    if batch.len() == 0 {
        let pos = stable_insert_pos(entries, e.event_timestamp);
        assert(batch.push(e)[0] == e);
        assert(batch.push(e).drop_first() =~= Seq::<IndexData>::empty());
        assert(spec_merge_batch(entries, batch.push(e)) == spec_merge_batch(
            entries.insert(pos, e),
            batch.push(e).drop_first(),
        ));
        assert(spec_merge_batch(entries.insert(pos, e), batch.push(e).drop_first())
            == entries.insert(pos, e));
        assert(spec_merge_batch(entries, batch) == entries);
    } else {
        let head = stable_insert_pos(entries, batch[0].event_timestamp);
        assert(batch.push(e)[0] == batch[0]);
        assert(batch.push(e).drop_first() =~= batch.drop_first().push(e));
        assert(spec_merge_batch(entries, batch.push(e)) == spec_merge_batch(
            entries.insert(head, batch[0]),
            batch.drop_first().push(e),
        ));
        lemma_merge_batch_snoc(entries.insert(head, batch[0]), batch.drop_first(), e);
        assert(spec_merge_batch(entries, batch) == spec_merge_batch(
            entries.insert(head, batch[0]),
            batch.drop_first(),
        ));
    }
}

/// Inserting anywhere adds exactly that element to the sequence's
/// multiset.
proof fn lemma_insert_to_multiset<A>(s: Seq<A>, pos: int, v: A)
    requires
        0 <= pos <= s.len(),
    ensures
        s.insert(pos, v).to_multiset() == s.to_multiset().insert(v),
{
    broadcast use vstd::seq_lib::group_to_multiset_ensures;

    let left = s.subrange(0, pos);
    let right = s.subrange(pos, s.len() as int);
    assert(s.insert(pos, v) =~= left.push(v) + right);
    lemma_multiset_commutative(left.push(v), right);
    assert(s =~= left + right);
    lemma_multiset_commutative(left, right);
    assert(s.insert(pos, v).to_multiset() =~= s.to_multiset().insert(v));
}

/// The time-ordered index: entries sorted by event timestamp, ascending.
pub struct EventIndexerService {
    storage: Vec<IndexData>,
}

impl View for EventIndexerService {
    type V = Seq<IndexData>;

    /// The entries, in index order.
    closed spec fn view(&self) -> Seq<IndexData> {
        self.storage@
    }
}

impl EventIndexerService {
    /// The entries are sorted by timestamp.
    pub closed spec fn wf(&self) -> bool {
        forall|k: int, l: int|
            0 <= k < l < self.storage@.len() ==> (#[trigger] self.storage@[k]).event_timestamp <= (
            #[trigger] self.storage@[l]).event_timestamp
    }

    /// A fresh, empty index.
    pub fn new() -> (r: Self)
        ensures
            r.wf(),
            r@ == Seq::<IndexData>::empty(),
    {
        EventIndexerService { storage: Vec::new() }
    }

    /// Number of entries.
    pub fn len(&self) -> (r: usize)
        ensures
            r == self@.len(),
    {
        self.storage.len()
    }

    /// Reads the entry at `i`.
    pub fn get(&self, i: usize) -> (r: IndexData)
        requires
            i < self@.len(),
        ensures
            r == self@[i as int],
    {
        self.storage[i]
    }

    /// Appends the entries `[start, end)` of the index to `collection`.
    pub fn collect_indicies_into(
        &self,
        start: usize,
        end: usize,
        collection: &mut Vec<IndexData>,
    )
        requires
            start <= end,
            end <= self@.len(),
        ensures
            final(collection)@ == old(collection)@ + self@.subrange(start as int, end as int),
    {
        let mut i: usize = start;
        while i < end
            invariant
                start <= i <= end,
                end <= self@.len(),
                collection@ == old(collection)@ + self@.subrange(start as int, i as int),
            decreases end - i,
        {
            collection.push(self.storage[i]);
            i = i + 1;
            proof {
                assert(collection@ =~= old(collection)@ + self@.subrange(start as int, i as int));
            }
        }
        proof {
            assert(collection@ =~= old(collection)@ + self@.subrange(start as int, end as int));
        }
    }

    /// Merges one drained batch into the index: each entry goes, in batch
    /// order, to its stable position — after existing entries of equal
    /// timestamp — so both the index and the batch keep their relative
    /// orders within the merge. The result is exactly `spec_merge_batch`,
    /// and the index gains exactly the batch as a multiset.
    pub fn index_batch(&mut self, batch: Vec<IndexData>)
        requires
            old(self).wf(),
        ensures
            final(self).wf(),
            final(self)@ == spec_merge_batch(old(self)@, batch@),
            final(self)@.to_multiset() == old(self)@.to_multiset().add(batch@.to_multiset()),
            final(self)@.len() == old(self)@.len() + batch@.len(),
    {
        proof {
            broadcast use vstd::seq_lib::group_to_multiset_ensures;

            assert(batch@.subrange(0, 0) =~= Seq::<IndexData>::empty());
            assert(Seq::<IndexData>::empty().to_multiset() =~= vstd::multiset::Multiset::<
                IndexData,
            >::empty());
            assert(self@.to_multiset().add(batch@.subrange(0, 0).to_multiset()) =~= self@
                .to_multiset());
        }
        let mut i: usize = 0;
        while i < batch.len()
            invariant
                self.wf(),
                i <= batch@.len(),
                self@ == spec_merge_batch(old(self)@, batch@.subrange(0, i as int)),
                self@.to_multiset() == old(self)@.to_multiset().add(
                    batch@.subrange(0, i as int).to_multiset(),
                ),
                self@.len() == old(self)@.len() + i,
            decreases batch@.len() - i,
        {
            let ghost self_before = self@;
            let entry = batch[i];
            self.insert_sorted(entry);
            i = i + 1;
            proof {
                broadcast use vstd::seq_lib::group_to_multiset_ensures;

                assert(batch@.subrange(0, i as int) =~= batch@.subrange(0, i as int - 1).push(
                    entry,
                ));
                lemma_merge_batch_snoc(old(self)@, batch@.subrange(0, i as int - 1), entry);
                assert(self@.to_multiset() =~= old(self)@.to_multiset().add(
                    batch@.subrange(0, i as int).to_multiset(),
                ));
            }
        }
        proof {
            assert(batch@.subrange(0, batch@.len() as int) =~= batch@);
        }
    }

    /// Inserts one entry at its stable position: after every entry of
    /// smaller or equal timestamp, before every strictly later one.
    fn insert_sorted(&mut self, entry: IndexData)
        requires
            old(self).wf(),
        ensures
            final(self).wf(),
            final(self)@ == old(self)@.insert(
                stable_insert_pos(old(self)@, entry.event_timestamp),
                entry,
            ),
            final(self)@.to_multiset() == old(self)@.to_multiset().insert(entry),
            final(self)@.len() == old(self)@.len() + 1,
    {
        let mut pos: usize = self.storage.len();
        while pos > 0 && self.storage[pos - 1].event_timestamp > entry.event_timestamp
            invariant
                old(self).wf(),
                *self == *old(self),
                pos <= self.storage@.len(),
                forall|j: int|
                    pos <= j < self.storage@.len() ==> (#[trigger] self.storage@[j]).event_timestamp
                        > entry.event_timestamp,
            decreases pos,
        {
            pos = pos - 1;
        }
        proof {
            assert forall|j: int|
                0 <= j < pos implies (#[trigger] self.storage@[j]).event_timestamp
                <= entry.event_timestamp by {
                assert(self.storage@[pos - 1].event_timestamp <= entry.event_timestamp);
                assert(self.storage@[j].event_timestamp <= self.storage@[pos
                    - 1].event_timestamp);
            }
            lemma_stable_pos_unique(self.storage@, entry.event_timestamp, pos as int);
            lemma_insert_to_multiset(self.storage@, pos as int, entry);
            self.storage@.insert_ensures(pos as int, entry);
        }
        self.storage.insert(pos, entry);
        proof {
            let pre = old(self).storage@;
            assert forall|k: int, l: int|
                0 <= k < l < self.storage@.len() implies (#[trigger] self.storage@[k]).event_timestamp
                <= (#[trigger] self.storage@[l]).event_timestamp by {
                if l < pos {
                } else if k > pos {
                    assert(self.storage@[k] == pre[k - 1]);
                    assert(self.storage@[l] == pre[l - 1]);
                } else if k < pos && l == pos {
                    assert(self.storage@[k] == pre[k]);
                    if pos < pre.len() + 1 && pos > 0 {
                        assert(pre[pos - 1].event_timestamp <= entry.event_timestamp);
                        assert(pre[k].event_timestamp <= pre[pos - 1].event_timestamp);
                    }
                } else if k < pos && l > pos {
                    assert(self.storage@[k] == pre[k]);
                    assert(self.storage@[l] == pre[l - 1]);
                } else if k == pos && l > pos {
                    assert(self.storage@[l] == pre[l - 1]);
                    assert(pre[l - 1].event_timestamp > entry.event_timestamp);
                }
            }
        }
    }
}

/// Index time-order: anywhere in the index, an earlier entry's timestamp
/// is at most a later entry's.
pub proof fn lemma_index_time_order(indexer: EventIndexerService, a: int, b: int)
    requires
        indexer.wf(),
        0 <= a < b < indexer@.len(),
    ensures
        indexer@[a].event_timestamp <= indexer@[b].event_timestamp,
{
}

/// The façade over the filter stage and the indexer: owns their lifetimes
/// and tracks, as ghost state, the log prefix already indexed.
pub struct IndexerController {
    filter_service: EventFilterService,
    indexer: EventIndexerService,
    seen: Ghost<Seq<KmMessage>>,
}

impl IndexerController {
    /// The active filter set.
    pub closed spec fn filters(&self) -> Seq<SimpleFilter> {
        self.filter_service.filters()
    }

    /// The log prefix whose events have been filtered and indexed.
    pub closed spec fn seen(&self) -> Seq<KmMessage> {
        self.seen@
    }

    /// The index entries, in timestamp order.
    pub closed spec fn entries(&self) -> Seq<IndexData> {
        self.indexer@
    }

    /// The pipeline invariant: the index is sorted, holds — as a multiset
    /// — exactly the entries the seen prefix contributes under the active
    /// filters, and every entry is a sound weak reference: it points into
    /// the seen prefix and carries that event's timestamp.
    pub closed spec fn wf(&self) -> bool {
        &&& self.indexer.wf()
        &&& self.filter_service.previous() == self.seen@.len()
        &&& self.indexer@.to_multiset() == spec_filter_range(
            self.seen@,
            0,
            self.seen@.len() as int,
            self.filter_service.filters(),
        ).to_multiset()
        &&& forall|j: int|
            0 <= j < self.indexer@.len() ==> (#[trigger] self.indexer@[j]).event_index
                < self.seen@.len() && self.indexer@[j].event_timestamp
                == self.seen@[self.indexer@[j].event_index as int].event.date
    }

    /// A fresh pipeline with the given filter set.
    pub fn new(filters: Vec<SimpleFilter>) -> (r: Self)
        ensures
            r.wf(),
            r.filters() == filters@,
            r.seen() == Seq::<KmMessage>::empty(),
            r.entries() == Seq::<IndexData>::empty(),
    {
        let r = IndexerController {
            filter_service: EventFilterService::new(filters),
            indexer: EventIndexerService::new(),
            seen: Ghost(Seq::empty()),
        };
        proof {
            broadcast use vstd::seq_lib::group_to_multiset_ensures;

            assert(r.indexer@.to_multiset() =~= spec_filter_range(
                r.seen@,
                0,
                0,
                r.filter_service.filters(),
            ).to_multiset());
        }
        r
    }

    /// Number of index entries the display can show.
    pub fn num_events(&self) -> (r: usize)
        ensures
            r == self.entries().len(),
    {
        self.indexer.len()
    }

    /// Appends the entries `[start, end)` of the index to `collection`.
    pub fn collect_indicies_into(
        &self,
        start: usize,
        end: usize,
        collection: &mut Vec<IndexData>,
    )
        requires
            start <= end,
            end <= self.entries().len(),
        ensures
            final(collection)@ == old(collection)@ + self.entries().subrange(
                start as int,
                end as int,
            ),
    {
        self.indexer.collect_indicies_into(start, end, collection)
    }

    /// Reads index entry `i`.
    pub fn entry(&self, i: usize) -> (r: IndexData)
        requires
            i < self.entries().len(),
        ensures
            r == self.entries()[i as int],
    {
        self.indexer.get(i)
    }

    /// Installs a new filter set: the downstream index is torn down and
    /// rebuilt empty; the event log itself is untouched and will be
    /// re-filtered from the start.
    pub fn change_filters(&mut self, new_filters: Vec<SimpleFilter>)
        ensures
            final(self).wf(),
            final(self).filters() == new_filters@,
            final(self).seen() == Seq::<KmMessage>::empty(),
            final(self).entries() == Seq::<IndexData>::empty(),
    {
        self.filter_service = EventFilterService::new(new_filters);
        self.indexer = EventIndexerService::new();
        self.seen = Ghost(Seq::empty());
        proof {
            broadcast use vstd::seq_lib::group_to_multiset_ensures;

            assert(self.indexer@.to_multiset() =~= spec_filter_range(
                self.seen@,
                0,
                0,
                self.filter_service.filters(),
            ).to_multiset());
        }
    }

    /// Handles one growth notification: filters the events committed
    /// since the last call and merges their entries into the index. The
    /// log must have grown from the prefix this controller has seen —
    /// which the append-only log guarantees.
    pub fn on_notify(&mut self, storage: &EventStorage)
        requires
            old(self).wf(),
            storage.wf(),
            old(self).seen().is_prefix_of(storage@),
        ensures
            final(self).wf(),
            final(self).filters() == old(self).filters(),
            final(self).seen() == storage@,
            final(self).entries().to_multiset() == spec_filter_range(
                storage@,
                0,
                storage@.len() as int,
                old(self).filters(),
            ).to_multiset(),
    {
        let ghost seen_before = self.seen@;
        let ghost entries_before = self.indexer@;
        let ghost filters = self.filter_service.filters();
        proof {
            assert(seen_before.len() <= storage@.len());
        }
        let new_len = storage.len();
        proof {
            assert(new_len as int == storage@.len());
        }
        let batch = self.filter_service.on_notify(storage);
        self.indexer.index_batch(batch);
        self.seen = Ghost(storage@);
        proof {
            broadcast use vstd::seq_lib::group_to_multiset_ensures;
            broadcast use vstd::multiset::group_multiset_axioms;

            let n1 = seen_before.len() as int;
            let n2 = storage@.len() as int;
            lemma_filter_range_prefix(seen_before, storage@, 0, n1, filters);
            lemma_filter_range_concat(storage@, 0, n1, n2, filters);
            lemma_multiset_commutative(
                spec_filter_range(storage@, 0, n1, filters),
                spec_filter_range(storage@, n1, n2, filters),
            );
            lemma_filter_range_entries(storage@, n1, n2, filters);
            let fresh = spec_filter_range(storage@, n1, n2, filters);
            assert forall|j: int|
                0 <= j < self.indexer@.len() implies (#[trigger] self.indexer@[j]).event_index
                < storage@.len() && self.indexer@[j].event_timestamp
                == storage@[self.indexer@[j].event_index as int].event.date by {
                let e = self.indexer@[j];
                assert(self.indexer@.contains(e));
                assert(self.indexer@.to_multiset().count(e) > 0);
                assert(entries_before.to_multiset().count(e) + fresh.to_multiset().count(e) > 0);
                if entries_before.to_multiset().count(e) > 0 {
                    assert(entries_before.contains(e));
                    let k = choose|k: int|
                        0 <= k < entries_before.len() && entries_before[k] == e;
                    assert(e.event_index < seen_before.len());
                    assert(seen_before[e.event_index as int] == storage@[e.event_index as int]);
                } else {
                    assert(fresh.to_multiset().count(e) > 0);
                    assert(fresh.contains(e));
                    let k = choose|k: int| 0 <= k < fresh.len() && fresh[k] == e;
                    assert(fresh[k] == e);
                }
            }
        }
    }
}

/// The display layer's row access: the `i`-th index entry together with a
/// stable reference to the event it names. The entry is a sound weak
/// reference, so the fetched event carries exactly the entry's timestamp.
pub fn read_row<'a>(controller: &IndexerController, storage: &'a EventStorage, i: usize) -> (r: (
    IndexData,
    &'a KmMessage,
))
    requires
        controller.wf(),
        storage.wf(),
        controller.seen().is_prefix_of(storage@),
        i < controller.entries().len(),
    ensures
        r.0 == controller.entries()[i as int],
        *r.1 == storage@[r.0.event_index as int],
        r.1.event.date == r.0.event_timestamp,
{
    let entry = controller.entry(i);
    proof {
        assert(controller.seen()[entry.event_index as int] == storage@[
            entry.event_index as int
        ]);
    }
    let event = storage.read_event(entry.event_index);
    (entry, event)
}

/// Index time-order at the facade: anywhere in the controller's view, an
/// earlier entry's timestamp is at most a later entry's.
pub proof fn lemma_controller_time_order(controller: IndexerController, a: int, b: int)
    requires
        controller.wf(),
        0 <= a < b < controller.entries().len(),
    ensures
        controller.entries()[a].event_timestamp <= controller.entries()[b].event_timestamp,
{
}

/// Index completeness under the empty filter set: once the controller has
/// seen the whole log, its entries are — as a multiset — exactly one entry
/// per log position, carrying that event's timestamp.
pub proof fn lemma_index_completeness(controller: IndexerController)
    requires
        controller.wf(),
        controller.seen().len() <= usize::MAX,
        controller.filters() == Seq::<SimpleFilter>::empty(),
    ensures
        controller.entries().to_multiset() == Seq::new(
            controller.seen().len(),
            |k: int|
                IndexData {
                    event_timestamp: controller.seen()[k].event.date,
                    event_index: k as usize,
                },
        ).to_multiset(),
{
    let events = controller.seen();
    let n = events.len();
    lemma_filter_range_top(events, 0, n as int);
    assert(Seq::new(
        n,
        |k: int| IndexData { event_timestamp: events[0 + k].event.date, event_index: (0
            + k) as usize },
    ) =~= Seq::new(
        n,
        |k: int| IndexData { event_timestamp: events[k].event.date, event_index: k as usize },
    ));
}

} // verus!
