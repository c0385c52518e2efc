use procmon::filters::SimpleFilter;
use procmon::messages::{
    EventClass, EventCompoent, EventRegistryOperation, EventStack, KmMessage,
    SerializableNtString, SimpleProcessDetails,
};
use procmon::notifier::NotificationBus;
use procmon::services::{
    split_into_batches, store_batch, EventIndexerService, EventStorage, IndexData,
    IndexerController,
};

fn message(pid: u64, date: u64) -> KmMessage {
    KmMessage {
        event: EventCompoent {
            date,
            thread: 1,
            operation: EventClass::Registry(EventRegistryOperation::Open()),
            result: 0,
            path: SerializableNtString::empty(),
            duration: 0,
        },
        process: SimpleProcessDetails { pid, unique_id: pid },
        stack: EventStack {},
    }
}

fn collect_all(controller: &IndexerController) -> Vec<IndexData> {
    let mut out = Vec::new();
    controller.collect_indicies_into(0, controller.num_events(), &mut out);
    out
}

#[test]
fn single_writer_ten_thousand_events() {
    // One producer appends 10 000 events with timestamps 1000, 2000, ...
    let mut storage = EventStorage::new();
    let mut bus = NotificationBus::new();
    let mut controller = IndexerController::new(Vec::new());
    for i in 0..10_000u64 {
        store_batch(&mut storage, &mut bus, vec![message(7, (i + 1) * 1000)]);
    }
    controller.on_notify(&storage);
    assert_eq!(storage.len(), 10_000);
    assert_eq!(controller.num_events(), 10_000);
    let entries = collect_all(&controller);
    for (i, entry) in entries.iter().enumerate() {
        assert_eq!(entry.event_index, i);
        assert_eq!(entry.event_timestamp, (i as u64 + 1) * 1000);
    }
}

#[test]
fn interleaved_writers_index_stays_sorted_and_complete() {
    // Eight simulated writers append 1000 events each with pseudo-random
    // timestamps; the indexer must end up sorted with every index present.
    let mut storage = EventStorage::new();
    let mut bus = NotificationBus::new();
    let mut controller = IndexerController::new(Vec::new());
    let mut seed: u64 = 0x2545F4914F6CDD1D;
    let mut batches: Vec<Vec<KmMessage>> = vec![Vec::new(); 8];
    for round in 0..1000 {
        for writer in 0..8 {
            seed = seed.wrapping_mul(6364136223846793005).wrapping_add(1442695040888963407);
            let ts = 1 + seed % 1_000_000;
            batches[writer].push(message(writer as u64, ts));
            let _ = round;
        }
    }
    for batch in batches {
        store_batch(&mut storage, &mut bus, batch);
        controller.on_notify(&storage);
    }
    assert_eq!(storage.len(), 8000);
    assert_eq!(controller.num_events(), 8000);
    let entries = collect_all(&controller);
    for pair in entries.windows(2) {
        assert!(pair[0].event_timestamp <= pair[1].event_timestamp);
    }
    let mut indices: Vec<usize> = entries.iter().map(|e| e.event_index).collect();
    indices.sort();
    for (i, index) in indices.iter().enumerate() {
        assert_eq!(*index, i);
    }
}

#[test]
fn filter_pid_42_keeps_exactly_its_events() {
    // 1000 events with pid 1..=100 round-robin; pid 42 occurs 10 times.
    let mut storage = EventStorage::new();
    let mut bus = NotificationBus::new();
    let mut controller = IndexerController::new(vec![SimpleFilter::FilterPid(42)]);
    let mut batch = Vec::new();
    for i in 0..1000u64 {
        batch.push(message(1 + i % 100, 10 + i));
    }
    store_batch(&mut storage, &mut bus, batch);
    controller.on_notify(&storage);
    assert_eq!(controller.num_events(), 10);
    for entry in collect_all(&controller) {
        assert_eq!(storage.read_event(entry.event_index).process.pid, 42);
    }
}

#[test]
fn conjunction_of_filters() {
    let mut storage = EventStorage::new();
    let mut bus = NotificationBus::new();
    let mut controller = IndexerController::new(vec![
        SimpleFilter::FilterPidLessEq(5),
        SimpleFilter::FilterPid(3),
    ]);
    let mut batch = Vec::new();
    for pid in 0..10u64 {
        batch.push(message(pid, pid));
    }
    store_batch(&mut storage, &mut bus, batch);
    controller.on_notify(&storage);
    // Only pid 3 passes both filters.
    let entries = collect_all(&controller);
    assert_eq!(entries.len(), 1);
    assert_eq!(storage.read_event(entries[0].event_index).process.pid, 3);
}

#[test]
fn change_filters_rebuilds_the_index() {
    let mut storage = EventStorage::new();
    let mut bus = NotificationBus::new();
    let mut controller = IndexerController::new(Vec::new());
    store_batch(&mut storage, &mut bus, vec![message(1, 1), message(2, 2)]);
    controller.on_notify(&storage);
    assert_eq!(controller.num_events(), 2);
    controller.change_filters(vec![SimpleFilter::FilterPid(2)]);
    assert_eq!(controller.num_events(), 0);
    controller.on_notify(&storage);
    assert_eq!(controller.num_events(), 1);
}

#[test]
fn equal_timestamps_keep_insertion_order() {
    // Within one merge, entries of equal timestamp stay in arrival order.
    let mut indexer = EventIndexerService::new();
    indexer.index_batch(vec![
        IndexData { event_timestamp: 5, event_index: 0 },
        IndexData { event_timestamp: 5, event_index: 1 },
        IndexData { event_timestamp: 5, event_index: 2 },
    ]);
    let mut out = Vec::new();
    indexer.collect_indicies_into(0, indexer.len(), &mut out);
    let indices: Vec<usize> = out.iter().map(|e| e.event_index).collect();
    assert_eq!(indices, vec![0, 1, 2]);
}

#[test]
fn late_entries_are_inserted_before_visible_tail() {
    let mut indexer = EventIndexerService::new();
    indexer.index_batch(vec![
        IndexData { event_timestamp: 100, event_index: 0 },
        IndexData { event_timestamp: 300, event_index: 1 },
    ]);
    indexer.index_batch(vec![IndexData { event_timestamp: 200, event_index: 2 }]);
    let mut out = Vec::new();
    indexer.collect_indicies_into(0, indexer.len(), &mut out);
    let timestamps: Vec<u64> = out.iter().map(|e| e.event_timestamp).collect();
    assert_eq!(timestamps, vec![100, 200, 300]);
}

#[test]
fn batches_cover_the_range_in_bounded_pieces() {
    let batches = split_into_batches(100, 1300, 512);
    assert_eq!(batches[0].0, 100);
    assert_eq!(batches[batches.len() - 1].1, 1300);
    for pair in batches.windows(2) {
        assert_eq!(pair[0].1, pair[1].0);
    }
    for (start, end) in &batches {
        assert!(start < end && end - start <= 512);
    }
    assert!(split_into_batches(9, 9, 512).is_empty());
}

#[test]
fn new_entries_land_after_existing_equals() {
    // Across merges: a new entry of an already-present timestamp goes
    // after the entries that carry it, never before.
    let mut indexer = EventIndexerService::new();
    indexer.index_batch(vec![IndexData { event_timestamp: 5, event_index: 0 }]);
    indexer.index_batch(vec![IndexData { event_timestamp: 5, event_index: 1 }]);
    indexer.index_batch(vec![
        IndexData { event_timestamp: 4, event_index: 2 },
        IndexData { event_timestamp: 5, event_index: 3 },
    ]);
    let mut out = Vec::new();
    indexer.collect_indicies_into(0, indexer.len(), &mut out);
    let indices: Vec<usize> = out.iter().map(|e| e.event_index).collect();
    assert_eq!(indices, vec![2, 0, 1, 3]);
}
