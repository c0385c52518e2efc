use procmon::event_log::ConcurrentChunkVec;
use procmon::messages::{
    EventClass, EventCompoent, EventRegistryOperation, EventStack, KmMessage,
    SerializableNtString, SimpleProcessDetails,
};
use procmon::services::EventStorage;

fn message(pid: u64, date: u64) -> KmMessage {
    KmMessage {
        event: EventCompoent {
            date,
            thread: 1,
            operation: EventClass::Registry(EventRegistryOperation::Open()),
            result: 0,
            path: SerializableNtString::empty(),
            duration: 7,
        },
        process: SimpleProcessDetails { pid, unique_id: pid },
        stack: EventStack {},
    }
}

#[test]
fn empty_log_has_no_entries() {
    let log: ConcurrentChunkVec<u64> = ConcurrentChunkVec::new(16);
    assert_eq!(log.len(), 0);
    assert!(log.get(0).is_none());
}

#[test]
fn batch_append_is_visible_in_order() {
    let mut log: ConcurrentChunkVec<u64> = ConcurrentChunkVec::new(16);
    assert!(log.acquire_write_inplace(vec![10, 20, 30]));
    assert_eq!(log.len(), 3);
    assert_eq!(log.get(0), Some(&10));
    assert_eq!(log.get(1), Some(&20));
    assert_eq!(log.get(2), Some(&30));
    assert!(log.get(3).is_none());
}

#[test]
fn oversized_batch_is_refused_and_changes_nothing() {
    let mut log: ConcurrentChunkVec<u64> = ConcurrentChunkVec::new(4);
    // Chunk capacity is 4; five elements cannot be reserved in one piece.
    assert!(!log.acquire_write_inplace(vec![1, 2, 3, 4, 5]));
    assert_eq!(log.len(), 0);
    assert!(log.acquire_write_inplace(vec![1, 2, 3, 4]));
    assert_eq!(log.len(), 4);
}

#[test]
fn out_of_order_completion_commits_contiguously() {
    let mut log: ConcurrentChunkVec<u64> = ConcurrentChunkVec::new(16);
    // Two writers reserve in turn; the later one finishes first.
    let first = log.reserve(2);
    let second = log.reserve(3);
    assert_eq!(first, 0);
    assert_eq!(second, 2);

    log.fill_slot(second, 102);
    log.fill_slot(second + 1, 103);
    log.fill_slot(second + 2, 104);
    log.complete(second, 3);
    // The earlier range is still open: nothing may be visible yet.
    assert_eq!(log.len(), 0);
    assert!(log.get(0).is_none());
    assert!(log.get(3).is_none());

    log.fill_slot(first, 100);
    log.fill_slot(first + 1, 101);
    log.complete(first, 2);
    // Both ranges merge at once and the whole prefix becomes visible.
    assert_eq!(log.len(), 5);
    for (i, expected) in [100u64, 101, 102, 103, 104].iter().enumerate() {
        assert_eq!(log.get(i), Some(expected));
    }
}

#[test]
fn committed_entries_never_change() {
    let mut log: ConcurrentChunkVec<u64> = ConcurrentChunkVec::new(8);
    assert!(log.acquire_write_inplace(vec![5, 6]));
    let before: Vec<u64> = (0..2).map(|i| *log.get(i).unwrap()).collect();
    // Later appends, including ones crossing a chunk boundary, leave the
    // committed prefix exactly as it was, and the length never decreases.
    for round in 0..5u64 {
        let len_before = log.len();
        assert!(log.acquire_write_inplace(vec![round; 7]));
        assert!(log.len() >= len_before);
        assert_eq!(*log.get(0).unwrap(), before[0]);
        assert_eq!(*log.get(1).unwrap(), before[1]);
    }
    assert_eq!(log.len(), 2 + 5 * 7);
}

#[test]
fn reservations_partition_the_index_space() {
    let mut log: ConcurrentChunkVec<u64> = ConcurrentChunkVec::new(64);
    // Successive reservations hand out contiguous, disjoint ranges whose
    // union starts at zero.
    let mut expected_offset = 0;
    for count in [3usize, 1, 5, 2] {
        let offset = log.reserve(count);
        assert_eq!(offset, expected_offset);
        expected_offset += count;
        for k in 0..count {
            log.fill_slot(offset + k, (offset + k) as u64);
        }
        log.complete(offset, count);
    }
    assert_eq!(log.len(), 11);
    for i in 0..11 {
        assert_eq!(*log.get(i).unwrap(), i as u64);
    }
}

#[test]
fn event_storage_appends_and_reads_back() {
    let mut storage = EventStorage::new();
    assert_eq!(storage.len(), 0);
    assert!(storage.push_events(vec![message(1, 100), message(2, 200)]));
    assert_eq!(storage.len(), 2);
    assert_eq!(storage.read_event(0).process.pid, 1);
    assert_eq!(storage.read_event(1).event.date, 200);
}
