use procmon::communication::{reply_to_exe_name, reply_to_process_info};
use procmon::messages::{KmReplyMessage, ProcessInformation, SerializableNtString};
use procmon::process_cache::{CacheLookup, ProcessCache};
use procmon::process_manager::{ProcessCacheEntry, ProcessCacheInformation, ProcessManager};

fn utf16(text: &str) -> SerializableNtString {
    SerializableNtString::new(text.encode_utf16().collect())
}

fn info(path: &str, uid: u64) -> ProcessInformation {
    ProcessInformation {
        path: utf16(path),
        cmd: None,
        pid: uid,
        parent_pid: 0,
        start_time: 0,
        end_time: None,
        unique_id: uid,
    }
}

#[test]
fn miss_then_hit_then_stable() {
    let mut manager = ProcessManager::new();
    // First lookup misses and queues the id.
    assert!(matches!(manager.try_get_async(9), ProcessCacheEntry::Miss));
    // The worker takes exactly that id and records the kernel's answer.
    assert_eq!(manager.next_request(), Some(9));
    manager.resolve_request(9, Some(info("a.exe", 9)));
    // Every later lookup hits with the same value.
    for _ in 0..3 {
        match manager.try_get_async(9) {
            ProcessCacheEntry::Hit(Some(record)) => {
                assert_eq!(record.get_info().path, utf16("a.exe"));
                let name: Vec<u16> = record.get_process_name().clone();
                assert_eq!(name, "a.exe".encode_utf16().collect::<Vec<u16>>());
            },
            _ => panic!("expected a positive hit"),
        }
    }
    // No second kernel request is ever issued for the same id.
    assert_eq!(manager.next_request(), None);
}

#[test]
fn duplicate_misses_cause_one_request() {
    let mut manager = ProcessManager::new();
    for _ in 0..4 {
        assert!(matches!(manager.try_get_async(5), ProcessCacheEntry::Miss));
    }
    assert_eq!(manager.next_request(), Some(5));
    manager.resolve_request(5, None);
    // The queued duplicates are all answered by the cache now.
    assert_eq!(manager.next_request(), None);
}

#[test]
fn negative_answers_are_cached_and_never_change() {
    let mut manager = ProcessManager::new();
    assert!(matches!(manager.try_get_async(3), ProcessCacheEntry::Miss));
    manager.resolve_request(3, None);
    assert!(matches!(manager.try_get_async(3), ProcessCacheEntry::Hit(None)));
    // A later, different answer for the same id is ignored.
    manager.resolve_request(3, Some(info("late.exe", 3)));
    assert!(matches!(manager.try_get_async(3), ProcessCacheEntry::Hit(None)));
}

#[test]
fn exe_name_is_the_suffix_after_the_last_separator() {
    let record = ProcessCacheInformation::new(info("C:\\dir/sub\\app.exe", 1));
    let name: Vec<u16> = record.get_process_name().clone();
    assert_eq!(name, "app.exe".encode_utf16().collect::<Vec<u16>>());

    let record = ProcessCacheInformation::new(info("bare", 1));
    let name: Vec<u16> = record.get_process_name().clone();
    assert_eq!(name, "bare".encode_utf16().collect::<Vec<u16>>());

    let record = ProcessCacheInformation::new(info("dir\\", 1));
    assert!(record.get_process_name().is_empty());
}

#[test]
fn name_cache_follows_the_same_protocol() {
    let mut cache = ProcessCache::new();
    assert!(matches!(cache.try_get(11), CacheLookup::Miss));
    assert!(matches!(cache.try_get(11), CacheLookup::Miss));
    assert_eq!(cache.next_request(), Some(11));
    cache.resolve_request(11, Some(utf16("w.exe")));
    match cache.try_get(11) {
        CacheLookup::Hit(Some(name)) => assert_eq!(name, utf16("w.exe")),
        _ => panic!("expected a positive hit"),
    }
    assert_eq!(cache.next_request(), None);
}

#[test]
fn wrong_reply_variant_becomes_a_cached_negative() {
    // A name reply answering a metadata request caches a negative.
    assert_eq!(reply_to_process_info(Some(KmReplyMessage::ExeName(utf16("x")))), None);
    assert_eq!(reply_to_process_info(None), None);
    let i = info("p.exe", 2);
    assert_eq!(reply_to_process_info(Some(KmReplyMessage::ProcessInfo(i.clone()))), Some(i));

    assert_eq!(reply_to_exe_name(Some(KmReplyMessage::ProcessInfo(info("p", 2)))), None);
    assert_eq!(reply_to_exe_name(Some(KmReplyMessage::ExeName(utf16("n")))), Some(utf16("n")));
}

#[test]
fn worker_serves_every_queued_id() {
    // next_request answers None only once every queued id is in the
    // cache, so a worker loop leaves nothing unserved.
    let mut manager = ProcessManager::new();
    for uid in [4u64, 8, 4, 15] {
        let _ = manager.try_get_async(uid);
    }
    let mut served = Vec::new();
    while let Some(uid) = manager.next_request() {
        manager.resolve_request(uid, None);
        served.push(uid);
    }
    served.sort();
    assert_eq!(served, vec![4, 8, 15]);
    for uid in [4u64, 8, 15] {
        assert!(matches!(manager.try_get_async(uid), ProcessCacheEntry::Hit(None)));
    }
}
