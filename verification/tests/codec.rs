use procmon::codec::{
    decode_client_connect, decode_km_message, decode_km_reply, decode_um_send,
    encode_client_connect, encode_km_message, encode_km_reply, encode_um_send,
};
use procmon::framing::{decode_batch, KmMessageIterator};
use procmon::services::EventStorage;
use procmon::messages::{
    ClientConnectMessage, EventClass, EventCompoent, EventFileSystemOperation,
    EventProcessOperation, EventStack, KmMessage, KmReplyMessage, ProcessInformation,
    SerializableNtString, SimpleProcessDetails, UmSendMessage,
};

fn utf16(text: &str) -> SerializableNtString {
    SerializableNtString::new(text.encode_utf16().collect())
}

fn sample_message() -> KmMessage {
    KmMessage {
        event: EventCompoent {
            date: 0x0123456789ABCDEF,
            thread: 42,
            operation: EventClass::Process(EventProcessOperation::ProcessCreate {
                pid: 7,
                cmd: Some(utf16("run --fast")),
            }),
            result: -1073741824,
            path: utf16("C:\\Windows\\explorer.exe"),
            duration: 5555,
        },
        process: SimpleProcessDetails { pid: 7, unique_id: 99 },
        stack: EventStack {},
    }
}

fn fs_message(op: EventFileSystemOperation) -> KmMessage {
    KmMessage {
        event: EventCompoent {
            date: 10,
            thread: 2,
            operation: EventClass::FileSystem(op),
            result: 0,
            path: utf16("x"),
            duration: 1,
        },
        process: SimpleProcessDetails { pid: 1, unique_id: 1 },
        stack: EventStack {},
    }
}

#[test]
fn round_trip_process_create() {
    let message = sample_message();
    let bytes = encode_km_message(&message);
    let (decoded, consumed) = decode_km_message(&bytes, 0).unwrap();
    assert_eq!(consumed, bytes.len());
    assert_eq!(decoded, message);
}

#[test]
fn round_trip_every_filesystem_variant() {
    let variants = vec![
        EventFileSystemOperation::Create { attribute: 0x8000 },
        EventFileSystemOperation::Read { length: 4096, offset: -1 },
        EventFileSystemOperation::Write { length: 1, offset: i64::MIN },
        EventFileSystemOperation::Cleanup {},
        EventFileSystemOperation::Close {},
        EventFileSystemOperation::QueryFileInfo { info_class: 5, buffer_len: 64 },
        EventFileSystemOperation::SetFileInfo { info_class: 9, length: 32 },
        EventFileSystemOperation::AcquireForSectionSync {
            sync_type: 1,
            page_protection: 2,
            flags: 3,
            allocation_attributes: 4,
        },
    ];
    for op in variants {
        let message = fs_message(op);
        let bytes = encode_km_message(&message);
        let (decoded, consumed) = decode_km_message(&bytes, 0).unwrap();
        assert_eq!(consumed, bytes.len());
        assert_eq!(decoded, message);
    }
}

#[test]
fn exact_request_bytes() {
    // Tag byte, then the id as eight little-endian bytes.
    let bytes = encode_um_send(&UmSendMessage::GetProcessInfo(0x0102030405060708));
    assert_eq!(bytes, vec![0u8, 0x08, 0x07, 0x06, 0x05, 0x04, 0x03, 0x02, 0x01]);
    let bytes = encode_um_send(&UmSendMessage::GetExeName(2));
    assert_eq!(bytes, vec![1u8, 2, 0, 0, 0, 0, 0, 0, 0]);
}

#[test]
fn exact_empty_string_encoding() {
    // An empty path is a zero-length prefix and nothing else.
    let bytes = encode_km_reply(&KmReplyMessage::ExeName(SerializableNtString::empty()));
    assert_eq!(bytes, vec![1u8, 0, 0, 0, 0]);
}

#[test]
fn round_trip_replies() {
    let info = ProcessInformation {
        path: utf16("C:\\a.exe"),
        cmd: None,
        pid: 4,
        parent_pid: 1,
        start_time: 1000,
        end_time: Some(2000),
        unique_id: 77,
    };
    let reply = KmReplyMessage::ProcessInfo(info);
    let bytes = encode_km_reply(&reply);
    let (decoded, consumed) = decode_km_reply(&bytes, 0).unwrap();
    assert_eq!(consumed, bytes.len());
    assert_eq!(decoded, reply);

    let reply = KmReplyMessage::ExeName(utf16("explorer.exe"));
    let bytes = encode_km_reply(&reply);
    let (decoded, _) = decode_km_reply(&bytes, 0).unwrap();
    assert_eq!(decoded, reply);
}

#[test]
fn round_trip_requests_and_connect() {
    for message in [UmSendMessage::GetProcessInfo(9), UmSendMessage::GetExeName(u64::MAX)] {
        let bytes = encode_um_send(&message);
        let (decoded, consumed) = decode_um_send(&bytes, 0).unwrap();
        assert_eq!(consumed, bytes.len());
        assert_eq!(decoded, message);
    }
    for message in [
        ClientConnectMessage::Any,
        ClientConnectMessage::Testing { filter_pid: 42 },
    ] {
        let bytes = encode_client_connect(&message);
        let (decoded, consumed) = decode_client_connect(&bytes, 0).unwrap();
        assert_eq!(consumed, bytes.len());
        assert_eq!(decoded, message);
    }
}

#[test]
fn concatenated_records_come_back_in_order() {
    let first = sample_message();
    let second = fs_message(EventFileSystemOperation::Close {});
    let mut buffer = encode_km_message(&first);
    buffer.extend_from_slice(&encode_km_message(&second));
    let decoded = decode_batch(&buffer);
    assert_eq!(decoded, vec![first, second]);
}

#[test]
fn iterator_stops_at_garbage_and_keeps_earlier_records() {
    // Within one payload, iteration ends at the first malformed record.
    let first = sample_message();
    let mut buffer = encode_km_message(&first);
    buffer.push(0xFF);  // no operation union carries this tag
    buffer.extend_from_slice(&encode_km_message(&fs_message(
        EventFileSystemOperation::Close {},
    )));
    let decoded = decode_batch(&buffer);
    assert_eq!(decoded, vec![first]);
}

#[test]
fn truncated_record_does_not_decode() {
    let bytes = encode_km_message(&sample_message());
    for cut in [0usize, 1, 8, bytes.len() - 1] {
        assert!(decode_km_message(&bytes[..cut], 0).is_none());
    }
}

#[test]
fn iterator_yields_then_exhausts() {
    let message = sample_message();
    let buffer = encode_km_message(&message);
    let mut iter = KmMessageIterator::new(&buffer);
    assert_eq!(iter.next(), Some(message));
    assert_eq!(iter.next(), None);
    assert_eq!(iter.next(), None);
}

#[test]
fn malformed_frame_leaves_channel_and_log_sound() {
    // Three receives arrive: a decodable record, a garbage record, a
    // decodable record. The garbage frame contributes nothing, the two
    // good ones land, so the log grows by exactly 2 and nothing panics.
    let mut storage = EventStorage::new();
    let frames: Vec<Vec<u8>> = vec![
        encode_km_message(&sample_message()),
        vec![0xDE, 0xAD, 0xBE, 0xEF],
        encode_km_message(&fs_message(EventFileSystemOperation::Cleanup {})),
    ];
    for frame in frames {
        let records = decode_batch(&frame);
        storage.push_events(records);
    }
    assert_eq!(storage.len(), 2);
    assert_eq!(storage.read_event(0), &sample_message());
    assert_eq!(
        storage.read_event(1),
        &fs_message(EventFileSystemOperation::Cleanup {})
    );
}
