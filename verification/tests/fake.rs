use procmon::communication::CommunicationInterface;
use procmon::event_reader::EventReader;
use procmon::fake_communication::FakeCommunication;
use procmon::framing::CommunicationError;
use procmon::messages::{get_communication_port_name, KmReplyMessage, UmSendMessage};
use procmon::time::{filetime_to_unix, unix_micros_to_filetime, EPOCH_DIFFERENCE, TICKS_PER_SEC};

#[test]
fn fabricated_batches_respect_their_bounds() {
    let source = FakeCommunication::new();
    let now = 123_456_789_000u64;
    for _ in 0..3 {
        let events = source.generate_random_events(now);
        assert!(events.len() >= 100 && events.len() <= 500);
        for event in &events {
            assert_eq!(event.event.date, now);
            assert!(event.process.pid < 400);
            assert_eq!(event.process.unique_id, event.process.pid);
            assert!(event.event.result >= -1 && event.event.result <= 1);
            assert!(!event.event.path.0.is_empty());
        }
    }
}

#[test]
fn name_lookup_answers_synthetically() {
    let mut source = FakeCommunication::new();
    match source.send_message_blocking(&UmSendMessage::GetExeName(42)) {
        Ok(Some(KmReplyMessage::ExeName(name))) => {
            assert_eq!(name.0, "Process42.exe".encode_utf16().collect::<Vec<u16>>());
        },
        _ => panic!("expected a synthetic name"),
    }
    match source.send_message_blocking(&UmSendMessage::GetExeName(0)) {
        Ok(Some(KmReplyMessage::ExeName(name))) => {
            assert_eq!(name.0, "Process0.exe".encode_utf16().collect::<Vec<u16>>());
        },
        _ => panic!("expected a synthetic name"),
    }
}

#[test]
fn metadata_lookup_fails_with_a_port_error() {
    let mut source = FakeCommunication::new();
    match source.send_message_blocking(&UmSendMessage::GetProcessInfo(1)) {
        Err(CommunicationError::Port) => (),
        _ => panic!("expected a port error"),
    }
}

#[test]
fn stop_flag_is_observed() {
    let mut source = FakeCommunication::new();
    assert!(!source.is_stopped());
    source.stop();
    assert!(source.is_stopped());
}

#[test]
fn filetime_conversion_is_exact() {
    let filetime = EPOCH_DIFFERENCE * TICKS_PER_SEC + 5 * TICKS_PER_SEC + 3;
    let (secs, nanos) = filetime_to_unix(filetime);
    assert_eq!(secs, 5);
    assert_eq!(nanos, 300);
    assert_eq!(unix_micros_to_filetime(0), EPOCH_DIFFERENCE * TICKS_PER_SEC);
    assert_eq!(unix_micros_to_filetime(7), EPOCH_DIFFERENCE * TICKS_PER_SEC + 70);
}

#[test]
fn placeholder_reader_renders_the_index() {
    let reader = EventReader {};
    let event = reader.get(907).unwrap();
    assert_eq!(event.id, 907);
    assert_eq!(event.timestamp, 1234);
    assert_eq!(event.name, "907".encode_utf16().collect::<Vec<u16>>());
}

#[test]
fn port_name_is_the_well_known_one() {
    let name = get_communication_port_name();
    assert_eq!(name, "\\PROCMONPORT".encode_utf16().collect::<Vec<u16>>());
}
