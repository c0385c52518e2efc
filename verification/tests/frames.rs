use procmon::communication::parse_reply_frame;
use procmon::codec::encode_km_reply;
use procmon::framing::{CommunicationError, FilterMessageBuffer, FilterReplyBuffer, FRAMING_HEADER_SIZE};
use procmon::messages::{KmReplyMessage, SerializableNtString};

#[test]
fn received_frame_splits_into_header_and_payload() {
    let mut buffer = FilterMessageBuffer::new(64);
    {
        let raw = buffer.mut_buffer();
        // reply_length = 0x11223344, little-endian, at offset 0.
        raw[0] = 0x44;
        raw[1] = 0x33;
        raw[2] = 0x22;
        raw[3] = 0x11;
        // message_id = 0x0102030405060708, little-endian, at offset 8.
        for (i, byte) in [8u8, 7, 6, 5, 4, 3, 2, 1].iter().enumerate() {
            raw[8 + i] = *byte;
        }
        raw[16] = 0xAA;
        raw[17] = 0xBB;
    }
    let (header, payload) = buffer.as_parsed(18).unwrap();
    assert_eq!(header.reply_length, 0x11223344);
    assert_eq!(header.message_id, 0x0102030405060708);
    assert_eq!(payload, &[0xAA, 0xBB]);
}

#[test]
fn undersized_frame_has_no_header() {
    let buffer = FilterMessageBuffer::new(64);
    assert!(buffer.as_parsed(FRAMING_HEADER_SIZE - 1).is_none());
}

#[test]
fn reply_envelope_carries_status_and_correlation_id() {
    let mut reply = FilterReplyBuffer::new(32);
    reply.construct_reply(0x0102030405060708, -1073741823);
    let bytes = reply.as_buffer();
    // NTSTATUS 0xC0000001 little-endian, then padding, then the id.
    assert_eq!(&bytes[0..4], &[0x01, 0x00, 0x00, 0xC0]);
    assert_eq!(&bytes[8..16], &[8, 7, 6, 5, 4, 3, 2, 1]);
    // The payload area is untouched.
    assert!(bytes[16..].iter().all(|b| *b == 0));
    assert_eq!(bytes.len(), 32);
}

#[test]
fn reply_frames_parse_exactly() {
    // No bytes: no semantic reply.
    assert_eq!(parse_reply_frame(&[], 0), Ok(None));
    // A valid encoding is the reply.
    let reply = KmReplyMessage::ExeName(SerializableNtString::new(vec![97, 98]));
    let bytes = encode_km_reply(&reply);
    assert_eq!(parse_reply_frame(&bytes, bytes.len()), Ok(Some(reply)));
    // Anything else is a parse error.
    assert_eq!(
        parse_reply_frame(&[0xFF, 0xFF, 0xFF], 3),
        Err(CommunicationError::Parsing)
    );
}
