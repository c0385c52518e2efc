//! The capability interface to the kernel channel, and the decisions made
//! over its replies.
//!
//! A communication backend — the real port, a fake, a test child — offers
//! one synchronous request/reply call and a stop signal. The blocking
//! receive loop that feeds the pipeline lives with the backend's I/O; what
//! stands here is the logic around the bytes: framing a request, parsing a
//! reply frame, and mapping an absent or ill-matched reply to a cached
//! negative, never to a display error.
use vstd::prelude::*;

use crate::codec::{decode_km_reply, encode_um_send, spec_dec_km_reply, spec_enc_um_send};
use crate::framing::CommunicationError;
use crate::messages::{KmReplyMessage, ProcessInformation, SerializableNtString, UmSendMessage};

verus! {

/// What a communication backend offers: a synchronous request/reply
/// round trip and a stop signal. Implementations do the I/O; nothing is
/// promised of them beyond their types.
pub trait CommunicationInterface {
    fn send_message_blocking(&mut self, message: &UmSendMessage) -> Result<
        Option<KmReplyMessage>,
        CommunicationError,
    >;

    fn stop(&mut self);
}

/// Owns a backend for the ingest side and forwards the stop signal to it;
/// the receive threads themselves run outside, against the same backend.
pub struct EventCommunication<C: CommunicationInterface> {
    communication: C,
}

impl<C: CommunicationInterface> EventCommunication<C> {
    /// Wraps a backend.
    pub fn new(communication: C) -> (r: Self) {
        EventCommunication { communication }
    }

    /// Tells the backend to stop delivering batches.
    pub fn stop(&mut self) {
        self.communication.stop();
    }
}

/// Frames one request for the wire.
pub fn build_request_frame(message: &UmSendMessage) -> (r: Vec<u8>)
    ensures
        r@ == spec_enc_um_send(*message),
{
    encode_um_send(message)
}

/// Parses the `reply_size` bytes a request/reply round trip produced: no
/// bytes means no semantic reply, a valid encoding is the reply, and
/// anything else is a parse error.
pub fn parse_reply_frame(buf: &[u8], reply_size: usize) -> (r: Result<
    Option<KmReplyMessage>,
    CommunicationError,
>)
    requires
        reply_size <= buf@.len(),
    ensures
        match r {
            Ok(None) => reply_size == 0,
            Ok(Some(reply)) => reply_size > 0 && (spec_dec_km_reply(
                buf@.subrange(0, reply_size as int),
            ) matches Some((rv, n)) && rv == reply@),
            Err(e) => reply_size > 0 && e == CommunicationError::Parsing && spec_dec_km_reply(
                buf@.subrange(0, reply_size as int),
            ) is None,
        },
{
    if reply_size == 0 {
        return Ok(None);
    }
    let frame = vstd::slice::slice_subrange(buf, 0, reply_size);
    proof {
        assert(frame@.skip(0) =~= frame@);
    }
    match decode_km_reply(frame, 0) {
        Some((reply, _)) => Ok(Some(reply)),
        None => Err(CommunicationError::Parsing),
    }
}

/// Reduces a metadata reply to what the cache stores: the metadata on the
/// expected variant, a cached negative on no reply or any other variant.
pub fn reply_to_process_info(reply: Option<KmReplyMessage>) -> (r: Option<ProcessInformation>)
    ensures
        match reply {
            Some(KmReplyMessage::ProcessInfo(info)) => r matches Some(out) && out == info,
            _ => r is None,
        },
{
    match reply {
        Some(KmReplyMessage::ProcessInfo(info)) => Some(info),
        _ => None,
    }
}

/// Reduces a name reply to what the cache stores: the name on the
/// expected variant, a cached negative on no reply or any other variant.
pub fn reply_to_exe_name(reply: Option<KmReplyMessage>) -> (r: Option<SerializableNtString>)
    ensures
        match reply {
            Some(KmReplyMessage::ExeName(name)) => r matches Some(out) && out == name,
            _ => r is None,
        },
{
    match reply {
        Some(KmReplyMessage::ExeName(name)) => Some(name),
        _ => None,
    }
}

} // verus!
