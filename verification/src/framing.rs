//! Framing of the port byte stream.
//!
//! A kernel-initiated frame arrives as a fixed 16-byte envelope header —
//! the expected reply length, then the message identifier — followed by a
//! payload of concatenated self-delimiting `KmMessage` records. The reply
//! travels under the same envelope, carrying the correlation id and an
//! NTSTATUS. `KmMessageIterator` walks a payload record by record; a record
//! that does not decode ends the iteration for that batch and the batch's
//! earlier records stand — a malformed frame never takes the channel down.
use vstd::prelude::*;

use crate::codec::{
    decode_km_message, spec_dec_msg, spec_enc_i32, spec_enc_u64, spec_iterate, spec_u32_of,
    spec_u64_of,
};
use crate::messages::KmMessage;

verus! {

/// The error kinds of the transport and framing layer.
#[derive(Clone, Copy, PartialEq, Eq, Structural, Debug)]
pub enum CommunicationError {
    /// A serialized payload did not decode.
    Parsing,
    /// An allocation failed.
    NoMemory,
    /// The port or endpoint failed or is disconnected.
    Port,
    /// A reply arrived with no outstanding request; benign.
    NoWaiterPresent,
    /// A caller-supplied deadline passed before the reply.
    Timeout,
}

/// Something that consumes the decoded records of one received batch.
pub trait MessageProcessor {
    fn process(&self, messages: &mut KmMessageIterator<'_>) -> Result<(), CommunicationError>;
}

/// Something that consumes one raw received buffer and may fill a reply.
pub trait FilterBufferHandler {
    fn handle_buffer(&self, receive_buffer: &[u8], reply_buffer: &mut Vec<u8>) -> Result<
        (),
        CommunicationError,
    >;
}

/// Size of the fixed envelope header, in bytes.
pub const FRAMING_HEADER_SIZE: usize = 16;

/// The envelope header of a kernel-initiated frame: how many reply bytes
/// the kernel expects, and the correlation id the reply must carry.
#[derive(Clone, Copy, PartialEq, Eq, Structural, Debug)]
pub struct FilterMessageHeader {
    pub reply_length: u32,
    pub message_id: u64,
}

/// Walks the `KmMessage` records concatenated in one received payload.
/// Decoding stops at the first malformed record; what was already yielded
/// stands.
pub struct KmMessageIterator<'a> {
    buffer: &'a [u8],
    pos: usize,
}

impl<'a> KmMessageIterator<'a> {
    /// The bytes not yet consumed.
    pub closed spec fn remaining(&self) -> Seq<u8> {
        self.buffer@.skip(self.pos as int)
    }

    /// The position is inside the buffer.
    pub closed spec fn wf(&self) -> bool {
        self.pos <= self.buffer@.len()
    }

    /// Starts an iteration over a payload.
    pub fn new(buffer: &'a [u8]) -> (r: Self)
        ensures
            r.wf(),
            r.remaining() == buffer@,
    {
        proof {
            assert(buffer@.skip(0) =~= buffer@);
        }
        KmMessageIterator { buffer, pos: 0 }
    }

    /// Takes the next record off the front of the remainder: the record
    /// exactly when the remainder starts with a valid encoding, `None` —
    /// consuming nothing — otherwise.
    pub fn next(&mut self) -> (r: Option<KmMessage>)
        requires
            old(self).wf(),
        ensures
            final(self).wf(),
            match r {
                Some(m) => {
                    &&& spec_dec_msg(old(self).remaining()) matches Some((mv, n)) && mv == m@ && n
                        > 0
                    &&& spec_iterate(old(self).remaining()) == seq![m@] + spec_iterate(
                        final(self).remaining(),
                    )
                    &&& final(self).remaining().len() < old(self).remaining().len()
                },
                None => {
                    &&& spec_dec_msg(old(self).remaining()) is None
                    &&& *final(self) == *old(self)
                    &&& spec_iterate(old(self).remaining()) == Seq::<
                        crate::messages::KmMessageV,
                    >::empty()
                },
            },
    {
        match decode_km_message(self.buffer, self.pos) {
            Some((m, next)) => {
                proof {
                    assert(self.buffer@.skip(self.pos as int).skip(next - self.pos) =~= self
                        .buffer@.skip(next as int));
                }
                self.pos = next;
                Some(m)
            },
            None => None,
        }
    }

    /// Decodes every remaining record into a vector: exactly the records
    /// that iteration yields, in order.
    pub fn collect_all(&mut self) -> (r: Vec<KmMessage>)
        requires
            old(self).wf(),
        ensures
            final(self).wf(),
            r@.map_values(|m: KmMessage| m@) == spec_iterate(old(self).remaining()),
    {
        let mut out: Vec<KmMessage> = Vec::new();
        loop
            invariant
                self.wf(),
                spec_iterate(old(self).remaining()) == out@.map_values(|m: KmMessage| m@)
                    + spec_iterate(self.remaining()),
            decreases self.remaining().len(),
        {
            let ghost before = self.remaining();
            let ghost out_before = out@;
            match self.next() {
                Some(m) => {
                    out.push(m);
                    proof {
                        assert(out@.drop_last() =~= out_before);
                        assert(out@.map_values(|m: KmMessage| m@) =~= out_before.map_values(
                            |m: KmMessage| m@,
                        ).push(m@));
                        assert(out@.map_values(|m: KmMessage| m@) + spec_iterate(self.remaining())
                            =~= out_before.map_values(|m: KmMessage| m@) + (seq![m@]
                            + spec_iterate(self.remaining())));
                        assert(before.len() > self.remaining().len());
                    }
                },
                None => {
                    proof {
                        assert(out@.map_values(|m: KmMessage| m@) + spec_iterate(self.remaining())
                            =~= out@.map_values(|m: KmMessage| m@));
                    }
                    return out;
                },
            }
        }
    }
}

/// Decodes one received payload into its leading run of valid records:
/// what one batch contributes to the event log. A malformed record ends
/// the batch without failing it.
pub fn decode_batch(buffer: &[u8]) -> (r: Vec<KmMessage>)
    ensures
        r@.map_values(|m: KmMessage| m@) == spec_iterate(buffer@),
{
    let mut iter = KmMessageIterator::new(buffer);
    iter.collect_all()
}

/// A receive buffer for kernel-initiated frames: the fixed envelope header
/// and room for the largest batch.
pub struct FilterMessageBuffer {
    buffer: Vec<u8>,
}

impl View for FilterMessageBuffer {
    type V = Seq<u8>;

    closed spec fn view(&self) -> Seq<u8> {
        self.buffer@
    }
}

impl FilterMessageBuffer {
    /// Allocates a zeroed receive buffer for payloads of `buffer_size`
    /// bytes.
    pub fn new(buffer_size: usize) -> (r: Self)
        requires
            buffer_size <= usize::MAX - 16,
        ensures
            r@.len() == buffer_size + 16,
            forall|i: int| 0 <= i < r@.len() ==> r@[i] == 0u8,
    {
        let total_size = buffer_size + FRAMING_HEADER_SIZE;
        let mut buffer: Vec<u8> = Vec::new();
        let mut k: usize = 0;
        while k < total_size
            invariant
                k <= total_size,
                buffer@.len() == k,
                forall|i: int| 0 <= i < k ==> buffer@[i] == 0u8,
            decreases total_size - k,
        {
            buffer.push(0u8);
            k = k + 1;
        }
        FilterMessageBuffer { buffer }
    }

    /// The raw buffer, for the receive call to fill.
    pub fn mut_buffer(&mut self) -> (r: &mut Vec<u8>)
        ensures
            r@ == old(self)@,
            final(self)@ == final(r)@,
    {
        &mut self.buffer
    }

    /// Splits a received frame of `msg_size` bytes into its envelope
    /// header and its payload.
    pub fn as_parsed(&self, msg_size: usize) -> (r: Option<(FilterMessageHeader, &[u8])>)
        requires
            msg_size <= self@.len(),
        ensures
            match r {
                Some((header, payload)) => {
                    &&& msg_size >= 16
                    &&& header.reply_length == spec_u32_of(self@.subrange(0, 4))
                    &&& header.message_id == spec_u64_of(self@.subrange(8, 16))
                    &&& payload@ == self@.subrange(16, msg_size as int)
                },
                None => msg_size < 16,
            },
    {
        if msg_size < FRAMING_HEADER_SIZE {
            return None;
        }
        let header = parse_framing_header(&self.buffer);
        let payload = vstd::slice::slice_subrange(
            self.buffer.as_slice(),
            FRAMING_HEADER_SIZE,
            msg_size,
        );
        Some((header, payload))
    }
}

/// Reads the envelope header off the front of a frame.
fn parse_framing_header(buf: &Vec<u8>) -> (r: FilterMessageHeader)
    requires
        buf@.len() >= 16,
    ensures
        r.reply_length == spec_u32_of(buf@.subrange(0, 4)),
        r.message_id == spec_u64_of(buf@.subrange(8, 16)),
{
    let reply_length = (buf[0] as u32) | ((buf[1] as u32) << 8u32) | ((buf[2] as u32) << 16u32) | (
    (buf[3] as u32) << 24u32);
    let message_id = (buf[8] as u64) | ((buf[9] as u64) << 8u64) | ((buf[10] as u64) << 16u64) | ((
    buf[11] as u64) << 24u64) | ((buf[12] as u64) << 32u64) | ((buf[13] as u64) << 40u64) | ((
    buf[14] as u64) << 48u64) | ((buf[15] as u64) << 56u64);
    proof {
        assert(buf@.subrange(0, 4) =~= seq![buf@[0], buf@[1], buf@[2], buf@[3]]);
        assert(buf@.subrange(8, 16) =~= seq![
            buf@[8],
            buf@[9],
            buf@[10],
            buf@[11],
            buf@[12],
            buf@[13],
            buf@[14],
            buf@[15],
        ]);
    }
    FilterMessageHeader { reply_length, message_id }
}

/// A reply buffer: the reply envelope — NTSTATUS, then the correlation id
/// — is written over its first 16 bytes before it is handed back.
pub struct FilterReplyBuffer {
    buffer: Vec<u8>,
}

impl View for FilterReplyBuffer {
    type V = Seq<u8>;

    closed spec fn view(&self) -> Seq<u8> {
        self.buffer@
    }
}

impl FilterReplyBuffer {
    /// Allocates a zeroed reply buffer of `buffer_size` bytes.
    pub fn new(buffer_size: usize) -> (r: Self)
        ensures
            r@.len() == buffer_size,
            forall|i: int| 0 <= i < r@.len() ==> r@[i] == 0u8,
    {
        let mut buffer: Vec<u8> = Vec::new();
        let mut k: usize = 0;
        while k < buffer_size
            invariant
                k <= buffer_size,
                buffer@.len() == k,
                forall|i: int| 0 <= i < k ==> buffer@[i] == 0u8,
            decreases buffer_size - k,
        {
            buffer.push(0u8);
            k = k + 1;
        }
        FilterReplyBuffer { buffer }
    }

    /// The finished reply frame, ready to send.
    pub fn as_buffer(&self) -> (r: &[u8])
        ensures
            r@ == self@,
    {
        self.buffer.as_slice()
    }

    /// Writes the reply envelope: the NTSTATUS outcome and the correlation
    /// id of the frame being answered. The payload bytes are untouched.
    pub fn construct_reply(&mut self, message_id: u64, status: i32)
        requires
            old(self)@.len() >= 16,
        ensures
            final(self)@.len() == old(self)@.len(),
            final(self)@.subrange(0, 4) == spec_enc_i32(status),
            final(self)@.subrange(8, 16) == spec_enc_u64(message_id),
            forall|i: int| 16 <= i < old(self)@.len() ==> final(self)@[i] == old(self)@[i],
            forall|i: int| 4 <= i < 8 ==> final(self)@[i] == old(self)@[i],
    {
        let status_bits = status as u32;
        self.buffer[0] = status_bits as u8;
        self.buffer[1] = (status_bits >> 8u32) as u8;
        self.buffer[2] = (status_bits >> 16u32) as u8;
        self.buffer[3] = (status_bits >> 24u32) as u8;
        self.buffer[8] = message_id as u8;
        self.buffer[9] = (message_id >> 8u64) as u8;
        self.buffer[10] = (message_id >> 16u64) as u8;
        self.buffer[11] = (message_id >> 24u64) as u8;
        self.buffer[12] = (message_id >> 32u64) as u8;
        self.buffer[13] = (message_id >> 40u64) as u8;
        self.buffer[14] = (message_id >> 48u64) as u8;
        self.buffer[15] = (message_id >> 56u64) as u8;
        proof {
            assert(self@.subrange(0, 4) =~= spec_enc_i32(status));
            assert(self@.subrange(8, 16) =~= spec_enc_u64(message_id));
        }
    }
}

} // verus!
