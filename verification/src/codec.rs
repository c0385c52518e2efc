//! Wire encoding of the kernel-to-user messages.
//!
//! The format is a deterministic compact binary: scalars are fixed-width
//! little-endian, enums carry a one-byte tag before their fields, an
//! `Option` is a one-byte tag (`0` absent, `1` present) followed by the
//! payload, and a UTF-16 string is a little-endian `u32` length prefix
//! followed by its code units, two bytes each; the empty string is a
//! zero-length prefix and nothing else. Every encoding is self-delimiting:
//! decoding returns the number of consumed bytes, so concatenated records
//! can be taken one after another. Decoding and encoding are exact inverses,
//! proved below.
use vstd::prelude::*;

use crate::messages::{
    ClientConnectMessage, EventClass, EventClassV, EventCompoent, EventCompoentV,
    EventFileSystemOperation, EventProcessOperation, EventProcessOperationV,
    EventRegistryOperation, EventStack, KmMessage, KmMessageV, KmReplyMessage, KmReplyMessageV,
    ProcessInformation, ProcessInformationV, SerializableNtString, SimpleProcessDetails,
    UmSendMessage,
};

verus! {

// ---------------------------------------------------------------------
// Little-endian scalars.
// ---------------------------------------------------------------------
/// The two little-endian bytes of `x`.
pub open spec fn spec_enc_u16(x: u16) -> Seq<u8> {
    seq![x as u8, (x >> 8) as u8]
}

/// The four little-endian bytes of `x`.
pub open spec fn spec_enc_u32(x: u32) -> Seq<u8> {
    seq![x as u8, (x >> 8) as u8, (x >> 16) as u8, (x >> 24) as u8]
}

/// The eight little-endian bytes of `x`.
pub open spec fn spec_enc_u64(x: u64) -> Seq<u8> {
    seq![
        x as u8,
        (x >> 8) as u8,
        (x >> 16) as u8,
        (x >> 24) as u8,
        (x >> 32) as u8,
        (x >> 40) as u8,
        (x >> 48) as u8,
        (x >> 56) as u8,
    ]
}

/// An `i32` travels as its two's-complement bit pattern.
pub open spec fn spec_enc_i32(x: i32) -> Seq<u8> {
    spec_enc_u32(x as u32)
}

/// An `i64` travels as its two's-complement bit pattern.
pub open spec fn spec_enc_i64(x: i64) -> Seq<u8> {
    spec_enc_u64(x as u64)
}

/// Recombines two little-endian bytes.
pub open spec fn spec_u16_of(b0: u8, b1: u8) -> u16 {
    (b0 as u16) | ((b1 as u16) << 8)
}

/// Recombines four little-endian bytes.
pub open spec fn spec_u32_of(s: Seq<u8>) -> u32 {
    (s[0] as u32) | ((s[1] as u32) << 8) | ((s[2] as u32) << 16) | ((s[3] as u32) << 24)
}

/// Recombines eight little-endian bytes.
pub open spec fn spec_u64_of(s: Seq<u8>) -> u64 {
    (s[0] as u64) | ((s[1] as u64) << 8) | ((s[2] as u64) << 16) | ((s[3] as u64) << 24) | (
    (s[4] as u64) << 32) | ((s[5] as u64) << 40) | ((s[6] as u64) << 48) | ((s[7] as u64) << 56)
}

/// Reads a `u16` from the front of `s`.
pub open spec fn spec_dec_u16(s: Seq<u8>) -> Option<(u16, int)> {
    if s.len() >= 2 {
        Some((spec_u16_of(s[0], s[1]), 2))
    } else {
        None
    }
}

/// Reads a `u32` from the front of `s`.
pub open spec fn spec_dec_u32(s: Seq<u8>) -> Option<(u32, int)> {
    if s.len() >= 4 {
        Some((spec_u32_of(s.subrange(0, 4)), 4))
    } else {
        None
    }
}

/// Reads a `u64` from the front of `s`.
pub open spec fn spec_dec_u64(s: Seq<u8>) -> Option<(u64, int)> {
    if s.len() >= 8 {
        Some((spec_u64_of(s.subrange(0, 8)), 8))
    } else {
        None
    }
}

proof fn lemma_u16_roundtrip(x: u16)
    ensures
        spec_u16_of(x as u8, (x >> 8) as u8) == x,
{
    assert(((x as u8) as u16) | ((((x >> 8) as u8) as u16) << 8) == x) by (bit_vector);
}

proof fn lemma_u32_roundtrip(x: u32)
    ensures
        spec_u32_of(spec_enc_u32(x)) == x,
{
    assert(((x as u8) as u32) | ((((x >> 8) as u8) as u32) << 8) | ((((x >> 16) as u8) as u32)
        << 16) | ((((x >> 24) as u8) as u32) << 24) == x) by (bit_vector);
}

proof fn lemma_u64_roundtrip(x: u64)
    ensures
        spec_u64_of(spec_enc_u64(x)) == x,
{
    assert(((x as u8) as u64) | ((((x >> 8) as u8) as u64) << 8) | ((((x >> 16) as u8) as u64)
        << 16) | ((((x >> 24) as u8) as u64) << 24) | ((((x >> 32) as u8) as u64) << 32) | ((((x
        >> 40) as u8) as u64) << 40) | ((((x >> 48) as u8) as u64) << 48) | ((((x >> 56) as u8)
        as u64) << 56) == x) by (bit_vector);
}

proof fn lemma_i32_roundtrip(x: i32)
    ensures
        (x as u32) as i32 == x,
{
    assert(((x as u32) as i32) == x) by (bit_vector);
}

proof fn lemma_i64_roundtrip(x: i64)
    ensures
        (x as u64) as i64 == x,
{
    assert(((x as u64) as i64) == x) by (bit_vector);
}

/// Reading a `u16` off its own encoding gives the value back, whatever
/// follows it.
proof fn lemma_dec_enc_u16(x: u16, rest: Seq<u8>)
    ensures
        spec_dec_u16(spec_enc_u16(x) + rest) == Some((x, 2int)),
        (spec_enc_u16(x) + rest).skip(2) == rest,
{
    let s = spec_enc_u16(x) + rest;
    lemma_u16_roundtrip(x);
    assert(s.skip(2) =~= rest);
}

/// Reading a `u32` off its own encoding gives the value back.
proof fn lemma_dec_enc_u32(x: u32, rest: Seq<u8>)
    ensures
        spec_dec_u32(spec_enc_u32(x) + rest) == Some((x, 4int)),
        (spec_enc_u32(x) + rest).skip(4) == rest,
{
    let s = spec_enc_u32(x) + rest;
    assert(s.subrange(0, 4) =~= spec_enc_u32(x));
    lemma_u32_roundtrip(x);
    assert(s.skip(4) =~= rest);
}

/// Two successive skips are one skip of the summed amount.
proof fn lemma_skip_skip(s: Seq<u8>, a: int, b: int)
    requires
        0 <= a,
        0 <= b,
        a + b <= s.len(),
    ensures
        s.skip(a).skip(b) == s.skip(a + b),
{
    assert(s.skip(a).skip(b) =~= s.skip(a + b));
}

/// Reading a `u64` off its own encoding gives the value back.
proof fn lemma_dec_enc_u64(x: u64, rest: Seq<u8>)
    ensures
        spec_dec_u64(spec_enc_u64(x) + rest) == Some((x, 8int)),
        (spec_enc_u64(x) + rest).skip(8) == rest,
{
    let s = spec_enc_u64(x) + rest;
    assert(s.subrange(0, 8) =~= spec_enc_u64(x));
    lemma_u64_roundtrip(x);
    assert(s.skip(8) =~= rest);
}

// ---------------------------------------------------------------------
// UTF-16 strings: u32 length prefix, then two bytes per code unit.
// ---------------------------------------------------------------------
/// The code units of `t`, two little-endian bytes each.
pub open spec fn spec_enc_units(t: Seq<u16>) -> Seq<u8>
    decreases t.len(),
{
    if t.len() == 0 {
        Seq::<u8>::empty()
    } else {
        spec_enc_u16(t[0]) + spec_enc_units(t.drop_first())
    }
}

/// A string fits on the wire when its length fits the `u32` prefix.
pub open spec fn str_encodable(t: Seq<u16>) -> bool {
    t.len() <= 0xffff_ffff
}

/// A whole UTF-16 string: length prefix, then the code units.
#[verifier::opaque]
pub open spec fn spec_enc_str(t: Seq<u16>) -> Seq<u8> {
    spec_enc_u32(t.len() as u32) + spec_enc_units(t)
}

/// The code units read back from the front of `s`.
pub open spec fn spec_units_of(s: Seq<u8>, n: int) -> Seq<u16> {
    Seq::new(n as nat, |i: int| spec_u16_of(s[2 * i], s[2 * i + 1]))
}

/// Reads a length-prefixed UTF-16 string from the front of `s`.
#[verifier::opaque]
pub open spec fn spec_dec_str(s: Seq<u8>) -> Option<(Seq<u16>, int)> {
    match spec_dec_u32(s) {
        None => None,
        Some((len, _)) => if s.len() - 4 >= 2 * (len as int) {
            Some((spec_units_of(s.skip(4), len as int), 4 + 2 * (len as int)))
        } else {
            None
        },
    }
}

proof fn lemma_enc_units_len(t: Seq<u16>)
    ensures
        spec_enc_units(t).len() == 2 * t.len(),
    decreases t.len(),
{
    if t.len() > 0 {
        lemma_enc_units_len(t.drop_first());
    }
}

proof fn lemma_enc_units_bytes(t: Seq<u16>, i: int)
    requires
        0 <= i < t.len(),
    ensures
        spec_enc_units(t)[2 * i] == t[i] as u8,
        spec_enc_units(t)[2 * i + 1] == (t[i] >> 8) as u8,
    decreases t.len(),
{
    lemma_enc_units_len(t);
    if i == 0 {
        lemma_enc_units_len(t.drop_first());
    } else {
        lemma_enc_units_bytes(t.drop_first(), i - 1);
        lemma_enc_units_len(t.drop_first());
        assert(t.drop_first()[i - 1] == t[i]);
    }
}

/// Reading a string off its own encoding gives the same code units back,
/// whatever follows it.
proof fn lemma_dec_enc_str(t: Seq<u16>, rest: Seq<u8>)
    requires
        str_encodable(t),
    ensures
        spec_dec_str(spec_enc_str(t) + rest) == Some((t, 4 + 2 * t.len() as int)),
        (spec_enc_str(t) + rest).skip(4 + 2 * t.len() as int) == rest,
{
    reveal(spec_enc_str);
    reveal(spec_dec_str);
    let s = spec_enc_str(t) + rest;
    lemma_enc_units_len(t);
    assert(s.subrange(0, 4) =~= spec_enc_u32(t.len() as u32));
    lemma_u32_roundtrip(t.len() as u32);
    let units = spec_units_of(s.skip(4), t.len() as int);
    assert forall|i: int| 0 <= i < t.len() implies units[i] == t[i] by {
        lemma_enc_units_bytes(t, i);
        assert(s.skip(4)[2 * i] == spec_enc_units(t)[2 * i]);
        assert(s.skip(4)[2 * i + 1] == spec_enc_units(t)[2 * i + 1]);
        lemma_u16_roundtrip(t[i]);
    }
    assert(units =~= t);
    assert(s.skip(4 + 2 * t.len() as int) =~= rest);
}

// ---------------------------------------------------------------------
// Executable little-endian scalars.
// ---------------------------------------------------------------------
/// Appends the two little-endian bytes of `x`.
fn enc_u16(out: &mut Vec<u8>, x: u16)
    ensures
        final(out)@ == old(out)@ + spec_enc_u16(x),
{
    out.push(x as u8);
    out.push((x >> 8) as u8);
    proof {
        assert(out@ =~= old(out)@ + spec_enc_u16(x));
    }
}

/// Appends the four little-endian bytes of `x`.
fn enc_u32(out: &mut Vec<u8>, x: u32)
    ensures
        final(out)@ == old(out)@ + spec_enc_u32(x),
{
    out.push(x as u8);
    out.push((x >> 8) as u8);
    out.push((x >> 16) as u8);
    out.push((x >> 24) as u8);
    proof {
        assert(out@ =~= old(out)@ + spec_enc_u32(x));
    }
}

/// Appends the eight little-endian bytes of `x`.
fn enc_u64(out: &mut Vec<u8>, x: u64)
    ensures
        final(out)@ == old(out)@ + spec_enc_u64(x),
{
    out.push(x as u8);
    out.push((x >> 8) as u8);
    out.push((x >> 16) as u8);
    out.push((x >> 24) as u8);
    out.push((x >> 32) as u8);
    out.push((x >> 40) as u8);
    out.push((x >> 48) as u8);
    out.push((x >> 56) as u8);
    proof {
        assert(out@ =~= old(out)@ + spec_enc_u64(x));
    }
}

/// Appends the bit pattern of an `i32`.
fn enc_i32(out: &mut Vec<u8>, x: i32)
    ensures
        final(out)@ == old(out)@ + spec_enc_i32(x),
{
    enc_u32(out, x as u32);
}

/// Appends the bit pattern of an `i64`.
fn enc_i64(out: &mut Vec<u8>, x: i64)
    ensures
        final(out)@ == old(out)@ + spec_enc_i64(x),
{
    enc_u64(out, x as u64);
}

/// Reads a `u16` at `pos`.
fn dec_u16(buf: &[u8], pos: usize) -> (r: Option<(u16, usize)>)
    requires
        pos <= buf@.len(),
    ensures
        match r {
            Some((x, next)) => {
                &&& spec_dec_u16(buf@.skip(pos as int)) == Some((x, next - pos))
                &&& pos < next <= buf@.len()
            },
            None => spec_dec_u16(buf@.skip(pos as int)) is None,
        },
{
    if buf.len() - pos < 2 {
        return None;
    }
    let x = spec_u16_combine(buf[pos], buf[pos + 1]);
    proof {
        assert(buf@.skip(pos as int)[0] == buf@[pos as int]);
        assert(buf@.skip(pos as int)[1] == buf@[pos as int + 1]);
    }
    Some((x, pos + 2))
}

/// Recombines two little-endian bytes, executable form.
fn spec_u16_combine(b0: u8, b1: u8) -> (r: u16)
    ensures
        r == spec_u16_of(b0, b1),
{
    (b0 as u16) | ((b1 as u16) << 8u16)
}

/// Reads a `u32` at `pos`.
fn dec_u32(buf: &[u8], pos: usize) -> (r: Option<(u32, usize)>)
    requires
        pos <= buf@.len(),
    ensures
        match r {
            Some((x, next)) => {
                &&& spec_dec_u32(buf@.skip(pos as int)) == Some((x, next - pos))
                &&& pos < next <= buf@.len()
            },
            None => spec_dec_u32(buf@.skip(pos as int)) is None,
        },
{
    if buf.len() - pos < 4 {
        return None;
    }
    let x = (buf[pos] as u32) | ((buf[pos + 1] as u32) << 8u32) | ((buf[pos + 2] as u32) << 16u32)
        | ((buf[pos + 3] as u32) << 24u32);
    proof {
        let s = buf@.skip(pos as int).subrange(0, 4);
        assert(s =~= seq![
            buf@[pos as int],
            buf@[pos as int + 1],
            buf@[pos as int + 2],
            buf@[pos as int + 3],
        ]);
    }
    Some((x, pos + 4))
}

/// Reads a `u64` at `pos`.
fn dec_u64(buf: &[u8], pos: usize) -> (r: Option<(u64, usize)>)
    requires
        pos <= buf@.len(),
    ensures
        match r {
            Some((x, next)) => {
                &&& spec_dec_u64(buf@.skip(pos as int)) == Some((x, next - pos))
                &&& pos < next <= buf@.len()
            },
            None => spec_dec_u64(buf@.skip(pos as int)) is None,
        },
{
    if buf.len() - pos < 8 {
        return None;
    }
    let x = (buf[pos] as u64) | ((buf[pos + 1] as u64) << 8u64) | ((buf[pos + 2] as u64) << 16u64)
        | ((buf[pos + 3] as u64) << 24u64) | ((buf[pos + 4] as u64) << 32u64) | ((buf[pos
        + 5] as u64) << 40u64) | ((buf[pos + 6] as u64) << 48u64) | ((buf[pos + 7] as u64)
        << 56u64);
    proof {
        let s = buf@.skip(pos as int).subrange(0, 8);
        assert(s =~= seq![
            buf@[pos as int],
            buf@[pos as int + 1],
            buf@[pos as int + 2],
            buf@[pos as int + 3],
            buf@[pos as int + 4],
            buf@[pos as int + 5],
            buf@[pos as int + 6],
            buf@[pos as int + 7],
        ]);
    }
    Some((x, pos + 8))
}

// ---------------------------------------------------------------------
// Executable strings.
// ---------------------------------------------------------------------
/// Appends the wire form of a UTF-16 string.
fn enc_str(out: &mut Vec<u8>, t: &SerializableNtString)
    requires
        str_encodable(t@),
    ensures
        final(out)@ == old(out)@ + spec_enc_str(t@),
{
    proof {
        reveal(spec_enc_str);
    }
    enc_u32(out, t.0.len() as u32);
    let mut i: usize = 0;
    while i < t.0.len()
        invariant
            i <= t.0@.len(),
            str_encodable(t.0@),
            out@ == old(out)@ + spec_enc_u32(t.0@.len() as u32) + spec_enc_units(
                t.0@.subrange(0, i as int),
            ),
        decreases t.0@.len() - i,
    {
        let unit = t.0[i];
        enc_u16(out, unit);
        i = i + 1;
        proof {
            lemma_enc_units_snoc(t.0@.subrange(0, i as int));
            assert(t.0@.subrange(0, i as int).drop_last() =~= t.0@.subrange(0, i as int - 1));
            assert(out@ =~= old(out)@ + spec_enc_u32(t.0@.len() as u32) + spec_enc_units(
                t.0@.subrange(0, i as int),
            ));
        }
    }
    proof {
        assert(t.0@.subrange(0, t.0@.len() as int) =~= t.0@);
        assert(out@ =~= old(out)@ + spec_enc_str(t@));
    }
}

/// Splitting off the last unit splits its two bytes off the encoding.
proof fn lemma_enc_units_snoc(t: Seq<u16>)
    requires
        t.len() > 0,
    ensures
        spec_enc_units(t) == spec_enc_units(t.drop_last()) + spec_enc_u16(t.last()),
    decreases t.len(),
{
    if t.len() == 1 {
        assert(t.drop_last() =~= Seq::<u16>::empty());
        assert(spec_enc_units(t.drop_first()) =~= Seq::<u8>::empty());
        assert(spec_enc_units(t) =~= spec_enc_units(t.drop_last()) + spec_enc_u16(t.last()));
    } else {
        lemma_enc_units_snoc(t.drop_first());
        assert(t.drop_first().drop_last() =~= t.drop_last().drop_first());
        assert(t.drop_first().last() == t.last());
        assert(spec_enc_units(t) == spec_enc_u16(t[0]) + spec_enc_units(t.drop_first()));
        assert(spec_enc_units(t.drop_last()) == spec_enc_u16(t.drop_last()[0]) + spec_enc_units(
            t.drop_last().drop_first(),
        ));
        assert(t.drop_last()[0] == t[0]);
        assert(spec_enc_units(t) =~= spec_enc_units(t.drop_last()) + spec_enc_u16(t.last()));
    }
}

/// Reads a length-prefixed UTF-16 string at `pos`.
fn dec_str(buf: &[u8], pos: usize) -> (r: Option<(SerializableNtString, usize)>)
    requires
        pos <= buf@.len(),
    ensures
        match r {
            Some((t, next)) => {
                &&& spec_dec_str(buf@.skip(pos as int)) == Some((t@, next - pos))
                &&& pos < next <= buf@.len()
            },
            None => spec_dec_str(buf@.skip(pos as int)) is None,
        },
{
    proof {
        reveal(spec_dec_str);
    }
    let (len, after_len) = match dec_u32(buf, pos) {
        Some(x) => x,
        None => {
            return None;
        },
    };
    if (buf.len() - after_len) / 2 < len as usize {
        return None;
    }
    let n = len as usize;
    let mut units: Vec<u16> = Vec::new();
    let mut i: usize = 0;
    while i < n
        invariant
            i <= n,
            after_len == pos + 4,
            pos + 4 <= buf@.len(),
            buf@.len() <= usize::MAX,
            buf@.len() - after_len >= 2 * n,
            units@.len() == i,
            forall|k: int|
                0 <= k < i ==> units@[k] == spec_u16_of(
                    buf@[pos + 4 + 2 * k],
                    buf@[pos + 4 + 2 * k + 1],
                ),
        decreases n - i,
    {
        let b0 = buf[after_len + 2 * i];
        let b1 = buf[after_len + 2 * i + 1];
        units.push(spec_u16_combine(b0, b1));
        i = i + 1;
    }
    proof {
        let s = buf@.skip(pos as int);
        assert forall|k: int| 0 <= k < n implies units@[k] == spec_units_of(
            s.skip(4),
            n as int,
        )[k] by {
            assert(s.skip(4)[2 * k] == buf@[pos + 4 + 2 * k]);
            assert(s.skip(4)[2 * k + 1] == buf@[pos + 4 + 2 * k + 1]);
        }
        assert(units@ =~= spec_units_of(s.skip(4), n as int));
    }
    Some((SerializableNtString(units), after_len + 2 * n))
}

// ---------------------------------------------------------------------
// Options and tags.
// ---------------------------------------------------------------------
/// An optional string: `0` for absent, `1` and the string for present.
#[verifier::opaque]
pub open spec fn spec_enc_opt_str(o: Option<Seq<u16>>) -> Seq<u8> {
    match o {
        None => seq![0u8],
        Some(t) => seq![1u8] + spec_enc_str(t),
    }
}

/// An optional string fits when its payload does.
pub open spec fn opt_str_encodable(o: Option<Seq<u16>>) -> bool {
    match o {
        None => true,
        Some(t) => str_encodable(t),
    }
}

/// Reads an optional string from the front of `s`.
#[verifier::opaque]
pub open spec fn spec_dec_opt_str(s: Seq<u8>) -> Option<(Option<Seq<u16>>, int)> {
    if s.len() < 1 {
        None
    } else if s[0] == 0 {
        Some((None, 1))
    } else if s[0] == 1 {
        match spec_dec_str(s.skip(1)) {
            None => None,
            Some((t, n)) => Some((Some(t), 1 + n)),
        }
    } else {
        None
    }
}

proof fn lemma_dec_enc_opt_str(o: Option<Seq<u16>>, rest: Seq<u8>)
    requires
        opt_str_encodable(o),
    ensures
        spec_dec_opt_str(spec_enc_opt_str(o) + rest) == Some((o, spec_enc_opt_str(o).len() as int)),
        (spec_enc_opt_str(o) + rest).skip(spec_enc_opt_str(o).len() as int) == rest,
{
    reveal(spec_enc_opt_str);
    reveal(spec_enc_str);
    reveal(spec_dec_opt_str);
    let s = spec_enc_opt_str(o) + rest;
    match o {
        None => {
            assert(s.skip(1) =~= rest);
        },
        Some(t) => {
            assert(s.skip(1) =~= spec_enc_str(t) + rest);
            lemma_dec_enc_str(t, rest);
            lemma_enc_units_len(t);
            assert(s.skip(spec_enc_opt_str(o).len() as int) =~= (spec_enc_str(t) + rest).skip(
                4 + 2 * t.len() as int,
            ));
        },
    }
}

// ---------------------------------------------------------------------
// Operations.
// ---------------------------------------------------------------------
/// Wire form of a process lifecycle operation.
#[verifier::opaque]
pub open spec fn spec_enc_process_op(op: EventProcessOperationV) -> Seq<u8> {
    match op {
        EventProcessOperationV::ProcessCreate { pid, cmd } => seq![0u8] + spec_enc_u64(pid)
            + spec_enc_opt_str(cmd),
        EventProcessOperationV::ProcessDestroy { pid } => seq![1u8] + spec_enc_u64(pid),
    }
}

/// A process operation fits when its optional command line does.
pub open spec fn process_op_encodable(op: EventProcessOperationV) -> bool {
    match op {
        EventProcessOperationV::ProcessCreate { pid, cmd } => opt_str_encodable(cmd),
        EventProcessOperationV::ProcessDestroy { .. } => true,
    }
}

/// Reads a process lifecycle operation from the front of `s`.
#[verifier::opaque]
pub open spec fn spec_dec_process_op(s: Seq<u8>) -> Option<(EventProcessOperationV, int)> {
    if s.len() < 1 {
        None
    } else if s[0] == 0 {
        match spec_dec_u64(s.skip(1)) {
            None => None,
            Some((pid, n1)) => match spec_dec_opt_str(s.skip(1 + n1)) {
                None => None,
                Some((cmd, n2)) => Some(
                    (EventProcessOperationV::ProcessCreate { pid, cmd }, 1 + n1 + n2),
                ),
            },
        }
    } else if s[0] == 1 {
        match spec_dec_u64(s.skip(1)) {
            None => None,
            Some((pid, n1)) => Some((EventProcessOperationV::ProcessDestroy { pid }, 1 + n1)),
        }
    } else {
        None
    }
}

proof fn lemma_dec_enc_process_op(op: EventProcessOperationV, rest: Seq<u8>)
    requires
        process_op_encodable(op),
    ensures
        spec_dec_process_op(spec_enc_process_op(op) + rest) == Some(
            (op, spec_enc_process_op(op).len() as int),
        ),
        (spec_enc_process_op(op) + rest).skip(spec_enc_process_op(op).len() as int) == rest,
{
    reveal(spec_enc_process_op);
    reveal(spec_enc_opt_str);
    reveal(spec_dec_process_op);
    let s = spec_enc_process_op(op) + rest;
    match op {
        EventProcessOperationV::ProcessCreate { pid, cmd } => {
            assert(s.skip(1) =~= spec_enc_u64(pid) + (spec_enc_opt_str(cmd) + rest));
            lemma_dec_enc_u64(pid, spec_enc_opt_str(cmd) + rest);
            assert(s.skip(9) =~= spec_enc_opt_str(cmd) + rest);
            lemma_dec_enc_opt_str(cmd, rest);
            assert(s.skip(spec_enc_process_op(op).len() as int) =~= (spec_enc_opt_str(cmd)
                + rest).skip(spec_enc_opt_str(cmd).len() as int));
        },
        EventProcessOperationV::ProcessDestroy { pid } => {
            assert(s.skip(1) =~= spec_enc_u64(pid) + rest);
            lemma_dec_enc_u64(pid, rest);
            assert(s.skip(spec_enc_process_op(op).len() as int) =~= (spec_enc_u64(pid)
                + rest).skip(8));
        },
    }
}

/// Wire form of a file-system operation.
#[verifier::opaque]
pub open spec fn spec_enc_fs_op(op: EventFileSystemOperation) -> Seq<u8> {
    match op {
        EventFileSystemOperation::Create { attribute } => seq![0u8] + spec_enc_u16(attribute),
        EventFileSystemOperation::Read { length, offset } => seq![1u8] + spec_enc_u64(length)
            + spec_enc_i64(offset),
        EventFileSystemOperation::Write { length, offset } => seq![2u8] + spec_enc_u64(length)
            + spec_enc_i64(offset),
        EventFileSystemOperation::Cleanup {  } => seq![3u8],
        EventFileSystemOperation::Close {  } => seq![4u8],
        EventFileSystemOperation::QueryFileInfo { info_class, buffer_len } => seq![5u8]
            + spec_enc_u32(info_class) + spec_enc_u32(buffer_len),
        EventFileSystemOperation::SetFileInfo { info_class, length } => seq![6u8] + spec_enc_u32(
            info_class,
        ) + spec_enc_u32(length),
        EventFileSystemOperation::AcquireForSectionSync {
            sync_type,
            page_protection,
            flags,
            allocation_attributes,
        } => seq![7u8] + spec_enc_u32(sync_type) + spec_enc_u32(page_protection) + spec_enc_u32(
            flags,
        ) + spec_enc_u32(allocation_attributes),
    }
}

/// Reads a file-system operation from the front of `s`.
#[verifier::opaque]
pub open spec fn spec_dec_fs_op(s: Seq<u8>) -> Option<(EventFileSystemOperation, int)> {
    if s.len() < 1 {
        None
    } else if s[0] == 0 {
        match spec_dec_u16(s.skip(1)) {
            None => None,
            Some((attribute, n1)) => Some(
                (EventFileSystemOperation::Create { attribute }, 1 + n1),
            ),
        }
    } else if s[0] == 1 || s[0] == 2 {
        match spec_dec_u64(s.skip(1)) {
            None => None,
            Some((length, n1)) => match spec_dec_u64(s.skip(1 + n1)) {
                None => None,
                Some((offset_bits, n2)) => Some(
                    (
                        if s[0] == 1 {
                            EventFileSystemOperation::Read {
                                length,
                                offset: offset_bits as i64,
                            }
                        } else {
                            EventFileSystemOperation::Write {
                                length,
                                offset: offset_bits as i64,
                            }
                        },
                        1 + n1 + n2,
                    ),
                ),
            },
        }
    } else if s[0] == 3 {
        Some((EventFileSystemOperation::Cleanup {  }, 1))
    } else if s[0] == 4 {
        Some((EventFileSystemOperation::Close {  }, 1))
    } else if s[0] == 5 || s[0] == 6 {
        match spec_dec_u32(s.skip(1)) {
            None => None,
            Some((a, n1)) => match spec_dec_u32(s.skip(1 + n1)) {
                None => None,
                Some((b, n2)) => Some(
                    (
                        if s[0] == 5 {
                            EventFileSystemOperation::QueryFileInfo {
                                info_class: a,
                                buffer_len: b,
                            }
                        } else {
                            EventFileSystemOperation::SetFileInfo { info_class: a, length: b }
                        },
                        1 + n1 + n2,
                    ),
                ),
            },
        }
    } else if s[0] == 7 {
        match spec_dec_u32(s.skip(1)) {
            None => None,
            Some((a, n1)) => match spec_dec_u32(s.skip(1 + n1)) {
                None => None,
                Some((b, n2)) => match spec_dec_u32(s.skip(1 + n1 + n2)) {
                    None => None,
                    Some((c, n3)) => match spec_dec_u32(s.skip(1 + n1 + n2 + n3)) {
                        None => None,
                        Some((d, n4)) => Some(
                            (
                                EventFileSystemOperation::AcquireForSectionSync {
                                    sync_type: a,
                                    page_protection: b,
                                    flags: c,
                                    allocation_attributes: d,
                                },
                                1 + n1 + n2 + n3 + n4,
                            ),
                        ),
                    },
                },
            },
        }
    } else {
        None
    }
}

proof fn lemma_dec_enc_fs_create(attribute: u16, rest: Seq<u8>)
    ensures
        lemma_dec_enc_fs_holds(EventFileSystemOperation::Create { attribute }, rest),
{
    reveal(spec_enc_fs_op);
    reveal(spec_dec_fs_op);
    let op = EventFileSystemOperation::Create { attribute };
    let s = spec_enc_fs_op(op) + rest;
    assert(s.skip(1) =~= spec_enc_u16(attribute) + rest);
    lemma_dec_enc_u16(attribute, rest);
    assert(s.skip(3) =~= rest);
}

proof fn lemma_dec_enc_fs_rw(op: EventFileSystemOperation, length: u64, offset: i64, rest: Seq<u8>)
    requires
        op == (EventFileSystemOperation::Read { length, offset }) || op == (
        EventFileSystemOperation::Write { length, offset }),
    ensures
        lemma_dec_enc_fs_holds(op, rest),
{
    reveal(spec_enc_fs_op);
    reveal(spec_dec_fs_op);
    let s = spec_enc_fs_op(op) + rest;
    assert(s.skip(1) =~= spec_enc_u64(length) + (spec_enc_i64(offset) + rest));
    lemma_dec_enc_u64(length, spec_enc_i64(offset) + rest);
    assert(s.skip(9) =~= spec_enc_u64(offset as u64) + rest);
    lemma_dec_enc_u64(offset as u64, rest);
    lemma_i64_roundtrip(offset);
    assert(s.skip(17) =~= rest);
}

proof fn lemma_dec_enc_fs_plain(op: EventFileSystemOperation, rest: Seq<u8>)
    requires
        op == (EventFileSystemOperation::Cleanup {  }) || op == (
        EventFileSystemOperation::Close {  }),
    ensures
        lemma_dec_enc_fs_holds(op, rest),
{
    reveal(spec_enc_fs_op);
    reveal(spec_dec_fs_op);
    let s = spec_enc_fs_op(op) + rest;
    assert(s.skip(1) =~= rest);
}

proof fn lemma_dec_enc_fs_info(op: EventFileSystemOperation, a: u32, b: u32, rest: Seq<u8>)
    requires
        op == (EventFileSystemOperation::QueryFileInfo { info_class: a, buffer_len: b }) || op == (
        EventFileSystemOperation::SetFileInfo { info_class: a, length: b }),
    ensures
        lemma_dec_enc_fs_holds(op, rest),
{
    reveal(spec_enc_fs_op);
    reveal(spec_dec_fs_op);
    let s = spec_enc_fs_op(op) + rest;
    assert(s.skip(1) =~= spec_enc_u32(a) + (spec_enc_u32(b) + rest));
    lemma_dec_enc_u32(a, spec_enc_u32(b) + rest);
    assert(s.skip(5) =~= spec_enc_u32(b) + rest);
    lemma_dec_enc_u32(b, rest);
    assert(s.skip(9) =~= rest);
}

proof fn lemma_dec_enc_fs_acquire(a: u32, b: u32, c: u32, d: u32, rest: Seq<u8>)
    ensures
        lemma_dec_enc_fs_holds(
            EventFileSystemOperation::AcquireForSectionSync {
                sync_type: a,
                page_protection: b,
                flags: c,
                allocation_attributes: d,
            },
            rest,
        ),
{
    reveal(spec_enc_fs_op);
    reveal(spec_dec_fs_op);
    let op = EventFileSystemOperation::AcquireForSectionSync {
        sync_type: a,
        page_protection: b,
        flags: c,
        allocation_attributes: d,
    };
    let s = spec_enc_fs_op(op) + rest;
    assert(s.skip(1) =~= spec_enc_u32(a) + (spec_enc_u32(b) + (spec_enc_u32(c) + (spec_enc_u32(d)
        + rest))));
    lemma_dec_enc_u32(a, spec_enc_u32(b) + (spec_enc_u32(c) + (spec_enc_u32(d) + rest)));
    assert(s.skip(5) =~= spec_enc_u32(b) + (spec_enc_u32(c) + (spec_enc_u32(d) + rest)));
    lemma_dec_enc_u32(b, spec_enc_u32(c) + (spec_enc_u32(d) + rest));
    assert(s.skip(9) =~= spec_enc_u32(c) + (spec_enc_u32(d) + rest));
    lemma_dec_enc_u32(c, spec_enc_u32(d) + rest);
    assert(s.skip(13) =~= spec_enc_u32(d) + rest);
    lemma_dec_enc_u32(d, rest);
    assert(s.skip(17) =~= rest);
}

/// What the file-system round trip states: its own encoding decodes to the
/// operation itself and consumes exactly the encoding.
pub open spec fn lemma_dec_enc_fs_holds(op: EventFileSystemOperation, rest: Seq<u8>) -> bool {
    &&& spec_dec_fs_op(spec_enc_fs_op(op) + rest) == Some((op, spec_enc_fs_op(op).len() as int))
    &&& (spec_enc_fs_op(op) + rest).skip(spec_enc_fs_op(op).len() as int) == rest
}

proof fn lemma_dec_enc_fs_op(op: EventFileSystemOperation, rest: Seq<u8>)
    ensures
        spec_dec_fs_op(spec_enc_fs_op(op) + rest) == Some((op, spec_enc_fs_op(op).len() as int)),
        (spec_enc_fs_op(op) + rest).skip(spec_enc_fs_op(op).len() as int) == rest,
{
    match op {
        EventFileSystemOperation::Create { attribute } => {
            lemma_dec_enc_fs_create(attribute, rest);
        },
        EventFileSystemOperation::Read { length, offset } => {
            lemma_dec_enc_fs_rw(op, length, offset, rest);
        },
        EventFileSystemOperation::Write { length, offset } => {
            lemma_dec_enc_fs_rw(op, length, offset, rest);
        },
        EventFileSystemOperation::Cleanup {  } => {
            lemma_dec_enc_fs_plain(op, rest);
        },
        EventFileSystemOperation::Close {  } => {
            lemma_dec_enc_fs_plain(op, rest);
        },
        EventFileSystemOperation::QueryFileInfo { info_class, buffer_len } => {
            lemma_dec_enc_fs_info(op, info_class, buffer_len, rest);
        },
        EventFileSystemOperation::SetFileInfo { info_class, length } => {
            lemma_dec_enc_fs_info(op, info_class, length, rest);
        },
        EventFileSystemOperation::AcquireForSectionSync {
            sync_type,
            page_protection,
            flags,
            allocation_attributes,
        } => {
            lemma_dec_enc_fs_acquire(
                sync_type,
                page_protection,
                flags,
                allocation_attributes,
                rest,
            );
        },
    }
}

/// Wire form of a registry operation.
pub open spec fn spec_enc_reg_op(op: EventRegistryOperation) -> Seq<u8> {
    match op {
        EventRegistryOperation::Open() => seq![0u8],
    }
}

/// Reads a registry operation from the front of `s`.
pub open spec fn spec_dec_reg_op(s: Seq<u8>) -> Option<(EventRegistryOperation, int)> {
    if s.len() >= 1 && s[0] == 0 {
        Some((EventRegistryOperation::Open(), 1))
    } else {
        None
    }
}

/// Wire form of the operation union.
#[verifier::opaque]
pub open spec fn spec_enc_class(c: EventClassV) -> Seq<u8> {
    match c {
        EventClassV::Process(op) => seq![0u8] + spec_enc_process_op(op),
        EventClassV::FileSystem(op) => seq![1u8] + spec_enc_fs_op(op),
        EventClassV::Registry(op) => seq![2u8] + spec_enc_reg_op(op),
    }
}

/// An operation union fits when its process payload does.
pub open spec fn class_encodable(c: EventClassV) -> bool {
    match c {
        EventClassV::Process(op) => process_op_encodable(op),
        EventClassV::FileSystem(..) => true,
        EventClassV::Registry(..) => true,
    }
}

/// Reads the operation union from the front of `s`.
#[verifier::opaque]
pub open spec fn spec_dec_class(s: Seq<u8>) -> Option<(EventClassV, int)> {
    if s.len() < 1 {
        None
    } else if s[0] == 0 {
        match spec_dec_process_op(s.skip(1)) {
            None => None,
            Some((op, n)) => Some((EventClassV::Process(op), 1 + n)),
        }
    } else if s[0] == 1 {
        match spec_dec_fs_op(s.skip(1)) {
            None => None,
            Some((op, n)) => Some((EventClassV::FileSystem(op), 1 + n)),
        }
    } else if s[0] == 2 {
        match spec_dec_reg_op(s.skip(1)) {
            None => None,
            Some((op, n)) => Some((EventClassV::Registry(op), 1 + n)),
        }
    } else {
        None
    }
}

proof fn lemma_dec_enc_class(c: EventClassV, rest: Seq<u8>)
    requires
        class_encodable(c),
    ensures
        spec_dec_class(spec_enc_class(c) + rest) == Some((c, spec_enc_class(c).len() as int)),
        (spec_enc_class(c) + rest).skip(spec_enc_class(c).len() as int) == rest,
{
    reveal(spec_enc_class);
    reveal(spec_enc_process_op);
    reveal(spec_enc_fs_op);
    reveal(spec_enc_reg_op);
    reveal(spec_dec_class);
    let s = spec_enc_class(c) + rest;
    match c {
        EventClassV::Process(op) => {
            assert(s.skip(1) =~= spec_enc_process_op(op) + rest);
            lemma_dec_enc_process_op(op, rest);
            assert(s.skip(spec_enc_class(c).len() as int) =~= (spec_enc_process_op(op)
                + rest).skip(spec_enc_process_op(op).len() as int));
        },
        EventClassV::FileSystem(op) => {
            assert(s.skip(1) =~= spec_enc_fs_op(op) + rest);
            lemma_dec_enc_fs_op(op, rest);
            assert(s.skip(spec_enc_class(c).len() as int) =~= (spec_enc_fs_op(op) + rest).skip(
                spec_enc_fs_op(op).len() as int,
            ));
        },
        EventClassV::Registry(op) => {
            assert(s.skip(2) =~= rest);
        },
    }
}

// ---------------------------------------------------------------------
// Events and whole messages.
// ---------------------------------------------------------------------
/// Wire form of an event: date, thread, operation, result, path, duration.
#[verifier::opaque]
pub open spec fn spec_enc_event(e: EventCompoentV) -> Seq<u8> {
    spec_enc_u64(e.date) + spec_enc_u64(e.thread) + spec_enc_class(e.operation) + spec_enc_i32(
        e.result,
    ) + spec_enc_str(e.path) + spec_enc_u64(e.duration)
}

/// An event fits on the wire when its path and operation payloads do.
pub open spec fn event_encodable(e: EventCompoentV) -> bool {
    str_encodable(e.path) && class_encodable(e.operation)
}

/// Reads an event from the front of `s`.
#[verifier::opaque]
pub open spec fn spec_dec_event(s: Seq<u8>) -> Option<(EventCompoentV, int)> {
    match spec_dec_u64(s) {
        None => None,
        Some((date, n1)) => match spec_dec_u64(s.skip(n1)) {
            None => None,
            Some((thread, n2)) => match spec_dec_class(s.skip(n1 + n2)) {
                None => None,
                Some((operation, n3)) => match spec_dec_u32(s.skip(n1 + n2 + n3)) {
                    None => None,
                    Some((result_bits, n4)) => match spec_dec_str(s.skip(n1 + n2 + n3 + n4)) {
                        None => None,
                        Some((path, n5)) => match spec_dec_u64(s.skip(n1 + n2 + n3 + n4 + n5)) {
                            None => None,
                            Some((duration, n6)) => Some(
                                (
                                    EventCompoentV {
                                        date,
                                        thread,
                                        operation,
                                        result: result_bits as i32,
                                        path,
                                        duration,
                                    },
                                    n1 + n2 + n3 + n4 + n5 + n6,
                                ),
                            ),
                        },
                    },
                },
            },
        },
    }
}

proof fn lemma_dec_enc_event_head(e: EventCompoentV, tail: Seq<u8>)
    requires
        class_encodable(e.operation),
    ensures
        ({
            let head = spec_enc_u64(e.date) + spec_enc_u64(e.thread) + spec_enc_class(
                e.operation,
            );
            let n3 = spec_enc_class(e.operation).len() as int;
            &&& spec_dec_u64(head + tail) == Some((e.date, 8int))
            &&& spec_dec_u64((head + tail).skip(8)) == Some((e.thread, 8int))
            &&& spec_dec_class((head + tail).skip(16)) == Some((e.operation, n3))
            &&& (head + tail).skip(16 + n3) == tail
        }),
{
    let head = spec_enc_u64(e.date) + spec_enc_u64(e.thread) + spec_enc_class(e.operation);
    let n3 = spec_enc_class(e.operation).len() as int;
    let s = head + tail;
    let t2 = spec_enc_class(e.operation) + tail;
    let t1 = spec_enc_u64(e.thread) + t2;
    assert(s =~= spec_enc_u64(e.date) + t1);
    lemma_dec_enc_u64(e.date, t1);
    lemma_dec_enc_u64(e.thread, t2);
    lemma_dec_enc_class(e.operation, tail);
    lemma_skip_skip(s, 8, 8);
    lemma_skip_skip(s, 16, n3);
}

#[verifier::rlimit(100)]
proof fn lemma_dec_enc_event(e: EventCompoentV, rest: Seq<u8>)
    requires
        event_encodable(e),
    ensures
        spec_dec_event(spec_enc_event(e) + rest) == Some((e, spec_enc_event(e).len() as int)),
        (spec_enc_event(e) + rest).skip(spec_enc_event(e).len() as int) == rest,
{
    reveal(spec_enc_event);
    reveal(spec_enc_str);
    reveal(spec_dec_event);
    let n3 = spec_enc_class(e.operation).len() as int;
    let t5 = spec_enc_u64(e.duration) + rest;
    let t4 = spec_enc_str(e.path) + t5;
    let tail = spec_enc_u32(e.result as u32) + t4;
    lemma_dec_enc_event_head(e, tail);
    let s = spec_enc_event(e) + rest;
    assert(s =~= (spec_enc_u64(e.date) + spec_enc_u64(e.thread) + spec_enc_class(e.operation))
        + tail);
    lemma_dec_enc_u32(e.result as u32, t4);
    lemma_i32_roundtrip(e.result);
    lemma_skip_skip(s, 16 + n3, 4);
    lemma_dec_enc_str(e.path, t5);
    lemma_enc_units_len(e.path);
    let n5 = 4 + 2 * e.path.len() as int;
    lemma_skip_skip(s, 20 + n3, n5);
    lemma_dec_enc_u64(e.duration, rest);
    lemma_skip_skip(s, 20 + n3 + n5, 8);
    assert(spec_enc_event(e).len() as int == 28 + n3 + n5);
}

/// Wire form of a whole ingest message: the event, then the process
/// details. The reserved stack placeholder carries no bytes.
#[verifier::opaque]
pub open spec fn spec_enc_msg(m: KmMessageV) -> Seq<u8> {
    spec_enc_event(m.event) + spec_enc_u64(m.process.pid) + spec_enc_u64(m.process.unique_id)
}

/// A message fits on the wire when its event does.
pub open spec fn msg_encodable(m: KmMessageV) -> bool {
    event_encodable(m.event)
}

/// Reads a whole ingest message from the front of `s`.
#[verifier::opaque]
pub open spec fn spec_dec_msg(s: Seq<u8>) -> Option<(KmMessageV, int)> {
    match spec_dec_event(s) {
        None => None,
        Some((event, n1)) => match spec_dec_u64(s.skip(n1)) {
            None => None,
            Some((pid, n2)) => match spec_dec_u64(s.skip(n1 + n2)) {
                None => None,
                Some((unique_id, n3)) => Some(
                    (
                        KmMessageV { event, process: SimpleProcessDetails { pid, unique_id } },
                        n1 + n2 + n3,
                    ),
                ),
            },
        },
    }
}

/// Serialization round trip: a message's encoding, followed by anything,
/// decodes to the message itself and consumes exactly the encoding.
pub proof fn lemma_dec_enc_msg(m: KmMessageV, rest: Seq<u8>)
    requires
        msg_encodable(m),
    ensures
        spec_dec_msg(spec_enc_msg(m) + rest) == Some((m, spec_enc_msg(m).len() as int)),
        (spec_enc_msg(m) + rest).skip(spec_enc_msg(m).len() as int) == rest,
        spec_enc_msg(m).len() >= 8,
{
    reveal(spec_enc_msg);
    reveal(spec_enc_event);
    reveal(spec_dec_msg);
    let s = spec_enc_msg(m) + rest;
    let t2 = spec_enc_u64(m.process.unique_id) + rest;
    let t1 = spec_enc_u64(m.process.pid) + t2;
    assert(s =~= spec_enc_event(m.event) + t1);
    lemma_dec_enc_event(m.event, t1);
    let n1 = spec_enc_event(m.event).len() as int;
    lemma_dec_enc_u64(m.process.pid, t2);
    lemma_skip_skip(s, n1, 8);
    lemma_dec_enc_u64(m.process.unique_id, rest);
    lemma_skip_skip(s, n1 + 8, 8);
}

// ---------------------------------------------------------------------
// Streams of concatenated messages.
// ---------------------------------------------------------------------
/// The concatenation of the encodings of a sequence of messages.
pub open spec fn spec_enc_stream(ms: Seq<KmMessageV>) -> Seq<u8>
    decreases ms.len(),
{
    if ms.len() == 0 {
        Seq::<u8>::empty()
    } else {
        spec_enc_msg(ms[0]) + spec_enc_stream(ms.drop_first())
    }
}

/// Every message of the stream fits on the wire.
pub open spec fn stream_encodable(ms: Seq<KmMessageV>) -> bool {
    forall|k: int| 0 <= k < ms.len() ==> msg_encodable(#[trigger] ms[k])
}

/// The messages taken off the front of a buffer, one after another, until
/// decoding fails: what an iteration over a received batch yields.
pub open spec fn spec_iterate(s: Seq<u8>) -> Seq<KmMessageV>
    decreases s.len(),
{
    match spec_dec_msg(s) {
        None => Seq::<KmMessageV>::empty(),
        Some((m, n)) => if 0 < n <= s.len() {
            seq![m] + spec_iterate(s.skip(n))
        } else {
            seq![m]
        },
    }
}

/// Iterating a buffer that starts with one valid encoding yields that
/// message and then whatever the remainder yields.
pub proof fn lemma_iterate_cons(m: KmMessageV, rest: Seq<u8>)
    requires
        msg_encodable(m),
    ensures
        spec_iterate(spec_enc_msg(m) + rest) == seq![m] + spec_iterate(rest),
{
    lemma_dec_enc_msg(m, rest);
}

/// Stream round trip: iterating the concatenation of valid encodings
/// yields the original message sequence, in order.
pub proof fn lemma_iterate_stream(ms: Seq<KmMessageV>)
    requires
        stream_encodable(ms),
    ensures
        spec_iterate(spec_enc_stream(ms)) == ms,
    decreases ms.len(),
{
    reveal(spec_dec_msg);
    reveal(spec_dec_event);
    if ms.len() == 0 {
        assert(spec_dec_msg(Seq::<u8>::empty()) is None);
        assert(spec_iterate(spec_enc_stream(ms)) =~= ms);
    } else {
        let rest = ms.drop_first();
        assert(forall|k: int| 0 <= k < rest.len() ==> rest[k] == ms[k + 1]);
        lemma_iterate_stream(rest);
        lemma_iterate_cons(ms[0], spec_enc_stream(rest));
        assert(seq![ms[0]] + rest =~= ms);
    }
}

// ---------------------------------------------------------------------
// Executable encoders.
// ---------------------------------------------------------------------
/// The mathematical value of an optional UTF-16 string.
pub open spec fn opt_str_view(o: Option<SerializableNtString>) -> Option<Seq<u16>> {
    match o {
        None => None,
        Some(t) => Some(t@),
    }
}

/// Appends the wire form of an optional string.
fn enc_opt_str(out: &mut Vec<u8>, o: &Option<SerializableNtString>)
    requires
        opt_str_encodable(opt_str_view(*o)),
    ensures
        final(out)@ == old(out)@ + spec_enc_opt_str(opt_str_view(*o)),
{
    proof {
        reveal(spec_enc_opt_str);
    }
    match o {
        None => {
            out.push(0u8);
            proof {
                assert(out@ =~= old(out)@ + spec_enc_opt_str(opt_str_view(*o)));
            }
        },
        Some(t) => {
            out.push(1u8);
            enc_str(out, t);
            proof {
                assert(out@ =~= old(out)@ + spec_enc_opt_str(opt_str_view(*o)));
            }
        },
    }
}

/// Appends the wire form of a process lifecycle operation.
fn enc_process_op(out: &mut Vec<u8>, op: &EventProcessOperation)
    requires
        process_op_encodable(op@),
    ensures
        final(out)@ == old(out)@ + spec_enc_process_op(op@),
{
    proof {
        reveal(spec_enc_process_op);
    }
    match op {
        EventProcessOperation::ProcessCreate { pid, cmd } => {
            out.push(0u8);
            enc_u64(out, *pid);
            enc_opt_str(out, cmd);
            proof {
                assert(out@ =~= old(out)@ + spec_enc_process_op(op@));
            }
        },
        EventProcessOperation::ProcessDestroy { pid } => {
            out.push(1u8);
            enc_u64(out, *pid);
            proof {
                assert(out@ =~= old(out)@ + spec_enc_process_op(op@));
            }
        },
    }
}

/// Appends the wire form of a file-system operation.
fn enc_fs_op(out: &mut Vec<u8>, op: &EventFileSystemOperation)
    ensures
        final(out)@ == old(out)@ + spec_enc_fs_op(*op),
{
    proof {
        reveal(spec_enc_fs_op);
    }
    match op {
        EventFileSystemOperation::Create { attribute } => {
            out.push(0u8);
            enc_u16(out, *attribute);
            proof {
                assert(out@ =~= old(out)@ + spec_enc_fs_op(*op));
            }
        },
        EventFileSystemOperation::Read { length, offset } => {
            out.push(1u8);
            enc_u64(out, *length);
            enc_i64(out, *offset);
            proof {
                assert(out@ =~= old(out)@ + spec_enc_fs_op(*op));
            }
        },
        EventFileSystemOperation::Write { length, offset } => {
            out.push(2u8);
            enc_u64(out, *length);
            enc_i64(out, *offset);
            proof {
                assert(out@ =~= old(out)@ + spec_enc_fs_op(*op));
            }
        },
        EventFileSystemOperation::Cleanup {  } => {
            out.push(3u8);
            proof {
                assert(out@ =~= old(out)@ + spec_enc_fs_op(*op));
            }
        },
        EventFileSystemOperation::Close {  } => {
            out.push(4u8);
            proof {
                assert(out@ =~= old(out)@ + spec_enc_fs_op(*op));
            }
        },
        EventFileSystemOperation::QueryFileInfo { info_class, buffer_len } => {
            out.push(5u8);
            enc_u32(out, *info_class);
            enc_u32(out, *buffer_len);
            proof {
                assert(out@ =~= old(out)@ + spec_enc_fs_op(*op));
            }
        },
        EventFileSystemOperation::SetFileInfo { info_class, length } => {
            out.push(6u8);
            enc_u32(out, *info_class);
            enc_u32(out, *length);
            proof {
                assert(out@ =~= old(out)@ + spec_enc_fs_op(*op));
            }
        },
        EventFileSystemOperation::AcquireForSectionSync {
            sync_type,
            page_protection,
            flags,
            allocation_attributes,
        } => {
            out.push(7u8);
            enc_u32(out, *sync_type);
            enc_u32(out, *page_protection);
            enc_u32(out, *flags);
            enc_u32(out, *allocation_attributes);
            proof {
                assert(out@ =~= old(out)@ + spec_enc_fs_op(*op));
            }
        },
    }
}

/// Appends the wire form of the operation union.
fn enc_class(out: &mut Vec<u8>, c: &EventClass)
    requires
        class_encodable(c@),
    ensures
        final(out)@ == old(out)@ + spec_enc_class(c@),
{
    proof {
        reveal(spec_enc_class);
    }
    match c {
        EventClass::Process(op) => {
            out.push(0u8);
            enc_process_op(out, op);
            proof {
                assert(out@ =~= old(out)@ + spec_enc_class(c@));
            }
        },
        EventClass::FileSystem(op) => {
            out.push(1u8);
            enc_fs_op(out, op);
            proof {
                assert(out@ =~= old(out)@ + spec_enc_class(c@));
            }
        },
        EventClass::Registry(op) => {
            out.push(2u8);
            out.push(0u8);
            proof {
                assert(spec_enc_reg_op(*op) =~= seq![0u8]);
                assert(out@ =~= old(out)@ + spec_enc_class(c@));
            }
        },
    }
}

/// Appends the wire form of an event.
fn enc_event(out: &mut Vec<u8>, e: &EventCompoent)
    requires
        event_encodable(e@),
    ensures
        final(out)@ == old(out)@ + spec_enc_event(e@),
{
    proof {
        reveal(spec_enc_event);
    }
    enc_u64(out, e.date);
    enc_u64(out, e.thread);
    enc_class(out, &e.operation);
    enc_i32(out, e.result);
    enc_str(out, &e.path);
    enc_u64(out, e.duration);
    proof {
        assert(out@ =~= old(out)@ + spec_enc_event(e@));
    }
}

/// Encodes one ingest message into its self-delimiting wire form.
pub fn encode_km_message(m: &KmMessage) -> (r: Vec<u8>)
    requires
        msg_encodable(m@),
    ensures
        r@ == spec_enc_msg(m@),
{
    proof {
        reveal(spec_enc_msg);
    }
    let mut out: Vec<u8> = Vec::new();
    enc_event(&mut out, &m.event);
    enc_u64(&mut out, m.process.pid);
    enc_u64(&mut out, m.process.unique_id);
    proof {
        assert(out@ =~= spec_enc_msg(m@));
    }
    out
}

// ---------------------------------------------------------------------
// Executable decoders.
// ---------------------------------------------------------------------
/// Reads an optional string at `pos`.
fn dec_opt_str(buf: &[u8], pos: usize) -> (r: Option<(Option<SerializableNtString>, usize)>)
    requires
        pos <= buf@.len(),
    ensures
        match r {
            Some((o, next)) => {
                &&& spec_dec_opt_str(buf@.skip(pos as int)) == Some(
                    (opt_str_view(o), next - pos),
                )
                &&& pos < next <= buf@.len()
            },
            None => spec_dec_opt_str(buf@.skip(pos as int)) is None,
        },
{
    proof {
        reveal(spec_dec_opt_str);
    }
    if buf.len() - pos < 1 {
        return None;
    }
    let tag = buf[pos];
    proof {
        assert(buf@.skip(pos as int)[0] == buf@[pos as int]);
    }
    if tag == 0 {
        Some((None, pos + 1))
    } else if tag == 1 {
        proof {
            assert(buf@.skip(pos as int).skip(1) =~= buf@.skip(pos as int + 1));
        }
        match dec_str(buf, pos + 1) {
            Some((t, next)) => Some((Some(t), next)),
            None => None,
        }
    } else {
        None
    }
}

/// Reads a process lifecycle operation at `pos`.
fn dec_process_op(buf: &[u8], pos: usize) -> (r: Option<(EventProcessOperation, usize)>)
    requires
        pos <= buf@.len(),
    ensures
        match r {
            Some((op, next)) => {
                &&& spec_dec_process_op(buf@.skip(pos as int)) == Some((op@, next - pos))
                &&& pos < next <= buf@.len()
            },
            None => spec_dec_process_op(buf@.skip(pos as int)) is None,
        },
{
    proof {
        reveal(spec_dec_process_op);
    }
    if buf.len() - pos < 1 {
        return None;
    }
    let tag = buf[pos];
    proof {
        assert(buf@.skip(pos as int)[0] == buf@[pos as int]);
        assert(buf@.skip(pos as int).skip(1) =~= buf@.skip(pos as int + 1));
    }
    if tag == 0 {
        let (pid, p1) = match dec_u64(buf, pos + 1) {
            Some(x) => x,
            None => {
                return None;
            },
        };
        proof {
            assert(buf@.skip(pos as int).skip(1 + (p1 - pos - 1)) =~= buf@.skip(p1 as int));
        }
        let (cmd, p2) = match dec_opt_str(buf, p1) {
            Some(x) => x,
            None => {
                return None;
            },
        };
        Some((EventProcessOperation::ProcessCreate { pid, cmd }, p2))
    } else if tag == 1 {
        let (pid, p1) = match dec_u64(buf, pos + 1) {
            Some(x) => x,
            None => {
                return None;
            },
        };
        Some((EventProcessOperation::ProcessDestroy { pid }, p1))
    } else {
        None
    }
}

/// Reads a file-system operation at `pos`.
#[verifier::rlimit(100)]
fn dec_fs_op(buf: &[u8], pos: usize) -> (r: Option<(EventFileSystemOperation, usize)>)
    requires
        pos <= buf@.len(),
    ensures
        match r {
            Some((op, next)) => {
                &&& spec_dec_fs_op(buf@.skip(pos as int)) == Some((op, next - pos))
                &&& pos < next <= buf@.len()
            },
            None => spec_dec_fs_op(buf@.skip(pos as int)) is None,
        },
{
    proof {
        reveal(spec_dec_fs_op);
    }
    if buf.len() - pos < 1 {
        return None;
    }
    let tag = buf[pos];
    proof {
        assert(buf@.skip(pos as int)[0] == buf@[pos as int]);
        assert(buf@.skip(pos as int).skip(1) =~= buf@.skip(pos as int + 1));
    }
    if tag == 0 {
        let (attribute, p1) = match dec_u16(buf, pos + 1) {
            Some(x) => x,
            None => {
                return None;
            },
        };
        Some((EventFileSystemOperation::Create { attribute }, p1))
    } else if tag == 1 || tag == 2 {
        let (length, p1) = match dec_u64(buf, pos + 1) {
            Some(x) => x,
            None => {
                return None;
            },
        };
        proof {
            assert(buf@.skip(pos as int).skip(1 + (p1 - pos - 1)) =~= buf@.skip(p1 as int));
        }
        let (offset_bits, p2) = match dec_u64(buf, p1) {
            Some(x) => x,
            None => {
                return None;
            },
        };
        let offset = offset_bits as i64;
        if tag == 1 {
            Some((EventFileSystemOperation::Read { length, offset }, p2))
        } else {
            Some((EventFileSystemOperation::Write { length, offset }, p2))
        }
    } else if tag == 3 {
        Some((EventFileSystemOperation::Cleanup {  }, pos + 1))
    } else if tag == 4 {
        Some((EventFileSystemOperation::Close {  }, pos + 1))
    } else if tag == 5 || tag == 6 {
        let (a, p1) = match dec_u32(buf, pos + 1) {
            Some(x) => x,
            None => {
                return None;
            },
        };
        proof {
            assert(buf@.skip(pos as int).skip(1 + (p1 - pos - 1)) =~= buf@.skip(p1 as int));
        }
        let (b, p2) = match dec_u32(buf, p1) {
            Some(x) => x,
            None => {
                return None;
            },
        };
        if tag == 5 {
            Some((EventFileSystemOperation::QueryFileInfo { info_class: a, buffer_len: b }, p2))
        } else {
            Some((EventFileSystemOperation::SetFileInfo { info_class: a, length: b }, p2))
        }
    } else if tag == 7 {
        let (a, p1) = match dec_u32(buf, pos + 1) {
            Some(x) => x,
            None => {
                return None;
            },
        };
        proof {
            assert(buf@.skip(pos as int).skip(1 + (p1 - pos - 1)) =~= buf@.skip(p1 as int));
        }
        let (b, p2) = match dec_u32(buf, p1) {
            Some(x) => x,
            None => {
                return None;
            },
        };
        proof {
            assert(buf@.skip(pos as int).skip(1 + (p1 - pos - 1) + (p2 - p1)) =~= buf@.skip(
                p2 as int,
            ));
        }
        let (c, p3) = match dec_u32(buf, p2) {
            Some(x) => x,
            None => {
                return None;
            },
        };
        proof {
            assert(buf@.skip(pos as int).skip(1 + (p1 - pos - 1) + (p2 - p1) + (p3 - p2)) =~= buf@
                .skip(p3 as int));
        }
        let (d, p4) = match dec_u32(buf, p3) {
            Some(x) => x,
            None => {
                return None;
            },
        };
        Some(
            (
                EventFileSystemOperation::AcquireForSectionSync {
                    sync_type: a,
                    page_protection: b,
                    flags: c,
                    allocation_attributes: d,
                },
                p4,
            ),
        )
    } else {
        None
    }
}

/// Reads the operation union at `pos`.
fn dec_class(buf: &[u8], pos: usize) -> (r: Option<(EventClass, usize)>)
    requires
        pos <= buf@.len(),
    ensures
        match r {
            Some((c, next)) => {
                &&& spec_dec_class(buf@.skip(pos as int)) == Some((c@, next - pos))
                &&& pos < next <= buf@.len()
            },
            None => spec_dec_class(buf@.skip(pos as int)) is None,
        },
{
    proof {
        reveal(spec_dec_class);
    }
    if buf.len() - pos < 1 {
        return None;
    }
    let tag = buf[pos];
    proof {
        assert(buf@.skip(pos as int)[0] == buf@[pos as int]);
        assert(buf@.skip(pos as int).skip(1) =~= buf@.skip(pos as int + 1));
    }
    if tag == 0 {
        match dec_process_op(buf, pos + 1) {
            Some((op, next)) => Some((EventClass::Process(op), next)),
            None => None,
        }
    } else if tag == 1 {
        match dec_fs_op(buf, pos + 1) {
            Some((op, next)) => Some((EventClass::FileSystem(op), next)),
            None => None,
        }
    } else if tag == 2 {
        if buf.len() - (pos + 1) < 1 {
            return None;
        }
        let reg_tag = buf[pos + 1];
        proof {
            assert(buf@.skip(pos as int + 1)[0] == buf@[pos as int + 1]);
        }
        if reg_tag == 0 {
            Some((EventClass::Registry(EventRegistryOperation::Open()), pos + 2))
        } else {
            None
        }
    } else {
        None
    }
}

/// Reads an event at `pos`.
#[verifier::rlimit(100)]
fn dec_event(buf: &[u8], pos: usize) -> (r: Option<(EventCompoent, usize)>)
    requires
        pos <= buf@.len(),
    ensures
        match r {
            Some((e, next)) => {
                &&& spec_dec_event(buf@.skip(pos as int)) == Some((e@, next - pos))
                &&& pos < next <= buf@.len()
            },
            None => spec_dec_event(buf@.skip(pos as int)) is None,
        },
{
    proof {
        reveal(spec_dec_event);
    }
    let (date, p1) = match dec_u64(buf, pos) {
        Some(x) => x,
        None => {
            return None;
        },
    };
    proof {
        assert(buf@.skip(pos as int).skip(p1 - pos) =~= buf@.skip(p1 as int));
    }
    let (thread, p2) = match dec_u64(buf, p1) {
        Some(x) => x,
        None => {
            return None;
        },
    };
    proof {
        assert(buf@.skip(pos as int).skip((p1 - pos) + (p2 - p1)) =~= buf@.skip(p2 as int));
    }
    let (operation, p3) = match dec_class(buf, p2) {
        Some(x) => x,
        None => {
            return None;
        },
    };
    proof {
        assert(buf@.skip(pos as int).skip((p1 - pos) + (p2 - p1) + (p3 - p2)) =~= buf@.skip(
            p3 as int,
        ));
    }
    let (result_bits, p4) = match dec_u32(buf, p3) {
        Some(x) => x,
        None => {
            return None;
        },
    };
    proof {
        assert(buf@.skip(pos as int).skip((p1 - pos) + (p2 - p1) + (p3 - p2) + (p4 - p3)) =~= buf@
            .skip(p4 as int));
    }
    let (path, p5) = match dec_str(buf, p4) {
        Some(x) => x,
        None => {
            return None;
        },
    };
    proof {
        assert(buf@.skip(pos as int).skip(
            (p1 - pos) + (p2 - p1) + (p3 - p2) + (p4 - p3) + (p5 - p4),
        ) =~= buf@.skip(p5 as int));
    }
    let (duration, p6) = match dec_u64(buf, p5) {
        Some(x) => x,
        None => {
            return None;
        },
    };
    let result = result_bits as i32;
    Some((EventCompoent { date, thread, operation, result, path, duration }, p6))
}

/// Decodes one ingest message at `pos`. Returns the message and the
/// position just past its encoding, or `None` when the bytes at `pos` are
/// not a valid encoding.
pub fn decode_km_message(buf: &[u8], pos: usize) -> (r: Option<(KmMessage, usize)>)
    requires
        pos <= buf@.len(),
    ensures
        match r {
            Some((m, next)) => {
                &&& spec_dec_msg(buf@.skip(pos as int)) == Some((m@, next - pos))
                &&& pos < next <= buf@.len()
            },
            None => spec_dec_msg(buf@.skip(pos as int)) is None,
        },
{
    proof {
        reveal(spec_dec_msg);
    }
    let (event, p1) = match dec_event(buf, pos) {
        Some(x) => x,
        None => {
            return None;
        },
    };
    proof {
        assert(buf@.skip(pos as int).skip(p1 - pos) =~= buf@.skip(p1 as int));
    }
    let (pid, p2) = match dec_u64(buf, p1) {
        Some(x) => x,
        None => {
            return None;
        },
    };
    proof {
        assert(buf@.skip(pos as int).skip((p1 - pos) + (p2 - p1)) =~= buf@.skip(p2 as int));
    }
    let (unique_id, p3) = match dec_u64(buf, p2) {
        Some(x) => x,
        None => {
            return None;
        },
    };
    Some(
        (
            KmMessage {
                event,
                process: SimpleProcessDetails { pid, unique_id },
                stack: EventStack {  },
            },
            p3,
        ),
    )
}


// ---------------------------------------------------------------------
// Request/reply messages.
// ---------------------------------------------------------------------
/// An optional `u64`: `0` for absent, `1` and the value for present.
pub open spec fn spec_enc_opt_u64(o: Option<u64>) -> Seq<u8> {
    match o {
        None => seq![0u8],
        Some(x) => seq![1u8] + spec_enc_u64(x),
    }
}

/// Reads an optional `u64` from the front of `s`.
pub open spec fn spec_dec_opt_u64(s: Seq<u8>) -> Option<(Option<u64>, int)> {
    if s.len() < 1 {
        None
    } else if s[0] == 0 {
        Some((None, 1))
    } else if s[0] == 1 {
        match spec_dec_u64(s.skip(1)) {
            None => None,
            Some((x, n)) => Some((Some(x), 1 + n)),
        }
    } else {
        None
    }
}

proof fn lemma_dec_enc_opt_u64(o: Option<u64>, rest: Seq<u8>)
    ensures
        spec_dec_opt_u64(spec_enc_opt_u64(o) + rest) == Some((o, spec_enc_opt_u64(o).len() as int)),
        (spec_enc_opt_u64(o) + rest).skip(spec_enc_opt_u64(o).len() as int) == rest,
{
    let s = spec_enc_opt_u64(o) + rest;
    match o {
        None => {
            assert(s.skip(1) =~= rest);
        },
        Some(x) => {
            assert(s.skip(1) =~= spec_enc_u64(x) + rest);
            lemma_dec_enc_u64(x, rest);
            assert(s.skip(9) =~= rest);
        },
    }
}

/// Appends the wire form of an optional `u64`.
fn enc_opt_u64(out: &mut Vec<u8>, o: &Option<u64>)
    ensures
        final(out)@ == old(out)@ + spec_enc_opt_u64(*o),
{
    match o {
        None => {
            out.push(0u8);
            proof {
                assert(out@ =~= old(out)@ + spec_enc_opt_u64(*o));
            }
        },
        Some(x) => {
            out.push(1u8);
            enc_u64(out, *x);
            proof {
                assert(out@ =~= old(out)@ + spec_enc_opt_u64(*o));
            }
        },
    }
}

/// Reads an optional `u64` at `pos`.
fn dec_opt_u64(buf: &[u8], pos: usize) -> (r: Option<(Option<u64>, usize)>)
    requires
        pos <= buf@.len(),
    ensures
        match r {
            Some((o, next)) => {
                &&& spec_dec_opt_u64(buf@.skip(pos as int)) == Some((o, next - pos))
                &&& pos < next <= buf@.len()
            },
            None => spec_dec_opt_u64(buf@.skip(pos as int)) is None,
        },
{
    if buf.len() - pos < 1 {
        return None;
    }
    let tag = buf[pos];
    proof {
        assert(buf@.skip(pos as int)[0] == buf@[pos as int]);
        assert(buf@.skip(pos as int).skip(1) =~= buf@.skip(pos as int + 1));
    }
    if tag == 0 {
        Some((None, pos + 1))
    } else if tag == 1 {
        match dec_u64(buf, pos + 1) {
            Some((x, next)) => Some((Some(x), next)),
            None => None,
        }
    } else {
        None
    }
}

/// Wire form of a process metadata record.
#[verifier::opaque]
pub open spec fn spec_enc_pinfo(p: ProcessInformationV) -> Seq<u8> {
    spec_enc_str(p.path) + spec_enc_opt_str(p.cmd) + spec_enc_u64(p.pid) + spec_enc_u64(
        p.parent_pid,
    ) + spec_enc_u64(p.start_time) + spec_enc_opt_u64(p.end_time) + spec_enc_u64(p.unique_id)
}

/// A process metadata record fits when its strings do.
pub open spec fn pinfo_encodable(p: ProcessInformationV) -> bool {
    str_encodable(p.path) && opt_str_encodable(p.cmd)
}

/// Reads a process metadata record from the front of `s`.
#[verifier::opaque]
pub open spec fn spec_dec_pinfo(s: Seq<u8>) -> Option<(ProcessInformationV, int)> {
    match spec_dec_str(s) {
        None => None,
        Some((path, n1)) => match spec_dec_opt_str(s.skip(n1)) {
            None => None,
            Some((cmd, n2)) => match spec_dec_u64(s.skip(n1 + n2)) {
                None => None,
                Some((pid, n3)) => match spec_dec_u64(s.skip(n1 + n2 + n3)) {
                    None => None,
                    Some((parent_pid, n4)) => match spec_dec_u64(s.skip(n1 + n2 + n3 + n4)) {
                        None => None,
                        Some((start_time, n5)) => match spec_dec_opt_u64(
                            s.skip(n1 + n2 + n3 + n4 + n5),
                        ) {
                            None => None,
                            Some((end_time, n6)) => match spec_dec_u64(
                                s.skip(n1 + n2 + n3 + n4 + n5 + n6),
                            ) {
                                None => None,
                                Some((unique_id, n7)) => Some(
                                    (
                                        ProcessInformationV {
                                            path,
                                            cmd,
                                            pid,
                                            parent_pid,
                                            start_time,
                                            end_time,
                                            unique_id,
                                        },
                                        n1 + n2 + n3 + n4 + n5 + n6 + n7,
                                    ),
                                ),
                            },
                        },
                    },
                },
            },
        },
    }
}

#[verifier::rlimit(100)]
proof fn lemma_dec_enc_pinfo(p: ProcessInformationV, rest: Seq<u8>)
    requires
        pinfo_encodable(p),
    ensures
        spec_dec_pinfo(spec_enc_pinfo(p) + rest) == Some((p, spec_enc_pinfo(p).len() as int)),
        (spec_enc_pinfo(p) + rest).skip(spec_enc_pinfo(p).len() as int) == rest,
{
    reveal(spec_dec_pinfo);
    reveal(spec_enc_pinfo);
    reveal(spec_enc_str);
    let s = spec_enc_pinfo(p) + rest;
    let t6 = spec_enc_u64(p.unique_id) + rest;
    let t5 = spec_enc_opt_u64(p.end_time) + t6;
    let t4 = spec_enc_u64(p.start_time) + t5;
    let t3 = spec_enc_u64(p.parent_pid) + t4;
    let t2 = spec_enc_u64(p.pid) + t3;
    let t1 = spec_enc_opt_str(p.cmd) + t2;
    assert(s =~= spec_enc_str(p.path) + t1);
    lemma_dec_enc_str(p.path, t1);
    lemma_enc_units_len(p.path);
    let n1 = 4 + 2 * p.path.len() as int;
    lemma_dec_enc_opt_str(p.cmd, t2);
    let n2 = spec_enc_opt_str(p.cmd).len() as int;
    lemma_skip_skip(s, n1, n2);
    lemma_dec_enc_u64(p.pid, t3);
    lemma_skip_skip(s, n1 + n2, 8);
    lemma_dec_enc_u64(p.parent_pid, t4);
    lemma_skip_skip(s, n1 + n2 + 8, 8);
    lemma_dec_enc_u64(p.start_time, t5);
    lemma_skip_skip(s, n1 + n2 + 16, 8);
    lemma_dec_enc_opt_u64(p.end_time, t6);
    let n6 = spec_enc_opt_u64(p.end_time).len() as int;
    lemma_skip_skip(s, n1 + n2 + 24, n6);
    lemma_dec_enc_u64(p.unique_id, rest);
    lemma_skip_skip(s, n1 + n2 + 24 + n6, 8);
}

/// Appends the wire form of a process metadata record.
fn enc_pinfo(out: &mut Vec<u8>, p: &ProcessInformation)
    requires
        pinfo_encodable(p@),
    ensures
        final(out)@ == old(out)@ + spec_enc_pinfo(p@),
{
    proof {
        reveal(spec_enc_pinfo);
    }
    enc_str(out, &p.path);
    enc_opt_str(out, &p.cmd);
    enc_u64(out, p.pid);
    enc_u64(out, p.parent_pid);
    enc_u64(out, p.start_time);
    enc_opt_u64(out, &p.end_time);
    enc_u64(out, p.unique_id);
    proof {
        assert(out@ =~= old(out)@ + spec_enc_pinfo(p@));
    }
}

/// Reads a process metadata record at `pos`.
#[verifier::rlimit(100)]
fn dec_pinfo(buf: &[u8], pos: usize) -> (r: Option<(ProcessInformation, usize)>)
    requires
        pos <= buf@.len(),
    ensures
        match r {
            Some((p, next)) => {
                &&& spec_dec_pinfo(buf@.skip(pos as int)) == Some((p@, next - pos))
                &&& pos < next <= buf@.len()
            },
            None => spec_dec_pinfo(buf@.skip(pos as int)) is None,
        },
{
    proof {
        reveal(spec_dec_pinfo);
    }
    let (path, p1) = match dec_str(buf, pos) {
        Some(x) => x,
        None => {
            return None;
        },
    };
    proof {
        assert(buf@.skip(pos as int).skip(p1 - pos) =~= buf@.skip(p1 as int));
    }
    let (cmd, p2) = match dec_opt_str(buf, p1) {
        Some(x) => x,
        None => {
            return None;
        },
    };
    proof {
        assert(buf@.skip(pos as int).skip((p1 - pos) + (p2 - p1)) =~= buf@.skip(p2 as int));
    }
    let (pid, p3) = match dec_u64(buf, p2) {
        Some(x) => x,
        None => {
            return None;
        },
    };
    proof {
        assert(buf@.skip(pos as int).skip((p1 - pos) + (p2 - p1) + (p3 - p2)) =~= buf@.skip(
            p3 as int,
        ));
    }
    let (parent_pid, p4) = match dec_u64(buf, p3) {
        Some(x) => x,
        None => {
            return None;
        },
    };
    proof {
        assert(buf@.skip(pos as int).skip((p1 - pos) + (p2 - p1) + (p3 - p2) + (p4 - p3)) =~= buf@
            .skip(p4 as int));
    }
    let (start_time, p5) = match dec_u64(buf, p4) {
        Some(x) => x,
        None => {
            return None;
        },
    };
    proof {
        assert(buf@.skip(pos as int).skip(
            (p1 - pos) + (p2 - p1) + (p3 - p2) + (p4 - p3) + (p5 - p4),
        ) =~= buf@.skip(p5 as int));
    }
    let (end_time, p6) = match dec_opt_u64(buf, p5) {
        Some(x) => x,
        None => {
            return None;
        },
    };
    proof {
        assert(buf@.skip(pos as int).skip(
            (p1 - pos) + (p2 - p1) + (p3 - p2) + (p4 - p3) + (p5 - p4) + (p6 - p5),
        ) =~= buf@.skip(p6 as int));
    }
    let (unique_id, p7) = match dec_u64(buf, p6) {
        Some(x) => x,
        None => {
            return None;
        },
    };
    Some(
        (
            ProcessInformation { path, cmd, pid, parent_pid, start_time, end_time, unique_id },
            p7,
        ),
    )
}

/// Wire form of a user-space request.
pub open spec fn spec_enc_um_send(m: UmSendMessage) -> Seq<u8> {
    match m {
        UmSendMessage::GetProcessInfo(uid) => seq![0u8] + spec_enc_u64(uid),
        UmSendMessage::GetExeName(uid) => seq![1u8] + spec_enc_u64(uid),
    }
}

/// Reads a user-space request from the front of `s`.
pub open spec fn spec_dec_um_send(s: Seq<u8>) -> Option<(UmSendMessage, int)> {
    if s.len() < 1 {
        None
    } else if s[0] == 0 || s[0] == 1 {
        match spec_dec_u64(s.skip(1)) {
            None => None,
            Some((uid, n)) => Some(
                (
                    if s[0] == 0 {
                        UmSendMessage::GetProcessInfo(uid)
                    } else {
                        UmSendMessage::GetExeName(uid)
                    },
                    1 + n,
                ),
            ),
        }
    } else {
        None
    }
}

/// Round trip for user-space requests: the encoding of a request, followed
/// by anything, decodes to the request itself.
pub proof fn lemma_dec_enc_um_send(m: UmSendMessage, rest: Seq<u8>)
    ensures
        spec_dec_um_send(spec_enc_um_send(m) + rest) == Some((m, 9int)),
        (spec_enc_um_send(m) + rest).skip(9) == rest,
{
    let s = spec_enc_um_send(m) + rest;
    match m {
        UmSendMessage::GetProcessInfo(uid) => {
            assert(s.skip(1) =~= spec_enc_u64(uid) + rest);
            lemma_dec_enc_u64(uid, rest);
            assert(s.skip(9) =~= rest);
        },
        UmSendMessage::GetExeName(uid) => {
            assert(s.skip(1) =~= spec_enc_u64(uid) + rest);
            lemma_dec_enc_u64(uid, rest);
            assert(s.skip(9) =~= rest);
        },
    }
}

/// Encodes a user-space request.
pub fn encode_um_send(m: &UmSendMessage) -> (r: Vec<u8>)
    ensures
        r@ == spec_enc_um_send(*m),
{
    let mut out: Vec<u8> = Vec::new();
    match m {
        UmSendMessage::GetProcessInfo(uid) => {
            out.push(0u8);
            enc_u64(&mut out, *uid);
        },
        UmSendMessage::GetExeName(uid) => {
            out.push(1u8);
            enc_u64(&mut out, *uid);
        },
    }
    proof {
        assert(out@ =~= spec_enc_um_send(*m));
    }
    out
}

/// Decodes a user-space request at `pos`.
pub fn decode_um_send(buf: &[u8], pos: usize) -> (r: Option<(UmSendMessage, usize)>)
    requires
        pos <= buf@.len(),
    ensures
        match r {
            Some((m, next)) => {
                &&& spec_dec_um_send(buf@.skip(pos as int)) == Some((m, next - pos))
                &&& pos < next <= buf@.len()
            },
            None => spec_dec_um_send(buf@.skip(pos as int)) is None,
        },
{
    if buf.len() - pos < 1 {
        return None;
    }
    let tag = buf[pos];
    proof {
        assert(buf@.skip(pos as int)[0] == buf@[pos as int]);
        assert(buf@.skip(pos as int).skip(1) =~= buf@.skip(pos as int + 1));
    }
    if tag == 0 || tag == 1 {
        let (uid, next) = match dec_u64(buf, pos + 1) {
            Some(x) => x,
            None => {
                return None;
            },
        };
        if tag == 0 {
            Some((UmSendMessage::GetProcessInfo(uid), next))
        } else {
            Some((UmSendMessage::GetExeName(uid), next))
        }
    } else {
        None
    }
}

/// Wire form of a kernel reply.
#[verifier::opaque]
pub open spec fn spec_enc_km_reply(m: KmReplyMessageV) -> Seq<u8> {
    match m {
        KmReplyMessageV::ProcessInfo(p) => seq![0u8] + spec_enc_pinfo(p),
        KmReplyMessageV::ExeName(t) => seq![1u8] + spec_enc_str(t),
    }
}

/// A kernel reply fits when its payload does.
pub open spec fn km_reply_encodable(m: KmReplyMessageV) -> bool {
    match m {
        KmReplyMessageV::ProcessInfo(p) => pinfo_encodable(p),
        KmReplyMessageV::ExeName(t) => str_encodable(t),
    }
}

/// Reads a kernel reply from the front of `s`.
#[verifier::opaque]
pub open spec fn spec_dec_km_reply(s: Seq<u8>) -> Option<(KmReplyMessageV, int)> {
    if s.len() < 1 {
        None
    } else if s[0] == 0 {
        match spec_dec_pinfo(s.skip(1)) {
            None => None,
            Some((p, n)) => Some((KmReplyMessageV::ProcessInfo(p), 1 + n)),
        }
    } else if s[0] == 1 {
        match spec_dec_str(s.skip(1)) {
            None => None,
            Some((t, n)) => Some((KmReplyMessageV::ExeName(t), 1 + n)),
        }
    } else {
        None
    }
}

/// Round trip for kernel replies.
pub proof fn lemma_dec_enc_km_reply(m: KmReplyMessageV, rest: Seq<u8>)
    requires
        km_reply_encodable(m),
    ensures
        spec_dec_km_reply(spec_enc_km_reply(m) + rest) == Some(
            (m, spec_enc_km_reply(m).len() as int),
        ),
        (spec_enc_km_reply(m) + rest).skip(spec_enc_km_reply(m).len() as int) == rest,
{
    reveal(spec_enc_km_reply);
    reveal(spec_dec_km_reply);
    let s = spec_enc_km_reply(m) + rest;
    match m {
        KmReplyMessageV::ProcessInfo(p) => {
            assert(s.skip(1) =~= spec_enc_pinfo(p) + rest);
            lemma_dec_enc_pinfo(p, rest);
            assert(s.skip(spec_enc_km_reply(m).len() as int) =~= (spec_enc_pinfo(p) + rest).skip(
                spec_enc_pinfo(p).len() as int,
            ));
        },
        KmReplyMessageV::ExeName(t) => {
            assert(s.skip(1) =~= spec_enc_str(t) + rest);
            lemma_dec_enc_str(t, rest);
            lemma_enc_units_len(t);
            reveal(spec_enc_str);
            assert(s.skip(spec_enc_km_reply(m).len() as int) =~= (spec_enc_str(t) + rest).skip(
                4 + 2 * t.len() as int,
            ));
        },
    }
}

/// Encodes a kernel reply.
pub fn encode_km_reply(m: &KmReplyMessage) -> (r: Vec<u8>)
    requires
        km_reply_encodable(m@),
    ensures
        r@ == spec_enc_km_reply(m@),
{
    proof {
        reveal(spec_enc_km_reply);
    }
    let mut out: Vec<u8> = Vec::new();
    match m {
        KmReplyMessage::ProcessInfo(p) => {
            out.push(0u8);
            enc_pinfo(&mut out, p);
        },
        KmReplyMessage::ExeName(t) => {
            out.push(1u8);
            enc_str(&mut out, t);
        },
    }
    proof {
        assert(out@ =~= spec_enc_km_reply(m@));
    }
    out
}

/// Decodes a kernel reply at `pos`.
pub fn decode_km_reply(buf: &[u8], pos: usize) -> (r: Option<(KmReplyMessage, usize)>)
    requires
        pos <= buf@.len(),
    ensures
        match r {
            Some((m, next)) => {
                &&& spec_dec_km_reply(buf@.skip(pos as int)) == Some((m@, next - pos))
                &&& pos < next <= buf@.len()
            },
            None => spec_dec_km_reply(buf@.skip(pos as int)) is None,
        },
{
    proof {
        reveal(spec_dec_km_reply);
    }
    if buf.len() - pos < 1 {
        return None;
    }
    let tag = buf[pos];
    proof {
        assert(buf@.skip(pos as int)[0] == buf@[pos as int]);
        assert(buf@.skip(pos as int).skip(1) =~= buf@.skip(pos as int + 1));
    }
    if tag == 0 {
        match dec_pinfo(buf, pos + 1) {
            Some((p, next)) => Some((KmReplyMessage::ProcessInfo(p), next)),
            None => None,
        }
    } else if tag == 1 {
        match dec_str(buf, pos + 1) {
            Some((t, next)) => Some((KmReplyMessage::ExeName(t), next)),
            None => None,
        }
    } else {
        None
    }
}

/// Wire form of the connect-time message.
pub open spec fn spec_enc_client_connect(m: ClientConnectMessage) -> Seq<u8> {
    match m {
        ClientConnectMessage::Any => seq![0u8],
        ClientConnectMessage::Testing { filter_pid } => seq![1u8] + spec_enc_u64(filter_pid),
    }
}

/// Reads the connect-time message from the front of `s`.
pub open spec fn spec_dec_client_connect(s: Seq<u8>) -> Option<(ClientConnectMessage, int)> {
    if s.len() < 1 {
        None
    } else if s[0] == 0 {
        Some((ClientConnectMessage::Any, 1))
    } else if s[0] == 1 {
        match spec_dec_u64(s.skip(1)) {
            None => None,
            Some((filter_pid, n)) => Some((ClientConnectMessage::Testing { filter_pid }, 1 + n)),
        }
    } else {
        None
    }
}

/// Round trip for the connect-time message.
pub proof fn lemma_dec_enc_client_connect(m: ClientConnectMessage, rest: Seq<u8>)
    ensures
        spec_dec_client_connect(spec_enc_client_connect(m) + rest) == Some(
            (m, spec_enc_client_connect(m).len() as int),
        ),
        (spec_enc_client_connect(m) + rest).skip(spec_enc_client_connect(m).len() as int) == rest,
{
    let s = spec_enc_client_connect(m) + rest;
    match m {
        ClientConnectMessage::Any => {
            assert(s.skip(1) =~= rest);
        },
        ClientConnectMessage::Testing { filter_pid } => {
            assert(s.skip(1) =~= spec_enc_u64(filter_pid) + rest);
            lemma_dec_enc_u64(filter_pid, rest);
            assert(s.skip(9) =~= rest);
        },
    }
}

/// Encodes the connect-time message.
pub fn encode_client_connect(m: &ClientConnectMessage) -> (r: Vec<u8>)
    ensures
        r@ == spec_enc_client_connect(*m),
{
    let mut out: Vec<u8> = Vec::new();
    match m {
        ClientConnectMessage::Any => {
            out.push(0u8);
        },
        ClientConnectMessage::Testing { filter_pid } => {
            out.push(1u8);
            enc_u64(&mut out, *filter_pid);
        },
    }
    proof {
        assert(out@ =~= spec_enc_client_connect(*m));
    }
    out
}

/// Decodes the connect-time message at `pos`.
pub fn decode_client_connect(buf: &[u8], pos: usize) -> (r: Option<(ClientConnectMessage, usize)>)
    requires
        pos <= buf@.len(),
    ensures
        match r {
            Some((m, next)) => {
                &&& spec_dec_client_connect(buf@.skip(pos as int)) == Some((m, next - pos))
                &&& pos < next <= buf@.len()
            },
            None => spec_dec_client_connect(buf@.skip(pos as int)) is None,
        },
{
    if buf.len() - pos < 1 {
        return None;
    }
    let tag = buf[pos];
    proof {
        assert(buf@.skip(pos as int)[0] == buf@[pos as int]);
        assert(buf@.skip(pos as int).skip(1) =~= buf@.skip(pos as int + 1));
    }
    if tag == 0 {
        Some((ClientConnectMessage::Any, pos + 1))
    } else if tag == 1 {
        match dec_u64(buf, pos + 1) {
            Some((filter_pid, next)) => Some(
                (ClientConnectMessage::Testing { filter_pid }, next),
            ),
            None => None,
        }
    } else {
        None
    }
}

} // verus!
