//! The envelope codec.
//!
//! One message on the wire is: the message type's 32-bit code in
//! little-endian order, the payload length as a 32-bit little-endian
//! integer, and that many bytes of stuffed, terminator-delimited JSON
//! payload. The length always counts the stuffed bytes, terminator
//! included — never the unstuffed length.
//!
//! Encoding is offered for the bidirectional and the send-only registries;
//! decoding for all three (decoding a send-only envelope is what lets a
//! sender check its own frames). A decode consumes exactly one envelope
//! from the front of the buffer, as a framed stream would, and either
//! yields a fully validated pair or an error; no partial message is ever
//! returned.

use vstd::prelude::*;

use crate::errors::CodecError;
use crate::json::{json_of, spec_parse_value, value_from_json, value_to_json};
use crate::payload::{MessageValue, MessageValueModel};
use crate::registry::{FromMessageType, MessageType, ToMessageType};
use crate::stuffing::{lemma_stuff_body_len, lemma_unstuff_stuff, stuff, stuffed, unstuff, unstuffed};

verus! {

/// The four little-endian bytes of a 32-bit value.
pub open spec fn le_bytes_of(n: u32) -> Seq<u8> {
    seq![
        (n % 0x100) as u8,
        ((n / 0x100) % 0x100) as u8,
        ((n / 0x10000) % 0x100) as u8,
        ((n / 0x1000000) % 0x100) as u8,
    ]
}

/// The 32-bit value of four little-endian bytes.
pub open spec fn spec_u32_of(b: Seq<u8>) -> u32
    recommends
        b.len() == 4,
{
    (b[0] + b[1] * 0x100 + b[2] * 0x10000 + b[3] * 0x1000000) as u32
}

/// Reading back the four little-endian bytes of a value gives the value.
pub proof fn lemma_le_roundtrip(n: u32)
    ensures
        spec_u32_of(le_bytes_of(n)) == n,
{
    assert(n == n % 0x100 + ((n / 0x100) % 0x100) * 0x100 + ((n / 0x10000) % 0x100) * 0x10000 + ((
    n / 0x1000000) % 0x100) * 0x1000000) by (bit_vector);
}

/// The whole envelope of a message: code, length, stuffed payload.
pub open spec fn spec_envelope(code: u32, v: MessageValueModel) -> Seq<u8> {
    le_bytes_of(code) + le_bytes_of(stuffed(json_of(v)).len() as u32) + stuffed(json_of(v))
}

/// Decoding of an envelope's length and payload, the four code bytes
/// already consumed: read the length, take exactly that many payload
/// bytes, unstuff them, parse the JSON. Bytes beyond the declared length
/// are left untouched, as a framed stream leaves the next envelope.
pub open spec fn spec_decode_rest(s: Seq<u8>) -> Result<MessageValueModel, CodecError> {
    if s.len() < 4 {
        Err(CodecError::Truncated)
    } else {
        let n = spec_u32_of(s.subrange(0, 4)) as int;
        if s.len() - 4 < n {
            Err(CodecError::Truncated)
        } else {
            match unstuffed(s.subrange(4, 4 + n)) {
                None => Err(CodecError::Framing),
                Some(raw) => match spec_parse_value(raw) {
                    None => Err(CodecError::PayloadDecode),
                    Some(v) => Ok(v),
                },
            }
        }
    }
}

/// Decoding of a bidirectional envelope: resolve the code against the
/// bidirectional registry, then read length and payload.
pub open spec fn spec_decode_bi(s: Seq<u8>) -> Result<
    (MessageType, MessageValueModel),
    CodecError,
> {
    if s.len() < 4 {
        Err(CodecError::Truncated)
    } else {
        match MessageType::spec_from_code(spec_u32_of(s.subrange(0, 4))) {
            None => Err(CodecError::UnknownMessageType),
            Some(kind) => match spec_decode_rest(s.skip(4)) {
                Err(e) => Err(e),
                Ok(v) => Ok((kind, v)),
            },
        }
    }
}

/// Decoding of a receive-only envelope: as above, against the
/// receive-only registry.
pub open spec fn spec_decode_from(s: Seq<u8>) -> Result<
    (FromMessageType, MessageValueModel),
    CodecError,
> {
    if s.len() < 4 {
        Err(CodecError::Truncated)
    } else {
        match FromMessageType::spec_from_code(spec_u32_of(s.subrange(0, 4))) {
            None => Err(CodecError::UnknownMessageType),
            Some(kind) => match spec_decode_rest(s.skip(4)) {
                Err(e) => Err(e),
                Ok(v) => Ok((kind, v)),
            },
        }
    }
}

/// Decoding of a send-only envelope: as above, against the send-only
/// registry.
pub open spec fn spec_decode_to(s: Seq<u8>) -> Result<
    (ToMessageType, MessageValueModel),
    CodecError,
> {
    if s.len() < 4 {
        Err(CodecError::Truncated)
    } else {
        match ToMessageType::spec_from_code(spec_u32_of(s.subrange(0, 4))) {
            None => Err(CodecError::UnknownMessageType),
            Some(kind) => match spec_decode_rest(s.skip(4)) {
                Err(e) => Err(e),
                Ok(v) => Ok((kind, v)),
            },
        }
    }
}

/// Append the four little-endian bytes of a value.
fn push_u32_le(out: &mut Vec<u8>, n: u32)
    ensures
        final(out)@ == old(out)@ + le_bytes_of(n),
{
    out.push((n % 0x100) as u8);
    out.push(((n / 0x100) % 0x100) as u8);
    out.push(((n / 0x10000) % 0x100) as u8);
    out.push(((n / 0x1000000) % 0x100) as u8);
    proof {
        assert(out@ =~= old(out)@ + le_bytes_of(n));
    }
}

/// Read four little-endian bytes starting at `at`.
fn read_u32_le(s: &[u8], at: usize) -> (n: u32)
    requires
        at + 4 <= s@.len(),
    ensures
        n == spec_u32_of(s@.subrange(at as int, at as int + 4)),
{
    let n = s[at] as u32 + (s[at + 1] as u32) * 0x100 + (s[at + 2] as u32) * 0x10000 + (s[at + 3]
        as u32) * 0x1000000;
    proof {
        let b = s@.subrange(at as int, at as int + 4);
        assert(b[0] == s@[at as int]);
        assert(b[1] == s@[at as int + 1]);
        assert(b[2] == s@[at as int + 2]);
        assert(b[3] == s@[at as int + 3]);
    }
    n
}

/// The serialized payload of every value fits the wire's 32-bit length
/// field as long as its JSON text stays below 2 GiB; this is the one
/// machine limit the encoder asks of its caller.
pub open spec fn encodable(v: MessageValueModel) -> bool {
    json_of(v).len() <= 0x7FFF_FFFF
}

/// Serialize, stuff and frame a payload under the given 32-bit code.
fn encode_with_code(code: u32, value: &MessageValue) -> (out: Vec<u8>)
    requires
        encodable(value@),
    ensures
        out@ == spec_envelope(code, value@),
{
    let json = value_to_json(value);
    let body = stuff(json.as_slice());
    proof {
        lemma_stuff_body_len(json@);
    }
    let n = body.len() as u32;
    let mut out: Vec<u8> = Vec::new();
    push_u32_le(&mut out, code);
    push_u32_le(&mut out, n);
    let mut tail = body;
    out.append(&mut tail);
    proof {
        assert(out@ =~= spec_envelope(code, value@));
    }
    out
}

/// Encode a bidirectional message: its kind's code, the payload length,
/// and the stuffed JSON payload, in that order, as one buffer.
pub fn encode_message(kind: MessageType, value: &MessageValue) -> (out: Vec<u8>)
    requires
        encodable(value@),
    ensures
        out@ == spec_envelope(kind.spec_code(), value@),
{
    encode_with_code(kind.code(), value)
}

/// Encode a send-only message.
pub fn encode_to_message(kind: ToMessageType, value: &MessageValue) -> (out: Vec<u8>)
    requires
        encodable(value@),
    ensures
        out@ == spec_envelope(kind.spec_code(), value@),
{
    encode_with_code(kind.code(), value)
}

/// Decode an envelope's length and payload, the code already read.
fn decode_rest(s: &[u8], at: usize) -> (r: Result<MessageValue, CodecError>)
    requires
        at <= s@.len(),
    ensures
        match r {
            Ok(v) => spec_decode_rest(s@.skip(at as int)) == Ok::<_, CodecError>(v@),
            Err(e) => spec_decode_rest(s@.skip(at as int)) == Err::<MessageValueModel, _>(e),
        },
{
    let ghost rest = s@.skip(at as int);
    if s.len() - at < 4 {
        return Err(CodecError::Truncated);
    }
    let n = read_u32_le(s, at);
    proof {
        assert(rest.subrange(0, 4) =~= s@.subrange(at as int, at as int + 4));
    }
    if s.len() - at - 4 < n as usize {
        return Err(CodecError::Truncated);
    }
    let body = &s[at + 4..at + 4 + n as usize];
    proof {
        assert(body@ =~= rest.subrange(4, 4 + n as int));
    }
    match unstuff(body) {
        Err(e) => Err(e),
        Ok(raw) => match value_from_json(raw.as_slice()) {
            Err(e) => Err(e),
            Ok(v) => Ok(v),
        },
    }
}

/// Decode one bidirectional envelope from the front of the buffer.
pub fn decode_message(bytes: &[u8]) -> (r: Result<(MessageType, MessageValue), CodecError>)
    ensures
        match r {
            Ok(p) => spec_decode_bi(bytes@) == Ok::<_, CodecError>((p.0, p.1@)),
            Err(e) => spec_decode_bi(bytes@) == Err::<(MessageType, MessageValueModel), _>(e),
        },
{
    if bytes.len() < 4 {
        return Err(CodecError::Truncated);
    }
    let code = read_u32_le(bytes, 0);
    proof {
        assert(bytes@.subrange(0, 4) =~= bytes@.subrange(0int, 0int + 4));
    }
    let kind = match MessageType::from_code(code) {
        None => {
            return Err(CodecError::UnknownMessageType);
        },
        Some(kind) => kind,
    };
    match decode_rest(bytes, 4) {
        Err(e) => Err(e),
        Ok(v) => Ok((kind, v)),
    }
}

/// Decode one receive-only envelope from the front of the buffer.
pub fn decode_from_message(bytes: &[u8]) -> (r: Result<
    (FromMessageType, MessageValue),
    CodecError,
>)
    ensures
        match r {
            Ok(p) => spec_decode_from(bytes@) == Ok::<_, CodecError>((p.0, p.1@)),
            Err(e) => spec_decode_from(bytes@) == Err::<(FromMessageType, MessageValueModel), _>(
                e,
            ),
        },
{
    if bytes.len() < 4 {
        return Err(CodecError::Truncated);
    }
    let code = read_u32_le(bytes, 0);
    proof {
        assert(bytes@.subrange(0, 4) =~= bytes@.subrange(0int, 0int + 4));
    }
    let kind = match FromMessageType::from_code(code) {
        None => {
            return Err(CodecError::UnknownMessageType);
        },
        Some(kind) => kind,
    };
    match decode_rest(bytes, 4) {
        Err(e) => Err(e),
        Ok(v) => Ok((kind, v)),
    }
}

/// Decode one send-only envelope from the front of the buffer.
pub fn decode_to_message(bytes: &[u8]) -> (r: Result<(ToMessageType, MessageValue), CodecError>)
    ensures
        match r {
            Ok(p) => spec_decode_to(bytes@) == Ok::<_, CodecError>((p.0, p.1@)),
            Err(e) => spec_decode_to(bytes@) == Err::<(ToMessageType, MessageValueModel), _>(e),
        },
{
    if bytes.len() < 4 {
        return Err(CodecError::Truncated);
    }
    let code = read_u32_le(bytes, 0);
    proof {
        assert(bytes@.subrange(0, 4) =~= bytes@.subrange(0int, 0int + 4));
    }
    let kind = match ToMessageType::from_code(code) {
        None => {
            return Err(CodecError::UnknownMessageType);
        },
        Some(kind) => kind,
    };
    match decode_rest(bytes, 4) {
        Err(e) => Err(e),
        Ok(v) => Ok((kind, v)),
    }
}

/// Decoding an encoded envelope gives back code resolution and payload:
/// the shared frame of every registry round-trips.
proof fn lemma_envelope_roundtrip(code: u32, v: MessageValueModel)
    requires
        encodable(v),
    ensures
        spec_envelope(code, v).len() >= 4,
        spec_u32_of(spec_envelope(code, v).subrange(0, 4)) == code,
        spec_decode_rest(spec_envelope(code, v).skip(4)) == Ok::<_, CodecError>(v),
{
    let json = json_of(v);
    let body = stuffed(json);
    let env = spec_envelope(code, v);
    crate::stuffing::lemma_stuff_body_len(json);
    assert(body.len() <= 0xFFFF_FFFF);
    let n = body.len() as u32;
    assert(env.subrange(0, 4) =~= le_bytes_of(code));
    lemma_le_roundtrip(code);
    let rest = env.skip(4);
    assert(rest =~= le_bytes_of(n) + body);
    assert(rest.subrange(0, 4) =~= le_bytes_of(n));
    lemma_le_roundtrip(n);
    assert(rest.subrange(4, 4 + n as int) =~= body);
    lemma_unstuff_stuff(json);
    crate::json::lemma_parse_canonical(v);
}

/// The round-trip law of the codec: for every payload value the encoder
/// accepts and every bidirectional kind, decoding the encoded envelope
/// gives back exactly that kind and that value.
pub proof fn lemma_encode_decode(kind: MessageType, v: MessageValueModel)
    requires
        encodable(v),
    ensures
        spec_decode_bi(spec_envelope(kind.spec_code(), v)) == Ok::<_, CodecError>((kind, v)),
{
    lemma_envelope_roundtrip(kind.spec_code(), v);
    crate::registry::lemma_registry_roundtrip(kind, FromMessageType::Message1, ToMessageType::Message1);
}

/// The same round-trip law for the send-only registry, under which a
/// sender can check its own frames.
pub proof fn lemma_encode_decode_to(kind: ToMessageType, v: MessageValueModel)
    requires
        encodable(v),
    ensures
        spec_decode_to(spec_envelope(kind.spec_code(), v)) == Ok::<_, CodecError>((kind, v)),
{
    lemma_envelope_roundtrip(kind.spec_code(), v);
    crate::registry::lemma_registry_roundtrip(MessageType::HeartBeat, FromMessageType::Message1, kind);
}

/// The truncation law: a buffer shorter than its declared header and
/// length decodes to `Truncated`, and one long enough never does. The
/// length logic is shared by the three registries, so it is stated of the
/// frame after the code; the header half is stated of the bidirectional
/// decoder, whose first four bytes every registry reads alike.
pub proof fn lemma_decode_truncated(s: Seq<u8>)
    ensures
        s.len() < 4 ==> spec_decode_rest(s) == Err::<MessageValueModel, _>(CodecError::Truncated),
        s.len() >= 4 && s.len() - 4 < spec_u32_of(s.subrange(0, 4)) ==> spec_decode_rest(s)
            == Err::<MessageValueModel, _>(CodecError::Truncated),
        s.len() >= 4 && s.len() - 4 >= spec_u32_of(s.subrange(0, 4)) ==> spec_decode_rest(s)
            != Err::<MessageValueModel, _>(CodecError::Truncated),
        s.len() < 4 ==> spec_decode_bi(s) == Err::<(MessageType, MessageValueModel), _>(
            CodecError::Truncated,
        ),
{
}

/// The bad-terminator law: a payload block whose last byte is not the
/// terminator fails decode with `Framing`, whatever else it holds.
pub proof fn lemma_decode_bad_terminator(s: Seq<u8>)
    requires
        s.len() >= 4,
        s.len() - 4 >= spec_u32_of(s.subrange(0, 4)),
        spec_u32_of(s.subrange(0, 4)) == 0 || s.subrange(
            4,
            4 + spec_u32_of(s.subrange(0, 4)) as int,
        ).last() != crate::stuffing::TERMINATOR,
    ensures
        spec_decode_rest(s) == Err::<MessageValueModel, _>(CodecError::Framing),
{
}

/// The unknown-discriminant law: a four-byte code outside the relevant
/// registry fails decode with `UnknownMessageType`, in every family.
pub proof fn lemma_decode_unknown(s: Seq<u8>)
    requires
        s.len() >= 4,
    ensures
        MessageType::spec_from_code(spec_u32_of(s.subrange(0, 4))) is None ==> spec_decode_bi(s)
            == Err::<(MessageType, MessageValueModel), _>(CodecError::UnknownMessageType),
        FromMessageType::spec_from_code(spec_u32_of(s.subrange(0, 4))) is None
            ==> spec_decode_from(s) == Err::<(FromMessageType, MessageValueModel), _>(
            CodecError::UnknownMessageType,
        ),
        ToMessageType::spec_from_code(spec_u32_of(s.subrange(0, 4))) is None ==> spec_decode_to(s)
            == Err::<(ToMessageType, MessageValueModel), _>(CodecError::UnknownMessageType),
{
}

} // verus!
