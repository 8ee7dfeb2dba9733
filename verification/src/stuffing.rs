//! The byte-stuffing transform.
//!
//! A payload is delimited on the wire by a single terminator byte `0x0D`.
//! So that arbitrary payload bytes can be framed this way, stuffing replaces
//! every occurrence of the escape marker `0x0E` by the pair `[0x0E, 0x01]`
//! and every occurrence of the terminator `0x0D` by the pair `[0x0E, 0x02]`,
//! then appends one terminator byte. Unstuffing checks the terminator,
//! reverses the substitutions, and rejects any malformed escape sequence.

use vstd::prelude::*;

use crate::errors::CodecError;

verus! {

/// The reserved byte that marks the end of a stuffed payload.
pub const TERMINATOR: u8 = 0x0D;

/// The escape marker that protects the terminator inside a payload.
pub const ESCAPE: u8 = 0x0E;

/// The byte that follows the escape marker to stand for the marker itself.
pub const ESCAPED_ESCAPE: u8 = 0x01;

/// The byte that follows the escape marker to stand for the terminator.
pub const ESCAPED_TERMINATOR: u8 = 0x02;

/// What one raw byte becomes in the stuffed body.
pub open spec fn stuff_byte(v: u8) -> Seq<u8> {
    if v == ESCAPE {
        seq![ESCAPE, ESCAPED_ESCAPE]
    } else if v == TERMINATOR {
        seq![ESCAPE, ESCAPED_TERMINATOR]
    } else {
        seq![v]
    }
}

/// The stuffed body of a raw byte sequence, without the trailing terminator.
pub open spec fn stuff_body(raw: Seq<u8>) -> Seq<u8>
    decreases raw.len(),
{
    if raw.len() == 0 {
        Seq::empty()
    } else {
        stuff_byte(raw[0]) + stuff_body(raw.drop_first())
    }
}

/// The full stuffed form: the stuffed body followed by one terminator byte.
pub open spec fn stuffed(raw: Seq<u8>) -> Seq<u8> {
    stuff_body(raw) + seq![TERMINATOR]
}

/// The inverse of `stuff_body`: `None` on any malformed escape sequence,
/// that is an escape marker that is the last byte of the body or that is
/// followed by a byte other than the two recognized continuations.
pub open spec fn unstuff_body(body: Seq<u8>) -> Option<Seq<u8>>
    decreases body.len(),
{
    if body.len() == 0 {
        Some(Seq::empty())
    } else if body[0] == ESCAPE {
        if body.len() >= 2 && body[1] == ESCAPED_ESCAPE {
            match unstuff_body(body.skip(2)) {
                Some(rest) => Some(seq![ESCAPE] + rest),
                None => None,
            }
        } else if body.len() >= 2 && body[1] == ESCAPED_TERMINATOR {
            match unstuff_body(body.skip(2)) {
                Some(rest) => Some(seq![TERMINATOR] + rest),
                None => None,
            }
        } else {
            None
        }
    } else {
        match unstuff_body(body.drop_first()) {
            Some(rest) => Some(seq![body[0]] + rest),
            None => None,
        }
    }
}

/// The inverse of `stuffed`: `None` unless the input ends with the
/// terminator byte and its body unstuffs cleanly.
pub open spec fn unstuffed(framed: Seq<u8>) -> Option<Seq<u8>> {
    if framed.len() == 0 || framed.last() != TERMINATOR {
        None
    } else {
        unstuff_body(framed.drop_last())
    }
}

/// Stuffing a raw payload: escape the reserved bytes, append the terminator.
pub fn stuff(raw: &[u8]) -> (out: Vec<u8>)
    ensures
        out@ == stuffed(raw@),
{
    let mut out: Vec<u8> = Vec::new();
    let mut i: usize = 0;
    proof {
        assert(raw@.skip(0) =~= raw@);
        assert(out@ + stuff_body(raw@) =~= stuff_body(raw@));
    }
    while i < raw.len()
        invariant
            i <= raw.len(),
            stuff_body(raw@) == out@ + stuff_body(raw@.skip(i as int)),
        decreases raw.len() - i,
    {
        let v = raw[i];
        proof {
            assert(raw@.skip(i as int).drop_first() =~= raw@.skip(i as int + 1));
            assert(raw@.skip(i as int)[0] == v);
        }
        if v == ESCAPE {
            out.push(ESCAPE);
            out.push(ESCAPED_ESCAPE);
        } else if v == TERMINATOR {
            out.push(ESCAPE);
            out.push(ESCAPED_TERMINATOR);
        } else {
            out.push(v);
        }
        i = i + 1;
    }
    proof {
        assert(raw@.skip(raw@.len() as int) =~= Seq::<u8>::empty());
        assert(out@ =~= stuff_body(raw@));
    }
    out.push(TERMINATOR);
    proof {
        assert(out@ =~= stuffed(raw@));
    }
    out
}

/// Unstuffing a framed payload. Fails exactly where `unstuffed` is `None`:
/// a missing terminator, or a malformed escape sequence in the body.
pub fn unstuff(framed: &[u8]) -> (out: Result<Vec<u8>, CodecError>)
    ensures
        match out {
            Ok(raw) => unstuffed(framed@) == Some(raw@),
            Err(e) => unstuffed(framed@) is None && e == CodecError::Framing,
        },
{
    if framed.len() == 0 || framed[framed.len() - 1] != TERMINATOR {
        return Err(CodecError::Framing);
    }
    let body_len = framed.len() - 1;
    let ghost body = framed@.drop_last();
    proof {
        assert(body =~= framed@.subrange(0, body_len as int));
    }
    let mut out: Vec<u8> = Vec::new();
    let mut i: usize = 0;
    proof {
        assert(body.skip(0) =~= body);
        if let Some(rest) = unstuff_body(body) {
            assert(out@ + rest =~= rest);
        }
    }
    while i < body_len
        invariant
            i <= body_len,
            body_len == framed@.len() - 1,
            body == framed@.drop_last(),
            unstuff_body(body) == match unstuff_body(body.skip(i as int)) {
                Some(rest) => Some(out@ + rest),
                None => None::<Seq<u8>>,
            },
        decreases body_len - i,
    {
        let v = framed[i];
        proof {
            assert(body.skip(i as int)[0] == v);
            assert(body.skip(i as int).drop_first() =~= body.skip(i as int + 1));
        }
        if v == ESCAPE {
            if i + 1 < body_len && framed[i + 1] == ESCAPED_ESCAPE {
                proof {
                    assert(body.skip(i as int)[1] == framed@[i as int + 1]);
                    assert(body.skip(i as int).skip(2) =~= body.skip(i as int + 2));
                }
                out.push(ESCAPE);
                i = i + 2;
            } else if i + 1 < body_len && framed[i + 1] == ESCAPED_TERMINATOR {
                proof {
                    assert(body.skip(i as int)[1] == framed@[i as int + 1]);
                    assert(body.skip(i as int).skip(2) =~= body.skip(i as int + 2));
                }
                out.push(TERMINATOR);
                i = i + 2;
            } else {
                proof {
                    if i + 1 < body_len {
                        assert(body.skip(i as int)[1] == framed@[i as int + 1]);
                    }
                }
                return Err(CodecError::Framing);
            }
        } else {
            out.push(v);
            i = i + 1;
        }
    }
    proof {
        assert(body.skip(body_len as int) =~= Seq::<u8>::empty());
        assert(out@ + Seq::<u8>::empty() =~= out@);
    }
    Ok(out)
}

/// Stuffing at most doubles a payload: each raw byte becomes one or two
/// bytes of the stuffed body.
pub proof fn lemma_stuff_body_len(raw: Seq<u8>)
    ensures
        raw.len() <= stuff_body(raw).len() <= 2 * raw.len(),
    decreases raw.len(),
{
    if raw.len() > 0 {
        lemma_stuff_body_len(raw.drop_first());
    }
}

/// Unstuffing inverts stuffing on the body alone.
pub proof fn lemma_unstuff_body_stuff_body(raw: Seq<u8>)
    ensures
        unstuff_body(stuff_body(raw)) == Some(raw),
    decreases raw.len(),
{
    if raw.len() == 0 {
        assert(stuff_body(raw) =~= Seq::<u8>::empty());
    } else {
        let v = raw[0];
        let tail = raw.drop_first();
        lemma_unstuff_body_stuff_body(tail);
        let s = stuff_body(raw);
        assert(s == stuff_byte(v) + stuff_body(tail));
        if v == ESCAPE {
            assert(s[0] == ESCAPE && s[1] == ESCAPED_ESCAPE);
            assert(s.skip(2) =~= stuff_body(tail));
            assert(seq![ESCAPE] + tail =~= raw);
        } else if v == TERMINATOR {
            assert(s[0] == ESCAPE && s[1] == ESCAPED_TERMINATOR);
            assert(s.skip(2) =~= stuff_body(tail));
            assert(seq![TERMINATOR] + tail =~= raw);
        } else {
            assert(s[0] == v);
            assert(s.drop_first() =~= stuff_body(tail));
            assert(seq![v] + tail =~= raw);
        }
    }
}

/// The round-trip law of the transform: unstuffing a stuffed payload
/// always succeeds and gives back the raw bytes, for every byte sequence.
pub proof fn lemma_unstuff_stuff(raw: Seq<u8>)
    ensures
        unstuffed(stuffed(raw)) == Some(raw),
{
    let framed = stuffed(raw);
    assert(framed.last() == TERMINATOR);
    assert(framed.drop_last() =~= stuff_body(raw));
    lemma_unstuff_body_stuff_body(raw);
}

} // verus!
