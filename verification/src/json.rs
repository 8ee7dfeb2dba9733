//! The JSON form of the payload model.
//!
//! A payload is carried as one JSON object:
//! `{"id": <string>, "companyCode": <label string>, "data": <string> | null}`.
//! The serializer emits the canonical form: the fields in declared order,
//! no whitespace, an always-present `data` field (`null` for "no value"),
//! and the standard JSON string escapes. The parser accepts a superset:
//! JSON whitespace between tokens, the three fields in any order (each once,
//! `data` optional), the short escapes, `\/`, and every `\uXXXX` escape,
//! surrogate pairs included, decoded to UTF-8 bytes. Strings are byte
//! strings: bytes at and above `0x20` other than the quote and the
//! backslash pass through unchanged, without UTF-8 validation, so that
//! serializing and parsing invert each other on every byte string the
//! model can hold.
//!
//! Everything here is stated against two spec functions: `json_of`, the
//! canonical text of a value, and `spec_parse_value`, the grammar. The
//! lemmas at the end prove that the grammar accepts the canonical text of
//! every value, with and without its `data` field.

use vstd::prelude::*;

use crate::errors::CodecError;
use crate::payload::{
    code_of_label, spec_code_of_label, spec_label, CompanyCode, MessageValue, MessageValueModel,
};

verus! {

/// A hexadecimal digit byte for a value below 16, lower case.
pub open spec fn spec_hex_digit(n: u8) -> u8 {
    if n < 10 {
        (0x30 + n) as u8
    } else {
        (0x57 + n) as u8
    }
}

/// What one byte of string content becomes in canonical JSON text: the two
/// structural bytes and the control bytes are escaped, everything else
/// passes through.
pub open spec fn escape_byte(b: u8) -> Seq<u8> {
    if b == 0x22 {
        seq![0x5Cu8, 0x22]
    } else if b == 0x5C {
        seq![0x5Cu8, 0x5C]
    } else if b == 0x08 {
        seq![0x5Cu8, 0x62]
    } else if b == 0x0C {
        seq![0x5Cu8, 0x66]
    } else if b == 0x0A {
        seq![0x5Cu8, 0x6E]
    } else if b == 0x0D {
        seq![0x5Cu8, 0x72]
    } else if b == 0x09 {
        seq![0x5Cu8, 0x74]
    } else if b < 0x20 {
        seq![0x5Cu8, 0x75, 0x30, 0x30, spec_hex_digit(b / 16), spec_hex_digit(b % 16)]
    } else {
        seq![b]
    }
}

/// The canonical JSON text of string content.
pub open spec fn escape_bytes(s: Seq<u8>) -> Seq<u8>
    decreases s.len(),
{
    if s.len() == 0 {
        Seq::empty()
    } else {
        escape_byte(s[0]) + escape_bytes(s.drop_first())
    }
}

/// The opening of the object through the first field's opening quote:
/// `{"id":"`.
pub open spec fn json_id_prefix() -> Seq<u8> {
    seq![0x7Bu8, 0x22, 0x69, 0x64, 0x22, 0x3A, 0x22]
}

/// From the first field's closing quote through the second field's opening
/// quote: `","companyCode":"`.
pub open spec fn json_code_prefix() -> Seq<u8> {
    seq![
        0x22u8,
        0x2C,
        0x22,
        0x63,
        0x6F,
        0x6D,
        0x70,
        0x61,
        0x6E,
        0x79,
        0x43,
        0x6F,
        0x64,
        0x65,
        0x22,
        0x3A,
        0x22,
    ]
}

/// From the second field's closing quote through the third field's colon:
/// `","data":`.
pub open spec fn json_data_prefix() -> Seq<u8> {
    seq![0x22u8, 0x2C, 0x22, 0x64, 0x61, 0x74, 0x61, 0x22, 0x3A]
}

/// The literal `null`.
pub open spec fn json_null() -> Seq<u8> {
    seq![0x6Eu8, 0x75, 0x6C, 0x6C]
}

/// The canonical JSON text of a payload value: the fields in declared
/// order, the code under its wire label, `data` always present.
pub open spec fn json_of(v: MessageValueModel) -> Seq<u8> {
    json_id_prefix() + escape_bytes(v.id) + json_code_prefix() + spec_label(v.code)
        + json_data_prefix() + (match v.data {
        Some(d) => seq![0x22u8] + escape_bytes(d) + seq![0x22u8],
        None => json_null(),
    }) + seq![0x7Du8]
}

/// The canonical JSON text of a payload value whose `data` field is left
/// out entirely rather than written as `null`.
pub open spec fn json_of_without_data(id: Seq<u8>, code: CompanyCode) -> Seq<u8> {
    json_id_prefix() + escape_bytes(id) + json_code_prefix() + spec_label(code) + seq![
        0x22u8,
        0x7D,
    ]
}

/// A hexadecimal digit byte for a value below 16, lower case.
fn hex_digit(n: u8) -> (d: u8)
    requires
        n < 16,
    ensures
        d == spec_hex_digit(n),
{
    if n < 10 {
        0x30 + n
    } else {
        0x57 + n
    }
}

/// Append the canonical JSON text of string content.
fn append_escaped(out: &mut Vec<u8>, s: &[u8])
    ensures
        final(out)@ == old(out)@ + escape_bytes(s@),
{
    let ghost base = out@;
    let mut i: usize = 0;
    proof {
        assert(s@.skip(0) =~= s@);
        assert(base + escape_bytes(s@) =~= out@ + escape_bytes(s@));
    }
    while i < s.len()
        invariant
            i <= s.len(),
            base + escape_bytes(s@) == out@ + escape_bytes(s@.skip(i as int)),
        decreases s.len() - i,
    {
        let b = s[i];
        proof {
            assert(s@.skip(i as int)[0] == b);
            assert(s@.skip(i as int).drop_first() =~= s@.skip(i as int + 1));
        }
        if b == 0x22 {
            out.push(0x5C);
            out.push(0x22);
        } else if b == 0x5C {
            out.push(0x5C);
            out.push(0x5C);
        } else if b == 0x08 {
            out.push(0x5C);
            out.push(0x62);
        } else if b == 0x0C {
            out.push(0x5C);
            out.push(0x66);
        } else if b == 0x0A {
            out.push(0x5C);
            out.push(0x6E);
        } else if b == 0x0D {
            out.push(0x5C);
            out.push(0x72);
        } else if b == 0x09 {
            out.push(0x5C);
            out.push(0x74);
        } else if b < 0x20 {
            out.push(0x5C);
            out.push(0x75);
            out.push(0x30);
            out.push(0x30);
            out.push(hex_digit(b / 16));
            out.push(hex_digit(b % 16));
        } else {
            out.push(b);
        }
        i = i + 1;
    }
    proof {
        assert(s@.skip(s@.len() as int) =~= Seq::<u8>::empty());
        assert(out@ + Seq::<u8>::empty() =~= out@);
        assert(base + escape_bytes(s@) =~= out@);
    }
}

/// Serialize a payload value to its canonical JSON text.
#[verifier::rlimit(100)]
pub fn value_to_json(v: &MessageValue) -> (out: Vec<u8>)
    ensures
        out@ == json_of(v@),
{
    let mut out: Vec<u8> = Vec::new();
    out.push(0x7B);
    out.push(0x22);
    out.push(0x69);
    out.push(0x64);
    out.push(0x22);
    out.push(0x3A);
    out.push(0x22);
    proof {
        assert(out@ =~= json_id_prefix());
    }
    append_escaped(&mut out, v.id.as_slice());
    out.push(0x22);
    out.push(0x2C);
    out.push(0x22);
    out.push(0x63);
    out.push(0x6F);
    out.push(0x6D);
    out.push(0x70);
    out.push(0x61);
    out.push(0x6E);
    out.push(0x79);
    out.push(0x43);
    out.push(0x6F);
    out.push(0x64);
    out.push(0x65);
    out.push(0x22);
    out.push(0x3A);
    out.push(0x22);
    proof {
        assert(out@ =~= json_id_prefix() + escape_bytes(v.id@) + json_code_prefix());
    }
    let mut label = crate::payload::label_bytes(v.code);
    out.append(&mut label);
    out.push(0x22);
    out.push(0x2C);
    out.push(0x22);
    out.push(0x64);
    out.push(0x61);
    out.push(0x74);
    out.push(0x61);
    out.push(0x22);
    out.push(0x3A);
    proof {
        assert(out@ =~= json_id_prefix() + escape_bytes(v.id@) + json_code_prefix() + spec_label(
            v.code,
        ) + json_data_prefix());
    }
    match &v.data {
        None => {
            out.push(0x6E);
            out.push(0x75);
            out.push(0x6C);
            out.push(0x6C);
        },
        Some(d) => {
            out.push(0x22);
            append_escaped(&mut out, d.as_slice());
            out.push(0x22);
        },
    }
    out.push(0x7D);
    proof {
        assert(out@ =~= json_of(v@));
    }
    out
}

/// JSON whitespace: space, tab, line feed, carriage return.
pub open spec fn is_json_ws(b: u8) -> bool {
    b == 0x20 || b == 0x09 || b == 0x0A || b == 0x0D
}

/// The input with its leading JSON whitespace removed.
pub open spec fn spec_skip_ws(s: Seq<u8>) -> Seq<u8>
    decreases s.len(),
{
    if s.len() > 0 && is_json_ws(s[0]) {
        spec_skip_ws(s.drop_first())
    } else {
        s
    }
}

/// A hexadecimal digit byte, either case.
pub open spec fn is_hex_digit(b: u8) -> bool {
    (0x30 <= b && b <= 0x39) || (0x41 <= b && b <= 0x46) || (0x61 <= b && b <= 0x66)
}

/// The value of a hexadecimal digit byte.
pub open spec fn hex_value(b: u8) -> u8 {
    if b <= 0x39 {
        (b - 0x30) as u8
    } else if b <= 0x46 {
        (b - 0x37) as u8
    } else {
        (b - 0x57) as u8
    }
}

/// The byte a short escape stands for: `\"` `\\` `\/` map to themselves,
/// `\b` `\f` `\n` `\r` `\t` to their control bytes.
pub open spec fn unescape_short(e: u8) -> u8 {
    if e == 0x62 {
        0x08
    } else if e == 0x66 {
        0x0C
    } else if e == 0x6E {
        0x0A
    } else if e == 0x72 {
        0x0D
    } else if e == 0x74 {
        0x09
    } else {
        e
    }
}

/// Whether a byte introduces one of the short escapes.
pub open spec fn is_short_escape(e: u8) -> bool {
    e == 0x22 || e == 0x5C || e == 0x2F || e == 0x62 || e == 0x66 || e == 0x6E || e == 0x72
        || e == 0x74
}

/// The value of four hexadecimal digit bytes.
pub open spec fn hex4_value(a: u8, b: u8, c: u8, d: u8) -> int
    recommends
        is_hex_digit(a) && is_hex_digit(b) && is_hex_digit(c) && is_hex_digit(d),
{
    hex_value(a) * 0x1000 + hex_value(b) * 0x100 + hex_value(c) * 0x10 + hex_value(d)
}

/// Whether four input bytes are hexadecimal digits.
pub open spec fn four_hex_at(s: Seq<u8>, at: int) -> bool
    recommends
        0 <= at && at + 4 <= s.len(),
{
    is_hex_digit(s[at]) && is_hex_digit(s[at + 1]) && is_hex_digit(s[at + 2]) && is_hex_digit(
        s[at + 3],
    )
}

/// The UTF-8 encoding of a Unicode scalar value.
#[verifier::opaque]
pub open spec fn utf8_of(cp: int) -> Seq<u8>
    recommends
        0 <= cp <= 0x10FFFF,
{
    if cp < 0x80 {
        seq![cp as u8]
    } else if cp < 0x800 {
        seq![(0xC0 + cp / 0x40) as u8, (0x80 + cp % 0x40) as u8]
    } else if cp < 0x10000 {
        seq![(0xE0 + cp / 0x1000) as u8, (0x80 + (cp / 0x40) % 0x40) as u8, (0x80 + cp % 0x40) as u8]
    } else {
        seq![
            (0xF0 + cp / 0x40000) as u8,
            (0x80 + (cp / 0x1000) % 0x40) as u8,
            (0x80 + (cp / 0x40) % 0x40) as u8,
            (0x80 + cp % 0x40) as u8,
        ]
    }
}

/// The decoded bytes and the consumed length of a `\uXXXX` escape at the
/// front of the input, the backslash itself at position 0: six bytes for
/// one scalar value up to 0xFFFF, twelve for a surrogate pair naming a
/// value above it; `None` on anything else, a lone surrogate included.
#[verifier::opaque]
pub open spec fn unicode_escape_at(s: Seq<u8>) -> Option<(Seq<u8>, int)> {
    if s.len() >= 6 && four_hex_at(s, 2) {
        let u = hex4_value(s[2], s[3], s[4], s[5]);
        if 0xD800 <= u < 0xDC00 {
            if s.len() >= 12 && s[6] == 0x5C && s[7] == 0x75 && four_hex_at(s, 8) {
                let u2 = hex4_value(s[8], s[9], s[10], s[11]);
                if 0xDC00 <= u2 < 0xE000 {
                    Some((utf8_of(0x10000 + (u - 0xD800) * 0x400 + (u2 - 0xDC00)), 12))
                } else {
                    None
                }
            } else {
                None
            }
        } else if 0xDC00 <= u < 0xE000 {
            None
        } else {
            Some((utf8_of(u), 6))
        }
    } else {
        None
    }
}

/// Parse the body of a JSON string, the opening quote already consumed:
/// the decoded content, UTF-8 encoded, and the input after the closing
/// quote; `None` on an unterminated string, a raw control byte, a
/// malformed escape, or an unpaired surrogate.
pub open spec fn parse_string_body(s: Seq<u8>) -> Option<(Seq<u8>, Seq<u8>)>
    decreases s.len(),
    via parse_string_body_decreases
{
    if s.len() == 0 {
        None
    } else if s[0] == 0x22 {
        Some((Seq::empty(), s.drop_first()))
    } else if s[0] == 0x5C {
        if s.len() < 2 {
            None
        } else if is_short_escape(s[1]) {
            match parse_string_body(s.skip(2)) {
                Some(p) => Some((seq![unescape_short(s[1])] + p.0, p.1)),
                None => None,
            }
        } else if s[1] == 0x75 {
            match unicode_escape_at(s) {
                None => None,
                Some(d) => match parse_string_body(s.skip(d.1)) {
                    Some(p) => Some((d.0 + p.0, p.1)),
                    None => None,
                },
            }
        } else {
            None
        }
    } else if s[0] < 0x20 {
        None
    } else {
        match parse_string_body(s.drop_first()) {
            Some(p) => Some((seq![s[0]] + p.0, p.1)),
            None => None,
        }
    }
}

/// The escape decoder always consumes six or twelve bytes, so the string
/// parser's recursion shrinks its input.
#[via_fn]
proof fn parse_string_body_decreases(s: Seq<u8>) {
    reveal(unicode_escape_at);
}

/// A parsed field value: text, or the literal `null`.
pub enum FieldValue {
    Text(Seq<u8>),
    Null,
}

/// Parse one object member: leading whitespace, the key string, whitespace,
/// a colon, whitespace, and a value that is a string or `null`. Gives the
/// key, the value, and the input just after the value.
pub open spec fn parse_member(s: Seq<u8>) -> Option<(Seq<u8>, FieldValue, Seq<u8>)> {
    let s1 = spec_skip_ws(s);
    if s1.len() == 0 || s1[0] != 0x22 {
        None
    } else {
        match parse_string_body(s1.drop_first()) {
            None => None,
            Some(kp) => {
                let r1 = spec_skip_ws(kp.1);
                if r1.len() == 0 || r1[0] != 0x3A {
                    None
                } else {
                    let r2 = spec_skip_ws(r1.drop_first());
                    if r2.len() > 0 && r2[0] == 0x22 {
                        match parse_string_body(r2.drop_first()) {
                            Some(vp) => Some((kp.0, FieldValue::Text(vp.0), vp.1)),
                            None => None,
                        }
                    } else if r2.len() >= 4 && r2[0] == 0x6E && r2[1] == 0x75 && r2[2] == 0x6C
                        && r2[3] == 0x6C {
                        Some((kp.0, FieldValue::Null, r2.skip(4)))
                    } else {
                        None
                    }
                }
            },
        }
    }
}

/// The fields gathered while parsing an object. For `data`, the outer
/// `Option` says whether the field was seen at all, the inner one whether
/// it held text or `null`.
pub struct PartialFields {
    pub id: Option<Seq<u8>>,
    pub code: Option<CompanyCode>,
    pub data: Option<Option<Seq<u8>>>,
}

/// No field seen yet.
pub open spec fn empty_fields() -> PartialFields {
    PartialFields { id: None, code: None, data: None }
}

/// How many of the three fields are still unseen.
pub open spec fn fields_missing(f: PartialFields) -> nat {
    (if f.id is None {
        1nat
    } else {
        0nat
    }) + (if f.code is None {
        1nat
    } else {
        0nat
    }) + (if f.data is None {
        1nat
    } else {
        0nat
    })
}

/// The key of the identifier field: `id`.
pub open spec fn key_id() -> Seq<u8> {
    seq![0x69u8, 0x64]
}

/// The key of the categorical field: its wire label `companyCode`.
pub open spec fn key_code() -> Seq<u8> {
    seq![0x63u8, 0x6F, 0x6D, 0x70, 0x61, 0x6E, 0x79, 0x43, 0x6F, 0x64, 0x65]
}

/// The key of the optional text field: `data`.
pub open spec fn key_data() -> Seq<u8> {
    seq![0x64u8, 0x61, 0x74, 0x61]
}

/// Record one parsed member: `None` on an unknown key, a repeated key, a
/// `null` where text is required, or a label outside the registry.
pub open spec fn add_field(f: PartialFields, key: Seq<u8>, val: FieldValue) -> Option<
    PartialFields,
> {
    if key == key_id() {
        match (f.id, val) {
            (Option::None, FieldValue::Text(t)) => Some(
                PartialFields { id: Some(t), code: f.code, data: f.data },
            ),
            _ => None,
        }
    } else if key == key_code() {
        match (f.code, val) {
            (Option::None, FieldValue::Text(t)) => match spec_code_of_label(t) {
                Some(c) => Some(PartialFields { id: f.id, code: Some(c), data: f.data }),
                None => None,
            },
            _ => None,
        }
    } else if key == key_data() {
        match (f.data, val) {
            (Option::None, FieldValue::Text(t)) => Some(
                PartialFields { id: f.id, code: f.code, data: Some(Some(t)) },
            ),
            (Option::None, FieldValue::Null) => Some(
                PartialFields { id: f.id, code: f.code, data: Some(None) },
            ),
            _ => None,
        }
    } else {
        None
    }
}

/// Parse the members of an object, the opening brace already consumed and
/// at least one member expected. Gives the gathered fields and the input
/// after the closing brace. Each successful member fills a field that was
/// unseen, so at most three members can succeed.
pub open spec fn parse_members(s: Seq<u8>, f: PartialFields) -> Option<(PartialFields, Seq<u8>)>
    decreases fields_missing(f),
{
    match parse_member(s) {
        None => None,
        Some(m) => match add_field(f, m.0, m.1) {
            None => None,
            Some(f2) => {
                let r = spec_skip_ws(m.2);
                if r.len() > 0 && r[0] == 0x2C {
                    if fields_missing(f2) < fields_missing(f) {
                        parse_members(r.drop_first(), f2)
                    } else {
                        None
                    }
                } else if r.len() > 0 && r[0] == 0x7D {
                    Some((f2, r.drop_first()))
                } else {
                    None
                }
            },
        },
    }
}

/// The payload value of gathered fields: `id` and `companyCode` are
/// required; an unseen `data` and a `null` one both mean "no value".
pub open spec fn finalize_fields(f: PartialFields) -> Option<MessageValueModel> {
    match (f.id, f.code) {
        (Some(id), Some(code)) => Some(
            MessageValueModel {
                id,
                code,
                data: match f.data {
                    Some(d) => d,
                    None => None,
                },
            },
        ),
        _ => None,
    }
}

/// The grammar of a payload: one JSON object with the payload's fields,
/// nothing but whitespace around it.
pub open spec fn spec_parse_value(s: Seq<u8>) -> Option<MessageValueModel> {
    let s1 = spec_skip_ws(s);
    if s1.len() == 0 || s1[0] != 0x7B {
        None
    } else {
        match parse_members(s1.drop_first(), empty_fields()) {
            None => None,
            Some(p) => if spec_skip_ws(p.1).len() == 0 {
                finalize_fields(p.0)
            } else {
                None
            },
        }
    }
}

/// Whether a byte is JSON whitespace.
fn is_ws_byte(b: u8) -> (r: bool)
    ensures
        r == is_json_ws(b),
{
    b == 0x20 || b == 0x09 || b == 0x0A || b == 0x0D
}

/// The first position at or after `i` whose byte is not JSON whitespace.
fn skip_ws_at(s: &[u8], i: usize) -> (j: usize)
    requires
        i <= s@.len(),
    ensures
        i <= j <= s@.len(),
        s@.skip(j as int) == spec_skip_ws(s@.skip(i as int)),
{
    let mut j = i;
    while j < s.len() && is_ws_byte(s[j])
        invariant
            i <= j <= s@.len(),
            spec_skip_ws(s@.skip(i as int)) == spec_skip_ws(s@.skip(j as int)),
        decreases s@.len() - j,
    {
        proof {
            assert(s@.skip(j as int)[0] == s@[j as int]);
            assert(s@.skip(j as int).drop_first() =~= s@.skip(j as int + 1));
        }
        j = j + 1;
    }
    proof {
        if j < s.len() {
            assert(s@.skip(j as int)[0] == s@[j as int]);
        } else {
            assert(s@.skip(j as int) =~= Seq::<u8>::empty());
        }
    }
    j
}

/// Decode one `\uXXXX` escape whose backslash sits at `i`: the decoded
/// UTF-8 bytes and the position after the escape, a surrogate pair's
/// second half included.
#[verifier::rlimit(100)]
fn parse_unicode_escape(s: &[u8], i: usize) -> (r: Option<(Vec<u8>, usize)>)
    requires
        i <= s@.len(),
    ensures
        match r {
            Some(p) => i < p.1 <= s@.len() && unicode_escape_at(s@.skip(i as int)) == Some(
                (p.0@, p.1 - i as int),
            ),
            None => unicode_escape_at(s@.skip(i as int)) is None,
        },
{
    proof {
        reveal(unicode_escape_at);
    }
    if s.len() - i < 6 {
        proof {
            assert(s@.skip(i as int).len() < 6);
        }
        return None;
    }
    proof {
        assert(s@.skip(i as int)[2] == s@[i as int + 2]);
        assert(s@.skip(i as int)[3] == s@[i as int + 3]);
        assert(s@.skip(i as int)[4] == s@[i as int + 4]);
        assert(s@.skip(i as int)[5] == s@[i as int + 5]);
    }
    let u = match read_hex4(s, i + 2) {
        None => {
            return None;
        },
        Some(u) => u,
    };
    if 0xD800 <= u && u < 0xDC00 {
        if s.len() - i < 12 {
            proof {
                assert(s@.skip(i as int).len() < 12);
            }
            return None;
        }
        proof {
            assert(s@.skip(i as int)[6] == s@[i as int + 6]);
            assert(s@.skip(i as int)[7] == s@[i as int + 7]);
            assert(s@.skip(i as int)[8] == s@[i as int + 8]);
            assert(s@.skip(i as int)[9] == s@[i as int + 9]);
            assert(s@.skip(i as int)[10] == s@[i as int + 10]);
            assert(s@.skip(i as int)[11] == s@[i as int + 11]);
        }
        if s[i + 6] != 0x5C || s[i + 7] != 0x75 {
            return None;
        }
        let u2 = match read_hex4(s, i + 8) {
            None => {
                return None;
            },
            Some(u2) => u2,
        };
        if !(0xDC00 <= u2 && u2 < 0xE000) {
            return None;
        }
        let cp = 0x10000 + (u - 0xD800) * 0x400 + (u2 - 0xDC00);
        let mut decoded: Vec<u8> = Vec::new();
        push_utf8(&mut decoded, cp);
        proof {
            assert(Seq::<u8>::empty() + utf8_of(cp as int) =~= utf8_of(cp as int));
        }
        Some((decoded, i + 12))
    } else if 0xDC00 <= u && u < 0xE000 {
        None
    } else {
        let mut decoded: Vec<u8> = Vec::new();
        push_utf8(&mut decoded, u);
        proof {
            assert(Seq::<u8>::empty() + utf8_of(u as int) =~= utf8_of(u as int));
        }
        Some((decoded, i + 6))
    }
}

/// Parse the body of a JSON string starting at `start`, the opening quote
/// already consumed: the decoded content and the position after the closing
/// quote.
#[verifier::rlimit(100)]
fn parse_string_at(s: &[u8], start: usize) -> (r: Option<(Vec<u8>, usize)>)
    requires
        start <= s@.len(),
    ensures
        match r {
            Some(p) => p.1 <= s@.len() && parse_string_body(s@.skip(start as int)) == Some(
                (p.0@, s@.skip(p.1 as int)),
            ),
            None => parse_string_body(s@.skip(start as int)) is None,
        },
{
    let mut acc: Vec<u8> = Vec::new();
    let mut i = start;
    loop
        invariant
            start <= i <= s@.len(),
            parse_string_body(s@.skip(start as int)) == match parse_string_body(
                s@.skip(i as int),
            ) {
                Some(p) => Some((acc@ + p.0, p.1)),
                None => None::<(Seq<u8>, Seq<u8>)>,
            },
        decreases s@.len() - i,
    {
        if i >= s.len() {
            proof {
                assert(s@.skip(i as int) =~= Seq::<u8>::empty());
            }
            return None;
        }
        let b = s[i];
        proof {
            assert(s@.skip(i as int)[0] == b);
            assert(s@.skip(i as int).drop_first() =~= s@.skip(i as int + 1));
        }
        if b == 0x22 {
            proof {
                assert(acc@ + Seq::<u8>::empty() =~= acc@);
            }
            return Some((acc, i + 1));
        } else if b == 0x5C {
            if i + 1 >= s.len() {
                return None;
            }
            let e = s[i + 1];
            proof {
                assert(s@.skip(i as int)[1] == e);
            }
            if e == 0x22 || e == 0x5C || e == 0x2F || e == 0x62 || e == 0x66 || e == 0x6E || e
                == 0x72 || e == 0x74 {
                let decoded: u8 = if e == 0x62 {
                    0x08
                } else if e == 0x66 {
                    0x0C
                } else if e == 0x6E {
                    0x0A
                } else if e == 0x72 {
                    0x0D
                } else if e == 0x74 {
                    0x09
                } else {
                    e
                };
                proof {
                    assert(decoded == unescape_short(e));
                    assert(s@.skip(i as int).skip(2) =~= s@.skip(i as int + 2));
                    let tail = parse_string_body(s@.skip(i as int + 2));
                    match tail {
                        Some(p) => {
                            assert((acc@ + seq![decoded]) + p.0 =~= acc@ + (seq![decoded] + p.0));
                        },
                        None => {},
                    }
                }
                acc.push(decoded);
                i = i + 2;
            } else if e == 0x75 {
                let parsed = parse_unicode_escape(s, i);
                match parsed {
                    None => {
                        return None;
                    },
                    Some(p) => {
                        let (decoded, j) = p;
                        proof {
                            assert(s@.skip(i as int).skip(j - i) =~= s@.skip(j as int));
                            let tail = parse_string_body(s@.skip(j as int));
                            match tail {
                                Some(q) => {
                                    assert((acc@ + decoded@) + q.0 =~= acc@ + (decoded@ + q.0));
                                },
                                None => {},
                            }
                        }
                        let mut bs = decoded;
                        acc.append(&mut bs);
                        i = j;
                    },
                }
            } else {
                return None;
            }
        } else if b < 0x20 {
            return None;
        } else {
            proof {
                let tail = parse_string_body(s@.skip(i as int + 1));
                match tail {
                    Some(p) => {
                        assert((acc@ + seq![b]) + p.0 =~= acc@ + (seq![b] + p.0));
                    },
                    None => {},
                }
            }
            acc.push(b);
            i = i + 1;
        }
    }
}

/// The value of a hexadecimal digit byte.
fn hex_digit_value(b: u8) -> (v: u8)
    requires
        is_hex_digit(b),
    ensures
        v == hex_value(b),
{
    if b <= 0x39 {
        b - 0x30
    } else if b <= 0x46 {
        b - 0x37
    } else {
        b - 0x57
    }
}

/// Whether a byte is a hexadecimal digit.
fn is_hex_byte(b: u8) -> (r: bool)
    ensures
        r == is_hex_digit(b),
{
    (0x30 <= b && b <= 0x39) || (0x41 <= b && b <= 0x46) || (0x61 <= b && b <= 0x66)
}

/// Read four hexadecimal digits starting at `at`, or `None` if any of the
/// four bytes is no hexadecimal digit.
fn read_hex4(s: &[u8], at: usize) -> (r: Option<u32>)
    requires
        at + 4 <= s@.len(),
    ensures
        match r {
            Some(u) => four_hex_at(s@, at as int) && u == hex4_value(
                s@[at as int],
                s@[at as int + 1],
                s@[at as int + 2],
                s@[at as int + 3],
            ),
            None => !four_hex_at(s@, at as int),
        },
{
    let a = s[at];
    let b = s[at + 1];
    let c = s[at + 2];
    let d = s[at + 3];
    if !(is_hex_byte(a) && is_hex_byte(b) && is_hex_byte(c) && is_hex_byte(d)) {
        return None;
    }
    Some(
        hex_digit_value(a) as u32 * 0x1000 + hex_digit_value(b) as u32 * 0x100 + hex_digit_value(
            c,
        ) as u32 * 0x10 + hex_digit_value(d) as u32,
    )
}

/// Append the UTF-8 encoding of a Unicode scalar value.
fn push_utf8(out: &mut Vec<u8>, cp: u32)
    requires
        cp <= 0x10FFFF,
    ensures
        final(out)@ == old(out)@ + utf8_of(cp as int),
{
    if cp < 0x80 {
        out.push(cp as u8);
    } else if cp < 0x800 {
        out.push((0xC0 + cp / 0x40) as u8);
        out.push((0x80 + cp % 0x40) as u8);
    } else if cp < 0x10000 {
        out.push((0xE0 + cp / 0x1000) as u8);
        out.push((0x80 + (cp / 0x40) % 0x40) as u8);
        out.push((0x80 + cp % 0x40) as u8);
    } else {
        out.push((0xF0 + cp / 0x40000) as u8);
        out.push((0x80 + (cp / 0x1000) % 0x40) as u8);
        out.push((0x80 + (cp / 0x40) % 0x40) as u8);
        out.push((0x80 + cp % 0x40) as u8);
    }
    proof {
        reveal(utf8_of);
        assert(out@ =~= old(out)@ + utf8_of(cp as int));
    }
}

/// The model of a parsed field value: `None` stands for the literal `null`.
pub open spec fn field_value_view(v: Option<Vec<u8>>) -> FieldValue {
    match v {
        Some(t) => FieldValue::Text(t@),
        None => FieldValue::Null,
    }
}

/// Parse one object member starting at `start`: the key, the value (`None`
/// for `null`), and the position after the value.
fn parse_member_at(s: &[u8], start: usize) -> (r: Option<(Vec<u8>, Option<Vec<u8>>, usize)>)
    requires
        start <= s@.len(),
    ensures
        match r {
            Some(m) => m.2 <= s@.len() && parse_member(s@.skip(start as int)) == Some(
                (m.0@, field_value_view(m.1), s@.skip(m.2 as int)),
            ),
            None => parse_member(s@.skip(start as int)) is None,
        },
{
    let j0 = skip_ws_at(s, start);
    if j0 >= s.len() || s[j0] != 0x22 {
        proof {
            if j0 >= s.len() {
                assert(s@.skip(j0 as int) =~= Seq::<u8>::empty());
            } else {
                assert(s@.skip(j0 as int)[0] == s@[j0 as int]);
            }
        }
        return None;
    }
    proof {
        assert(s@.skip(j0 as int)[0] == s@[j0 as int]);
        assert(s@.skip(j0 as int).drop_first() =~= s@.skip(j0 as int + 1));
    }
    let key = match parse_string_at(s, j0 + 1) {
        None => {
            return None;
        },
        Some(kp) => kp,
    };
    let (key_bytes, k_end) = key;
    let j1 = skip_ws_at(s, k_end);
    if j1 >= s.len() || s[j1] != 0x3A {
        proof {
            if j1 >= s.len() {
                assert(s@.skip(j1 as int) =~= Seq::<u8>::empty());
            } else {
                assert(s@.skip(j1 as int)[0] == s@[j1 as int]);
            }
        }
        return None;
    }
    proof {
        assert(s@.skip(j1 as int)[0] == s@[j1 as int]);
        assert(s@.skip(j1 as int).drop_first() =~= s@.skip(j1 as int + 1));
    }
    let j2 = skip_ws_at(s, j1 + 1);
    proof {
        if j2 < s.len() {
            assert(s@.skip(j2 as int)[0] == s@[j2 as int]);
        }
    }
    if j2 < s.len() && s[j2] == 0x22 {
        proof {
            assert(s@.skip(j2 as int).drop_first() =~= s@.skip(j2 as int + 1));
        }
        match parse_string_at(s, j2 + 1) {
            None => None,
            Some(vp) => {
                let (text, v_end) = vp;
                Some((key_bytes, Some(text), v_end))
            },
        }
    } else if j2 < s.len() && s.len() - j2 >= 4 && s[j2] == 0x6E && s[j2 + 1] == 0x75 && s[j2 + 2]
        == 0x6C && s[j2 + 3] == 0x6C {
        proof {
            assert(s@.skip(j2 as int)[1] == s@[j2 as int + 1]);
            assert(s@.skip(j2 as int)[2] == s@[j2 as int + 2]);
            assert(s@.skip(j2 as int)[3] == s@[j2 as int + 3]);
            assert(s@.skip(j2 as int).skip(4) =~= s@.skip(j2 as int + 4));
        }
        Some((key_bytes, None, j2 + 4))
    } else {
        proof {
            if j2 < s.len() && s.len() - j2 >= 4 {
                assert(s@.skip(j2 as int)[1] == s@[j2 as int + 1]);
                assert(s@.skip(j2 as int)[2] == s@[j2 as int + 2]);
                assert(s@.skip(j2 as int)[3] == s@[j2 as int + 3]);
            }
            if j2 >= s.len() {
                assert(s@.skip(j2 as int) =~= Seq::<u8>::empty());
            }
        }
        None
    }
}

/// The fields gathered so far while parsing, in executable form.
struct FieldsInProgress {
    id: Option<Vec<u8>>,
    code: Option<CompanyCode>,
    data: Option<Option<Vec<u8>>>,
}

/// The model of the gathered fields.
spec fn fields_view(f: FieldsInProgress) -> PartialFields {
    PartialFields {
        id: match f.id {
            Some(t) => Some(t@),
            None => None,
        },
        code: f.code,
        data: match f.data {
            Some(Some(t)) => Some(Some(t@)),
            Some(None) => Some(None),
            None => None,
        },
    }
}

/// The key of the identifier field, as owned bytes.
fn key_id_bytes() -> (out: Vec<u8>)
    ensures
        out@ == key_id(),
{
    let mut out: Vec<u8> = Vec::new();
    out.push(0x69);
    out.push(0x64);
    proof {
        assert(out@ =~= key_id());
    }
    out
}

/// The key of the categorical field, as owned bytes.
fn key_code_bytes() -> (out: Vec<u8>)
    ensures
        out@ == key_code(),
{
    let mut out: Vec<u8> = Vec::new();
    out.push(0x63);
    out.push(0x6F);
    out.push(0x6D);
    out.push(0x70);
    out.push(0x61);
    out.push(0x6E);
    out.push(0x79);
    out.push(0x43);
    out.push(0x6F);
    out.push(0x64);
    out.push(0x65);
    proof {
        assert(out@ =~= key_code());
    }
    out
}

/// The key of the optional text field, as owned bytes.
fn key_data_bytes() -> (out: Vec<u8>)
    ensures
        out@ == key_data(),
{
    let mut out: Vec<u8> = Vec::new();
    out.push(0x64);
    out.push(0x61);
    out.push(0x74);
    out.push(0x61);
    proof {
        assert(out@ =~= key_data());
    }
    out
}

/// Record one parsed member into the gathered fields.
fn add_field_exec(f: FieldsInProgress, key: &Vec<u8>, val: Option<Vec<u8>>) -> (r: Option<
    FieldsInProgress,
>)
    ensures
        match r {
            Some(f2) => add_field(fields_view(f), key@, field_value_view(val)) == Some(
                fields_view(f2),
            ),
            None => add_field(fields_view(f), key@, field_value_view(val)) is None,
        },
{
    let kid = key_id_bytes();
    let kcode = key_code_bytes();
    let kdata = key_data_bytes();
    if crate::payload::bytes_eq(key.as_slice(), kid.as_slice()) {
        match (f.id, val) {
            (None, Some(t)) => Some(FieldsInProgress { id: Some(t), code: f.code, data: f.data }),
            _ => None,
        }
    } else if crate::payload::bytes_eq(key.as_slice(), kcode.as_slice()) {
        match (&f.code, val) {
            (None, Some(t)) => match code_of_label(t.as_slice()) {
                Some(c) => Some(FieldsInProgress { id: f.id, code: Some(c), data: f.data }),
                None => None,
            },
            _ => None,
        }
    } else if crate::payload::bytes_eq(key.as_slice(), kdata.as_slice()) {
        match (&f.data, val) {
            (None, Some(t)) => Some(
                FieldsInProgress { id: f.id, code: f.code, data: Some(Some(t)) },
            ),
            (None, None) => Some(FieldsInProgress { id: f.id, code: f.code, data: Some(None) }),
            _ => None,
        }
    } else {
        None
    }
}

/// Parse a payload value from JSON text. Fails with `PayloadDecode`
/// exactly where the grammar `spec_parse_value` rejects the input.
pub fn value_from_json(s: &[u8]) -> (r: Result<MessageValue, CodecError>)
    ensures
        match r {
            Ok(v) => spec_parse_value(s@) == Some(v@),
            Err(e) => spec_parse_value(s@) is None && e == CodecError::PayloadDecode,
        },
{
    proof {
        assert(s@.skip(0) =~= s@);
    }
    let j0 = skip_ws_at(s, 0);
    if j0 >= s.len() || s[j0] != 0x7B {
        proof {
            if j0 >= s.len() {
                assert(s@.skip(j0 as int) =~= Seq::<u8>::empty());
            } else {
                assert(s@.skip(j0 as int)[0] == s@[j0 as int]);
            }
        }
        return Err(CodecError::PayloadDecode);
    }
    proof {
        assert(s@.skip(j0 as int)[0] == s@[j0 as int]);
        assert(s@.skip(j0 as int).drop_first() =~= s@.skip(j0 as int + 1));
    }
    let ghost members_start = s@.skip(j0 as int + 1);
    let mut fields = FieldsInProgress { id: None, code: None, data: None };
    let mut pos = j0 + 1;
    loop
        invariant
            pos <= s@.len(),
            spec_skip_ws(s@).len() > 0,
            spec_skip_ws(s@)[0] == 0x7B,
            spec_skip_ws(s@).drop_first() == members_start,
            parse_members(members_start, empty_fields()) == parse_members(
                s@.skip(pos as int),
                fields_view(fields),
            ),
        decreases fields_missing(fields_view(fields)),
    {
        let m = match parse_member_at(s, pos) {
            None => {
                return Err(CodecError::PayloadDecode);
            },
            Some(m) => m,
        };
        let (key_bytes, val, v_end) = m;
        let ghost f_before = fields_view(fields);
        let f2 = match add_field_exec(fields, &key_bytes, val) {
            None => {
                return Err(CodecError::PayloadDecode);
            },
            Some(f2) => f2,
        };
        let j1 = skip_ws_at(s, v_end);
        proof {
            if j1 < s.len() {
                assert(s@.skip(j1 as int)[0] == s@[j1 as int]);
            } else {
                assert(s@.skip(j1 as int) =~= Seq::<u8>::empty());
            }
        }
        if j1 < s.len() && s[j1] == 0x2C {
            proof {
                assert(s@.skip(j1 as int).drop_first() =~= s@.skip(j1 as int + 1));
            }
            fields = f2;
            pos = j1 + 1;
        } else if j1 < s.len() && s[j1] == 0x7D {
            proof {
                assert(s@.skip(j1 as int).drop_first() =~= s@.skip(j1 as int + 1));
                assert(parse_members(members_start, empty_fields()) == Some(
                    (fields_view(f2), s@.skip(j1 as int + 1)),
                ));
            }
            let ghost f2v = fields_view(f2);
            let j2 = skip_ws_at(s, j1 + 1);
            if j2 < s.len() {
                return Err(CodecError::PayloadDecode);
            }
            proof {
                assert(s@.skip(j2 as int) =~= Seq::<u8>::empty());
                assert(spec_parse_value(s@) == finalize_fields(f2v));
            }
            let id = match f2.id {
                None => {
                    return Err(CodecError::PayloadDecode);
                },
                Some(id) => id,
            };
            let code = match f2.code {
                None => {
                    return Err(CodecError::PayloadDecode);
                },
                Some(code) => code,
            };
            let data = match f2.data {
                None => None,
                Some(d) => d,
            };
            return Ok(MessageValue { id, code, data });
        } else {
            return Err(CodecError::PayloadDecode);
        }
    }
}

/// Bytes that canonical escaping leaves unchanged.
pub open spec fn plain_byte(b: u8) -> bool {
    0x20 <= b && b != 0x22 && b != 0x5C
}

/// A sequence of bytes that canonical escaping leaves unchanged.
pub open spec fn plain_seq(s: Seq<u8>) -> bool {
    forall|i: int| 0 <= i < s.len() ==> plain_byte(s[i])
}

/// Escaping does nothing to plain bytes.
proof fn lemma_escape_plain(s: Seq<u8>)
    requires
        plain_seq(s),
    ensures
        escape_bytes(s) == s,
    decreases s.len(),
{
    if s.len() == 0 {
        assert(escape_bytes(s) =~= s);
    } else {
        assert(plain_byte(s[0]));
        assert(plain_seq(s.drop_first()));
        lemma_escape_plain(s.drop_first());
        assert(escape_bytes(s) =~= s);
    }
}

/// Parsing inverts canonical escaping: the body parser, fed the escaped
/// content followed by the closing quote and anything after, gives back the
/// content and that remainder.
#[verifier::rlimit(100)]
pub proof fn lemma_parse_escaped(s: Seq<u8>, rest: Seq<u8>)
    ensures
        parse_string_body(escape_bytes(s) + seq![0x22u8] + rest) == Some((s, rest)),
    decreases s.len(),
{
    reveal(unicode_escape_at);
    reveal(utf8_of);
    if s.len() == 0 {
        assert(escape_bytes(s) + seq![0x22u8] + rest =~= seq![0x22u8] + rest);
        let inp = seq![0x22u8] + rest;
        assert(inp[0] == 0x22);
        assert(inp.drop_first() =~= rest);
        assert(Seq::<u8>::empty() =~= s);
    } else {
        let b = s[0];
        let tail = s.drop_first();
        lemma_parse_escaped(tail, rest);
        let tail_inp = escape_bytes(tail) + seq![0x22u8] + rest;
        let inp = escape_bytes(s) + seq![0x22u8] + rest;
        assert(inp =~= escape_byte(b) + tail_inp);
        if b == 0x22 || b == 0x5C || b == 0x08 || b == 0x0C || b == 0x0A || b == 0x0D || b
            == 0x09 {
            let e = escape_byte(b)[1];
            assert(inp[0] == 0x5C);
            assert(inp[1] == e);
            assert(is_short_escape(e));
            assert(unescape_short(e) == b);
            assert(inp.skip(2) =~= tail_inp);
            assert(seq![b] + tail =~= s);
        } else if b < 0x20 {
            assert(inp[0] == 0x5C);
            assert(inp[1] == 0x75);
            assert(!is_short_escape(0x75u8));
            assert(inp[2] == 0x30);
            assert(inp[3] == 0x30);
            assert(inp[4] == spec_hex_digit(b / 16));
            assert(inp[5] == spec_hex_digit(b % 16));
            assert(is_hex_digit(0x30u8) && hex_value(0x30u8) == 0);
            assert(is_hex_digit(spec_hex_digit(b / 16)) && hex_value(spec_hex_digit(b / 16)) == b
                / 16);
            assert(is_hex_digit(spec_hex_digit(b % 16)) && hex_value(spec_hex_digit(b % 16)) == b
                % 16);
            assert(four_hex_at(inp, 2));
            let u = hex4_value(inp[2], inp[3], inp[4], inp[5]);
            assert(u == b) by {
                assert(b == 16 * (b / 16) + b % 16);
            }
            assert(utf8_of(u) =~= seq![b]);
            assert(unicode_escape_at(inp) == Some((utf8_of(u), 6int)));
            assert(inp.skip(6) =~= tail_inp);
            assert(seq![b] + tail =~= s);
        } else {
            assert(inp[0] == b);
            assert(plain_byte(b));
            assert(inp.drop_first() =~= tail_inp);
            assert(seq![b] + tail =~= s);
        }
    }
}

/// The canonical text of one member whose value is a string: the quoted
/// key, a colon, the quoted escaped content.
pub open spec fn member_text(key: Seq<u8>, content: Seq<u8>) -> Seq<u8> {
    seq![0x22u8] + key + seq![0x22u8, 0x3A, 0x22] + escape_bytes(content) + seq![0x22u8]
}

/// The canonical text of one member whose value is `null`.
pub open spec fn member_null(key: Seq<u8>) -> Seq<u8> {
    seq![0x22u8] + key + seq![0x22u8, 0x3A] + json_null()
}

/// Parsing one canonical string member gives its key, its content, and
/// whatever follows.
proof fn lemma_parse_member_text(key: Seq<u8>, content: Seq<u8>, after: Seq<u8>)
    requires
        plain_seq(key),
    ensures
        parse_member(member_text(key, content) + after) == Some(
            (key, FieldValue::Text(content), after),
        ),
{
    let inp = member_text(key, content) + after;
    assert(inp[0] == 0x22);
    assert(!is_json_ws(0x22u8));
    assert(spec_skip_ws(inp) == inp);
    lemma_escape_plain(key);
    let key_rest = seq![0x3Au8, 0x22] + escape_bytes(content) + seq![0x22u8] + after;
    assert(inp.drop_first() =~= escape_bytes(key) + seq![0x22u8] + key_rest);
    lemma_parse_escaped(key, key_rest);
    assert(key_rest[0] == 0x3A);
    assert(!is_json_ws(0x3Au8));
    assert(spec_skip_ws(key_rest) == key_rest);
    let val_inp = key_rest.drop_first();
    assert(val_inp =~= seq![0x22u8] + (escape_bytes(content) + seq![0x22u8] + after));
    assert(val_inp[0] == 0x22);
    assert(!is_json_ws(0x22u8));
    assert(spec_skip_ws(val_inp) == val_inp);
    assert(val_inp.drop_first() =~= escape_bytes(content) + seq![0x22u8] + after);
    lemma_parse_escaped(content, after);
}

/// Parsing one canonical `null` member gives its key and whatever follows.
proof fn lemma_parse_member_null(key: Seq<u8>, after: Seq<u8>)
    requires
        plain_seq(key),
    ensures
        parse_member(member_null(key) + after) == Some((key, FieldValue::Null, after)),
{
    let inp = member_null(key) + after;
    assert(inp[0] == 0x22);
    assert(!is_json_ws(0x22u8));
    assert(spec_skip_ws(inp) == inp);
    lemma_escape_plain(key);
    let key_rest = seq![0x3Au8] + json_null() + after;
    assert(inp.drop_first() =~= escape_bytes(key) + seq![0x22u8] + key_rest);
    lemma_parse_escaped(key, key_rest);
    assert(key_rest[0] == 0x3A);
    assert(!is_json_ws(0x3Au8));
    assert(spec_skip_ws(key_rest) == key_rest);
    let val_inp = key_rest.drop_first();
    assert(val_inp =~= json_null() + after);
    assert(val_inp[0] == 0x6E);
    assert(!is_json_ws(0x6Eu8));
    assert(spec_skip_ws(val_inp) == val_inp);
    assert(val_inp.len() >= 4 && val_inp[1] == 0x75 && val_inp[2] == 0x6C && val_inp[3] == 0x6C);
    assert(val_inp[0] != 0x22);
    assert(val_inp.skip(4) =~= after);
}

/// The three member keys are plain and pairwise distinct.
proof fn lemma_keys_plain()
    ensures
        plain_seq(key_id()),
        plain_seq(key_code()),
        plain_seq(key_data()),
        key_id() != key_code(),
        key_id() != key_data(),
        key_code() != key_data(),
        forall|c: CompanyCode| plain_seq(#[trigger] spec_label(c)),
{
    assert(plain_seq(key_id()));
    assert(plain_seq(key_code()));
    assert(plain_seq(key_data()));
    assert(key_id().len() != key_code().len());
    assert(key_id().len() != key_data().len());
    assert(key_code().len() != key_data().len());
    assert forall|c: CompanyCode| plain_seq(#[trigger] spec_label(c)) by {
        match c {
            CompanyCode::TestInfo => assert(plain_seq(spec_label(c))),
            CompanyCode::Company1 => assert(plain_seq(spec_label(c))),
            CompanyCode::Company2 => assert(plain_seq(spec_label(c))),
        }
    }
}

/// The fields after the canonical `id` and `companyCode` members.
pub open spec fn id_code_fields(id: Seq<u8>, code: CompanyCode) -> PartialFields {
    PartialFields { id: Some(id), code: Some(code), data: None }
}

/// Parsing the canonical `id` and `companyCode` members gathers exactly
/// those two fields and then continues on whatever follows the second
/// member's closing quote.
proof fn lemma_parse_members_id_code(id: Seq<u8>, code: CompanyCode, rest: Seq<u8>)
    ensures
        parse_members(
            member_text(key_id(), id) + seq![0x2Cu8] + member_text(
                key_code(),
                spec_label(code),
            ) + rest,
            empty_fields(),
        ) == (  {
            let r = spec_skip_ws(rest);
            if r.len() > 0 && r[0] == 0x2C {
                parse_members(r.drop_first(), id_code_fields(id, code))
            } else if r.len() > 0 && r[0] == 0x7D {
                Some((id_code_fields(id, code), r.drop_first()))
            } else {
                None
            }
        }),
{
    lemma_keys_plain();
    let inp = member_text(key_id(), id) + seq![0x2Cu8] + member_text(
        key_code(),
        spec_label(code),
    ) + rest;
    let after1 = seq![0x2Cu8] + member_text(key_code(), spec_label(code)) + rest;
    assert(inp =~= member_text(key_id(), id) + after1);
    lemma_parse_member_text(key_id(), id, after1);
    let f1 = add_field(empty_fields(), key_id(), FieldValue::Text(id));
    assert(f1 == Some(PartialFields { id: Some(id), code: None, data: None }));
    assert(after1[0] == 0x2C);
    assert(!is_json_ws(0x2Cu8));
    assert(spec_skip_ws(after1) == after1);
    let inp2 = after1.drop_first();
    assert(inp2 =~= member_text(key_code(), spec_label(code)) + rest);
    lemma_parse_member_text(key_code(), spec_label(code), rest);
    crate::payload::lemma_label_roundtrip(code);
    let f2 = add_field(
        PartialFields { id: Some(id), code: None, data: None },
        key_code(),
        FieldValue::Text(spec_label(code)),
    );
    assert(f2 == Some(id_code_fields(id, code)));
    let f1v = PartialFields { id: Some(id), code: None, data: None };
    assert(parse_member(inp) == Some((key_id(), FieldValue::Text(id), after1)));
    assert(fields_missing(empty_fields()) == 3);
    assert(fields_missing(f1v) == 2);
    assert(fields_missing(id_code_fields(id, code)) == 1);
    assert(after1.drop_first() == inp2);
    assert(parse_members(inp, empty_fields()) == parse_members(inp2, f1v));
    assert(parse_member(inp2) == Some((key_code(), FieldValue::Text(spec_label(code)), rest)));
}

/// The grammar accepts the canonical text of every payload value.
#[verifier::rlimit(100)]
pub proof fn lemma_parse_canonical(v: MessageValueModel)
    ensures
        spec_parse_value(json_of(v)) == Some(v),
{
    lemma_keys_plain();
    let inp = json_of(v);
    let data_member = match v.data {
        Some(d) => member_text(key_data(), d),
        None => member_null(key_data()),
    };
    let rest = seq![0x2Cu8] + data_member + seq![0x7Du8];
    let members = member_text(key_id(), v.id) + seq![0x2Cu8] + member_text(
        key_code(),
        spec_label(v.code),
    ) + rest;
    let a = escape_bytes(v.id);
    let l = spec_label(v.code);
    let s1 = json_id_prefix() + a;
    let s3 = s1 + json_code_prefix() + l;
    let t1 = seq![0x7Bu8] + member_text(key_id(), v.id);
    assert(t1 =~= s1 + seq![0x22u8]);
    let t2 = t1 + seq![0x2Cu8] + member_text(key_code(), l);
    let mid = seq![0x22u8] + key_code() + seq![0x22u8, 0x3A, 0x22];
    let lq = l + seq![0x22u8];
    lemma_escape_plain(l);
    assert(member_text(key_code(), l) =~= mid + lq);
    assert(t1 + seq![0x2Cu8] + mid =~= s1 + json_code_prefix());
    assert(t2 =~= (t1 + seq![0x2Cu8] + mid) + lq);
    assert(s3 + seq![0x22u8] =~= (s1 + json_code_prefix()) + lq);
    assert(t2 =~= s3 + seq![0x22u8]);
    match v.data {
        Some(d) => {
            assert(inp =~= t2 + seq![0x2Cu8] + member_text(key_data(), d) + seq![0x7Du8]);
        },
        None => {
            assert(inp =~= t2 + seq![0x2Cu8] + member_null(key_data()) + seq![0x7Du8]);
        },
    }
    assert(inp =~= seq![0x7Bu8] + members);
    assert(inp[0] == 0x7B);
    assert(!is_json_ws(0x7Bu8));
    assert(spec_skip_ws(inp) == inp);
    assert(inp.drop_first() =~= members);
    lemma_parse_members_id_code(v.id, v.code, rest);
    assert(rest[0] == 0x2C);
    assert(!is_json_ws(0x2Cu8));
    assert(spec_skip_ws(rest) == rest);
    assert(rest.drop_first() =~= data_member + seq![0x7Du8]);
    let f2 = id_code_fields(v.id, v.code);
    let val = match v.data {
        Some(d) => FieldValue::Text(d),
        None => FieldValue::Null,
    };
    match v.data {
        Some(d) => lemma_parse_member_text(key_data(), d, seq![0x7Du8]),
        None => lemma_parse_member_null(key_data(), seq![0x7Du8]),
    }
    assert(parse_member(data_member + seq![0x7Du8]) == Some((key_data(), val, seq![0x7Du8])));
    let f3 = PartialFields {
        id: Some(v.id),
        code: Some(v.code),
        data: Some(v.data),
    };
    assert(add_field(f2, key_data(), val) == Some(f3));
    assert(!is_json_ws(0x7Du8));
    assert(spec_skip_ws(seq![0x7Du8]) == seq![0x7Du8]);
    assert(seq![0x7Du8].drop_first() =~= Seq::<u8>::empty());
    assert(parse_members(rest.drop_first(), f2) == Some((f3, Seq::<u8>::empty())));
    assert(parse_members(members, empty_fields()) == Some((f3, Seq::<u8>::empty())));
    assert(spec_skip_ws(Seq::<u8>::empty()).len() == 0);
    assert(finalize_fields(f3) == Some(v));
}

/// The grammar accepts the canonical text with the `data` field left out
/// entirely, and reads "no value" for it, exactly as it does for `null`.
#[verifier::rlimit(100)]
pub proof fn lemma_parse_data_omitted(id: Seq<u8>, code: CompanyCode)
    ensures
        spec_parse_value(json_of_without_data(id, code)) == Some(
            MessageValueModel { id, code, data: None },
        ),
{
    lemma_keys_plain();
    let inp = json_of_without_data(id, code);
    let rest = seq![0x7Du8];
    let members = member_text(key_id(), id) + seq![0x2Cu8] + member_text(
        key_code(),
        spec_label(code),
    ) + rest;
    let a = escape_bytes(id);
    let l = spec_label(code);
    let s1 = json_id_prefix() + a;
    let s3 = s1 + json_code_prefix() + l;
    let t1 = seq![0x7Bu8] + member_text(key_id(), id);
    assert(t1 =~= s1 + seq![0x22u8]);
    let t2 = t1 + seq![0x2Cu8] + member_text(key_code(), l);
    let mid = seq![0x22u8] + key_code() + seq![0x22u8, 0x3A, 0x22];
    let lq = l + seq![0x22u8];
    lemma_escape_plain(l);
    assert(member_text(key_code(), l) =~= mid + lq);
    assert(t1 + seq![0x2Cu8] + mid =~= s1 + json_code_prefix());
    assert(t2 =~= (t1 + seq![0x2Cu8] + mid) + lq);
    assert(s3 + seq![0x22u8] =~= (s1 + json_code_prefix()) + lq);
    assert(t2 =~= s3 + seq![0x22u8]);
    assert(inp =~= t2 + seq![0x7Du8]);
    assert(inp =~= seq![0x7Bu8] + members);
    assert(inp[0] == 0x7B);
    assert(!is_json_ws(0x7Bu8));
    assert(spec_skip_ws(inp) == inp);
    assert(inp.drop_first() =~= members);
    lemma_parse_members_id_code(id, code, rest);
    assert(rest[0] == 0x7D);
    assert(!is_json_ws(0x7Du8));
    assert(spec_skip_ws(rest) == rest);
    assert(rest.drop_first() =~= Seq::<u8>::empty());
    let f2 = id_code_fields(id, code);
    assert(parse_members(members, empty_fields()) == Some((f2, Seq::<u8>::empty())));
    assert(spec_skip_ws(Seq::<u8>::empty()).len() == 0);
    assert(finalize_fields(f2) == Some(MessageValueModel { id, code, data: None }));
}

} // verus!
