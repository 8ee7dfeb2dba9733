//! The payload model: the structured value carried inside a message.
//!
//! A payload holds a required identifier, a categorical company code drawn
//! from a closed enumeration, and an optional free-form text. Its wire form
//! is JSON; the strings are kept here as their raw UTF-8 bytes, so that the
//! codec is a pure transform over byte buffers.

use vstd::prelude::*;

verus! {

/// The categorical code of a payload. Its wire label may differ from the
/// symbolic name; here the labels coincide with the names.
#[derive(Clone, Copy, Debug, PartialEq, Eq, Structural)]
pub enum CompanyCode {
    TestInfo,
    Company1,
    Company2,
}

/// The logical content of a message: a required identifier, a categorical
/// code, and optional free-form text. The two strings are raw UTF-8 bytes.
#[derive(Debug, PartialEq, Eq)]
pub struct MessageValue {
    /// The opaque identifying string, required.
    pub id: Vec<u8>,
    /// The categorical value, serialized under the wire label `companyCode`.
    pub code: CompanyCode,
    /// Optional free-form text: absent and JSON `null` both mean "no value".
    pub data: Option<Vec<u8>>,
}

/// The mathematical model of a payload value.
pub struct MessageValueModel {
    pub id: Seq<u8>,
    pub code: CompanyCode,
    pub data: Option<Seq<u8>>,
}

impl View for MessageValue {
    type V = MessageValueModel;

    open spec fn view(&self) -> MessageValueModel {
        MessageValueModel {
            id: self.id@,
            code: self.code,
            data: match self.data {
                Some(d) => Some(d@),
                None => None,
            },
        }
    }
}

/// The wire label of a company code, as bytes of JSON string content.
pub open spec fn spec_label(code: CompanyCode) -> Seq<u8> {
    match code {
        CompanyCode::TestInfo => seq![0x54u8, 0x65, 0x73, 0x74, 0x49, 0x6E, 0x66, 0x6F],
        CompanyCode::Company1 => seq![0x43u8, 0x6F, 0x6D, 0x70, 0x61, 0x6E, 0x79, 0x31],
        CompanyCode::Company2 => seq![0x43u8, 0x6F, 0x6D, 0x70, 0x61, 0x6E, 0x79, 0x32],
    }
}

/// The company code whose wire label a byte sequence is, if any.
pub open spec fn spec_code_of_label(s: Seq<u8>) -> Option<CompanyCode> {
    if s == spec_label(CompanyCode::TestInfo) {
        Some(CompanyCode::TestInfo)
    } else if s == spec_label(CompanyCode::Company1) {
        Some(CompanyCode::Company1)
    } else if s == spec_label(CompanyCode::Company2) {
        Some(CompanyCode::Company2)
    } else {
        None
    }
}

/// The labels are pairwise distinct, so each label resolves back to its own
/// code.
pub proof fn lemma_label_roundtrip(code: CompanyCode)
    ensures
        spec_code_of_label(spec_label(code)) == Some(code),
{
    assert(spec_label(CompanyCode::TestInfo)[0] != spec_label(CompanyCode::Company1)[0]);
    assert(spec_label(CompanyCode::TestInfo)[0] != spec_label(CompanyCode::Company2)[0]);
    assert(spec_label(CompanyCode::Company1)[7] != spec_label(CompanyCode::Company2)[7]);
}

/// The wire label of a company code, as owned bytes.
pub fn label_bytes(code: CompanyCode) -> (out: Vec<u8>)
    ensures
        out@ == spec_label(code),
{
    let mut out: Vec<u8> = Vec::new();
    match code {
        CompanyCode::TestInfo => {
            out.push(0x54);
            out.push(0x65);
            out.push(0x73);
            out.push(0x74);
            out.push(0x49);
            out.push(0x6E);
            out.push(0x66);
            out.push(0x6F);
        },
        CompanyCode::Company1 => {
            out.push(0x43);
            out.push(0x6F);
            out.push(0x6D);
            out.push(0x70);
            out.push(0x61);
            out.push(0x6E);
            out.push(0x79);
            out.push(0x31);
        },
        CompanyCode::Company2 => {
            out.push(0x43);
            out.push(0x6F);
            out.push(0x6D);
            out.push(0x70);
            out.push(0x61);
            out.push(0x6E);
            out.push(0x79);
            out.push(0x32);
        },
    }
    proof {
        assert(out@ =~= spec_label(code));
    }
    out
}

/// Whether two byte slices hold the same bytes.
pub fn bytes_eq(a: &[u8], b: &[u8]) -> (r: bool)
    ensures
        r <==> a@ == b@,
{
    if a.len() != b.len() {
        return false;
    }
    let mut i: usize = 0;
    while i < a.len()
        invariant
            i <= a.len(),
            a.len() == b.len(),
            forall|k: int| 0 <= k < i ==> a@[k] == b@[k],
        decreases a.len() - i,
    {
        if a[i] != b[i] {
            return false;
        }
        i = i + 1;
    }
    proof {
        assert(a@ =~= b@);
    }
    true
}

/// Resolve a byte sequence against the label registry.
pub fn code_of_label(s: &[u8]) -> (r: Option<CompanyCode>)
    ensures
        r == spec_code_of_label(s@),
{
    let test_info = label_bytes(CompanyCode::TestInfo);
    if bytes_eq(s, test_info.as_slice()) {
        return Some(CompanyCode::TestInfo);
    }
    let company1 = label_bytes(CompanyCode::Company1);
    if bytes_eq(s, company1.as_slice()) {
        return Some(CompanyCode::Company1);
    }
    let company2 = label_bytes(CompanyCode::Company2);
    if bytes_eq(s, company2.as_slice()) {
        return Some(CompanyCode::Company2);
    }
    None
}

} // verus!
