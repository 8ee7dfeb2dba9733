//! The codec's error taxonomy.
//!
//! Every failure of decoding is detected at the lowest layer that can
//! observe it and surfaced verbatim: the byte-stuffing transform reports
//! framing faults, the envelope codec reports truncation and unknown
//! discriminants, and the payload parser reports content faults.

use vstd::prelude::*;

verus! {

/// Why a decode failed.
#[derive(Clone, Copy, Debug, PartialEq, Eq, Structural)]
pub enum CodecError {
    /// The payload block does not end with the terminator byte, or its
    /// body holds a malformed escape sequence.
    Framing,
    /// Fewer bytes were available than the envelope header declared.
    Truncated,
    /// The 32-bit discriminant matches no code of the relevant registry.
    UnknownMessageType,
    /// The unstuffed payload is not well-formed JSON of the payload shape:
    /// malformed text, an unknown code label, a missing required field.
    PayloadDecode,
}

} // verus!
