//! The message-type registries.
//!
//! Three closed enumerations bind symbolic message kinds to fixed 32-bit
//! codes, one enumeration per direction capability: a bidirectional kind may
//! be encoded and decoded, a receive-only kind is normally only decoded, a
//! send-only kind is normally only encoded. The codes are sparse: they need
//! not be contiguous. Decoding a code outside the relevant registry fails
//! with `UnknownMessageType` at the envelope layer.

use vstd::prelude::*;

verus! {

/// The bidirectional message kinds.
#[derive(Clone, Copy, Debug, PartialEq, Eq, Structural)]
pub enum MessageType {
    HeartBeat,
}

/// The receive-only message kinds.
#[derive(Clone, Copy, Debug, PartialEq, Eq, Structural)]
pub enum FromMessageType {
    Message1,
    Message2,
    Message3,
    Message4,
    Message5,
    Message6,
    Message7,
    Message8,
    Message9,
}

/// The send-only message kinds.
#[derive(Clone, Copy, Debug, PartialEq, Eq, Structural)]
pub enum ToMessageType {
    Message1,
    Message2,
    Message3,
    Message4,
}

impl MessageType {
    /// The wire code bound to each bidirectional kind.
    pub open spec fn spec_code(self) -> u32 {
        match self {
            MessageType::HeartBeat => 0x1,
        }
    }

    /// The kind bound to a wire code, if any.
    pub open spec fn spec_from_code(code: u32) -> Option<MessageType> {
        if code == 0x1 {
            Some(MessageType::HeartBeat)
        } else {
            None
        }
    }

    /// The wire code of this kind.
    pub fn code(self) -> (code: u32)
        ensures
            code == self.spec_code(),
    {
        match self {
            MessageType::HeartBeat => 0x1,
        }
    }

    /// Resolve a wire code against this registry.
    pub fn from_code(code: u32) -> (kind: Option<MessageType>)
        ensures
            kind == Self::spec_from_code(code),
    {
        if code == 0x1 {
            Some(MessageType::HeartBeat)
        } else {
            None
        }
    }
}

impl FromMessageType {
    /// The wire code bound to each receive-only kind: 5 through 12 in
    /// declaration order, then a jump to 17.
    pub open spec fn spec_code(self) -> u32 {
        match self {
            FromMessageType::Message1 => 5,
            FromMessageType::Message2 => 6,
            FromMessageType::Message3 => 7,
            FromMessageType::Message4 => 8,
            FromMessageType::Message5 => 9,
            FromMessageType::Message6 => 10,
            FromMessageType::Message7 => 11,
            FromMessageType::Message8 => 12,
            FromMessageType::Message9 => 17,
        }
    }

    /// The kind bound to a wire code, if any.
    pub open spec fn spec_from_code(code: u32) -> Option<FromMessageType> {
        if code == 5 {
            Some(FromMessageType::Message1)
        } else if code == 6 {
            Some(FromMessageType::Message2)
        } else if code == 7 {
            Some(FromMessageType::Message3)
        } else if code == 8 {
            Some(FromMessageType::Message4)
        } else if code == 9 {
            Some(FromMessageType::Message5)
        } else if code == 10 {
            Some(FromMessageType::Message6)
        } else if code == 11 {
            Some(FromMessageType::Message7)
        } else if code == 12 {
            Some(FromMessageType::Message8)
        } else if code == 17 {
            Some(FromMessageType::Message9)
        } else {
            None
        }
    }

    /// The wire code of this kind.
    pub fn code(self) -> (code: u32)
        ensures
            code == self.spec_code(),
    {
        match self {
            FromMessageType::Message1 => 5,
            FromMessageType::Message2 => 6,
            FromMessageType::Message3 => 7,
            FromMessageType::Message4 => 8,
            FromMessageType::Message5 => 9,
            FromMessageType::Message6 => 10,
            FromMessageType::Message7 => 11,
            FromMessageType::Message8 => 12,
            FromMessageType::Message9 => 17,
        }
    }

    /// Resolve a wire code against this registry.
    pub fn from_code(code: u32) -> (kind: Option<FromMessageType>)
        ensures
            kind == Self::spec_from_code(code),
    {
        if code == 5 {
            Some(FromMessageType::Message1)
        } else if code == 6 {
            Some(FromMessageType::Message2)
        } else if code == 7 {
            Some(FromMessageType::Message3)
        } else if code == 8 {
            Some(FromMessageType::Message4)
        } else if code == 9 {
            Some(FromMessageType::Message5)
        } else if code == 10 {
            Some(FromMessageType::Message6)
        } else if code == 11 {
            Some(FromMessageType::Message7)
        } else if code == 12 {
            Some(FromMessageType::Message8)
        } else if code == 17 {
            Some(FromMessageType::Message9)
        } else {
            None
        }
    }
}

impl ToMessageType {
    /// The wire code bound to each send-only kind: 2 through 4 in
    /// declaration order, then a jump to 16.
    pub open spec fn spec_code(self) -> u32 {
        match self {
            ToMessageType::Message1 => 2,
            ToMessageType::Message2 => 3,
            ToMessageType::Message3 => 4,
            ToMessageType::Message4 => 16,
        }
    }

    /// The kind bound to a wire code, if any.
    pub open spec fn spec_from_code(code: u32) -> Option<ToMessageType> {
        if code == 2 {
            Some(ToMessageType::Message1)
        } else if code == 3 {
            Some(ToMessageType::Message2)
        } else if code == 4 {
            Some(ToMessageType::Message3)
        } else if code == 16 {
            Some(ToMessageType::Message4)
        } else {
            None
        }
    }

    /// The wire code of this kind.
    pub fn code(self) -> (code: u32)
        ensures
            code == self.spec_code(),
    {
        match self {
            ToMessageType::Message1 => 2,
            ToMessageType::Message2 => 3,
            ToMessageType::Message3 => 4,
            ToMessageType::Message4 => 16,
        }
    }

    /// Resolve a wire code against this registry.
    pub fn from_code(code: u32) -> (kind: Option<ToMessageType>)
        ensures
            kind == Self::spec_from_code(code),
    {
        if code == 2 {
            Some(ToMessageType::Message1)
        } else if code == 3 {
            Some(ToMessageType::Message2)
        } else if code == 4 {
            Some(ToMessageType::Message3)
        } else if code == 16 {
            Some(ToMessageType::Message4)
        } else {
            None
        }
    }
}

/// Each registry resolves its own codes: resolving the code of a kind gives
/// that kind back, so codes are also injective within a registry.
pub proof fn lemma_registry_roundtrip(
    bi: MessageType,
    from: FromMessageType,
    to: ToMessageType,
)
    ensures
        MessageType::spec_from_code(bi.spec_code()) == Some(bi),
        FromMessageType::spec_from_code(from.spec_code()) == Some(from),
        ToMessageType::spec_from_code(to.spec_code()) == Some(to),
{
}

} // verus!
