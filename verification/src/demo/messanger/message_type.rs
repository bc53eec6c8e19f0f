use vstd::prelude::*;

use crate::application_layer::message::MessageTypeTrait;

verus! {

/// The kinds of message that the messenger exchanges.
#[derive(Debug, Clone, Copy, PartialEq, Eq, Structural)]
pub enum MessageType {
    Message,
    Acknowledgement,
    FileInfo,
    FileRejected,
    FileAccepted,
}

/// The octet of a message type.
pub open spec fn message_type_code(t: MessageType) -> u8 {
    match t {
        MessageType::Message => 0,
        MessageType::Acknowledgement => 1,
        MessageType::FileInfo => 2,
        MessageType::FileRejected => 3,
        MessageType::FileAccepted => 4,
    }
}

/// The message type of an octet, for the octets 0 to 4.
pub open spec fn message_type_of(value: u8) -> MessageType {
    if value == 0 {
        MessageType::Message
    } else if value == 1 {
        MessageType::Acknowledgement
    } else if value == 2 {
        MessageType::FileInfo
    } else if value == 3 {
        MessageType::FileRejected
    } else {
        MessageType::FileAccepted
    }
}

impl MessageType {
    /// The message type of `value`; only 0 to 4 stand for one.
    pub fn from(value: u8) -> (r: Self)
        requires
            value <= 4,
        ensures
            r == message_type_of(value),
    {
        match value {
            0 => Self::Message,
            1 => Self::Acknowledgement,
            2 => Self::FileInfo,
            3 => Self::FileRejected,
            _ => Self::FileAccepted,
        }
    }

    /// The octet of this message type.
    pub fn into(self) -> (r: u8)
        ensures
            r == message_type_code(self),
    {
        match self {
            Self::Message => 0,
            Self::Acknowledgement => 1,
            Self::FileInfo => 2,
            Self::FileRejected => 3,
            Self::FileAccepted => 4,
        }
    }
}

impl MessageTypeTrait for MessageType {
    open spec fn spec_to_byte(&self) -> u8 {
        message_type_code(*self)
    }

    open spec fn is_valid_byte(byte: u8) -> bool {
        byte <= 4
    }

    open spec fn spec_from_byte(byte: u8) -> Self {
        message_type_of(byte)
    }

    fn accepts_byte(byte: u8) -> (r: bool) {
        byte <= 4
    }

    fn from_byte(byte: u8) -> (r: Self) {
        MessageType::from(byte)
    }

    fn into_byte(self) -> (r: u8) {
        self.into()
    }

    proof fn lemma_byte_roundtrip(t: Self) {
    }
}

/// The type octets of the messenger are fixed: a text message is 0, an acknowledgement 1,
/// a file announcement 2, a rejected file 3 and an accepted file 4; reading an octet from 0
/// to 4 gives the type that writes it, and writing a type and reading it back gives the type.
pub proof fn lemma_message_type_codes()
    ensures
        message_type_code(MessageType::Message) == 0,
        message_type_code(MessageType::Acknowledgement) == 1,
        message_type_code(MessageType::FileInfo) == 2,
        message_type_code(MessageType::FileRejected) == 3,
        message_type_code(MessageType::FileAccepted) == 4,
        forall|v: u8| v <= 4 ==> message_type_code(#[trigger] message_type_of(v)) == v,
        forall|t: MessageType| message_type_of(#[trigger] message_type_code(t)) == t,
        forall|t: MessageType| #[trigger] message_type_code(t) <= 4,
{
}

} // verus!
