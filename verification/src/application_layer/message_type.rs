use vstd::prelude::*;

use crate::application_layer::message::MessageTypeTrait;

verus! {

/// The kinds of message of the file-sharing exchange.
#[derive(Debug, Clone, Copy, PartialEq, Eq, Structural)]
pub enum MessageType {
    SendMessage,
    SendFile,
    ReceivedMessage,
    ReadyToReceiveMessage,
}

/// The octet of a message type.
pub open spec fn message_type_code(t: MessageType) -> u8 {
    match t {
        MessageType::SendMessage => 0,
        MessageType::SendFile => 1,
        MessageType::ReceivedMessage => 2,
        MessageType::ReadyToReceiveMessage => 3,
    }
}

/// The message type of an octet, for the octets 0 to 3.
pub open spec fn message_type_of(value: u8) -> MessageType {
    if value == 0 {
        MessageType::SendMessage
    } else if value == 1 {
        MessageType::SendFile
    } else if value == 2 {
        MessageType::ReceivedMessage
    } else {
        MessageType::ReadyToReceiveMessage
    }
}

impl MessageType {
    /// The message type of `value`; only 0 to 3 stand for one.
    pub fn from(value: u8) -> (r: Self)
        requires
            value <= 3,
        ensures
            r == message_type_of(value),
    {
        match value {
            0 => Self::SendMessage,
            1 => Self::SendFile,
            2 => Self::ReceivedMessage,
            _ => Self::ReadyToReceiveMessage,
        }
    }

    /// The octet of this message type.
    pub fn code(self) -> (r: u8)
        ensures
            r == message_type_code(self),
    {
        match self {
            Self::SendMessage => 0,
            Self::SendFile => 1,
            Self::ReceivedMessage => 2,
            Self::ReadyToReceiveMessage => 3,
        }
    }
}

impl MessageTypeTrait for MessageType {
    open spec fn spec_to_byte(&self) -> u8 {
        message_type_code(*self)
    }

    open spec fn is_valid_byte(byte: u8) -> bool {
        byte <= 3
    }

    open spec fn spec_from_byte(byte: u8) -> Self {
        message_type_of(byte)
    }

    fn accepts_byte(byte: u8) -> (r: bool) {
        byte <= 3
    }

    fn from_byte(byte: u8) -> (r: Self) {
        MessageType::from(byte)
    }

    fn into_byte(self) -> (r: u8) {
        self.code()
    }

    proof fn lemma_byte_roundtrip(t: Self) {
    }
}

/// The type octets of the file-sharing exchange are fixed: sending a message is 0, sending
/// a file 1, a received message 2 and readiness to receive 3; reading an octet from 0 to 3
/// gives the type that writes it, and writing a type and reading it back gives the type.
pub proof fn lemma_message_type_codes()
    ensures
        message_type_code(MessageType::SendMessage) == 0,
        message_type_code(MessageType::SendFile) == 1,
        message_type_code(MessageType::ReceivedMessage) == 2,
        message_type_code(MessageType::ReadyToReceiveMessage) == 3,
        forall|v: u8| v <= 3 ==> message_type_code(#[trigger] message_type_of(v)) == v,
        forall|t: MessageType| message_type_of(#[trigger] message_type_code(t)) == t,
        forall|t: MessageType| #[trigger] message_type_code(t) <= 3,
{
}

} // verus!
