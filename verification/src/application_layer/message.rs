use vstd::prelude::*;

use crate::transport_layer::ExtractUDPData;

verus! {

/// A type of message that travels as one octet.
pub trait MessageTypeTrait: Sized + Clone + Sync + Send {
    /// The octet of a message type.
    spec fn spec_to_byte(&self) -> u8;

    /// Whether an octet stands for a message type.
    spec fn is_valid_byte(byte: u8) -> bool;

    /// The message type an octet stands for.
    spec fn spec_from_byte(byte: u8) -> Self;

    /// Whether an octet stands for a message type.
    fn accepts_byte(byte: u8) -> (r: bool)
        ensures
            r == Self::is_valid_byte(byte),
    ;

    fn from_byte(byte: u8) -> (r: Self)
        requires
            Self::is_valid_byte(byte),
        ensures
            r == Self::spec_from_byte(byte),
    ;

    fn into_byte(self) -> (r: u8)
        ensures
            r == self.spec_to_byte(),
    ;

    /// Every message type's octet stands for that type again.
    proof fn lemma_byte_roundtrip(t: Self)
        ensures
            Self::is_valid_byte(t.spec_to_byte()),
            Self::spec_from_byte(t.spec_to_byte()) == t,
    ;
}

/// A message: its type and its payload.
#[derive(Debug, Clone)]
pub struct Message<TMessage: MessageTypeTrait> {
    pub message_type: TMessage,
    pub payload: Vec<u8>,
}

/// The datagram of a message: its type octet, then its payload.
pub open spec fn message_bytes<TMessage: MessageTypeTrait>(message_type: TMessage, payload: Seq<u8>) -> Seq<u8> {
    seq![message_type.spec_to_byte()] + payload
}

impl<TMessage: MessageTypeTrait> ExtractUDPData for Message<TMessage> {
    fn consume_udp_data(self) -> (r: Vec<u8>)
        ensures
            r@ == message_bytes(self.message_type, self.payload@),
    {
        let mut payload = self.payload;
        payload.insert(0, self.message_type.into_byte());
        payload
    }
}

impl<TMessage: MessageTypeTrait> Message<TMessage> {
    /// Reads a datagram: its first octet is the type, the rest the payload.
    pub fn from(value: &[u8]) -> (r: Self)
        requires
            value@.len() >= 1,
            TMessage::is_valid_byte(value@[0]),
        ensures
            r.message_type == TMessage::spec_from_byte(value@[0]),
            r.payload@ == value@.skip(1),
    {
        let request_type = TMessage::from_byte(value[0]);
        let payload = crate::bytes::copy_range(value, 1, value.len());
        Self { message_type: request_type, payload }
    }
}

/// Reading the datagram of a message gives the message back.
pub proof fn lemma_message_roundtrip<TMessage: MessageTypeTrait>(message_type: TMessage, payload: Seq<u8>)
    ensures
        message_bytes(message_type, payload).len() >= 1,
        TMessage::is_valid_byte(message_bytes(message_type, payload)[0]),
        TMessage::spec_from_byte(message_bytes(message_type, payload)[0]) == message_type,
        message_bytes(message_type, payload).skip(1) == payload,
{
    TMessage::lemma_byte_roundtrip(message_type);
    assert(message_bytes(message_type, payload).skip(1) =~= payload);
}

} // verus!
