use vstd::prelude::*;

use std::string::FromUtf8Error;
use vstd::utf8::{valid_utf8, decode_utf8, encode_utf8};

use crate::demo::messanger::file_models::FileMetadata;

verus! {

#[verifier::external_type_specification]
#[verifier::external_body]
pub struct ExFromUtf8Error(FromUtf8Error);

#[verifier::external_type_specification]
#[verifier::external_body]
pub struct ExBincodeErrorKind(bincode::ErrorKind);

/// What the messenger sends: a text, a file announcement, an answer to one, or file data.
pub enum Message {
    String(String),
    FileInfo(FileMetadata),
    ResponseToFileInfo { accepted: bool },
    FileData(Vec<u8>),
}

/// Why a datagram is not a message.
#[derive(Debug)]
pub enum MessageParsingError {
    InvalidMessageType(String),
    InvalidMessagePayload(String),
}

/// The octet that announces each kind of message.
pub open spec fn message_kind_code(m: Message) -> u8 {
    match m {
        Message::String(_) => 0,
        Message::FileInfo(_) => 1,
        Message::ResponseToFileInfo { .. } => 2,
        Message::FileData(_) => 3,
    }
}

/// The octet that bincode writes for a boolean.
pub open spec fn bool_byte(b: bool) -> u8 {
    if b {
        1
    } else {
        0
    }
}

/// The payload of a message that is not a file announcement: a text's UTF-8 octets, a
/// boolean's octet, the file data itself.
pub open spec fn message_payload(m: Message) -> Seq<u8> {
    match m {
        Message::String(s) => encode_utf8(s@),
        Message::FileInfo(_) => Seq::empty(),
        Message::ResponseToFileInfo { accepted } => seq![bool_byte(accepted)],
        Message::FileData(d) => d@,
    }
}

/// Whether two messages say the same thing: the same text, answer or data.
pub open spec fn same_message(a: Message, b: Message) -> bool {
    match (a, b) {
        (Message::String(x), Message::String(y)) => x@ == y@,
        (Message::ResponseToFileInfo { accepted: x }, Message::ResponseToFileInfo { accepted: y }) => x
            == y,
        (Message::FileData(x), Message::FileData(y)) => x@ == y@,
        (Message::FileInfo(x), Message::FileInfo(y)) => x == y,
        _ => false,
    }
}

/// What a payload of a known kind other than a file announcement reads as, when it reads.
pub open spec fn payload_reads_as(message_type: u8, payload: Seq<u8>, m: Message) -> bool {
    if message_type == 0 {
        m matches Message::String(s) && valid_utf8(payload) && s@ == decode_utf8(payload)
    } else if message_type == 2 {
        m matches Message::ResponseToFileInfo { accepted } && payload.len() >= 1 && payload[0]
            == bool_byte(accepted)
    } else {
        m matches Message::FileData(d) && d@ == payload
    }
}

/// Whether a payload of a known kind other than a file announcement can be read.
pub open spec fn payload_readable(message_type: u8, payload: Seq<u8>) -> bool {
    if message_type == 0 {
        valid_utf8(payload)
    } else if message_type == 2 {
        payload.len() >= 1 && payload[0] <= 1
    } else {
        true
    }
}

/// `String::from_utf8`: the bytes as a string when they are valid UTF-8, an error otherwise.
#[verifier::external_body]
pub(crate) fn string_from_utf8(bytes: Vec<u8>) -> (r: Result<String, FromUtf8Error>)
    ensures
        r is Ok <==> valid_utf8(bytes@),
        r matches Ok(s) ==> s@ == decode_utf8(bytes@),
{
    String::from_utf8(bytes)
}

/// `bincode::deserialize::<bool>`: the first octet read as a boolean, 0 as false and 1 as
/// true; an empty slice or another first octet is an error; later octets are not read.
#[verifier::external_body]
fn deserialize_bool(bytes: &[u8]) -> (r: Result<bool, bincode::Error>)
    ensures
        r is Ok <==> (bytes@.len() >= 1 && bytes@[0] <= 1),
        r matches Ok(b) ==> bool_byte(b) == bytes@[0],
{
    bincode::deserialize::<bool>(bytes)
}

/// `bincode::serialize` of a boolean: its one octet, 1 for true and 0 for false.
#[verifier::external_body]
fn serialize_bool(value: bool) -> (r: Result<Vec<u8>, bincode::Error>)
    ensures
        r is Ok,
        r matches Ok(v) ==> v@ == seq![bool_byte(value)],
{
    bincode::serialize(&value)
}

impl Message {
    /// The octet that announces the kind of this message.
    pub fn message_type(&self) -> (r: u8)
        ensures
            r == message_kind_code(*self),
    {
        match self {
            Self::String(_) => 0,
            Self::FileInfo(_) => 1,
            Self::ResponseToFileInfo { accepted: _ } => 2,
            Self::FileData(_) => 3,
        }
    }

    /// Splits a datagram into its kind octet and its payload.
    pub fn parse_header(value: &[u8]) -> (r: Result<(u8, &[u8]), MessageParsingError>)
        ensures
            value@.len() == 0 <==> r is Err,
            r matches Err(e) ==> e matches MessageParsingError::InvalidMessageType(text) && text@
                == "Unable to read message type"@,
            r matches Ok((t, payload)) ==> t == value@[0] && payload@ == value@.skip(1),
    {
        if value.len() == 0 {
            return Err(
                MessageParsingError::InvalidMessageType("Unable to read message type".to_string()),
            );
        }
        let message_type = value[0];
        let payload = crate::bytes::subslice(value, 1, value.len());
        Ok((message_type, payload))
    }

    /// Reads the payload of a message of kind `message_type`; file announcements are read
    /// by their serde form and not here.
    pub fn from_payload(message_type: u8, payload: &[u8]) -> (r: Result<Message, MessageParsingError>)
        requires
            message_type != 1,
        ensures
            message_type > 3 ==> (r matches Err(e) && e matches MessageParsingError::InvalidMessageType(
                text,
            ) && text@ == "Unknown message type"@),
            message_type <= 3 ==> (r is Ok <==> payload_readable(message_type, payload@)),
            message_type <= 3 ==> (r matches Err(e) ==> e is InvalidMessagePayload),
            r matches Ok(m) ==> payload_reads_as(message_type, payload@, m),
    {
        match message_type {
            0 => {
                let bytes = crate::bytes::copy_range(payload, 0, payload.len());
                assert(bytes@ =~= payload@);
                match string_from_utf8(bytes) {
                    Ok(text) => Ok(Self::String(text)),
                    Err(e) => Err(MessageParsingError::InvalidMessagePayload(e.to_string())),
                }
            },
            2 => match deserialize_bool(payload) {
                Ok(accepted) => Ok(Self::ResponseToFileInfo { accepted }),
                Err(e) => Err(MessageParsingError::InvalidMessagePayload(e.to_string())),
            },
            3 => {
                let data = crate::bytes::copy_range(payload, 0, payload.len());
                assert(data@ =~= payload@);
                Ok(Self::FileData(data))
            },
            _ => Err(MessageParsingError::InvalidMessageType("Unknown message type".to_string())),
        }
    }

    /// The payload of a message that is not a file announcement.
    pub fn payload_bytes(self) -> (r: Vec<u8>)
        requires
            !(self is FileInfo),
        ensures
            r@ == message_payload(self),
    {
        match self {
            Self::String(payload) => {
                let bytes = payload.as_str().as_bytes();
                crate::bytes::copy_range(bytes, 0, bytes.len())
            },
            Self::ResponseToFileInfo { accepted } => match serialize_bool(accepted) {
                Ok(v) => v,
                Err(_) => Vec::new(),
            },
            Self::FileData(payload) => payload,
            Self::FileInfo(_) => Vec::new(),
        }
    }
}

/// The datagram of a message: the kind octet, then the payload.
pub fn frame_message(message_type: u8, payload: &[u8]) -> (r: Vec<u8>)
    ensures
        r@ == seq![message_type] + payload@,
{
    let mut r: Vec<u8> = Vec::new();
    r.push(message_type);
    let mut i: usize = 0;
    while i < payload.len()
        invariant
            0 <= i <= payload@.len(),
            r@ == seq![message_type] + payload@.take(i as int),
        decreases payload@.len() - i,
    {
        r.push(payload[i]);
        i += 1;
        assert(r@ =~= seq![message_type] + payload@.take(i as int));
    }
    assert(payload@.take(payload@.len() as int) =~= payload@);
    r
}

/// A message that is not a file announcement reads back from its datagram as the same
/// message: the header gives its kind and payload, and the payload reads as it.
pub proof fn lemma_message_roundtrip(m: Message)
    requires
        !(m is FileInfo),
    ensures
        ({
            let datagram = seq![message_kind_code(m)] + message_payload(m);
            &&& datagram.len() >= 1
            &&& datagram[0] == message_kind_code(m)
            &&& datagram.skip(1) == message_payload(m)
            &&& payload_readable(message_kind_code(m), message_payload(m))
            &&& forall|read: Message| payload_reads_as(message_kind_code(m), message_payload(m), read)
                ==> same_message(read, m)
        }),
{
    let datagram = seq![message_kind_code(m)] + message_payload(m);
    assert(datagram.skip(1) =~= message_payload(m));
    match m {
        Message::String(s) => {
            vstd::utf8::encode_utf8_valid_utf8(s@);
            vstd::utf8::encode_utf8_decode_utf8(s@);
        },
        _ => {},
    }
}

/// The kind octets of the messenger's datagrams are fixed: a text is 0, a file announcement
/// 1, an answer to one 2 and file data 3.
pub proof fn lemma_message_kind_codes(m: Message)
    ensures
        m is String <==> message_kind_code(m) == 0,
        m is FileInfo <==> message_kind_code(m) == 1,
        m is ResponseToFileInfo <==> message_kind_code(m) == 2,
        m is FileData <==> message_kind_code(m) == 3,
{
}

} // verus!
