use vstd::prelude::*;

use crate::transport_layer::frame::Frame;

verus! {

/// What happened on a connection, as reported to the application.
#[derive(Debug)]
pub enum ConnectionEventType {
    ReceivedFrame(Frame),
    ReceivedCompleteMessage(Vec<u8>),
    SentMessage,
    SentFrame(Frame),
    ReceivedAck(Frame),
    SentAck(Frame),
}

pub type SequenceNumber = u32;

} // verus!
