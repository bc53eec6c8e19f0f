use vstd::prelude::*;

use crate::bytes::{splice, u32_be_bytes};
use crate::transport_layer::control_bits::{ControlBits, ACK_BIT};
use crate::transport_layer::frame::{
    Frame, FrameType, frame_type_of, frame_control_bits, frame_sequence_number, frame_channel_id,
    lemma_sequence_number_roundtrip, CONTROL_BITS_OCTET, CHANNEL_ID_OCTET,
};
use crate::transport_layer::transmitter_window::zero_frame;

verus! {

/// What happened on a connection that sends messages over several channels.
pub enum ConnectionEventType {
    ReceivedComplete(Frame),
    // These fragments are always in order
    ReceivedFragment(Frame),
    ReceivedAck(Frame),
    SentAck(Frame),
    SentSingleComplete(Frame),
    SentFragment(Frame),
    AllFragmentsSent(ChannelId),
}

pub type SequenceNumber = u32;

pub type ChannelId = u32;

/// The buffer of the acknowledgment of `sequence_number` on channel `channel_id`.
pub open spec fn ack_frame_bytes(channel_id: u8, sequence_number: u32) -> Seq<u8> {
    splice(zero_frame(), 0, u32_be_bytes(sequence_number)).update(
        CONTROL_BITS_OCTET as int,
        ACK_BIT,
    ).update(CHANNEL_ID_OCTET as int, channel_id)
}

/// The frame that acknowledges `sequence_number` on channel `channel_id`; the channel id
/// takes one octet.
pub fn construct_ack_frame(channel_id: ChannelId, sequence_number: SequenceNumber) -> (r: Frame)
    requires
        channel_id <= 255,
    ensures
        r.bytes() == ack_frame_bytes(channel_id as u8, sequence_number),
        r.options_size() == 0,
        r.data_size() == 0,
{
    let mut frame = Frame::default();
    frame.set_sequence_number(sequence_number);
    frame.set_control_bits(ControlBits::ack().bits());
    frame.set_channel_id(channel_id as u8);
    frame
}

/// An acknowledgment frame reads back as an acknowledgment of its sequence number on its
/// channel.
pub proof fn lemma_ack_frame_reads_back(channel_id: u8, sequence_number: u32)
    ensures
        frame_type_of(frame_control_bits(ack_frame_bytes(channel_id, sequence_number)))
            == FrameType::Ack,
        frame_sequence_number(ack_frame_bytes(channel_id, sequence_number)) == sequence_number,
        frame_channel_id(ack_frame_bytes(channel_id, sequence_number)) == channel_id,
{
    lemma_sequence_number_roundtrip(zero_frame(), sequence_number);
    let b = ack_frame_bytes(channel_id, sequence_number);
    let s = splice(zero_frame(), 0, u32_be_bytes(sequence_number));
    assert(b.subrange(0, 4) =~= s.subrange(0, 4));
}

} // verus!
