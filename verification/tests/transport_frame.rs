use lib_rrttp::transport_layer::constants::{MAX_FRAME_SIZE, MIN_FRAME_SIZE};
use lib_rrttp::transport_layer::control_bits::ControlBits;
use lib_rrttp::transport_layer::frame::{Frame, FrameType};
use lib_rrttp::transport_layer::option::{FrameOption, OptionKind};

#[test]
fn frame_sizes() {
    assert_eq!(MIN_FRAME_SIZE, 8);
    assert_eq!(MAX_FRAME_SIZE, 148);
}

#[test]
fn sequence_number_reads_back_big_endian() {
    let mut frame = Frame::default();
    frame.set_sequence_number(0x01020304);
    assert_eq!(frame.get_sequence_number(), 0x01020304);
    assert_eq!(&frame.get_buffer()[0..4], &[1, 2, 3, 4]);
    assert_eq!(frame.get_control_bits(), 0);
}

#[test]
fn frame_types_follow_control_bits() {
    let mut frame = Frame::default();
    assert_eq!(frame.get_frame_type(), FrameType::Data);
    frame.set_control_bits(ControlBits::ack().bits());
    assert_eq!(frame.get_frame_type(), FrameType::Ack);
    frame.set_control_bits(ControlBits::eom().bits());
    assert_eq!(frame.get_frame_type(), FrameType::Data);
    frame.set_control_bits(0b11);
    assert_eq!(frame.get_frame_type(), FrameType::Ack);
    frame.set_control_bits(0b100);
    assert_eq!(frame.get_frame_type(), FrameType::Unknown);
}

#[test]
fn data_reads_back_after_options() {
    let mut frame = Frame::default();
    let size = 300u32.to_be_bytes();
    frame.set_options(&[FrameOption::new(OptionKind::BufferSize, &size)]);
    frame.set_data(b"hello");
    assert_eq!(frame.get_data(), b"hello");
    assert_eq!(frame.get_data_offset(), 14);
    assert_eq!(frame.get_data_length(), 5);
    assert_eq!(frame.get_buffer().len(), 8 + 6 + 5);
    let options = frame.get_options().unwrap();
    assert_eq!(options.len(), 1);
    assert!(matches!(options[0].kind, OptionKind::BufferSize));
    assert_eq!(options[0].data, &size);
}

#[test]
fn no_options_before_plain_data() {
    let mut frame = Frame::default();
    frame.set_data(&[9, 8, 7]);
    assert!(frame.get_options().is_none());
    assert_eq!(frame.get_data(), &[9, 8, 7]);
    assert_eq!(frame.get_buffer(), &[0, 0, 0, 0, 0, 0, 3, 8, 9, 8, 7]);
}

#[test]
fn options_reader_repeats_the_first_option() {
    // The reader does not advance past the first option, so two options read as the first twice.
    let mut frame = Frame::default();
    let a = [1u8, 2, 3, 4];
    let b = [5u8, 6];
    frame.set_options(&[
        FrameOption::new(OptionKind::BufferSize, &a),
        FrameOption::new(OptionKind::SegmentNumber, &b),
    ]);
    frame.set_data(&[]);
    let options = frame.get_options().unwrap();
    assert_eq!(options.len(), 2);
    assert!(matches!(options[1].kind, OptionKind::BufferSize));
    assert_eq!(options[1].data, &a);
}

#[test]
fn append_option_writes_after_previous_ones() {
    let mut frame = Frame::default();
    frame.append_option(FrameOption::new(OptionKind::SegmentNumber, &[7, 7]));
    frame.append_option(FrameOption::new(OptionKind::BufferSize, &[1]));
    frame.set_data(&[42]);
    assert_eq!(&frame.get_buffer()[8..15], &[1, 2, 7, 7, 0, 1, 1]);
    assert_eq!(frame.get_data(), &[42]);
}

#[test]
fn channel_id_is_the_reserved_octet() {
    let mut frame = Frame::default();
    frame.set_channel_id(9);
    assert_eq!(frame.get_channel_id(), 9);
    frame.set_data(&[1]);
    assert_eq!(frame.get_buffer()[5], 9);
}

#[test]
fn frame_from_received_bytes() {
    let mut sent = Frame::default();
    sent.set_sequence_number(77);
    sent.set_control_bits(ControlBits::eom().bits());
    sent.set_data(b"abc");
    let received = Frame::from_buffer(sent.get_buffer());
    assert_eq!(received.get_sequence_number(), 77);
    assert_eq!(received.get_data(), b"abc");
    assert_eq!(received.get_frame_type(), FrameType::Data);
}

#[test]
fn frame_from_whole_array() {
    let mut bytes = [0u8; MAX_FRAME_SIZE];
    bytes[3] = 5;
    bytes[7] = 8;
    bytes[6] = 1;
    bytes[8] = 0xaa;
    let frame = Frame::from(bytes);
    assert_eq!(frame.get_sequence_number(), 5);
    assert_eq!(frame.get_data(), &[0xaa]);
    assert_eq!(frame.get_buffer().len(), MIN_FRAME_SIZE);
}

#[test]
fn control_bits_sets() {
    assert!(ControlBits::from_bits(4).is_none());
    let both = ControlBits::from_bits(3).unwrap();
    assert!(both.contains(ControlBits::ack()));
    assert!(both.contains(ControlBits::eom()));
    assert!(!ControlBits::ack().contains(ControlBits::eom()));
    assert_eq!(ControlBits::empty().bits(), 0);
}

#[test]
fn option_kinds_by_octet() {
    assert!(matches!(OptionKind::from(0), OptionKind::BufferSize));
    assert!(matches!(OptionKind::from(1), OptionKind::SegmentNumber));
    assert_eq!(OptionKind::SegmentNumber.code(), 1);
}

#[test]
fn header_fields_survive_later_writes_and_the_wire() {
    let mut frame = Frame::default();
    frame.set_sequence_number(77);
    frame.set_control_bits(2);
    frame.set_channel_id(4);
    frame.append_option(FrameOption::new(OptionKind::BufferSize, &[0, 0, 1, 0]));
    frame.set_data(&[5, 6, 7]);
    assert_eq!(frame.get_sequence_number(), 77);
    assert_eq!(frame.get_control_bits(), 2);
    assert_eq!(frame.get_channel_id(), 4);
    assert_eq!(frame.get_data_offset(), 14);
    let read = Frame::from_buffer(frame.get_buffer());
    assert_eq!(read.get_sequence_number(), 77);
    assert_eq!(read.get_control_bits(), 2);
    assert_eq!(read.get_channel_id(), 4);
    assert_eq!(read.get_data_offset(), 14);
    assert_eq!(read.get_data(), &[5, 6, 7]);
}
