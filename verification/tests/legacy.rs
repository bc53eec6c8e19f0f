use lib_rrttp::add;
use lib_rrttp::constants::{MAX_FRAME_SIZE, MIN_FRAME_SIZE, WINDOW_SIZE};
use lib_rrttp::frame::Frame;
use lib_rrttp::frame_status::FrameStatus;
use lib_rrttp::receiver::{Receiver, ReceiverAction};
use lib_rrttp::transmitter::{SendCursor, SendStep, Transmitter};
use lib_rrttp::transport_layer::option::{FrameOption, OptionKind};
use lib_rrttp::window::transmitter::Transmitter as WindowTransmitter;

#[test]
fn adds() {
    assert_eq!(add(2, 2), 4);
}

#[test]
fn legacy_frame_layout() {
    assert_eq!(MIN_FRAME_SIZE, 12);
    assert_eq!(MAX_FRAME_SIZE, 152);
    let mut frame = Frame::default();
    frame.set_sequence_number(7);
    frame.set_acknowledgment_number(0x0a0b0c0d);
    frame.set_control_bits(2);
    frame.set_data(&[1, 2, 3]);
    assert_eq!(frame.get_sequence_number(), 7);
    assert_eq!(frame.get_acknowledgment_number(), 0x0a0b0c0d);
    assert_eq!(frame.get_control_bits(), 2);
    assert_eq!(frame.get_data_offset(), 12);
    assert_eq!(frame.get_buffer(), &[0, 0, 0, 7, 10, 11, 12, 13, 2, 0, 0, 12, 1, 2, 3]);
    // The data reaches to the end of the buffer.
    assert_eq!(frame.get_data().len(), MAX_FRAME_SIZE - 12);
    assert_eq!(&frame.get_data()[..3], &[1, 2, 3]);
    assert!(frame.get_options().is_none());
}

#[test]
fn legacy_frame_options() {
    let mut frame = Frame::default();
    let size = 1000u32.to_be_bytes();
    frame.set_options(&[FrameOption::new(OptionKind::BufferSize, &size)]);
    frame.set_data(&[5]);
    assert_eq!(frame.get_data_offset(), 18);
    let options = frame.get_options().unwrap();
    assert_eq!(options.len(), 1);
    assert_eq!(options[0].data, &size);
}

#[test]
fn legacy_transmitter_window_shifts_past_acknowledged_frames() {
    let mut transmitter = Transmitter::new();
    transmitter.handle_acknowledgment(2);
    transmitter.shift_window();
    // The first frame is not acknowledged yet: nothing moves.
    transmitter.handle_acknowledgment(1);
    transmitter.shift_window();
    transmitter.handle_acknowledgment(2);
    transmitter.shift_window();
    transmitter.handle_acknowledgment(3);
    transmitter.shift_window();
    assert!(matches!(FrameStatus::default(), FrameStatus::NotSent));
    // After two shifts, sequence number 3 is the first slot again, acknowledged: the
    // smallest acknowledged number is 3 and an acknowledgment of 3 is ignored.
    transmitter.handle_acknowledgment(3);
    transmitter.handle_acknowledgment(3 + WINDOW_SIZE as u32);
    transmitter.shift_window();
}

#[test]
fn legacy_ack_frame() {
    let frame = Transmitter::ack_frame(99);
    assert_eq!(frame.get_sequence_number(), 0);
    assert_eq!(frame.get_acknowledgment_number(), 99);
    assert_eq!(frame.get_control_bits(), 1);
    assert_eq!(frame.get_buffer().len(), 12);
}

#[test]
fn legacy_segment_frames() {
    let data: Vec<u8> = (0..200u32).map(|i| i as u8).collect();
    let first = Transmitter::segment_frame(&data, 1, 2, 1);
    assert_eq!(first.get_sequence_number(), 1);
    assert_eq!(first.get_control_bits(), 0);
    assert_eq!(first.get_data_offset(), 24);
    let options = first.get_options().unwrap();
    assert!(matches!(options[0].kind, OptionKind::BufferSize));
    assert_eq!(options[0].data, &200u32.to_be_bytes());
    assert_eq!(&first.get_data()[..128], &data[..128]);
    let second = Transmitter::segment_frame(&data, 2, 2, 2);
    assert_eq!(second.get_control_bits(), 2);
    assert_eq!(second.get_data_offset(), 18);
    let options = second.get_options().unwrap();
    assert!(matches!(options[0].kind, OptionKind::SegmentNumber));
    assert_eq!(options[0].data, &2u32.to_be_bytes());
    assert_eq!(&second.get_data()[..72], &data[128..]);
    let single = Transmitter::segment_frame(&data[..10], 1, 1, 5);
    assert_eq!(single.get_control_bits(), 2);
    assert_eq!(single.get_data_offset(), 18);
}

#[test]
fn legacy_receiver_assembles_a_message() {
    // The last frame's buffer runs past the message; what lies past the announced size is
    // not stored, so the message comes out exactly.
    let data: Vec<u8> = (0..200u32).map(|i| (i * 3) as u8).collect();
    let mut receiver = Receiver::new();
    let first = Transmitter::segment_frame(&data, 1, 2, 1);
    let first = Frame::from_buffer(first.get_buffer());
    match receiver.handle_frame(&first) {
        ReceiverAction::Data { acknowledge, message } => {
            assert_eq!(acknowledge, 1);
            assert!(message.is_none());
        }
        ReceiverAction::HandleAcknowledgment(_) => panic!("a data frame"),
    }
    let ack = Transmitter::ack_frame(1);
    match receiver.handle_frame(&ack) {
        ReceiverAction::HandleAcknowledgment(n) => assert_eq!(n, 1),
        ReceiverAction::Data { .. } => panic!("an acknowledgment"),
    }
    let last = Transmitter::segment_frame(&data, 2, 2, 2);
    let last = Frame::from_buffer(last.get_buffer());
    assert!(receiver.accepts_frame(&last));
    match receiver.handle_frame(&last) {
        ReceiverAction::Data { acknowledge, message } => {
            assert_eq!(acknowledge, 2);
            assert_eq!(message.unwrap(), data);
        }
        ReceiverAction::HandleAcknowledgment(_) => panic!("a data frame"),
    }
}

#[test]
fn legacy_receiver_counters() {
    let mut receiver = Receiver::new();
    receiver.update_earliest_not_received(1);
    receiver.update_earliest_not_received(5);
    receiver.insert_data_into_buffer(1, &[]);
    assert!(receiver.construct_message().is_empty());
    let option_data = 3u32.to_be_bytes();
    receiver.sync_read_buffer(&FrameOption::new(OptionKind::BufferSize, &option_data));
    receiver.insert_data_into_buffer(1, &[7, 8]);
    assert_eq!(receiver.construct_message(), vec![7, 8, 0]);
    // Past the end of the buffer nothing is stored.
    receiver.insert_data_into_buffer(1, &[1, 2, 3, 4, 5]);
    assert_eq!(receiver.construct_message(), vec![1, 2, 3]);
    receiver.insert_data_into_buffer(2, &[9]);
    assert_eq!(receiver.construct_message(), vec![1, 2, 3]);
}

#[test]
fn earliest_window_frames() {
    let transmitter = WindowTransmitter::new();
    let data: Vec<u8> = (0..300u32).map(|i| i as u8).collect();
    let frames = transmitter.window_frames(&data, 3);
    assert_eq!(frames.len(), 3);
    assert_eq!(frames[0].get_sequence_number(), 0);
    assert_eq!(&frames[2].get_data()[..44], &data[256..]);
    assert_eq!(frames[1].get_buffer().len(), 12 + 128);
}

#[test]
fn legacy_send_steps() {
    let data: Vec<u8> = (0..200u32).map(|i| i as u8).collect();
    let mut transmitter = Transmitter::new();
    match transmitter.send_step(&data, 0, 1, 2, 0) {
        SendStep::Send(frame) => {
            assert_eq!(frame.get_sequence_number(), 1);
            assert_eq!(frame.get_buffer(), Transmitter::segment_frame(&data, 1, 2, 1).get_buffer());
        }
        _ => panic!("the first segment goes out"),
    }
    match transmitter.send_step(&data, 1, 3, 2, 0) {
        SendStep::Finish => {}
        _ => panic!("every segment is out"),
    }
    transmitter.set_status(2, FrameStatus::Acknowledged);
    assert!(matches!(transmitter.send_step(&data, 2, 2, 2, 0), SendStep::Skip));
    let now = std::time::Instant::now();
    transmitter.set_status(3, FrameStatus::Sent(now));
    assert!(matches!(transmitter.send_step(&data, 3, 2, 2, 10), SendStep::Skip));
    match transmitter.send_step(&data, 3, 2, 2, 100_000) {
        SendStep::Send(frame) => assert_eq!(frame.get_sequence_number(), 4),
        _ => panic!("a timed-out slot sends again"),
    }
}

#[test]
fn legacy_sending_loop_sends_the_segments_in_order() {
    let data: Vec<u8> = (0..300u32).map(|i| (i * 7) as u8).collect();
    let segments = 3;
    let mut transmitter = Transmitter::new();
    let mut cursor = SendCursor::new();
    let mut sent = Vec::new();
    loop {
        match transmitter.next_send_action(&mut cursor, &data, segments, 0) {
            SendStep::Skip => {}
            SendStep::Finish => break,
            SendStep::Send(frame) => {
                sent.push(frame.get_buffer().to_vec());
                transmitter.frame_sent(&mut cursor, std::time::Instant::now());
            }
        }
    }
    assert_eq!(sent.len(), 3);
    for (j, buffer) in sent.iter().enumerate() {
        let segment = j as u32 + 1;
        let expected = Transmitter::segment_frame(&data, segment, segments, segment);
        assert_eq!(buffer.as_slice(), expected.get_buffer());
    }
    assert_eq!(cursor.segments_sent, 4);
    assert!(matches!(transmitter.status(0), FrameStatus::NotSent));
}

#[test]
fn legacy_sending_loop_shifts_past_acknowledged_frames() {
    let data = vec![1u8; 10];
    let mut transmitter = Transmitter::new();
    transmitter.handle_acknowledgment(1);
    let mut cursor = SendCursor { slot: WINDOW_SIZE, segments_sent: 1 };
    assert!(matches!(transmitter.next_send_action(&mut cursor, &data, 1, 0), SendStep::Skip));
    assert_eq!(cursor.slot, 0);
    assert_eq!(transmitter.smallest_acknowledged_sequence_number(), 1);
    match transmitter.next_send_action(&mut cursor, &data, 1, 0) {
        SendStep::Send(frame) => assert_eq!(frame.get_sequence_number(), 2),
        _ => panic!("the segment goes out after the acknowledged frame"),
    }
}

#[test]
fn acknowledgments_are_tried_at_most_three_times() {
    assert!(Transmitter::ack_again(1, false));
    assert!(Transmitter::ack_again(2, false));
    assert!(!Transmitter::ack_again(3, false));
    assert!(!Transmitter::ack_again(1, true));
}
