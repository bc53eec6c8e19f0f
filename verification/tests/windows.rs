use lib_rrttp::transport_layer::connection_manager::construct_ack_frame;
use lib_rrttp::transport_layer::control_bits::ControlBits;
use lib_rrttp::transport_layer::frame::{Frame, FrameType};
use lib_rrttp::transport_layer::frame_status::FrameStatus;
use lib_rrttp::transport_layer::receiver_window::{deliver_frame, ReceiverWindow};
use lib_rrttp::transport_layer::receiving_window_manager::ReceivingWindowManager;
use lib_rrttp::transport_layer::transmitter_window::TransmitterWindow;
use lib_rrttp::transport_layer::window::NewWindow;
use lib_rrttp::transport_layer::window_manager::WindowManager;

fn data_frame(sequence_number: u32, data: &[u8]) -> Frame {
    let mut frame = Frame::default();
    frame.set_sequence_number(sequence_number);
    frame.set_data(data);
    frame
}

#[test]
fn window_index_of_sequence_numbers() {
    let mut window = NewWindow::default();
    window.set_window_size(4);
    assert_eq!(window.frame_status, vec![false; 4]);
    assert_eq!(window.get_window_index(0), None);
    assert_eq!(window.get_window_index(1), Some(0));
    assert_eq!(window.get_window_index(3), Some(2));
    assert_eq!(window.get_window_index(4), None);
    assert!(window.is_within_window(3));
    assert!(!window.is_within_window(4));
}

#[test]
fn update_frame_status_grows_the_window() {
    let mut window = NewWindow::default();
    window.update_frame_status(2);
    assert_eq!(window.frame_status, vec![false, false, true]);
    window.update_frame_status(0);
    window.update_frame_status(1);
    assert_eq!(window.shift_window(), 3);
    assert_eq!(window.get_window_left_edge(), 3);
    assert!(window.frame_status.is_empty());
}

#[test]
fn receiver_delivers_frames_in_order() {
    let mut window = ReceiverWindow::default();
    window.handle_incoming_frame(data_frame(2, b"b"));
    window.handle_incoming_frame(data_frame(3, b"c"));
    assert!(window.shift_window().is_empty());
    window.handle_incoming_frame(data_frame(1, b"a"));
    let frames = window.shift_window();
    let data: Vec<&[u8]> = frames.iter().map(|f| f.get_data()).collect();
    assert_eq!(data, vec![&b"a"[..], &b"b"[..], &b"c"[..]]);
    assert_eq!(frames[2].get_sequence_number(), 3);
    assert!(window.shift_window().is_empty());
    // Sequence numbers at or before the left edge are outside the window now.
    window.handle_incoming_frame(data_frame(2, b"again"));
    assert!(window.shift_window().is_empty());
    window.handle_incoming_frame(data_frame(4, b"d"));
    assert_eq!(window.shift_window().len(), 1);
}

#[test]
fn receiver_window_size_bounds_the_window() {
    let mut window = ReceiverWindow::default();
    window.set_window_size(3);
    assert!(window.is_within_window(2));
    assert!(!window.is_within_window(3));
    window.handle_incoming_frame(data_frame(3, b"x"));
    window.handle_incoming_frame(data_frame(1, b"y"));
    assert_eq!(window.shift_window().len(), 1);
}

#[test]
fn transmitter_fragments_a_message() {
    let mut window = TransmitterWindow::new();
    let message: Vec<u8> = (0..300u32).map(|i| (i % 251) as u8).collect();
    window.append_to_queue(message.clone());
    let due = window.prepare_send(&window.elapsed_since_sent());
    assert_eq!(due, vec![0, 1, 2]);
    let mut reassembled = Vec::new();
    for (i, index) in due.iter().enumerate() {
        let frame = window.frame_at(*index);
        assert_eq!(frame.get_sequence_number(), i as u32 + 1);
        reassembled.extend_from_slice(frame.get_data());
        let eom = ControlBits::from_bits(frame.get_control_bits()).unwrap().contains(ControlBits::eom());
        assert_eq!(eom, i == 2);
    }
    assert_eq!(reassembled, message);
    assert_eq!(window.frame_at(0).get_data().len(), 128);
    assert_eq!(window.frame_at(2).get_data().len(), 44);
}

#[test]
fn empty_message_queues_nothing() {
    let mut window = TransmitterWindow::new();
    window.append_to_queue(vec![]);
    assert!(window.prepare_send(&window.elapsed_since_sent()).is_empty());
}

#[test]
fn acknowledged_frames_leave_the_window() {
    let mut window = TransmitterWindow::new();
    window.append_to_queue(vec![1u8; 200]);
    window.append_to_queue(vec![2u8; 10]);
    let due = window.prepare_send(&window.elapsed_since_sent());
    assert_eq!(due, vec![0, 1, 2]);
    for index in due {
        window.mark_sent(index, std::time::Instant::now());
    }
    // Frames sent a moment ago are not due again.
    assert!(window.prepare_send(&window.elapsed_since_sent()).is_empty());
    window.handle_acknowledgment(2);
    assert_eq!(window.shift_window(), 0);
    window.handle_acknowledgment(1);
    assert_eq!(window.shift_window(), 2);
    assert_eq!(window.get_window_left_edge(), 2);
    // An acknowledgment outside the window changes nothing.
    window.handle_acknowledgment(1);
    assert_eq!(window.shift_window(), 0);
    window.handle_acknowledgment(3);
    assert_eq!(window.shift_window(), 1);
    assert_eq!(window.get_window_left_edge(), 3);
}

#[test]
fn frame_status_decides_what_is_due() {
    assert!(FrameStatus::NotSent.is_due());
    assert!(!FrameStatus::Acknowledged.is_due());
    let sent = FrameStatus::Sent(std::time::Instant::now());
    assert!(!sent.is_due());
    assert!(sent.is_due_after(1001));
    assert!(!sent.is_due_after(1000));
}

#[test]
fn window_manager_routes_frames_by_channel() {
    let mut manager: WindowManager<ReceiverWindow> = WindowManager::default();
    let mut on_channel_two = data_frame(1, b"two");
    on_channel_two.set_channel_id(2);
    manager.handle_incoming_frame(on_channel_two);
    manager.handle_incoming_frame(data_frame(1, b"main"));
    let shifted = manager.shift_all_windows();
    assert_eq!(shifted.len(), 2);
    assert_eq!(shifted[&0][0].get_data(), b"main");
    assert_eq!(shifted[&2][0].get_data(), b"two");
    let shifted = manager.shift_all_windows();
    assert!(shifted[&0].is_empty());
    assert!(shifted[&2].is_empty());
}

#[test]
fn receiving_window_manager_routes_frames_by_channel() {
    let mut manager = ReceivingWindowManager::default();
    let mut on_channel_five = data_frame(2, b"late");
    on_channel_five.set_channel_id(5);
    manager.handle_incoming_frame(on_channel_five);
    let shifted = manager.shift_all_windows();
    assert!(shifted[&5].is_empty());
    let mut first = data_frame(1, b"early");
    first.set_channel_id(5);
    manager.handle_incoming_frame(first);
    let shifted = manager.shift_all_windows();
    assert_eq!(shifted[&5].len(), 2);
    assert!(shifted[&0].is_empty());
}

#[test]
fn transmitter_window_manager_fragmentation_threshold() {
    let manager: WindowManager<TransmitterWindow> = WindowManager::default();
    assert!(!manager.needs_fragmentation(128));
    assert!(manager.needs_fragmentation(129));
}

#[test]
fn ack_frame_acknowledges_its_sequence_number() {
    let frame = construct_ack_frame(3, 41);
    assert_eq!(frame.get_frame_type(), FrameType::Ack);
    assert_eq!(frame.get_sequence_number(), 41);
    assert_eq!(frame.get_channel_id(), 3);
    assert_eq!(frame.get_buffer().len(), 8);
}

#[test]
fn queued_message_is_delivered_whole() {
    let mut sender = TransmitterWindow::new();
    let message: Vec<u8> = (0..300u32).map(|i| (i % 249) as u8).collect();
    sender.append_to_queue(message.clone());
    let mut receiver = ReceiverWindow::default();
    for index in sender.prepare_send(&sender.elapsed_since_sent()) {
        let sent = Frame::from_buffer(sender.frame_at(index).get_buffer());
        receiver.handle_incoming_frame(sent);
    }
    let mut buffer = Vec::new();
    let mut delivered = Vec::new();
    for frame in receiver.shift_window() {
        if let Some(m) = deliver_frame(&mut buffer, &frame) {
            delivered.push(m);
        }
    }
    assert_eq!(delivered, vec![message]);
    assert!(buffer.is_empty());
}

#[test]
fn delivery_appends_until_the_end_of_message() {
    let mut buffer = vec![9u8];
    let first = data_frame(1, &[1, 2]);
    assert_eq!(deliver_frame(&mut buffer, &first), None);
    assert_eq!(buffer, vec![9, 1, 2]);
    let mut last = data_frame(2, &[3]);
    last.set_control_bits(2);
    assert_eq!(deliver_frame(&mut buffer, &last), Some(vec![9, 1, 2, 3]));
    assert!(buffer.is_empty());
}

#[test]
fn sent_frames_are_due_again_once_their_timeout_passes() {
    let mut window = TransmitterWindow::new();
    window.append_to_queue(vec![1u8; 10]);
    let due = window.prepare_send(&[0]);
    assert_eq!(due, vec![0]);
    window.mark_sent(0, std::time::Instant::now());
    assert!(window.prepare_send(&[1000]).is_empty());
    assert_eq!(window.prepare_send(&[1001]), vec![0]);
    window.handle_acknowledgment(1);
    assert!(window.prepare_send(&[5000]).is_empty());
}
