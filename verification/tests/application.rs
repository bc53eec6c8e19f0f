use std::sync::atomic::{AtomicUsize, Ordering};
use std::sync::Arc;

use lib_rrttp::application_layer::connector::ConnectorEvents;
use lib_rrttp::application_layer::event_emitter::EventEmitter;
use lib_rrttp::application_layer::message::{Message, MessageTypeTrait};
use lib_rrttp::application_layer::message_type::MessageType;
use lib_rrttp::transport_layer::ExtractUDPData;

#[test]
fn message_becomes_type_octet_then_payload() {
    let message = Message { message_type: MessageType::ReceivedMessage, payload: vec![1, 2, 3] };
    assert_eq!(message.consume_udp_data(), vec![2, 1, 2, 3]);
}

#[test]
fn message_reads_back_from_its_datagram() {
    let message = Message { message_type: MessageType::ReadyToReceiveMessage, payload: b"hi".to_vec() };
    let datagram = message.clone().consume_udp_data();
    let read: Message<MessageType> = Message::from(datagram.as_slice());
    assert_eq!(read.message_type, MessageType::ReadyToReceiveMessage);
    assert_eq!(read.payload, b"hi".to_vec());
    let empty: Message<MessageType> = Message::from(&[0u8][..]);
    assert_eq!(empty.message_type, MessageType::SendMessage);
    assert!(empty.payload.is_empty());
}

#[test]
fn message_types_by_octet() {
    assert_eq!(MessageType::from(1), MessageType::SendFile);
    assert_eq!(MessageType::SendFile.code(), 1);
    assert_eq!(<MessageType as MessageTypeTrait>::from_byte(3), MessageType::ReadyToReceiveMessage);
    assert_eq!(MessageType::SendMessage.into_byte(), 0);
}

#[test]
fn connector_event_carries_a_message() {
    let event = ConnectorEvents::MessageReceived(Message { message_type: MessageType::SendFile, payload: vec![] });
    match event {
        ConnectorEvents::MessageReceived(m) => assert_eq!(m.message_type, MessageType::SendFile),
    }
}

#[test]
fn event_emitter_notifies_subscribers_by_key() {
    let calls = Arc::new(AtomicUsize::new(0));
    let mut emitter: EventEmitter<usize, Box<dyn Fn(&usize)>> = EventEmitter::new();
    let first = calls.clone();
    emitter.subscribe("count", Box::new(move |n: &usize| {
        first.fetch_add(*n, Ordering::SeqCst);
    }));
    emitter.notify(&2);
    assert_eq!(calls.load(Ordering::SeqCst), 2);
    // A second subscriber under the same key replaces the first.
    let second = calls.clone();
    emitter.subscribe("count", Box::new(move |n: &usize| {
        second.fetch_add(10 * *n, Ordering::SeqCst);
    }));
    emitter.notify(&1);
    assert_eq!(calls.load(Ordering::SeqCst), 12);
    let third = calls.clone();
    emitter.subscribe("other", Box::new(move |_: &usize| {
        third.fetch_add(100, Ordering::SeqCst);
    }));
    emitter.notify(&1);
    assert_eq!(calls.load(Ordering::SeqCst), 122);
    emitter.unsubscribe("count");
    emitter.unsubscribe("missing");
    emitter.notify(&1);
    assert_eq!(calls.load(Ordering::SeqCst), 222);
}
