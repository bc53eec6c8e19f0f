use lib_rrttp::demo::sender::message_subscriber::Event;
use lib_rrttp::demo::sender::rrtp_application::{Message, SenderAction, RRTPApplication};
use lib_rrttp::demo::sender::status::{ConnectionStatus, LocalSocketStatus};

#[test]
fn edits_are_stored_and_requests_carry_them() {
    let mut state = RRTPApplication::new();
    assert_eq!(state.update(Message::LocalAddressChanged("127.0.0.1:1".to_string())), SenderAction::Nothing);
    assert_eq!(state.update(Message::RemoteAddressChanged("127.0.0.1:2".to_string())), SenderAction::Nothing);
    assert_eq!(state.update(Message::OnMessageChanged("hi".to_string())), SenderAction::Nothing);
    assert_eq!(state.update(Message::StartLocalSocket), SenderAction::BindLocalSocket("127.0.0.1:1".to_string()));
    assert_eq!(state.update(Message::Connect), SenderAction::Connect("127.0.0.1:2".to_string()));
    assert_eq!(state.update(Message::SendMessage), SenderAction::Send("hi".to_string()));
    assert_eq!(state.update(Message::Disconnect), SenderAction::Nothing);
    assert_eq!(state.update(Message::StopLocalSocket), SenderAction::Nothing);
    assert_eq!(state.local_address, "127.0.0.1:1");
}

#[test]
fn only_successful_socket_work_changes_the_status() {
    let mut state = RRTPApplication::new();
    state.complete(&SenderAction::Connect("x".to_string()), false);
    assert!(state.connection_status == ConnectionStatus::Disconnected);
    state.complete(&SenderAction::Send("x".to_string()), true);
    assert!(state.connection_status == ConnectionStatus::Disconnected);
    assert!(state.local_socket_status == LocalSocketStatus::Stopped);
    state.complete(&SenderAction::BindLocalSocket("x".to_string()), true);
    assert!(state.local_socket_status == LocalSocketStatus::Started);
    state.complete(&SenderAction::Connect("x".to_string()), true);
    assert!(state.connection_status == ConnectionStatus::Connected);
}

#[test]
fn received_messages_become_text_events() {
    match Event::message_received("hé".as_bytes().to_vec()) {
        Event::MessageReceived(text) => assert_eq!(text, "hé"),
    }
}
