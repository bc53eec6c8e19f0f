use lib_rrttp::application_layer::connection_manager::ConnectionEventType;
use lib_rrttp::application_layer::connector::ConnectorEvents;
use lib_rrttp::application_layer::message::Message as NetworkMessage;
use lib_rrttp::demo::messanger::connection_processor::{
    ConnectionProcessor, ConnectionProcessorErrors, MessageState, ProcessorAction,
};
use lib_rrttp::demo::messanger::file_models::{FileInfo, FileMetadata};
use lib_rrttp::demo::messanger::log_message::LogSuccessMessage;
use lib_rrttp::demo::messanger::message::{frame_message, Message, MessageParsingError};
use lib_rrttp::demo::messanger::message_type::MessageType;
use lib_rrttp::demo::messanger::log_message::LogErrorMessage;
use lib_rrttp::demo::messanger::network_file_info::NetworkFileInfo;

fn metadata() -> FileMetadata {
    FileMetadata { file_name: "a.txt".to_string(), file_mime: None, file_size_in_bytes: 3 }
}

#[test]
fn header_splits_kind_and_payload() {
    let (kind, payload) = Message::parse_header(&[2, 1, 9]).unwrap();
    assert_eq!(kind, 2);
    assert_eq!(payload, &[1, 9]);
    match Message::parse_header(&[]) {
        Err(MessageParsingError::InvalidMessageType(text)) => assert_eq!(text, "Unable to read message type"),
        _ => panic!("an empty datagram has no kind"),
    }
}

#[test]
fn payloads_read_by_kind() {
    match Message::from_payload(0, "héllo".as_bytes()) {
        Ok(Message::String(text)) => assert_eq!(text, "héllo"),
        _ => panic!("a text"),
    }
    assert!(matches!(Message::from_payload(0, &[0xff, 0xfe]), Err(MessageParsingError::InvalidMessagePayload(_))));
    assert!(matches!(Message::from_payload(2, &[1]), Ok(Message::ResponseToFileInfo { accepted: true })));
    assert!(matches!(Message::from_payload(2, &[0, 7]), Ok(Message::ResponseToFileInfo { accepted: false })));
    assert!(matches!(Message::from_payload(2, &[2]), Err(MessageParsingError::InvalidMessagePayload(_))));
    assert!(matches!(Message::from_payload(2, &[]), Err(MessageParsingError::InvalidMessagePayload(_))));
    match Message::from_payload(3, &[4, 5]) {
        Ok(Message::FileData(data)) => assert_eq!(data, vec![4, 5]),
        _ => panic!("file data"),
    }
    match Message::from_payload(4, &[]) {
        Err(MessageParsingError::InvalidMessageType(text)) => assert_eq!(text, "Unknown message type"),
        _ => panic!("an unknown kind"),
    }
}

#[test]
fn messages_encode_to_kind_and_payload() {
    let text = Message::String("ok".to_string());
    let kind = text.message_type();
    assert_eq!(frame_message(kind, &text.payload_bytes()), vec![0, b'o', b'k']);
    let answer = Message::ResponseToFileInfo { accepted: true };
    assert_eq!(frame_message(answer.message_type(), &answer.payload_bytes()), vec![2, 1]);
    let data = Message::FileData(vec![8, 9]);
    assert_eq!(frame_message(data.message_type(), &data.payload_bytes()), vec![3, 8, 9]);
    assert_eq!(Message::FileInfo(metadata()).message_type(), 1);
}

#[test]
fn messenger_message_types() {
    assert_eq!(MessageType::from(2), MessageType::FileInfo);
    assert_eq!(MessageType::FileAccepted.into(), 4);
}

fn processor(incoming: Option<FileInfo>, outgoing: Option<FileInfo>) -> ConnectionProcessor {
    ConnectionProcessor::new(MessageState { incoming_file: incoming, outgoing_file: outgoing })
}

#[test]
fn texts_and_announcements_are_logged() {
    let mut p = processor(None, None);
    match p.process_message(Message::String("hey".to_string())) {
        Ok(ProcessorAction::Log(LogSuccessMessage::MessageReceived(text))) => assert_eq!(text, "hey"),
        _ => panic!("a log line"),
    }
    match p.process_message(Message::FileInfo(metadata())) {
        Ok(ProcessorAction::Log(LogSuccessMessage::FileInfoReceived(m))) => assert_eq!(m.file_name, "a.txt"),
        _ => panic!("a log line"),
    }
    // The announced file is remembered but has no path yet.
    match p.process_message(Message::FileData(vec![1])) {
        Err(ConnectionProcessorErrors::UnableToSaveFileData(text)) => {
            assert_eq!(text, "Incoming file info does not contain file path")
        }
        _ => panic!("no path to write to"),
    }
}

#[test]
fn file_data_without_announcement_is_refused() {
    let mut p = processor(None, None);
    match p.process_message(Message::FileData(vec![1])) {
        Err(ConnectionProcessorErrors::UnableToSaveFileData(text)) => {
            assert_eq!(text, "State does not contain incoming file info")
        }
        _ => panic!("nothing announced"),
    }
}

#[test]
fn file_data_goes_to_the_announced_path() {
    let incoming = FileInfo { metadata: metadata(), src: Some("/tmp/in".to_string()) };
    let mut p = processor(Some(incoming), None);
    match p.process_message(Message::FileData(vec![1, 2])) {
        Ok(ProcessorAction::WriteFile { path, data, log }) => {
            assert_eq!(path, "/tmp/in");
            assert_eq!(data, vec![1, 2]);
            assert!(matches!(log, LogSuccessMessage::FileDataReceived));
        }
        _ => panic!("a file to write"),
    }
}

#[test]
fn answers_about_offered_files() {
    let mut p = processor(None, None);
    assert!(matches!(
        p.process_message(Message::ResponseToFileInfo { accepted: true }),
        Err(ConnectionProcessorErrors::GotResponseToUnknownFile)
    ));
    let mut p = processor(None, Some(FileInfo { metadata: metadata(), src: None }));
    assert!(matches!(
        p.process_message(Message::ResponseToFileInfo { accepted: true }),
        Err(ConnectionProcessorErrors::NoFileToSend)
    ));
    let mut p = processor(None, Some(FileInfo { metadata: metadata(), src: Some("/tmp/out".to_string()) }));
    match p.process_message(Message::ResponseToFileInfo { accepted: false }) {
        Ok(ProcessorAction::SendFile { src, log: LogSuccessMessage::FileRejected(m) }) => {
            assert_eq!(src, "/tmp/out");
            assert_eq!(m.file_size_in_bytes, 3);
        }
        _ => panic!("a file to send"),
    }
    match p.process_message(Message::ResponseToFileInfo { accepted: true }) {
        Ok(ProcessorAction::SendFile { log: LogSuccessMessage::FileAccepted(_), .. }) => {}
        _ => panic!("a file to send"),
    }
}

#[test]
fn only_complete_messages_need_processing() {
    let p = processor(None, None);
    assert_eq!(p.process_connection_event(ConnectionEventType::ReceivedCompleteMessage(vec![3, 1])), Some(vec![3, 1]));
    assert_eq!(p.process_connection_event(ConnectionEventType::SentMessage), None);
}

#[test]
fn connector_events_become_log_lines() {
    let text = ConnectorEvents::MessageReceived(NetworkMessage { message_type: MessageType::Message, payload: b"yo".to_vec() });
    match LogSuccessMessage::from_connector_event(text) {
        Ok(LogSuccessMessage::MessageReceived(t)) => assert_eq!(t, "yo"),
        _ => panic!("a text"),
    }
    let bad = ConnectorEvents::MessageReceived(NetworkMessage { message_type: MessageType::Message, payload: vec![0xc3] });
    match LogSuccessMessage::from_connector_event(bad) {
        Ok(LogSuccessMessage::MessageReceived(t)) => assert!(!t.is_empty()),
        _ => panic!("the reason"),
    }
    let ack = ConnectorEvents::MessageReceived(NetworkMessage { message_type: MessageType::Acknowledgement, payload: vec![] });
    assert!(matches!(LogSuccessMessage::from_connector_event(ack), Ok(LogSuccessMessage::ReceivedAcknowledgement)));
    let info = ConnectorEvents::MessageReceived(NetworkMessage { message_type: MessageType::FileInfo, payload: vec![6] });
    assert_eq!(LogSuccessMessage::from_connector_event(info).err(), Some(vec![6]));
}

#[test]
fn offered_and_accepted_files_are_remembered() {
    let mut p = processor(None, None);
    // No file announced: the path has nowhere to go.
    p.set_incoming_file_path("/tmp/in".to_string());
    assert!(matches!(
        p.process_message(Message::FileData(vec![1])),
        Err(ConnectionProcessorErrors::UnableToSaveFileData(_))
    ));
    p.set_outgoing_file(FileInfo { metadata: metadata(), src: Some("/tmp/out".to_string()) });
    match p.process_message(Message::ResponseToFileInfo { accepted: true }) {
        Ok(ProcessorAction::SendFile { src, .. }) => assert_eq!(src, "/tmp/out"),
        _ => panic!("the offered file is sent"),
    }
    let _ = p.process_message(Message::FileInfo(metadata()));
    p.set_incoming_file_path("/tmp/in".to_string());
    match p.process_message(Message::FileData(vec![7])) {
        Ok(ProcessorAction::WriteFile { path, data, .. }) => {
            assert_eq!(path, "/tmp/in");
            assert_eq!(data, vec![7]);
        }
        _ => panic!("the accepted file is written"),
    }
}

#[test]
fn files_are_described_by_name_contents_and_size() {
    let png = [0x89u8, 0x50, 0x4e, 0x47, 0x0d, 0x0a, 0x1a, 0x0a, 0, 0];
    match NetworkFileInfo::from_contents(Some("a.png".to_string()), &png) {
        Ok(info) => {
            assert_eq!(info.file_name, "a.png");
            assert_eq!(info.file_mime.as_deref(), Some("image/png"));
            assert_eq!(info.file_size_in_bytes, 10);
        }
        Err(_) => panic!("a named file is described"),
    }
    match NetworkFileInfo::from_contents(Some("notes".to_string()), b"plain words") {
        Ok(info) => assert_eq!(info.file_mime, None),
        Err(_) => panic!("a named file is described"),
    }
    match NetworkFileInfo::from_contents(None, &png) {
        Err(LogErrorMessage::FileSendError(text)) => assert_eq!(text, "Unable to read filename"),
        _ => panic!("no name, no description"),
    }
    match NetworkFileInfo::describe("/tmp/pictures/b.png", &png) {
        Ok(info) => {
            assert_eq!(info.file_name, "b.png");
            assert_eq!(info.file_mime.as_deref(), Some("image/png"));
        }
        Err(_) => panic!("the path names a file"),
    }
    assert!(NetworkFileInfo::describe("/", &png).is_err());
    match NetworkFileInfo::describe("c.png", &png) {
        Ok(info) => assert_eq!(info.file_name, "c.png"),
        Err(_) => panic!("a plain name names itself"),
    }
    assert!(NetworkFileInfo::describe("..", &png).is_err());
}
