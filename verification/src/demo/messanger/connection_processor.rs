use vstd::prelude::*;

use crate::application_layer::connection_manager::ConnectionEventType;
use crate::demo::messanger::file_models::{FileInfo, FileMetadata};
use crate::demo::messanger::log_message::LogSuccessMessage;
use crate::demo::messanger::message::Message;

verus! {

/// What the messenger knows of the files on their way in and out.
pub struct MessageState {
    pub incoming_file: Option<FileInfo>,
    pub outgoing_file: Option<FileInfo>,
}

/// Why a received message cannot be acted on.
#[derive(Debug)]
pub enum ConnectionProcessorErrors {
    GotResponseToUnknownFile,
    NoFileToSend,
    UnableToSaveFileData(String),
}

/// What the messenger does about a received message.
pub enum ProcessorAction {
    /// Show this in the log.
    Log(LogSuccessMessage),
    /// Read the file at `src`, send it as file data, then show `log`.
    SendFile { src: String, log: LogSuccessMessage },
    /// Write `data` to the file at `path`, then show `log`.
    WriteFile { path: String, data: Vec<u8>, log: LogSuccessMessage },
}

/// Decides what to do about the messages of a connection, keeping track of the files.
pub struct ConnectionProcessor {
    message_state: MessageState,
}

impl ConnectionProcessor {
    /// The files the processor knows of.
    pub closed spec fn state(&self) -> MessageState {
        self.message_state
    }

    pub fn new(message_state: MessageState) -> (r: Self)
        ensures
            r.state() == message_state,
    {
        ConnectionProcessor { message_state }
    }

    /// Remembers the file offered to the other side, with where it lives on this side.
    pub fn set_outgoing_file(&mut self, file: FileInfo)
        ensures
            final(self).state().outgoing_file == Some(file),
            final(self).state().incoming_file == old(self).state().incoming_file,
    {
        self.message_state.outgoing_file = Some(file);
    }

    /// Remembers where the announced incoming file is to be written; with no file announced,
    /// nothing changes.
    pub fn set_incoming_file_path(&mut self, path: String)
        ensures
            final(self).state().outgoing_file == old(self).state().outgoing_file,
            final(self).state().incoming_file == (match old(self).state().incoming_file {
                Some(f) => Some(FileInfo { metadata: f.metadata, src: Some(path) }),
                None => None,
            }),
    {
        match &self.message_state.incoming_file {
            Some(f) => {
                let metadata = f.metadata.clone();
                self.message_state.incoming_file = Some(FileInfo { metadata, src: Some(path) });
            },
            None => {},
        }
    }

    /// The complete message that an event delivers, if it delivers one; other events need
    /// nothing done.
    pub fn process_connection_event(&self, event: ConnectionEventType) -> (r: Option<Vec<u8>>)
        ensures
            match event {
                ConnectionEventType::ReceivedCompleteMessage(message) => r == Some(message),
                _ => r is None,
            },
    {
        match event {
            ConnectionEventType::ReceivedFrame(_) => None,
            ConnectionEventType::ReceivedCompleteMessage(message) => Some(message),
            ConnectionEventType::SentMessage => None,
            ConnectionEventType::SentFrame(_) => None,
            ConnectionEventType::ReceivedAck(_) => None,
            ConnectionEventType::SentAck(_) => None,
        }
    }

    /// Decides what to do about a message: log a text, remember an announced file, send the
    /// file the other side answered about, or save the file data that arrived.
    pub fn process_message(&mut self, message: Message) -> (r: Result<ProcessorAction, ConnectionProcessorErrors>)
        ensures
            match message {
                Message::String(payload) => {
                    &&& r matches Ok(ProcessorAction::Log(LogSuccessMessage::MessageReceived(p))) && p == payload
                    &&& final(self).state() == old(self).state()
                },
                Message::FileInfo(file_info) => {
                    &&& r matches Ok(ProcessorAction::Log(LogSuccessMessage::FileInfoReceived(m))) && m == file_info
                    &&& final(self).state().incoming_file == Some(FileInfo { metadata: file_info, src: None })
                    &&& final(self).state().outgoing_file == old(self).state().outgoing_file
                },
                Message::ResponseToFileInfo { accepted } => {
                    &&& final(self).state() == old(self).state()
                    &&& match old(self).state().outgoing_file {
                        None => r matches Err(ConnectionProcessorErrors::GotResponseToUnknownFile),
                        Some(outgoing) => match outgoing.src {
                            None => r matches Err(ConnectionProcessorErrors::NoFileToSend),
                            Some(src) => r matches Ok(ProcessorAction::SendFile { src: s, log }) && s == src
                                && if accepted {
                                log == LogSuccessMessage::FileAccepted(outgoing.metadata)
                            } else {
                                log == LogSuccessMessage::FileRejected(outgoing.metadata)
                            },
                        },
                    }
                },
                Message::FileData(file_data) => {
                    &&& final(self).state() == old(self).state()
                    &&& match old(self).state().incoming_file {
                        None => r matches Err(ConnectionProcessorErrors::UnableToSaveFileData(text))
                            && text@ == "State does not contain incoming file info"@,
                        Some(incoming) => match incoming.src {
                            None => r matches Err(ConnectionProcessorErrors::UnableToSaveFileData(text))
                                && text@ == "Incoming file info does not contain file path"@,
                            Some(path) => r matches Ok(ProcessorAction::WriteFile { path: p, data, log })
                                && p == path && data == file_data && log is FileDataReceived,
                        },
                    }
                },
            },
    {
        match message {
            Message::String(payload) => Ok(ProcessorAction::Log(LogSuccessMessage::MessageReceived(payload))),
            Message::FileInfo(file_info) => {
                self.message_state.incoming_file = Some(FileInfo { metadata: file_info.clone(), src: None });
                Ok(ProcessorAction::Log(LogSuccessMessage::FileInfoReceived(file_info)))
            },
            Message::ResponseToFileInfo { accepted } => {
                let outgoing_file = match &self.message_state.outgoing_file {
                    Some(f) => f.clone(),
                    None => {
                        return Err(ConnectionProcessorErrors::GotResponseToUnknownFile);
                    },
                };
                let log_message = match accepted {
                    true => LogSuccessMessage::FileAccepted(outgoing_file.metadata.clone()),
                    false => LogSuccessMessage::FileRejected(outgoing_file.metadata.clone()),
                };
                let file_src = match outgoing_file.src {
                    Some(src) => src,
                    None => {
                        return Err(ConnectionProcessorErrors::NoFileToSend);
                    },
                };
                Ok(ProcessorAction::SendFile { src: file_src, log: log_message })
            },
            Message::FileData(file_data) => {
                let incoming_file = match &self.message_state.incoming_file {
                    Some(f) => f.clone(),
                    None => {
                        return Err(
                            ConnectionProcessorErrors::UnableToSaveFileData(
                                "State does not contain incoming file info".to_string(),
                            ),
                        );
                    },
                };
                let file_path = match incoming_file.src {
                    Some(src) => src,
                    None => {
                        return Err(
                            ConnectionProcessorErrors::UnableToSaveFileData(
                                "Incoming file info does not contain file path".to_string(),
                            ),
                        );
                    },
                };
                Ok(ProcessorAction::WriteFile { path: file_path, data: file_data, log: LogSuccessMessage::FileDataReceived })
            },
        }
    }
}

} // verus!
