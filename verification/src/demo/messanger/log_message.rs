use vstd::prelude::*;

use crate::demo::messanger::file_models::FileMetadata;

verus! {

pub type LogMessageResult = Result<LogSuccessMessage, LogErrorMessage>;

/// What the messenger shows in its log when things go as planned.
#[derive(Clone, Debug)]
pub enum LogSuccessMessage {
    UnknownMessage(String),
    MessageReceived(String),
    MessageSent(String),
    LocalSocketBindSuccess(String),
    ConnectedToRemote(String),
    FileInfoSent(FileMetadata),
    FileInfoReceived(FileMetadata),
    FileDataReceived,
    ReceivedAcknowledgement,
    FileRejected(FileMetadata),
    FileAccepted(FileMetadata),
    FileResponseSent,
    Error(String),
}

/// What the messenger shows in its log when a command fails.
#[derive(Clone)]
pub enum LogErrorMessage {
    MessageSendError(String),
    LocalSocketBindFailed(String),
    LocalSocketNotBound,
    ConnectionError(String),
    FileSendError(String),
    InvalidFileResponse(String),
}

} // verus!
