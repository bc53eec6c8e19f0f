use vstd::prelude::*;

use vstd::utf8::{valid_utf8, decode_utf8};

use crate::application_layer::connector::ConnectorEvents;
use crate::demo::messanger::log_message::LogSuccessMessage;
use crate::demo::messanger::message::string_from_utf8;
use crate::demo::messanger::message_type::MessageType;

verus! {

impl LogSuccessMessage {
    /// The log line for a message from a connector: a text (or the reason it is not one), an
    /// acknowledgement, or, as `Err`, the payload of a file announcement, which is read by its
    /// serde form. Rejections and acceptances are not messages a connector reports.
    pub fn from_connector_event(event: ConnectorEvents<MessageType>) -> (r: Result<LogSuccessMessage, Vec<u8>>)
        requires
            match event {
                ConnectorEvents::MessageReceived(m) => !(m.message_type is FileRejected) && !(
                m.message_type is FileAccepted),
            },
        ensures
            match event {
                ConnectorEvents::MessageReceived(m) => match m.message_type {
                    MessageType::Message => r matches Ok(LogSuccessMessage::MessageReceived(text))
                        && (valid_utf8(m.payload@) ==> text@ == decode_utf8(m.payload@)),
                    MessageType::Acknowledgement => r matches Ok(LogSuccessMessage::ReceivedAcknowledgement),
                    _ => r == Err::<LogSuccessMessage, Vec<u8>>(m.payload),
                },
            },
    {
        match event {
            ConnectorEvents::MessageReceived(message) => match message.message_type {
                MessageType::Message => {
                    let network_message = match string_from_utf8(message.payload) {
                        Ok(text) => text,
                        Err(e) => e.to_string(),
                    };
                    Ok(LogSuccessMessage::MessageReceived(network_message))
                },
                MessageType::Acknowledgement => Ok(LogSuccessMessage::ReceivedAcknowledgement),
                _ => Err(message.payload),
            },
        }
    }
}

} // verus!
