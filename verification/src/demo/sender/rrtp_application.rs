use vstd::prelude::*;

use crate::demo::sender::status::{ConnectionStatus, LocalSocketStatus};

verus! {

/// What the user interface of the sender asks for.
#[derive(Debug, Clone)]
pub enum Message {
    LocalAddressChanged(String),
    RemoteAddressChanged(String),
    OnMessageChanged(String),
    SendMessage,
    StartLocalSocket,
    StopLocalSocket,
    Connect,
    Disconnect,
}

/// The socket work that a user request asks the sender to perform.
#[derive(Debug, Clone, PartialEq, Eq)]
pub enum SenderAction {
    /// Nothing to do beyond the change of state.
    Nothing,
    /// Connect the window to this remote address.
    Connect(String),
    /// Bind the local socket to this address.
    BindLocalSocket(String),
    /// Send the bytes of this text.
    Send(String),
}

/// The sender's user interface: what it keeps between requests, without its window and log.
pub struct RRTPApplication {
    pub local_address: String,
    pub remote_address: String,
    pub message_to_send: String,
    pub local_socket_status: LocalSocketStatus,
    pub connection_status: ConnectionStatus,
}

impl RRTPApplication {
    /// Empty addresses and message, no socket bound and no connection.
    pub fn new() -> (s: Self)
        ensures
            s.local_address@ == Seq::<char>::empty(),
            s.remote_address@ == Seq::<char>::empty(),
            s.message_to_send@ == Seq::<char>::empty(),
            s.local_socket_status == LocalSocketStatus::Stopped,
            s.connection_status == ConnectionStatus::Disconnected,
    {
        RRTPApplication {
            local_address: String::new(),
            remote_address: String::new(),
            message_to_send: String::new(),
            local_socket_status: LocalSocketStatus::Stopped,
            connection_status: ConnectionStatus::Disconnected,
        }
    }

    /// Applies one user request: an edit of a text field is stored, a request for socket
    /// work is answered with the action to perform, with the address or text it needs;
    /// stopping the socket and disconnecting do nothing.
    pub fn update(&mut self, message: Message) -> (action: SenderAction)
        ensures
            final(self).local_socket_status == old(self).local_socket_status,
            final(self).connection_status == old(self).connection_status,
            final(self).local_address == (match message {
                Message::LocalAddressChanged(v) => v,
                _ => old(self).local_address,
            }),
            final(self).remote_address == (match message {
                Message::RemoteAddressChanged(v) => v,
                _ => old(self).remote_address,
            }),
            final(self).message_to_send == (match message {
                Message::OnMessageChanged(v) => v,
                _ => old(self).message_to_send,
            }),
            action == (match message {
                Message::Connect => SenderAction::Connect(old(self).remote_address),
                Message::StartLocalSocket => SenderAction::BindLocalSocket(old(self).local_address),
                Message::SendMessage => SenderAction::Send(old(self).message_to_send),
                _ => SenderAction::Nothing,
            }),
    {
        match message {
            Message::Connect => SenderAction::Connect(self.remote_address.clone()),
            Message::Disconnect => SenderAction::Nothing,
            Message::LocalAddressChanged(value) => {
                self.local_address = value;
                SenderAction::Nothing
            },
            Message::RemoteAddressChanged(value) => {
                self.remote_address = value;
                SenderAction::Nothing
            },
            Message::StopLocalSocket => SenderAction::Nothing,
            Message::StartLocalSocket => SenderAction::BindLocalSocket(self.local_address.clone()),
            Message::OnMessageChanged(value) => {
                self.message_to_send = value;
                SenderAction::Nothing
            },
            Message::SendMessage => SenderAction::Send(self.message_to_send.clone()),
        }
    }

    /// Records the outcome of an action: a connection that succeeded marks the sender
    /// connected, a bind that succeeded marks the local socket started; a failure, a send
    /// and no action change nothing.
    pub fn complete(&mut self, action: &SenderAction, succeeded: bool)
        ensures
            final(self).local_address == old(self).local_address,
            final(self).remote_address == old(self).remote_address,
            final(self).message_to_send == old(self).message_to_send,
            final(self).connection_status == (if succeeded && action is Connect {
                ConnectionStatus::Connected
            } else {
                old(self).connection_status
            }),
            final(self).local_socket_status == (if succeeded && action is BindLocalSocket {
                LocalSocketStatus::Started
            } else {
                old(self).local_socket_status
            }),
    {
        if succeeded {
            match action {
                SenderAction::Connect(_) => {
                    self.connection_status = ConnectionStatus::Connected;
                },
                SenderAction::BindLocalSocket(_) => {
                    self.local_socket_status = LocalSocketStatus::Started;
                },
                _ => {},
            }
        }
    }
}

} // verus!
