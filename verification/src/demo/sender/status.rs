use vstd::prelude::*;

verus! {

/// Whether the sender is connected to a remote address.
#[derive(Default, Clone, Copy, PartialEq, Eq, Structural)]
pub enum ConnectionStatus {
    #[default]
    Disconnected,
    Connected,
}

/// Whether the sender's local socket is bound.
#[derive(Default, Clone, Copy, PartialEq, Eq, Structural, PartialOrd)]
pub enum LocalSocketStatus {
    #[default]
    Stopped,
    Started,
}

} // verus!
