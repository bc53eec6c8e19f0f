use vstd::prelude::*;

use crate::application_layer::message::{Message, MessageTypeTrait};

verus! {

/// What a connector reports to the application.
#[derive(Debug)]
pub enum ConnectorEvents<TMessage: MessageTypeTrait> {
    MessageReceived(Message<TMessage>),
}

} // verus!
