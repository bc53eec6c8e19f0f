use vstd::prelude::*;

use vstd::utf8::{valid_utf8, decode_utf8};

use crate::demo::messanger::message::string_from_utf8;

verus! {

/// What the message subscription hands to the user interface.
#[derive(Debug, Clone)]
pub enum Event {
    MessageReceived(String),
}

impl Event {
    /// The event for a message that arrived: its octets read as UTF-8 text.
    pub fn message_received(message: Vec<u8>) -> (r: Event)
        requires
            valid_utf8(message@),
        ensures
            r matches Event::MessageReceived(text) && text@ == decode_utf8(message@),
    {
        match string_from_utf8(message) {
            Ok(text) => Event::MessageReceived(text),
            Err(_) => {
                proof {
                    assert(false);
                }
                Event::MessageReceived(String::new())
            },
        }
    }
}

} // verus!
