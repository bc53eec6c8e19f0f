pub mod transmitter;

use vstd::prelude::*;

use crate::constants::WINDOW_SIZE;

verus! {

/// The window of the earliest protocol version: a position and how many frames go out at once.
pub struct Window {
    pub sequence_number: usize,
    pub size: u32,
}

impl Default for Window {
    fn default() -> (r: Self)
        ensures
            r.sequence_number == 0,
            r.size == WINDOW_SIZE,
    {
        Self { sequence_number: 0, size: WINDOW_SIZE as u32 }
    }
}

} // verus!
