pub mod connection_manager;
pub mod constants;
pub mod control_bits;
pub mod frame;
pub mod frame_status;
pub mod option;
pub mod receiver_window;
pub mod receiving_window_manager;
pub mod transmitter_window;
pub mod window;
pub mod window_manager;

use vstd::prelude::*;

verus! {

/// A value that becomes the bytes of one datagram.
pub trait ExtractUDPData: Sized {
    fn consume_udp_data(self) -> Vec<u8>;
}

} // verus!
