pub mod application_layer;
pub mod bytes;
pub mod checksum;
pub mod control_bits;
pub mod constants;
pub mod demo;
pub mod frame;
pub mod frame_status;
pub mod receiver;
pub mod seq_util;
pub mod transmitter;
pub mod transport_layer;
pub mod window;

use vstd::prelude::*;

verus! {

/// Adds two numbers.
pub fn add(left: usize, right: usize) -> (sum: usize)
    requires
        left + right <= usize::MAX,
    ensures
        sum == left + right,
{
    left + right
}

} // verus!
