use vstd::prelude::*;

verus! {

pub const BUFFER_SIZE: u32 = 1024;

/// Timeout in milliseconds, when to stop waiting for a response.
pub const TIMEOUT: usize = 1000;

/// In bytes
pub const MAX_DATA_SIZE: u32 = 128;

/// In bytes
pub const SEQ_NUM_SIZE: usize = 4;

/// In bytes
pub const ACK_NUM_SIZE: usize = 4;

/// In bytes
pub const CONTROL_BITS_SIZE: usize = 1;

/// In bytes
pub const RESERVED_SIZE: usize = 3;

/// In bytes
pub const OPTION_KIND_SIZE: usize = 1;

/// In bytes
pub const OPTION_LENGTH_SIZE: usize = 1;

/// In bytes
pub const OPTION_DATA_SIZE: usize = 4;

pub const MAX_OPTION_COUNT: usize = 2;

/// In bytes: sequence number, acknowledgment number, control bits and reserved octets.
pub const MIN_FRAME_SIZE: usize = SEQ_NUM_SIZE + ACK_NUM_SIZE + CONTROL_BITS_SIZE + RESERVED_SIZE;

/// In bytes: the header, room for the options and the largest payload.
pub const MAX_FRAME_SIZE: usize = SEQ_NUM_SIZE + ACK_NUM_SIZE + CONTROL_BITS_SIZE + RESERVED_SIZE
    + ((OPTION_KIND_SIZE + OPTION_LENGTH_SIZE + OPTION_DATA_SIZE) * MAX_OPTION_COUNT) + 128;

/// How many frames to send before waiting for an ACK
pub const WINDOW_SIZE: usize = 64;

} // verus!
