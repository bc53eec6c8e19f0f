use vstd::prelude::*;

use crate::bytes::{splice, u32_be_bytes};
use crate::constants::MAX_DATA_SIZE;
use crate::frame::{Frame, frame_with_data, ACKNOWLEDGMENT_NUMBER_OCTET, CONTROL_BITS_OCTET};
use crate::transmitter::zero_frame_legacy;
use crate::window::Window;

verus! {

/// The sending side of the earliest protocol version: it sends a window of segments from
/// the highest acknowledged one on.
pub struct Transmitter {
    pub window: Window,
    /// The highest sequence number that has been acknowledged.
    /// Also marks the beginning of the window.
    pub highest_acknowledged: u32,
}

/// The data of segment `sequence_number` (counted from 0): at most `MAX_DATA_SIZE` octets.
pub open spec fn window_segment(data: Seq<u8>, sequence_number: u32) -> Seq<u8> {
    let lo = sequence_number * MAX_DATA_SIZE;
    let hi = if lo + MAX_DATA_SIZE <= data.len() {
        lo + MAX_DATA_SIZE
    } else {
        data.len() as int
    };
    data.subrange(lo, hi)
}

/// The buffer of the frame that carries segment `sequence_number` of `data`.
pub open spec fn window_segment_frame_bytes(data: Seq<u8>, sequence_number: u32) -> Seq<u8> {
    let numbered = splice(
        splice(zero_frame_legacy(), 0, u32_be_bytes(sequence_number)),
        ACKNOWLEDGMENT_NUMBER_OCTET as int,
        u32_be_bytes(0),
    );
    frame_with_data(
        numbered.update(CONTROL_BITS_OCTET as int, 0u8),
        0,
        window_segment(data, sequence_number),
    )
}

/// How many segments of `segments` a window of `size` from `first` on covers.
pub open spec fn window_frame_count(first: u32, size: u32, segments: u32) -> int {
    if first >= segments {
        0
    } else if segments - first < size {
        segments - first
    } else {
        size as int
    }
}

impl Transmitter {
    pub fn new() -> (r: Self)
        ensures
            r.window.sequence_number == 0,
            r.window.size == crate::constants::WINDOW_SIZE,
            r.highest_acknowledged == 0,
    {
        Self { window: Window::default(), highest_acknowledged: 0 }
    }

    /// The frames of the segments in the window, in order: segment `highest_acknowledged + i`
    /// for each slot `i` of the window, up to the last of the `segments` segments.
    pub fn window_frames(&self, data_buffer: &[u8], segments: u32) -> (r: Vec<Frame>)
        requires
            data_buffer@.len() <= u32::MAX,
            self.highest_acknowledged + self.window.size <= u32::MAX,
            segments > 0 ==> (segments - 1) * MAX_DATA_SIZE < data_buffer@.len(),
        ensures
            r@.len() == window_frame_count(self.highest_acknowledged, self.window.size, segments),
            forall|i: int|
                0 <= i < r@.len() ==> (#[trigger] r@[i]).bytes() == window_segment_frame_bytes(
                    data_buffer@,
                    (self.highest_acknowledged + i) as u32,
                ),
    {
        let mut frames: Vec<Frame> = Vec::new();
        let mut i: u32 = 0;
        while i < self.window.size
            invariant
                data_buffer@.len() <= u32::MAX,
                self.highest_acknowledged + self.window.size <= u32::MAX,
                segments > 0 ==> (segments - 1) * MAX_DATA_SIZE < data_buffer@.len(),
                0 <= i <= self.window.size,
                frames@.len() == i,
                self.highest_acknowledged + i <= segments || i == 0,
                forall|j: int|
                    0 <= j < frames@.len() ==> (#[trigger] frames@[j]).bytes() == window_segment_frame_bytes(
                        data_buffer@,
                        (self.highest_acknowledged + j) as u32,
                    ),
            ensures
                frames@.len() == window_frame_count(self.highest_acknowledged, self.window.size, segments),
                forall|j: int|
                    0 <= j < frames@.len() ==> (#[trigger] frames@[j]).bytes() == window_segment_frame_bytes(
                        data_buffer@,
                        (self.highest_acknowledged + j) as u32,
                    ),
            decreases self.window.size - i,
        {
            let sequence_number = self.highest_acknowledged + i;
            if sequence_number >= segments {
                break;
            }
            let mut frame = Frame::default();
            frame.set_sequence_number(sequence_number);
            frame.set_acknowledgment_number(0);
            frame.set_control_bits(0);
            let buffer_shift = sequence_number as usize * MAX_DATA_SIZE as usize;
            let buffer_left = data_buffer.len() - buffer_shift;
            let data_upper_bound = buffer_shift + if buffer_left < MAX_DATA_SIZE as usize {
                buffer_left
            } else {
                MAX_DATA_SIZE as usize
            };
            let data_segment = crate::bytes::subslice(data_buffer, buffer_shift, data_upper_bound);
            assert(data_segment@ == window_segment(data_buffer@, sequence_number));
            frame.set_data(data_segment);
            frames.push(frame);
            i += 1;
        }
        frames
    }
}

/// A window sends as many segments as it holds, or as remain from its first one when fewer
/// do: the count never exceeds the window's size nor the segments left, and it falls short
/// of the size only when no segment is left after the ones sent.
pub proof fn lemma_window_frame_count(first: u32, size: u32, segments: u32)
    ensures
        0 <= window_frame_count(first, size, segments) <= size,
        first < segments ==> first + window_frame_count(first, size, segments) <= segments,
        first >= segments ==> window_frame_count(first, size, segments) == 0,
        window_frame_count(first, size, segments) == size || first + window_frame_count(first, size, segments)
            >= segments,
{
}

} // verus!
