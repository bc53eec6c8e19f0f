use vstd::prelude::*;

use crate::application_layer::connection_manager::SequenceNumber;
use crate::seq_util::{
    pad_to, resized, leading_true_count, lemma_leading_true_count,
    lemma_leading_true_count_unique,
};

verus! {

/// A sliding window over sequence numbers. Slot `i` stands for the sequence number
/// `window_left_edge + i + 1`; `frame_status[i]` says whether that frame is done.
pub struct NewWindow {
    pub frame_status: Vec<bool>,
    pub window_size: u32,
    pub window_left_edge: u32,
}

/// Whether a sequence number lies in a window with this left edge and size.
pub open spec fn within_window(left_edge: u32, size: u32, sequence_number: u32) -> bool {
    sequence_number > left_edge && sequence_number < left_edge + size
}

impl Default for NewWindow {
    fn default() -> (r: Self)
        ensures
            r.frame_status@ == Seq::<bool>::empty(),
            r.window_size == u32::MAX / 2,
            r.window_left_edge == 0,
    {
        Self { frame_status: Vec::new(), window_size: u32::MAX / 2, window_left_edge: 0 }
    }
}

impl NewWindow {
    /// Whether the window's right edge fits in a sequence number.
    pub open spec fn edges_fit(&self) -> bool {
        self.window_left_edge + self.window_size <= u32::MAX
    }

    pub fn set_window_size(&mut self, size: u32)
        ensures
            final(self).window_size == size,
            final(self).window_left_edge == old(self).window_left_edge,
            final(self).frame_status@ == resized(old(self).frame_status@, size as int, false),
    {
        self.window_size = size;
        self.frame_status.resize(size as usize, false);
        assert(self.frame_status@ =~= resized(old(self).frame_status@, size as int, false));
    }

    pub fn get_window_size(&self) -> (r: u32)
        ensures
            r == self.window_size,
    {
        self.window_size
    }

    pub fn get_window_left_edge(&self) -> (r: u32)
        ensures
            r == self.window_left_edge,
    {
        self.window_left_edge
    }

    /// The slot of a sequence number, when it lies in the window.
    pub fn get_window_index(&self, sequence_number: SequenceNumber) -> (r: Option<usize>)
        requires
            self.edges_fit(),
        ensures
            r is Some <==> within_window(
                self.window_left_edge,
                self.window_size,
                sequence_number,
            ),
            r matches Some(i) ==> i == sequence_number - self.window_left_edge - 1,
    {
        match self.is_within_window(sequence_number) {
            false => None,
            true => Some((sequence_number - self.window_left_edge) as usize - 1),
        }
    }

    /// Moves the left edge past the leading run of done frames and drops their slots.
    /// Returns how many slots were dropped.
    pub fn shift_window(&mut self) -> (r: usize)
        requires
            old(self).window_left_edge + leading_true_count(old(self).frame_status@) <= u32::MAX,
        ensures
            r == leading_true_count(old(self).frame_status@),
            final(self).frame_status@ == old(self).frame_status@.skip(r as int),
            final(self).window_left_edge == old(self).window_left_edge + r,
            final(self).window_size == old(self).window_size,
    {
        let mut shift_amount = 0usize;
        while shift_amount < self.frame_status.len() && self.frame_status[shift_amount]
            invariant
                0 <= shift_amount <= self.frame_status@.len(),
                self.frame_status@ == old(self).frame_status@,
                forall|i: int| 0 <= i < shift_amount ==> #[trigger] self.frame_status@[i],
            decreases self.frame_status@.len() - shift_amount,
        {
            shift_amount += 1;
        }
        proof {
            lemma_leading_true_count_unique(self.frame_status@, shift_amount as int);
        }
        let rest = self.frame_status.split_off(shift_amount);
        self.frame_status = rest;
        self.window_left_edge += shift_amount as u32;
        assert(self.frame_status@ =~= old(self).frame_status@.skip(shift_amount as int));
        shift_amount
    }

    pub fn is_within_window(&self, sequence_number: u32) -> (r: bool)
        requires
            self.edges_fit(),
        ensures
            r == within_window(self.window_left_edge, self.window_size, sequence_number),
    {
        sequence_number > self.window_left_edge && sequence_number < self.window_left_edge
            + self.window_size
    }

    /// Whether the window's right edge fits in a sequence number.
    pub fn right_edge_fits(&self) -> (r: bool)
        ensures
            r == self.edges_fit(),
    {
        self.window_left_edge as u64 + self.window_size as u64 <= u32::MAX as u64
    }

    /// Whether shifting keeps the left edge within a sequence number.
    pub fn shift_fits(&self) -> (r: bool)
        ensures
            r == (self.window_left_edge + leading_true_count(self.frame_status@) <= u32::MAX),
    {
        let mut count: usize = 0;
        while count < self.frame_status.len() && self.frame_status[count]
            invariant
                0 <= count <= self.frame_status@.len(),
                forall|i: int| 0 <= i < count ==> #[trigger] self.frame_status@[i],
            decreases self.frame_status@.len() - count,
        {
            count += 1;
        }
        proof {
            lemma_leading_true_count_unique(self.frame_status@, count as int);
        }
        count <= (u32::MAX - self.window_left_edge) as usize
    }

    /// Marks slot `index` as done, growing the status list to reach it.
    pub fn update_frame_status(&mut self, index: usize)
        requires
            index < usize::MAX,
        ensures
            final(self).frame_status@ == pad_to(
                old(self).frame_status@,
                index + 1,
                false,
            ).update(index as int, true),
            final(self).window_size == old(self).window_size,
            final(self).window_left_edge == old(self).window_left_edge,
    {
        if index >= self.frame_status.len() {
            let new_size = index + 1;
            self.frame_status.resize(new_size, false);
        }
        assert(self.frame_status@ =~= pad_to(old(self).frame_status@, index + 1, false));
        self.frame_status.set(index, true);
    }
}

/// After a shift the window starts with a frame that is not done, so a second shift
/// moves nothing.
pub proof fn lemma_shift_is_idempotent(frame_status: Seq<bool>)
    ensures
        leading_true_count(frame_status.skip(leading_true_count(frame_status) as int)) == 0,
{
    lemma_leading_true_count(frame_status);
    let k = leading_true_count(frame_status) as int;
    let rest = frame_status.skip(k);
    if rest.len() > 0 {
        assert(rest[0] == frame_status[k]);
    }
}

/// The frames that a shift passes over are exactly the leading done ones.
pub proof fn lemma_shift_passes_done_frames(frame_status: Seq<bool>)
    ensures
        forall|i: int| 0 <= i < leading_true_count(frame_status) ==> #[trigger] frame_status[i],
        leading_true_count(frame_status) < frame_status.len() ==> !frame_status[leading_true_count(frame_status) as int],
{
    lemma_leading_true_count(frame_status);
}

/// Slots and sequence numbers of a window correspond one to one: slot `i` holds
/// `left_edge + i + 1`, for the slots `0 .. size - 1`.
pub proof fn lemma_slot_of_sequence_number(left_edge: u32, size: u32, sequence_number: u32)
    requires
        left_edge + size <= u32::MAX,
    ensures
        within_window(left_edge, size, sequence_number) <==> 0 <= sequence_number - left_edge - 1
            < size - 1,
{
}

} // verus!
