use vstd::prelude::*;

use std::time::Instant;

use crate::application_layer::connection_manager::SequenceNumber;
use crate::bytes::{splice, u32_be_bytes};
use crate::seq_util::{pad_to, resized, leading_true_count, lemma_leading_true_count};
use crate::transport_layer::constants::{MAX_DATA_SIZE, MAX_FRAME_SIZE};
use crate::transport_layer::control_bits::{ControlBits, EOM_BIT};
use crate::transport_layer::frame::{Frame, frame_with_data, CONTROL_BITS_OCTET};
use crate::transport_layer::frame_status::{FrameStatus, due_after};
use crate::transport_layer::window::{NewWindow, within_window};
use crate::transport_layer::receiver_window::{assemble, ends_message};

verus! {

/// A frame waiting in the sending queue, with where it stands.
pub struct QueueFrame {
    pub frame: Frame,
    pub status: FrameStatus,
}

/// The sending side of a sliding window: the queue of frames to send, slot `i` standing for
/// the sequence number `window_left_edge + i + 1`.
pub struct TransmitterWindow {
    inner_window: NewWindow,
    data_queue: Vec<Option<QueueFrame>>,
}

/// How many frames a message of `len` octets takes.
pub open spec fn fragment_count(len: nat) -> nat {
    ((len + MAX_DATA_SIZE - 1) / MAX_DATA_SIZE as int) as nat
}

/// The data of fragment `i` of a message: at most `MAX_DATA_SIZE` octets from `i * MAX_DATA_SIZE`.
pub open spec fn fragment(data: Seq<u8>, i: int) -> Seq<u8> {
    let lo = i * MAX_DATA_SIZE;
    let hi = if lo + MAX_DATA_SIZE <= data.len() {
        lo + MAX_DATA_SIZE
    } else {
        data.len() as int
    };
    data.subrange(lo, hi)
}

/// A buffer of zeros, as a new frame holds.
pub open spec fn zero_frame() -> Seq<u8> {
    Seq::new(MAX_FRAME_SIZE as nat, |i: int| 0u8)
}

/// The buffer of the frame that carries fragment `i` of a message: the fragment as data, and
/// the end-of-message bit on the last fragment.
pub open spec fn fragment_frame_bytes(data: Seq<u8>, i: int) -> Seq<u8> {
    let b = frame_with_data(zero_frame(), 0, fragment(data, i));
    if i == fragment_count(data.len()) - 1 {
        b.update(CONTROL_BITS_OCTET as int, EOM_BIT)
    } else {
        b
    }
}

/// Whether a queue entry is the frame of fragment `i` of `data`, not sent yet.
pub open spec fn is_fragment_entry(entry: Option<QueueFrame>, data: Seq<u8>, i: int) -> bool {
    &&& entry is Some
    &&& entry->0.frame.bytes() == fragment_frame_bytes(data, i)
    &&& entry->0.frame.options_size() == 0
    &&& entry->0.frame.data_size() == fragment(data, i).len()
    &&& entry->0.status is NotSent
}

/// The same queue entry with another status.
pub open spec fn with_status(entry: Option<QueueFrame>, status: FrameStatus) -> Option<QueueFrame> {
    Some(QueueFrame { frame: entry->0.frame, status })
}

/// What `handle_acknowledgment` makes of a window: the acknowledged frame's slot is marked,
/// when the number lies in the window and the slot holds a frame; nothing changes otherwise.
pub open spec fn acknowledges(pre: TransmitterWindow, post: TransmitterWindow, acknowledgment_number: u32) -> bool {
    let index = acknowledgment_number - pre.window().window_left_edge - 1;
    &&& post.well_formed()
    &&& post.window().window_left_edge == pre.window().window_left_edge
    &&& post.window().window_size == pre.window().window_size
    &&& if within_window(pre.window().window_left_edge, pre.window().window_size, acknowledgment_number)
        && index < pre.queue().len() && pre.queue()[index] is Some {
        &&& post.queue() == pre.queue().update(
            index,
            with_status(pre.queue()[index], FrameStatus::Acknowledged),
        )
        &&& post.window().frame_status@ == pad_to(pre.window().frame_status@, index + 1, false).update(
            index,
            true,
        )
    } else {
        &&& post.queue() == pre.queue()
        &&& post.window().frame_status@ == pre.window().frame_status@
    }
}

impl Default for TransmitterWindow {
    fn default() -> (r: Self)
        ensures
            r.well_formed(),
            r.queue() == Seq::<Option<QueueFrame>>::empty(),
            r.window().frame_status@ == Seq::<bool>::empty(),
            r.window().window_size == u32::MAX / 2,
            r.window().window_left_edge == 0,
    {
        TransmitterWindow::new()
    }
}

impl TransmitterWindow {
    /// The window over the sequence numbers.
    pub closed spec fn window(&self) -> NewWindow {
        self.inner_window
    }

    /// The queue: the frame of each slot, if any, with where it stands.
    pub closed spec fn queue(&self) -> Seq<Option<QueueFrame>> {
        self.data_queue@
    }

    /// A slot marked done in the window holds a frame that was acknowledged.
    pub closed spec fn well_formed(&self) -> bool {
        forall|i: int|
            0 <= i < self.inner_window.frame_status@.len() && #[trigger] self.inner_window.frame_status@[i]
                ==> i < self.data_queue@.len() && self.data_queue@[i] is Some
                && self.data_queue@[i]->0.status is Acknowledged
    }

    pub fn new() -> (r: Self)
        ensures
            r.well_formed(),
            r.queue() == Seq::<Option<QueueFrame>>::empty(),
            r.window().frame_status@ == Seq::<bool>::empty(),
            r.window().window_size == u32::MAX / 2,
            r.window().window_left_edge == 0,
    {
        Self { inner_window: NewWindow::default(), data_queue: Vec::new() }
    }

    /// Whether the window's right edge fits in a sequence number.
    pub fn right_edge_fits(&self) -> (r: bool)
        ensures
            r == self.window().edges_fit(),
    {
        self.inner_window.right_edge_fits()
    }

    /// Whether shifting keeps the left edge within a sequence number.
    pub fn shift_fits(&self) -> (r: bool)
        ensures
            r == (self.window().window_left_edge + leading_true_count(self.window().frame_status@)
                <= u32::MAX),
    {
        self.inner_window.shift_fits()
    }

    pub fn set_window_size(&mut self, size: u32)
        requires
            old(self).well_formed(),
        ensures
            final(self).well_formed(),
            final(self).queue() == old(self).queue(),
            final(self).window().window_size == size,
            final(self).window().window_left_edge == old(self).window().window_left_edge,
            final(self).window().frame_status@ == resized(
                old(self).window().frame_status@,
                size as int,
                false,
            ),
    {
        self.inner_window.set_window_size(size);
        assert forall|i: int|
            0 <= i < self.inner_window.frame_status@.len() && #[trigger] self.inner_window.frame_status@[i]
            implies i < self.data_queue@.len() && self.data_queue@[i] is Some
                && self.data_queue@[i]->0.status is Acknowledged by {
            assert(old(self).inner_window.frame_status@[i]);
        }
    }

    pub fn get_window_size(&self) -> (r: u32)
        ensures
            r == self.window().window_size,
    {
        self.inner_window.get_window_size()
    }

    pub fn get_window_left_edge(&self) -> (r: u32)
        ensures
            r == self.window().window_left_edge,
    {
        self.inner_window.get_window_left_edge()
    }

    /// Marks the frame of an acknowledged sequence number, when it lies in the window and
    /// its slot holds a frame.
    pub fn handle_acknowledgment(&mut self, acknowledgment_number: SequenceNumber)
        requires
            old(self).well_formed(),
            old(self).window().edges_fit(),
        ensures
            acknowledges(*old(self), *final(self), acknowledgment_number),
    {
        if let Some(index) = self.inner_window.get_window_index(acknowledgment_number) {
            if index < self.data_queue.len() {
                let is_queued = self.data_queue[index].is_some();
                if is_queued {
                    match &mut self.data_queue[index] {
                        Some(frame_from_queue) => {
                            frame_from_queue.status = FrameStatus::Acknowledged;
                        },
                        None => {},
                    }
                    assert(self.data_queue@ =~= old(self).data_queue@.update(
                        index as int,
                        with_status(old(self).data_queue@[index as int], FrameStatus::Acknowledged),
                    ));
                    self.inner_window.update_frame_status(index);
                    assert forall|i: int|
                        0 <= i < self.inner_window.frame_status@.len()
                            && #[trigger] self.inner_window.frame_status@[i]
                        implies i < self.data_queue@.len() && self.data_queue@[i] is Some
                            && self.data_queue@[i]->0.status is Acknowledged by {
                        if i != index {
                            assert(old(self).inner_window.frame_status@[i]);
                        }
                    }
                }
            }
        }
    }

    pub fn is_within_window(&self, sequence_number: u32) -> (r: bool)
        requires
            self.window().edges_fit(),
        ensures
            r == within_window(
                self.window().window_left_edge,
                self.window().window_size,
                sequence_number,
            ),
    {
        self.inner_window.is_within_window(sequence_number)
    }

    /// Drops the leading acknowledged frames and moves the window past them.
    pub fn shift_window(&mut self) -> (r: usize)
        requires
            old(self).well_formed(),
            old(self).window().window_left_edge + leading_true_count(
                old(self).window().frame_status@,
            ) <= u32::MAX,
        ensures
            final(self).well_formed(),
            r == leading_true_count(old(self).window().frame_status@),
            final(self).queue() == old(self).queue().skip(r as int),
            final(self).window().frame_status@ == old(self).window().frame_status@.skip(r as int),
            final(self).window().window_left_edge == old(self).window().window_left_edge + r,
            final(self).window().window_size == old(self).window().window_size,
    {
        proof {
            lemma_leading_true_count(self.inner_window.frame_status@);
            if leading_true_count(self.inner_window.frame_status@) > 0 {
                let k = leading_true_count(self.inner_window.frame_status@) as int;
                assert(self.inner_window.frame_status@[k - 1]);
            }
        }
        let shift_amount = self.inner_window.shift_window();
        let mut dropped = self.data_queue.split_off(shift_amount);
        std::mem::swap(&mut self.data_queue, &mut dropped);
        assert forall|i: int|
            0 <= i < self.inner_window.frame_status@.len() && #[trigger] self.inner_window.frame_status@[i]
            implies i < self.data_queue@.len() && self.data_queue@[i] is Some
                && self.data_queue@[i]->0.status is Acknowledged by {
            assert(old(self).inner_window.frame_status@[i + shift_amount]);
        }
        shift_amount
    }

    /// Cuts `data` into frames of at most `MAX_DATA_SIZE` octets, marks the last one as the
    /// end of the message, and queues them.
    pub fn append_to_queue(&mut self, data: Vec<u8>)
        requires
            old(self).well_formed(),
            fragment_count(data@.len()) <= u32::MAX,
        ensures
            final(self).well_formed(),
            final(self).window() == old(self).window(),
            final(self).queue().len() == old(self).queue().len() + fragment_count(data@.len()),
            final(self).queue().take(old(self).queue().len() as int) == old(self).queue(),
            forall|i: int|
                0 <= i < fragment_count(data@.len()) ==> is_fragment_entry(
                    #[trigger] final(self).queue()[old(self).queue().len() + i],
                    data@,
                    i,
                ),
    {
        let data_size = data.len();
        let fragments = data_size / MAX_DATA_SIZE + if data_size % MAX_DATA_SIZE == 0 {
            0
        } else {
            1
        };
        let ghost start = self.data_queue@;
        let mut i: usize = 0;
        while i < fragments
            invariant
                self.inner_window == old(self).inner_window,
                start == old(self).data_queue@,
                data_size == data@.len(),
                fragments == fragment_count(data@.len()),
                0 <= i <= fragments,
                self.data_queue@.len() == start.len() + i,
                self.data_queue@.take(start.len() as int) == start,
                forall|j: int| 0 <= j < i ==> is_fragment_entry(
                    #[trigger] self.data_queue@[start.len() + j],
                    data@,
                    j,
                ),
            decreases fragments - i,
        {
            let buffer_shift = i * MAX_DATA_SIZE;
            let buffer_left = data_size - buffer_shift;
            let data_lower_bound = buffer_shift;
            let data_upper_bound = buffer_shift + if buffer_left < MAX_DATA_SIZE {
                buffer_left
            } else {
                MAX_DATA_SIZE
            };
            let data_slice = crate::bytes::subslice(data.as_slice(), data_lower_bound, data_upper_bound);
            assert(data_slice@ == fragment(data@, i as int));
            let mut frame = Frame::default();
            frame.set_data(data_slice);
            if i == fragments - 1 {
                frame.set_control_bits(ControlBits::eom().bits());
            }
            let ghost before = self.data_queue@;
            self.data_queue.push(Some(QueueFrame { frame, status: FrameStatus::NotSent }));
            proof {
                assert(self.data_queue@.take(start.len() as int) =~= before.take(start.len() as int));
                assert forall|j: int| 0 <= j < i + 1 implies is_fragment_entry(
                    #[trigger] self.data_queue@[start.len() + j],
                    data@,
                    j,
                ) by {
                    if j < i {
                        assert(self.data_queue@[start.len() + j] == before[start.len() + j]);
                    }
                }
            }
            i = i + 1;
        }
        assert forall|k: int|
            0 <= k < self.inner_window.frame_status@.len() && #[trigger] self.inner_window.frame_status@[k]
            implies k < self.data_queue@.len() && self.data_queue@[k] is Some
                && self.data_queue@[k]->0.status is Acknowledged by {
            assert(old(self).inner_window.frame_status@[k]);
            assert(self.data_queue@[k] == self.data_queue@.take(start.len() as int)[k]);
        }
    }

    /// For each slot, the milliseconds since its frame was last sent, as the clock says; 0
    /// for an empty slot and for a frame not sent or acknowledged.
    pub fn elapsed_since_sent(&self) -> (r: Vec<u128>)
        ensures
            r@.len() == self.queue().len(),
            forall|j: int|
                0 <= j < self.queue().len() && !(self.queue()[j] is Some && self.queue()[j]->0.status is Sent)
                    ==> #[trigger] r@[j] == 0,
    {
        let mut r: Vec<u128> = Vec::new();
        let mut i: usize = 0;
        while i < self.data_queue.len()
            invariant
                0 <= i <= self.data_queue@.len(),
                r@.len() == i,
                forall|j: int|
                    0 <= j < i && !(self.data_queue@[j] is Some && self.data_queue@[j]->0.status is Sent)
                        ==> #[trigger] r@[j] == 0,
            decreases self.data_queue@.len() - i,
        {
            let elapsed = match &self.data_queue[i] {
                Some(queue_frame) => queue_frame.status.elapsed_millis(),
                None => 0,
            };
            r.push(elapsed);
            i += 1;
        }
        r
    }

    /// Stamps its sequence number on each frame of the window that is due to go out, and
    /// returns their slots in order, given for each slot the milliseconds since its frame was
    /// last sent. A frame not sent yet is always due, an acknowledged one never, a sent one
    /// once its timeout has passed.
    pub fn prepare_send(&mut self, elapsed_millis: &[u128]) -> (r: Vec<usize>)
        requires
            old(self).well_formed(),
            old(self).window().edges_fit(),
            elapsed_millis@.len() == old(self).queue().len(),
        ensures
            final(self).well_formed(),
            final(self).window() == old(self).window(),
            final(self).queue().len() == old(self).queue().len(),
            forall|a: int, b: int| 0 <= a < b < r@.len() ==> r@[a] < r@[b],
            forall|k: int|
                0 <= k < r@.len() ==> {
                    let j = #[trigger] r@[k] as int;
                    &&& j < old(self).window().window_size
                    &&& j < old(self).queue().len()
                    &&& old(self).queue()[j] is Some
                    &&& due_after(old(self).queue()[j]->0.status, elapsed_millis@[j])
                },
            forall|j: int|
                0 <= j < old(self).queue().len() && j < old(self).window().window_size
                    && old(self).queue()[j] is Some && due_after(old(self).queue()[j]->0.status, elapsed_millis@[j])
                    ==> r@.contains(j as usize),
            forall|j: int|
                0 <= j < old(self).queue().len() ==> {
                    let before = old(self).queue()[j];
                    let after = #[trigger] final(self).queue()[j];
                    if r@.contains(j as usize) {
                        &&& after is Some
                        &&& after->0.status == before->0.status
                        &&& after->0.frame.options_size() == before->0.frame.options_size()
                        &&& after->0.frame.data_size() == before->0.frame.data_size()
                        &&& after->0.frame.bytes() == splice(
                            before->0.frame.bytes(),
                            0,
                            u32_be_bytes((old(self).window().window_left_edge + j + 1) as u32),
                        )
                    } else {
                        after == before
                    }
                },
    {
        let window_size = self.get_window_size() as usize;
        let window_left_edge = self.get_window_left_edge();
        let count = if window_size < self.data_queue.len() {
            window_size
        } else {
            self.data_queue.len()
        };
        let mut due: Vec<usize> = Vec::new();
        let mut i: usize = 0;
        while i < count
            invariant
                self.inner_window == old(self).inner_window,
                window_left_edge == self.inner_window.window_left_edge,
                window_left_edge + self.inner_window.window_size <= u32::MAX,
                count <= self.inner_window.window_size,
                count <= old(self).data_queue@.len(),
                elapsed_millis@.len() == old(self).data_queue@.len(),
                self.data_queue@.len() == old(self).data_queue@.len(),
                0 <= i <= count,
                forall|a: int, b: int| 0 <= a < b < due@.len() ==> due@[a] < due@[b],
                forall|k: int| 0 <= k < due@.len() ==> #[trigger] due@[k] < i,
                forall|k: int|
                    0 <= k < due@.len() ==> {
                        let j = #[trigger] due@[k] as int;
                        &&& old(self).data_queue@[j] is Some
                        &&& due_after(old(self).data_queue@[j]->0.status, elapsed_millis@[j])
                    },
                forall|j: int|
                    0 <= j < i && old(self).data_queue@[j] is Some
                        && due_after(old(self).data_queue@[j]->0.status, elapsed_millis@[j]) ==> due@.contains(j as usize),
                forall|j: int|
                    0 <= j < old(self).data_queue@.len() ==> {
                        let before = old(self).data_queue@[j];
                        let after = #[trigger] self.data_queue@[j];
                        if due@.contains(j as usize) {
                            &&& after is Some
                            &&& after->0.status == before->0.status
                            &&& after->0.frame.options_size() == before->0.frame.options_size()
                            &&& after->0.frame.data_size() == before->0.frame.data_size()
                            &&& after->0.frame.bytes() == splice(
                                before->0.frame.bytes(),
                                0,
                                u32_be_bytes((window_left_edge + j + 1) as u32),
                            )
                        } else {
                            after == before
                        }
                    },
            decreases count - i,
        {
            let is_due = match &self.data_queue[i] {
                Some(queue_frame) => queue_frame.status.is_due_after(elapsed_millis[i]),
                None => false,
            };
            if is_due {
                let sequence_number = window_left_edge + i as u32 + 1;
                match &mut self.data_queue[i] {
                    Some(queue_frame) => {
                        queue_frame.frame.set_sequence_number(sequence_number);
                    },
                    None => {},
                }
                let ghost before_due = due@;
                due.push(i);
                proof {
                    assert forall|j: int| 0 <= j < old(self).data_queue@.len() implies
                        (#[trigger] due@.contains(j as usize)) == (before_due.contains(j as usize) || j == i) by {
                        if j == i {
                            assert(due@[due@.len() - 1] == i);
                        }
                        if due@.contains(j as usize) && j != i {
                            let k = choose|k: int| 0 <= k < due@.len() && due@[k] == j as usize;
                            assert(due@ == before_due.push(i));
                            assert(old(self).data_queue.len() == old(self).data_queue@.len());
                            assert(j as usize as int == j);
                            if k >= before_due.len() {
                                assert(due@[k] == i);
                                assert(j == i as int);
                            }
                            assert(k < before_due.len());
                            assert(before_due[k] == j as usize);
                        }
                        if before_due.contains(j as usize) {
                            let k = choose|k: int| 0 <= k < before_due.len() && before_due[k] == j as usize;
                            assert(due@[k] == j as usize);
                        }
                    }
                }
            } else {
                proof {
                    assert(!due@.contains(i));
                }
            }
            i = i + 1;
        }
        assert forall|k: int|
            0 <= k < self.inner_window.frame_status@.len() && #[trigger] self.inner_window.frame_status@[k]
            implies k < self.data_queue@.len() && self.data_queue@[k] is Some
                && self.data_queue@[k]->0.status is Acknowledged by {
            assert(old(self).inner_window.frame_status@[k]);
            if due@.contains(k as usize) {
                let m = choose|m: int| 0 <= m < due@.len() && due@[m] == k as usize;
                assert(due_after(old(self).data_queue@[due@[m] as int]->0.status, elapsed_millis@[due@[m] as int]));
            }
        }
        due
    }

    /// The frame in slot `index`.
    pub fn frame_at(&self, index: usize) -> (r: &Frame)
        requires
            index < self.queue().len(),
            self.queue()[index as int] is Some,
        ensures
            *r == self.queue()[index as int]->0.frame,
    {
        match &self.data_queue[index] {
            Some(queue_frame) => &queue_frame.frame,
            None => {
                proof {
                    assert(false);
                }
                &self.data_queue[index].as_ref().unwrap().frame
            },
        }
    }

    /// Records that the frame in slot `index` went out at `timestamp`.
    pub fn mark_sent(&mut self, index: usize, timestamp: Instant)
        requires
            old(self).well_formed(),
            index < old(self).queue().len(),
            old(self).queue()[index as int] is Some,
            !(old(self).queue()[index as int]->0.status is Acknowledged),
        ensures
            final(self).well_formed(),
            final(self).window() == old(self).window(),
            final(self).queue() == old(self).queue().update(
                index as int,
                with_status(old(self).queue()[index as int], FrameStatus::Sent(timestamp)),
            ),
    {
        match &mut self.data_queue[index] {
            Some(queue_frame) => {
                queue_frame.status = FrameStatus::Sent(timestamp);
            },
            None => {},
        }
        assert(self.data_queue@ =~= old(self).data_queue@.update(
            index as int,
            with_status(old(self).data_queue@[index as int], FrameStatus::Sent(timestamp)),
        ));
        assert forall|k: int|
            0 <= k < self.inner_window.frame_status@.len() && #[trigger] self.inner_window.frame_status@[k]
            implies k < self.data_queue@.len() && self.data_queue@[k] is Some
                && self.data_queue@[k]->0.status is Acknowledged by {
            assert(old(self).inner_window.frame_status@[k]);
        }
    }

}


/// The fragments `0 .. n` of a message, one after another.
pub open spec fn concat_fragments(data: Seq<u8>, n: int) -> Seq<u8>
    decreases n,
{
    if n <= 0 {
        Seq::empty()
    } else {
        concat_fragments(data, n - 1) + fragment(data, n - 1)
    }
}

proof fn lemma_concat_fragments_prefix(data: Seq<u8>, n: int)
    requires
        0 <= n <= fragment_count(data.len()),
    ensures
        concat_fragments(data, n) == data.take(
            if n * MAX_DATA_SIZE <= data.len() { n * MAX_DATA_SIZE } else { data.len() as int },
        ),
    decreases n,
{
    if n > 0 {
        lemma_concat_fragments_prefix(data, n - 1);
        let lo = (n - 1) * MAX_DATA_SIZE;
        assert(lo < data.len());
        assert(concat_fragments(data, n) =~= data.take(
            if n * MAX_DATA_SIZE <= data.len() { n * MAX_DATA_SIZE } else { data.len() as int },
        ));
    } else {
        assert(data.take(0) =~= Seq::<u8>::empty());
    }
}

/// Cutting a message into fragments loses nothing: the fragments, one after another, are the
/// message; each holds between 1 and `MAX_DATA_SIZE` octets; each fragment's frame carries the
/// fragment as its data, and only the last one has the end-of-message bit.
pub proof fn lemma_fragments_reassemble(data: Seq<u8>)
    ensures
        concat_fragments(data, fragment_count(data.len()) as int) == data,
        forall|i: int|
            0 <= i < fragment_count(data.len()) ==> 0 < #[trigger] fragment(data, i).len()
                <= MAX_DATA_SIZE,
        forall|i: int|
            0 <= i < fragment_count(data.len()) ==> crate::transport_layer::frame::frame_data(
                #[trigger] fragment_frame_bytes(data, i),
            ) == fragment(data, i),
        forall|i: int|
            0 <= i < fragment_count(data.len()) ==> crate::transport_layer::frame::frame_control_bits(
                #[trigger] fragment_frame_bytes(data, i),
            ) == if i == fragment_count(data.len()) - 1 {
                EOM_BIT
            } else {
                0u8
            },
{
    let n = fragment_count(data.len()) as int;
    lemma_concat_fragments_prefix(data, n);
    assert(data.take(data.len() as int) =~= data);
    assert forall|i: int| 0 <= i < n implies crate::transport_layer::frame::frame_data(
        #[trigger] fragment_frame_bytes(data, i),
    ) == fragment(data, i) by {
        crate::transport_layer::frame::lemma_data_roundtrip(zero_frame(), 0, fragment(data, i));
        let b = frame_with_data(zero_frame(), 0, fragment(data, i));
        assert(crate::transport_layer::frame::frame_data(b.update(CONTROL_BITS_OCTET as int, EOM_BIT))
            =~= crate::transport_layer::frame::frame_data(b));
    }
}

/// Acknowledging the first frame of the window lets the next shift move past it.
pub proof fn lemma_acknowledged_first_frame_shifts(pre: TransmitterWindow, post: TransmitterWindow)
    requires
        pre.window().window_size > 1,
        pre.window().edges_fit(),
        pre.queue().len() > 0,
        pre.queue()[0] is Some,
        acknowledges(pre, post, (pre.window().window_left_edge + 1) as u32),
    ensures
        leading_true_count(post.window().frame_status@) >= 1,
        post.queue()[0]->0.status is Acknowledged,
{
    let s = post.window().frame_status@;
    assert(s[0]);
    assert(leading_true_count(s) == 1 + leading_true_count(s.drop_first()));
}

/// The buffers of the frames that carry the first `n` fragments of a message.
pub open spec fn fragment_frames(data: Seq<u8>, n: int) -> Seq<Seq<u8>> {
    Seq::new(n as nat, |i: int| fragment_frame_bytes(data, i))
}

/// A message queued by `append_to_queue` and delivered frame by frame, in order, comes out
/// whole: the frames of a non-empty message hand out exactly that message, and leave
/// nothing behind.
pub proof fn lemma_queued_message_is_delivered(data: Seq<u8>)
    requires
        data.len() > 0,
    ensures
        assemble(fragment_frames(data, fragment_count(data.len()) as int)) == (
            Seq::<u8>::empty(),
            seq![data],
        ),
{
    let n = fragment_count(data.len()) as int;
    lemma_fragments_reassemble(data);
    assert(n >= 1);
    lemma_assemble_prefix(data, n - 1);
    let frames = fragment_frames(data, n);
    assert(frames.drop_last() =~= fragment_frames(data, n - 1));
    assert(frames.last() == fragment_frame_bytes(data, n - 1));
    assert(crate::transport_layer::frame::frame_control_bits(frames.last()) == EOM_BIT);
    assert(ends_message(frames.last()));
    assert(concat_fragments(data, n) == concat_fragments(data, n - 1) + fragment(data, n - 1));
    assert(seq![data] =~= Seq::<Seq<u8>>::empty().push(data));
}

proof fn lemma_assemble_prefix(data: Seq<u8>, k: int)
    requires
        0 <= k < fragment_count(data.len()),
    ensures
        assemble(fragment_frames(data, k)) == (concat_fragments(data, k), Seq::<Seq<u8>>::empty()),
    decreases k,
{
    lemma_fragments_reassemble(data);
    if k > 0 {
        lemma_assemble_prefix(data, k - 1);
        let frames = fragment_frames(data, k);
        assert(frames.drop_last() =~= fragment_frames(data, k - 1));
        assert(frames.last() == fragment_frame_bytes(data, k - 1));
        assert(crate::transport_layer::frame::frame_control_bits(frames.last()) == 0u8);
        assert(!ends_message(frames.last()));
    } else {
        assert(fragment_frames(data, 0) =~= Seq::<Seq<u8>>::empty());
    }
}

} // verus!
