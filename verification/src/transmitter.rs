use vstd::prelude::*;

use crate::bytes::{splice, u32_be_bytes};
use crate::constants::{MAX_DATA_SIZE, WINDOW_SIZE};
use crate::frame::{Frame, frame_with_data, CONTROL_BITS_OCTET, ACKNOWLEDGMENT_NUMBER_OCTET, OPTIONS_OCTET};
use crate::seq_util::{leading_true_count, lemma_leading_true_count, lemma_leading_true_count_unique};
use crate::transport_layer::control_bits::{ControlBits, ACK_BIT, EOM_BIT};
use crate::transport_layer::frame_status::{FrameStatus, due_after};
use crate::constants::TIMEOUT;
use std::time::Instant;
use crate::transport_layer::option::{FrameOption, OptionKind, encode_options, options_view};
use crate::transport_layer::transmitter_window::zero_frame;

verus! {

/// The sending side of the first protocol version: a fixed window of frame statuses whose
/// first slot stands for the sequence number after the smallest acknowledged one.
pub struct Transmitter {
    /// The smallest sequence number that has been acknowledged.
    /// Also marks the beginning of the window.
    smallest_acknowledged_sequence_number: u32,
    /// The status of each frame in the window.
    window_frame_statuses: [FrameStatus; WINDOW_SIZE],
}

/// Which statuses are acknowledgments.
pub open spec fn acknowledged_flags(statuses: Seq<FrameStatus>) -> Seq<bool> {
    statuses.map_values(|s: FrameStatus| s is Acknowledged)
}

/// The statuses after dropping the first `k` and filling the end with frames not sent.
pub open spec fn shifted_statuses(statuses: Seq<FrameStatus>, k: int) -> Seq<FrameStatus> {
    statuses.skip(k) + Seq::new(k as nat, |i: int| FrameStatus::NotSent)
}

/// The buffer of the frame that acknowledges `sequence_number`.
pub open spec fn legacy_ack_frame_bytes(sequence_number: u32) -> Seq<u8> {
    splice(
        splice(zero_frame_legacy(), 0, u32_be_bytes(0)),
        ACKNOWLEDGMENT_NUMBER_OCTET as int,
        u32_be_bytes(sequence_number),
    ).update(CONTROL_BITS_OCTET as int, ACK_BIT)
}

/// A buffer of zeros of the first protocol version's frame size.
pub open spec fn zero_frame_legacy() -> Seq<u8> {
    Seq::new(crate::constants::MAX_FRAME_SIZE as nat, |i: int| 0u8)
}

/// The options of segment `segments_sent` of `segments`: the whole message's size on the
/// first one, the segment's number when there is more than one segment.
pub open spec fn segment_options(data_size: u32, segments_sent: u32, segments: u32) -> Seq<(OptionKind, Seq<u8>)> {
    let size = if segments_sent == 1 {
        seq![(OptionKind::BufferSize, u32_be_bytes(data_size))]
    } else {
        Seq::empty()
    };
    if segments > 1 {
        size.push((OptionKind::SegmentNumber, u32_be_bytes(segments_sent)))
    } else {
        size
    }
}

/// The data of segment `segments_sent` (counted from 1): at most `MAX_DATA_SIZE` octets.
pub open spec fn segment_data(data: Seq<u8>, segments_sent: u32) -> Seq<u8> {
    let lo = (segments_sent - 1) * MAX_DATA_SIZE;
    let hi = if lo + MAX_DATA_SIZE <= data.len() {
        lo + MAX_DATA_SIZE
    } else {
        data.len() as int
    };
    data.subrange(lo, hi)
}

/// The buffer of the frame of segment `segments_sent` of `segments` of `data`.
pub open spec fn segment_frame_bytes(
    data: Seq<u8>,
    segments_sent: u32,
    segments: u32,
    sequence_number: u32,
) -> Seq<u8> {
    let options = encode_options(segment_options(data.len() as u32, segments_sent, segments));
    let with_options = splice(zero_frame_legacy(), OPTIONS_OCTET as int, options);
    let numbered = splice(
        splice(with_options, 0, u32_be_bytes(sequence_number)),
        ACKNOWLEDGMENT_NUMBER_OCTET as int,
        u32_be_bytes(0),
    );
    let control = if segments_sent == segments {
        EOM_BIT
    } else {
        0u8
    };
    frame_with_data(
        numbered.update(CONTROL_BITS_OCTET as int, control),
        options.len() as int,
        segment_data(data, segments_sent),
    )
}

/// What the sending loop does at one slot of the window.
pub enum SendStep {
    /// The slot's frame is not due: go on to the next slot.
    Skip,
    /// Every segment has gone out: stop sending.
    Finish,
    /// Send this frame in the slot.
    Send(Frame),
}

/// Where sending a message stands: the slot that the sending loop looks at next, and the
/// number, counted from 1, of the segment that goes out next.
#[derive(Clone, Copy)]
pub struct SendCursor {
    pub slot: usize,
    pub segments_sent: u32,
}

impl SendCursor {
    /// The start of a message: the first slot, the first segment.
    pub fn new() -> (r: Self)
        ensures
            r.slot == 0,
            r.segments_sent == 1,
    {
        SendCursor { slot: 0, segments_sent: 1 }
    }
}

/// Which statuses stand for a frame that went out, acknowledged or not.
pub open spec fn sent_flags(statuses: Seq<FrameStatus>) -> Seq<bool> {
    statuses.map_values(|s: FrameStatus| !(s is NotSent))
}

/// What one step of the sending loop makes of the transmitter and the cursor, and what it
/// asks for: past the last slot the window shifts and the loop starts over from the first
/// slot; a slot whose frame is not due is passed; at a due slot, sending ends once every
/// segment is out, and the statuses are cleared; otherwise the next segment is to go out in
/// that slot, numbered after the smallest acknowledged sequence number.
pub open spec fn send_advances(
    pre: Transmitter,
    cursor: SendCursor,
    data: Seq<u8>,
    segments: u32,
    elapsed_millis: u128,
    post: Transmitter,
    next: SendCursor,
    r: SendStep,
) -> bool {
    if cursor.slot >= WINDOW_SIZE {
        let k = leading_true_count(acknowledged_flags(pre.statuses()));
        &&& post.statuses() == shifted_statuses(pre.statuses(), k as int)
        &&& post.smallest_acknowledged() == vstd::wrapping::u32_specs::wrapping_add(
            pre.smallest_acknowledged(),
            k as u32,
        )
        &&& next == SendCursor { slot: 0, segments_sent: cursor.segments_sent }
        &&& r is Skip
    } else if !due_after(pre.statuses()[cursor.slot as int], elapsed_millis) {
        &&& post.statuses() == pre.statuses()
        &&& post.smallest_acknowledged() == pre.smallest_acknowledged()
        &&& next == SendCursor { slot: (cursor.slot + 1) as usize, segments_sent: cursor.segments_sent }
        &&& r is Skip
    } else if cursor.segments_sent > segments {
        &&& post.statuses() == Seq::new(WINDOW_SIZE as nat, |i: int| FrameStatus::NotSent)
        &&& post.smallest_acknowledged() == pre.smallest_acknowledged()
        &&& next == cursor
        &&& r is Finish
    } else {
        &&& post.statuses() == pre.statuses()
        &&& post.smallest_acknowledged() == pre.smallest_acknowledged()
        &&& next == cursor
        &&& r matches SendStep::Send(frame)
        &&& frame.bytes() == segment_frame_bytes(
            data,
            cursor.segments_sent,
            segments,
            (pre.smallest_acknowledged() + cursor.slot + 1) as u32,
        )
    }
}

/// Whether sending goes in order, for a message of `segments` segments whose first segment
/// is numbered `first + 1`: the slots that went out form the start of the window, and with
/// the frames acknowledged and shifted out before them they are exactly the segments sent so
/// far; the loop has not passed the first slot still to send.
pub open spec fn sending_in_order(t: Transmitter, cursor: SendCursor, first: u32, segments: u32) -> bool {
    let m = leading_true_count(sent_flags(t.statuses())) as int;
    &&& forall|i: int| m <= i < WINDOW_SIZE ==> #[trigger] t.statuses()[i] is NotSent
    &&& first <= t.smallest_acknowledged()
    &&& t.smallest_acknowledged() - first + m == cursor.segments_sent - 1
    &&& cursor.slot <= m
    &&& 1 <= cursor.segments_sent <= segments + 1
}

impl Transmitter {
    /// The smallest acknowledged sequence number.
    pub closed spec fn smallest_acknowledged(&self) -> u32 {
        self.smallest_acknowledged_sequence_number
    }

    /// The status of each slot of the window.
    pub closed spec fn statuses(&self) -> Seq<FrameStatus> {
        self.window_frame_statuses@
    }

    /// The window has one status for each of its `WINDOW_SIZE` slots.
    pub proof fn lemma_statuses_len(&self)
        ensures
            self.statuses().len() == WINDOW_SIZE,
    {
    }

    pub fn new() -> (r: Self)
        ensures
            r.smallest_acknowledged() == 0,
            r.statuses() == Seq::new(WINDOW_SIZE as nat, |i: int| FrameStatus::NotSent),
    {
        let r = Self {
            smallest_acknowledged_sequence_number: 0,
            window_frame_statuses: [FrameStatus::NotSent; WINDOW_SIZE],
        };
        assert(r.window_frame_statuses@ =~= Seq::new(WINDOW_SIZE as nat, |i: int| FrameStatus::NotSent));
        r
    }

    /// Handles an acknowledgment: marks its slot, unless it is at or below the smallest
    /// acknowledged sequence number.
    pub fn handle_acknowledgment(&mut self, acknowledgment_number: u32)
        requires
            acknowledgment_number > old(self).smallest_acknowledged() ==> acknowledgment_number
                - old(self).smallest_acknowledged() - 1 < WINDOW_SIZE,
        ensures
            final(self).smallest_acknowledged() == old(self).smallest_acknowledged(),
            acknowledgment_number <= old(self).smallest_acknowledged() ==> final(self).statuses()
                == old(self).statuses(),
            acknowledgment_number > old(self).smallest_acknowledged() ==> final(self).statuses()
                == old(self).statuses().update(
                acknowledgment_number - old(self).smallest_acknowledged() - 1,
                FrameStatus::Acknowledged,
            ),
    {
        let smallest = self.smallest_acknowledged_sequence_number;
        if acknowledgment_number <= smallest {
            return;
        }
        let index = (acknowledgment_number - (smallest + 1)) as usize;
        self.window_frame_statuses[index] = FrameStatus::Acknowledged;
    }

    fn is_acknowledged_at(&self, i: usize) -> (r: bool)
        requires
            i < WINDOW_SIZE,
        ensures
            r == (self.window_frame_statuses@[i as int] is Acknowledged),
    {
        match self.window_frame_statuses[i] {
            FrameStatus::Acknowledged => true,
            _ => false,
        }
    }

    /// Shifts the window by the number of acknowledged frames in the front of the window.
    pub fn shift_window(&mut self)
        ensures
            ({
                let k = leading_true_count(acknowledged_flags(old(self).statuses()));
                &&& final(self).statuses() == shifted_statuses(old(self).statuses(), k as int)
                &&& final(self).smallest_acknowledged() == vstd::wrapping::u32_specs::wrapping_add(
                    old(self).smallest_acknowledged(),
                    k as u32,
                )
            }),
    {
        let ghost start = self.window_frame_statuses@;
        proof {
            lemma_leading_true_count(acknowledged_flags(start));
        }
        let first_acknowledged = match self.window_frame_statuses[0] {
            FrameStatus::Acknowledged => true,
            _ => false,
        };
        if !first_acknowledged {
            proof {
                lemma_leading_true_count_unique(acknowledged_flags(start), 0);
            }
            assert(self.window_frame_statuses@ =~= shifted_statuses(start, 0));
            return;
        }
        let mut shift_amount = 1usize;
        let mut i: usize = 1;
        while i < WINDOW_SIZE && self.is_acknowledged_at(i)
            invariant
                self.window_frame_statuses@ == start,
                start.len() == WINDOW_SIZE,
                1 <= i <= WINDOW_SIZE,
                shift_amount == i,
                forall|j: int| 0 <= j < shift_amount ==> #[trigger] start[j] is Acknowledged,
            decreases WINDOW_SIZE - i,
        {
            shift_amount += 1;
            i += 1;
        }
        proof {
            assert(acknowledged_flags(start).len() == WINDOW_SIZE);
            assert forall|j: int| 0 <= j < shift_amount implies #[trigger] acknowledged_flags(start)[j] by {
                assert(start[j] is Acknowledged);
            }
            if shift_amount < WINDOW_SIZE {
                assert(!(start[shift_amount as int] is Acknowledged));
            }
            lemma_leading_true_count_unique(acknowledged_flags(start), shift_amount as int);
        }
        let mut i: usize = 0;
        while i < WINDOW_SIZE
            invariant
                start.len() == WINDOW_SIZE,
                1 <= shift_amount <= WINDOW_SIZE,
                0 <= i <= WINDOW_SIZE,
                self.window_frame_statuses@.len() == WINDOW_SIZE,
                self.smallest_acknowledged_sequence_number == old(self).smallest_acknowledged_sequence_number,
                start == old(self).window_frame_statuses@,
                forall|j: int| 0 <= j < i ==> #[trigger] self.window_frame_statuses@[j]
                    == shifted_statuses(start, shift_amount as int)[j],
                forall|j: int| i <= j < WINDOW_SIZE ==> #[trigger] self.window_frame_statuses@[j] == start[j],
            decreases WINDOW_SIZE - i,
        {
            let shift_index = i + shift_amount;
            if shift_index >= WINDOW_SIZE {
                self.window_frame_statuses[i] = FrameStatus::NotSent;
            } else {
                self.window_frame_statuses[i] = self.window_frame_statuses[shift_index];
            }
            i += 1;
        }
        assert(self.window_frame_statuses@ =~= shifted_statuses(start, shift_amount as int));
        self.smallest_acknowledged_sequence_number = self.smallest_acknowledged_sequence_number.wrapping_add(
            shift_amount as u32,
        );
    }

    pub fn smallest_acknowledged_sequence_number(&self) -> (r: u32)
        ensures
            r == self.smallest_acknowledged(),
    {
        self.smallest_acknowledged_sequence_number
    }

    /// The status of slot `index`.
    pub fn status(&self, index: usize) -> (r: FrameStatus)
        requires
            index < WINDOW_SIZE,
        ensures
            r == self.statuses()[index as int],
    {
        self.window_frame_statuses[index]
    }

    /// Sets the status of slot `index`.
    pub fn set_status(&mut self, index: usize, status: FrameStatus)
        requires
            index < WINDOW_SIZE,
        ensures
            final(self).statuses() == old(self).statuses().update(index as int, status),
            final(self).smallest_acknowledged() == old(self).smallest_acknowledged(),
    {
        self.window_frame_statuses[index] = status;
    }

    /// Marks every slot as not sent.
    pub fn reset_statuses(&mut self)
        ensures
            final(self).statuses() == Seq::new(WINDOW_SIZE as nat, |i: int| FrameStatus::NotSent),
            final(self).smallest_acknowledged() == old(self).smallest_acknowledged(),
    {
        let mut i: usize = 0;
        while i < WINDOW_SIZE
            invariant
                0 <= i <= WINDOW_SIZE,
                self.window_frame_statuses@.len() == WINDOW_SIZE,
                self.smallest_acknowledged_sequence_number == old(self).smallest_acknowledged_sequence_number,
                forall|j: int| 0 <= j < i ==> #[trigger] self.window_frame_statuses@[j] is NotSent,
            decreases WINDOW_SIZE - i,
        {
            self.window_frame_statuses[i] = FrameStatus::NotSent;
            i += 1;
        }
        assert(self.window_frame_statuses@ =~= Seq::new(WINDOW_SIZE as nat, |i: int| FrameStatus::NotSent));
    }

    /// Whether an acknowledgment is sent again after `attempts` tries whose last one
    /// `succeeded` or not: it is tried at most three times, and no more once a try succeeds.
    pub fn ack_again(attempts: u32, succeeded: bool) -> (r: bool)
        ensures
            r == (!succeeded && attempts < 3),
    {
        !succeeded && attempts < 3
    }

    /// The frame that acknowledges `sequence_number`.
    pub fn ack_frame(sequence_number: u32) -> (r: Frame)
        ensures
            r.bytes() == legacy_ack_frame_bytes(sequence_number),
            r.options_len() == 0,
            r.data_len() == 0,
    {
        let mut frame = Frame::default();
        frame.set_sequence_number(0);
        frame.set_acknowledgment_number(sequence_number);
        frame.set_control_bits(ControlBits::ack().bits());
        frame
    }

    /// The sending loop's decision at slot `i`, with `segments_sent` segments out of
    /// `segments` sent so far (counted from 1) and `elapsed_millis` since the slot's frame was
    /// last sent: a slot whose frame is not due is skipped; once every segment is out, sending
    /// stops; otherwise the next segment goes out in the slot, numbered after the smallest
    /// acknowledged sequence number.
    pub fn send_step(&self, data: &[u8], i: usize, segments_sent: u32, segments: u32, elapsed_millis: u128) -> (r: SendStep)
        requires
            i < WINDOW_SIZE,
            data@.len() <= u32::MAX,
            segments_sent >= 1,
            segments_sent <= segments ==> (segments_sent - 1) * MAX_DATA_SIZE < data@.len(),
            self.smallest_acknowledged() + i + 1 <= u32::MAX,
        ensures
            !due_after(self.statuses()[i as int], elapsed_millis) ==> r is Skip,
            due_after(self.statuses()[i as int], elapsed_millis) && segments_sent > segments ==> r is Finish,
            due_after(self.statuses()[i as int], elapsed_millis) && segments_sent <= segments ==> {
                &&& r matches SendStep::Send(frame)
                &&& frame.bytes() == segment_frame_bytes(
                    data@,
                    segments_sent,
                    segments,
                    (self.smallest_acknowledged() + i + 1) as u32,
                )
                &&& frame.options_len() == encode_options(segment_options(data@.len() as u32, segments_sent, segments)).len()
                &&& frame.data_len() == segment_data(data@, segments_sent).len()
            },
    {
        let status = self.status(i);
        if !status.is_due_after(elapsed_millis) {
            return SendStep::Skip;
        }
        if segments_sent > segments {
            return SendStep::Finish;
        }
        let sequence_number = self.smallest_acknowledged_sequence_number + i as u32 + 1;
        SendStep::Send(Self::segment_frame(data, segments_sent, segments, sequence_number))
    }

    /// One step of the sending loop, at the cursor's slot, with `elapsed_millis` since that
    /// slot's frame was last sent: see `send_advances`. A frame to send is sent by the caller,
    /// who then reports it with `frame_sent`.
    pub fn next_send_action(
        &mut self,
        cursor: &mut SendCursor,
        data: &[u8],
        segments: u32,
        elapsed_millis: u128,
    ) -> (r: SendStep)
        requires
            old(cursor).slot <= WINDOW_SIZE,
            data@.len() <= u32::MAX,
            old(cursor).segments_sent >= 1,
            old(cursor).segments_sent <= segments ==> (old(cursor).segments_sent - 1) * MAX_DATA_SIZE
                < data@.len(),
            old(cursor).slot < WINDOW_SIZE ==> old(self).smallest_acknowledged() + old(cursor).slot + 1
                <= u32::MAX,
        ensures
            send_advances(
                *old(self),
                *old(cursor),
                data@,
                segments,
                elapsed_millis,
                *final(self),
                *final(cursor),
                r,
            ),
    {
        proof {
            self.lemma_statuses_len();
        }
        if cursor.slot >= WINDOW_SIZE {
            self.shift_window();
            cursor.slot = 0;
            return SendStep::Skip;
        }
        let step = self.send_step(data, cursor.slot, cursor.segments_sent, segments, elapsed_millis);
        match step {
            SendStep::Skip => {
                cursor.slot = cursor.slot + 1;
            },
            SendStep::Finish => {
                self.reset_statuses();
            },
            SendStep::Send(_) => {},
        }
        step
    }

    /// Records that the frame of the cursor's slot went out at `timestamp`: the slot is sent,
    /// the next segment is due, and the loop moves to the next slot.
    pub fn frame_sent(&mut self, cursor: &mut SendCursor, timestamp: Instant)
        requires
            old(cursor).slot < WINDOW_SIZE,
            old(cursor).segments_sent < u32::MAX,
        ensures
            final(self).statuses() == old(self).statuses().update(
                old(cursor).slot as int,
                FrameStatus::Sent(timestamp),
            ),
            final(self).smallest_acknowledged() == old(self).smallest_acknowledged(),
            *final(cursor) == (SendCursor {
                slot: (old(cursor).slot + 1) as usize,
                segments_sent: (old(cursor).segments_sent + 1) as u32,
            }),
    {
        self.set_status(cursor.slot, FrameStatus::Sent(timestamp));
        cursor.slot = cursor.slot + 1;
        cursor.segments_sent = cursor.segments_sent + 1;
    }

    /// The frame of segment `segments_sent` (counted from 1) of `segments` of a message.
    pub fn segment_frame(data: &[u8], segments_sent: u32, segments: u32, sequence_number: u32) -> (r: Frame)
        requires
            data@.len() <= u32::MAX,
            1 <= segments_sent <= segments,
            (segments_sent - 1) * MAX_DATA_SIZE < data@.len(),
        ensures
            r.bytes() == segment_frame_bytes(data@, segments_sent, segments, sequence_number),
            r.options_len() == encode_options(segment_options(data@.len() as u32, segments_sent, segments)).len(),
            r.data_len() == segment_data(data@, segments_sent).len(),
    {
        let data_size = data.len() as u32;
        let be_data_size = crate::bytes::u32_to_be_bytes(data_size);
        let be_segment = crate::bytes::u32_to_be_bytes(segments_sent);
        let mut options: Vec<FrameOption> = Vec::new();
        if segments_sent == 1 {
            options.push(FrameOption::new(OptionKind::BufferSize, be_data_size.as_slice()));
        }
        if segments > 1 {
            options.push(FrameOption::new(OptionKind::SegmentNumber, be_segment.as_slice()));
        }
        let ghost wanted = segment_options(data_size, segments_sent, segments);
        proof {
            assert(options_view(options@) =~= wanted);
            lemma_segment_options_size(data_size, segments_sent, segments);
        }
        let mut frame = Frame::default();
        frame.set_options(options.as_slice());
        frame.set_sequence_number(sequence_number);
        frame.set_acknowledgment_number(0);
        if segments_sent == segments {
            frame.set_control_bits(ControlBits::eom().bits());
        } else {
            frame.set_control_bits(0);
        }
        let buffer_shift = (segments_sent - 1) as usize * (MAX_DATA_SIZE as usize);
        let buffer_left = data.len() - buffer_shift;
        let data_upper_bound = buffer_shift + if buffer_left < MAX_DATA_SIZE as usize {
            buffer_left
        } else {
            MAX_DATA_SIZE as usize
        };
        let data_segment = crate::bytes::subslice(data, buffer_shift, data_upper_bound);
        assert(data_segment@ == segment_data(data@, segments_sent));
        frame.set_data(data_segment);
        frame
    }
}

proof fn lemma_segment_options_size(data_size: u32, segments_sent: u32, segments: u32)
    ensures
        encode_options(segment_options(data_size, segments_sent, segments)).len() <= 12,
{
    let o = segment_options(data_size, segments_sent, segments);
    let e: Seq<(OptionKind, Seq<u8>)> = Seq::empty();
    assert(encode_options(e).len() == 0);
    if o.len() >= 1 {
        assert(encode_options(o.take(1)) == encode_options(o.take(1).drop_last()) + crate::transport_layer::option::encode_option(o[0].0, o[0].1));
        assert(o.take(1).drop_last() =~= e);
    }
    if o.len() == 2 {
        assert(o.drop_last() =~= o.take(1));
    } else if o.len() == 1 {
        assert(o =~= o.take(1));
    } else {
        assert(o =~= e);
    }
}

/// Acknowledging the frame after the smallest acknowledged one lets the next shift move the
/// window by at least one frame, and the freed slots at the end are not sent yet.
pub proof fn lemma_acknowledged_front_shifts(statuses: Seq<FrameStatus>)
    requires
        statuses.len() == WINDOW_SIZE,
    ensures
        ({
            let marked = statuses.update(0, FrameStatus::Acknowledged);
            let k = leading_true_count(acknowledged_flags(marked));
            &&& 1 <= k <= WINDOW_SIZE
            &&& shifted_statuses(marked, k as int).len() == WINDOW_SIZE
            &&& forall|i: int| WINDOW_SIZE - k <= i < WINDOW_SIZE ==> #[trigger] shifted_statuses(marked, k as int)[i]
                is NotSent
        }),
{
    let marked = statuses.update(0, FrameStatus::Acknowledged);
    let flags = acknowledged_flags(marked);
    lemma_leading_true_count(flags);
    assert(flags[0]);
    assert(leading_true_count(flags) == 1 + leading_true_count(flags.drop_first()));
}

proof fn lemma_sent_prefix(statuses: Seq<FrameStatus>)
    ensures
        ({
            let m = leading_true_count(sent_flags(statuses)) as int;
            &&& 0 <= m <= statuses.len()
            &&& forall|i: int| 0 <= i < m ==> !(#[trigger] statuses[i] is NotSent)
            &&& m < statuses.len() ==> statuses[m] is NotSent
        }),
{
    lemma_leading_true_count(sent_flags(statuses));
    let m = leading_true_count(sent_flags(statuses)) as int;
    assert forall|i: int| 0 <= i < m implies !(#[trigger] statuses[i] is NotSent) by {
        assert(sent_flags(statuses)[i]);
    }
    if m < statuses.len() {
        assert(!sent_flags(statuses)[m]);
    }
}

/// One step of the sending loop keeps sending in order, as long as no frame that went out
/// times out: the frame it asks to send is the next segment, numbered right after the
/// segments before it, in the first slot still to send; it ends only once every segment is
/// out; and after a passed slot or a shift, sending is still in order.
pub proof fn lemma_send_step_in_order(
    t: Transmitter,
    cursor: SendCursor,
    first: u32,
    data: Seq<u8>,
    segments: u32,
    elapsed_millis: u128,
    post: Transmitter,
    next: SendCursor,
    r: SendStep,
)
    requires
        t.statuses().len() == WINDOW_SIZE,
        first + segments <= u32::MAX,
        sending_in_order(t, cursor, first, segments),
        cursor.slot < WINDOW_SIZE && t.statuses()[cursor.slot as int] is Sent ==> elapsed_millis <= TIMEOUT,
        send_advances(t, cursor, data, segments, elapsed_millis, post, next, r),
    ensures
        r matches SendStep::Send(frame) ==> {
            &&& cursor.segments_sent <= segments
            &&& cursor.slot < WINDOW_SIZE
            &&& t.statuses()[cursor.slot as int] is NotSent
            &&& frame.bytes() == segment_frame_bytes(
                data,
                cursor.segments_sent,
                segments,
                (first + cursor.segments_sent) as u32,
            )
            &&& post.statuses() == t.statuses()
            &&& post.smallest_acknowledged() == t.smallest_acknowledged()
            &&& next == cursor
        },
        r is Finish ==> cursor.segments_sent == segments + 1,
        r is Skip ==> sending_in_order(post, next, first, segments),
{
    let st = t.statuses();
    lemma_sent_prefix(st);
    let m = leading_true_count(sent_flags(st)) as int;
    if cursor.slot >= WINDOW_SIZE {
        let flags = acknowledged_flags(st);
        lemma_leading_true_count(flags);
        let p = leading_true_count(flags) as int;
        assert forall|i: int| 0 <= i < p implies #[trigger] st[i] is Acknowledged by {
            assert(flags[i]);
        }
        if p < WINDOW_SIZE {
            assert(!flags[p]);
        }
        assert(p <= m);
        let ps = post.statuses();
        assert(ps == shifted_statuses(st, p));
        assert(ps.len() == WINDOW_SIZE);
        assert(t.smallest_acknowledged() + p <= u32::MAX);
        assert(post.smallest_acknowledged() == t.smallest_acknowledged() + p);
        let m2 = m - p;
        assert forall|i: int| 0 <= i < m2 implies #[trigger] sent_flags(ps)[i] by {
            assert(ps[i] == st[i + p]);
        }
        if m2 < WINDOW_SIZE {
            if m2 + p < WINDOW_SIZE {
                assert(ps[m2] == st[m]);
            }
            assert(!sent_flags(ps)[m2]);
        }
        lemma_leading_true_count_unique(sent_flags(ps), m2);
        assert forall|i: int| m2 <= i < WINDOW_SIZE implies #[trigger] ps[i] is NotSent by {
            if i + p < WINDOW_SIZE {
                assert(ps[i] == st[i + p]);
            }
        }
    } else if !due_after(st[cursor.slot as int], elapsed_millis) {
        assert(!(st[cursor.slot as int] is NotSent));
        assert(cursor.slot < m);
        assert(post.statuses() == st);
    } else if cursor.segments_sent > segments {
    } else {
        assert(st[cursor.slot as int] is NotSent);
        assert(cursor.slot == m);
        assert(t.smallest_acknowledged() + cursor.slot + 1 == first + cursor.segments_sent);
        assert(post.statuses() =~= st);
    }
}

/// Recording a frame sent by the step keeps sending in order.
pub proof fn lemma_frame_sent_in_order(
    t: Transmitter,
    cursor: SendCursor,
    first: u32,
    segments: u32,
    timestamp: Instant,
    post: Transmitter,
    next: SendCursor,
)
    requires
        t.statuses().len() == WINDOW_SIZE,
        sending_in_order(t, cursor, first, segments),
        cursor.slot < WINDOW_SIZE,
        t.statuses()[cursor.slot as int] is NotSent,
        cursor.segments_sent <= segments,
        cursor.segments_sent < u32::MAX,
        post.statuses() == t.statuses().update(cursor.slot as int, FrameStatus::Sent(timestamp)),
        post.smallest_acknowledged() == t.smallest_acknowledged(),
        next == (SendCursor { slot: (cursor.slot + 1) as usize, segments_sent: (cursor.segments_sent + 1) as u32 }),
    ensures
        sending_in_order(post, next, first, segments),
{
    let st = t.statuses();
    lemma_sent_prefix(st);
    let m = leading_true_count(sent_flags(st)) as int;
    assert(cursor.slot == m);
    let ps = post.statuses();
    assert(ps.len() == WINDOW_SIZE);
    assert forall|i: int| 0 <= i < m + 1 implies #[trigger] sent_flags(ps)[i] by {
        if i < m {
            assert(ps[i] == st[i]);
        } else {
            assert(ps[i] == FrameStatus::Sent(timestamp));
        }
    }
    if m + 1 < WINDOW_SIZE {
        assert(ps[m + 1] == st[m + 1]);
        assert(!sent_flags(ps)[m + 1]);
    }
    lemma_leading_true_count_unique(sent_flags(ps), m + 1);
    assert forall|i: int| m + 1 <= i < WINDOW_SIZE implies #[trigger] ps[i] is NotSent by {
        assert(ps[i] == st[i]);
    }
}

/// An acknowledgment of a frame that went out keeps sending in order.
pub proof fn lemma_acknowledgment_in_order(
    t: Transmitter,
    cursor: SendCursor,
    first: u32,
    segments: u32,
    acknowledgment_number: u32,
    post: Transmitter,
)
    requires
        t.statuses().len() == WINDOW_SIZE,
        sending_in_order(t, cursor, first, segments),
        t.smallest_acknowledged() < acknowledgment_number,
        acknowledgment_number - t.smallest_acknowledged() - 1 < leading_true_count(sent_flags(t.statuses())),
        post.statuses() == t.statuses().update(
            acknowledgment_number - t.smallest_acknowledged() - 1,
            FrameStatus::Acknowledged,
        ),
        post.smallest_acknowledged() == t.smallest_acknowledged(),
    ensures
        sending_in_order(post, cursor, first, segments),
{
    let st = t.statuses();
    lemma_sent_prefix(st);
    let m = leading_true_count(sent_flags(st)) as int;
    let ps = post.statuses();
    assert forall|i: int| 0 <= i < m implies #[trigger] sent_flags(ps)[i] by {
        assert(!(st[i] is NotSent));
    }
    if m < WINDOW_SIZE {
        assert(ps[m] == st[m]);
        assert(!sent_flags(ps)[m]);
    }
    lemma_leading_true_count_unique(sent_flags(ps), m);
    assert forall|i: int| m <= i < WINDOW_SIZE implies #[trigger] ps[i] is NotSent by {
        assert(ps[i] == st[i]);
    }
}

/// Sending starts in order: from a window with nothing sent, at the first slot and the first
/// segment, the first segment goes out numbered right after the smallest acknowledged one.
pub proof fn lemma_sending_starts_in_order(t: Transmitter, segments: u32)
    requires
        t.statuses() == Seq::new(WINDOW_SIZE as nat, |i: int| FrameStatus::NotSent),
    ensures
        sending_in_order(t, SendCursor { slot: 0, segments_sent: 1 }, t.smallest_acknowledged(), segments),
{
    let st = t.statuses();
    if WINDOW_SIZE > 0 {
        assert(!sent_flags(st)[0]);
    }
    lemma_leading_true_count_unique(sent_flags(st), 0);
}

} // verus!
