use vstd::prelude::*;

use crate::seq_util::{pad_to, resized, leading_true_count, lemma_leading_true_count, lemma_leading_true_count_unique};
use crate::transport_layer::constants::MAX_FRAME_SIZE;
use crate::transport_layer::control_bits::{ControlBits, known_bits};
use crate::transport_layer::frame::{
    Frame, frame_sequence_number, frame_control_bits, frame_data, frame_data_length,
    frame_data_offset,
};
use crate::transport_layer::window::{NewWindow, within_window};

verus! {

/// The receiving side of a sliding window: the frames that arrived, each in the slot of
/// its sequence number, until the frames before them have arrived too.
pub struct ReceiverWindow {
    inner_window: NewWindow,
    buffer: Vec<Option<Frame>>,
}

/// The frames held in a run of filled slots, in order.
pub open spec fn unwrap_all(slots: Seq<Option<Frame>>) -> Seq<Frame> {
    slots.map_values(|o: Option<Frame>| o->0)
}

/// What `handle_incoming_frame` makes of a window with these status flags, left edge, size and
/// slots: the frame lands in the slot of its sequence number when that lies in the window,
/// and nothing changes otherwise.
pub open spec fn receives_into(
    frame_status: Seq<bool>,
    left_edge: u32,
    size: u32,
    slots: Seq<Option<Frame>>,
    post: ReceiverWindow,
    frame: Frame,
) -> bool {
    let sequence_number = frame_sequence_number(frame.bytes());
    let index = sequence_number - left_edge - 1;
    &&& post.well_formed()
    &&& post.window().window_left_edge == left_edge
    &&& post.window().window_size == size
    &&& if within_window(left_edge, size, sequence_number) {
        &&& post.slots() == pad_to(slots, index + 1, None).update(index, Some(frame))
        &&& post.window().frame_status@ == pad_to(frame_status, index + 1, false).update(
            index,
            true,
        )
    } else {
        &&& post.slots() == slots
        &&& post.window().frame_status@ == frame_status
    }
}

/// What `shift_window` makes of a window, and the frames it hands out: the frames of the
/// leading received slots, in order of sequence number from the left edge on.
pub open spec fn shifts_into(pre: ReceiverWindow, post: ReceiverWindow, frames: Seq<Frame>) -> bool {
    let k = leading_true_count(pre.window().frame_status@) as int;
    &&& post.well_formed()
    &&& frames.len() == k
    &&& frames == unwrap_all(pre.slots().take(k))
    &&& forall|i: int| 0 <= i < k ==> #[trigger] pre.slots()[i] is Some
    &&& forall|i: int|
        0 <= i < frames.len() ==> frame_sequence_number((#[trigger] frames[i]).bytes())
            == pre.window().window_left_edge + i + 1
    &&& post.slots() == pre.slots().skip(k)
    &&& post.window().frame_status@ == pre.window().frame_status@.skip(k)
    &&& post.window().window_left_edge == pre.window().window_left_edge + k
    &&& post.window().window_size == pre.window().window_size
}

/// Whether a shift of this window keeps the left edge within a sequence number.
pub open spec fn can_shift(w: ReceiverWindow) -> bool {
    w.window().window_left_edge + leading_true_count(w.window().frame_status@) <= u32::MAX
}

/// Whether a window is as `default` makes it.
pub open spec fn is_fresh(w: ReceiverWindow) -> bool {
    &&& w.well_formed()
    &&& w.window().frame_status@ == Seq::<bool>::empty()
    &&& w.window().window_size == u32::MAX / 2
    &&& w.window().window_left_edge == 0
    &&& w.slots() == Seq::<Option<Frame>>::empty()
}

impl Default for ReceiverWindow {
    fn default() -> (r: Self)
        ensures
            is_fresh(r),
    {
        Self { inner_window: NewWindow::default(), buffer: Vec::new() }
    }
}

impl ReceiverWindow {
    /// The window over the sequence numbers.
    pub closed spec fn window(&self) -> NewWindow {
        self.inner_window
    }

    /// The slots of the window: the frame that arrived for each, if any.
    pub closed spec fn slots(&self) -> Seq<Option<Frame>> {
        self.buffer@
    }

    /// Each slot holds a frame exactly when the window marks it as received.
    pub closed spec fn well_formed(&self) -> bool {
        &&& self.buffer@.len() == self.inner_window.frame_status@.len()
        &&& forall|i: int|
            0 <= i < self.buffer@.len() ==> (#[trigger] self.buffer@[i] is Some
                <==> self.inner_window.frame_status@[i])
        &&& forall|i: int|
            0 <= i < self.buffer@.len() && (#[trigger] self.buffer@[i]) is Some
                ==> frame_sequence_number(self.buffer@[i]->0.bytes())
                == self.inner_window.window_left_edge + i + 1
    }

    /// A well-formed window has one slot for each status flag.
    pub proof fn lemma_slots_match_statuses(&self)
        requires
            self.well_formed(),
        ensures
            self.slots().len() == self.window().frame_status@.len(),
    {
    }

    /// Lengthens the slots with empty ones up to `n`.
    fn pad_buffer(&mut self, n: usize)
        ensures
            final(self).buffer@ == pad_to(old(self).buffer@, n as int, None),
            final(self).inner_window == old(self).inner_window,
    {
        let ghost start = self.buffer@;
        while self.buffer.len() < n
            invariant
                self.inner_window == old(self).inner_window,
                start == old(self).buffer@,
                self.buffer@.len() >= start.len(),
                self.buffer@.len() <= n || self.buffer@.len() == start.len(),
                self.buffer@.subrange(0, start.len() as int) == start,
                forall|i: int| start.len() <= i < self.buffer@.len() ==> #[trigger] self.buffer@[i] is None,
            decreases n - self.buffer@.len(),
        {
            self.buffer.push(None);
        }
        assert(self.buffer@ =~= pad_to(start, n as int, None));
    }

    /// Whether the window's right edge fits in a sequence number.
    pub fn right_edge_fits(&self) -> (r: bool)
        ensures
            r == self.window().edges_fit(),
    {
        self.inner_window.right_edge_fits()
    }

    /// Whether shifting keeps the left edge within a sequence number.
    pub fn shift_fits(&self) -> (r: bool)
        ensures
            r == (self.window().window_left_edge + leading_true_count(self.window().frame_status@)
                <= u32::MAX),
    {
        self.inner_window.shift_fits()
    }

    pub fn set_window_size(&mut self, size: u32)
        requires
            old(self).well_formed(),
        ensures
            final(self).well_formed(),
            final(self).window().window_size == size,
            final(self).window().window_left_edge == old(self).window().window_left_edge,
            final(self).window().frame_status@ == resized(
                old(self).window().frame_status@,
                size as int,
                false,
            ),
            final(self).slots() == resized(old(self).slots(), size as int, None),
    {
        self.inner_window.set_window_size(size);
        if (size as usize) <= self.buffer.len() {
            self.buffer.truncate(size as usize);
        } else {
            self.pad_buffer(size as usize);
        }
        assert(self.buffer@ =~= resized(old(self).buffer@, size as int, None));
    }

    pub fn is_within_window(&self, sequence_number: u32) -> (r: bool)
        requires
            self.window().edges_fit(),
        ensures
            r == within_window(
                self.window().window_left_edge,
                self.window().window_size,
                sequence_number,
            ),
    {
        self.inner_window.is_within_window(sequence_number)
    }

    /// Shifts the window and returns the shifted frames.
    ///
    /// # Returns
    ///
    /// A vector containing the shifted frames in order.
    ///
    pub fn shift_window(&mut self) -> (r: Vec<Frame>)
        requires
            old(self).well_formed(),
            old(self).window().window_left_edge + leading_true_count(
                old(self).window().frame_status@,
            ) <= u32::MAX,
        ensures
            shifts_into(*old(self), *final(self), r@),
    {
        proof {
            lemma_leading_true_count(self.inner_window.frame_status@);
        }
        let shift_amount = self.inner_window.shift_window();
        let mut shifted_frames = self.buffer.split_off(shift_amount);
        std::mem::swap(&mut self.buffer, &mut shifted_frames);
        let ghost pre = shifted_frames@;
        assert(pre == old(self).buffer@.take(shift_amount as int));
        let mut result: Vec<Frame> = Vec::new();
        for slot in it: shifted_frames
            invariant
                pre.len() == shift_amount,
                it.seq() == pre,
                forall|i: int| 0 <= i < pre.len() ==> #[trigger] pre[i] is Some,
                result@ == unwrap_all(pre.take(it.index() as int)),
        {
            match slot {
                Some(frame) => {
                    result.push(frame);
                },
                None => {},
            }
            assert(pre.take(it.index() + 1) =~= pre.take(it.index() as int).push(pre[it.index() as int]));
        }
        assert(pre.take(pre.len() as int) =~= pre);
        assert forall|i: int| 0 <= i < self.buffer@.len() && (#[trigger] self.buffer@[i]) is Some
            implies frame_sequence_number(self.buffer@[i]->0.bytes())
                == self.inner_window.window_left_edge + i + 1 by {
            assert(self.buffer@[i] == old(self).buffer@[i + shift_amount]);
        }
        result
    }

    /// Stores a frame in the slot of its sequence number, when that lies in the window.
    pub fn handle_incoming_frame(&mut self, frame: Frame)
        requires
            old(self).well_formed(),
            old(self).window().edges_fit(),
        ensures
            receives_into(
                old(self).window().frame_status@,
                old(self).window().window_left_edge,
                old(self).window().window_size,
                old(self).slots(),
                *final(self),
                frame,
            ),
    {
        if !self.is_within_window(frame.get_sequence_number()) {
            return;
        }
        let index = match self.inner_window.get_window_index(frame.get_sequence_number()) {
            Some(index) => index,
            None => {
                return;
            },
        };
        if index >= self.buffer.len() {
            self.pad_buffer(index + 1);
        }
        assert(self.buffer@ =~= pad_to(old(self).buffer@, index + 1, None));
        self.buffer.set(index, Some(frame));
        self.inner_window.update_frame_status(index);
        assert forall|i: int| 0 <= i < self.buffer@.len() implies (#[trigger] self.buffer@[i] is Some
            <==> self.inner_window.frame_status@[i]) by {
            if i != index && i < old(self).buffer@.len() {
                assert(self.buffer@[i] == old(self).buffer@[i]);
            }
        }
        assert forall|i: int| 0 <= i < self.buffer@.len() && (#[trigger] self.buffer@[i]) is Some
            implies frame_sequence_number(self.buffer@[i]->0.bytes())
                == self.inner_window.window_left_edge + i + 1 by {
            if i != index && i < old(self).buffer@.len() {
                assert(self.buffer@[i] == old(self).buffer@[i]);
            }
        }
    }
}

/// A frame received for the first slot of the window is the first frame that the next
/// shift hands out.
pub proof fn lemma_first_frame_is_delivered(
    pre: ReceiverWindow,
    mid: ReceiverWindow,
    post: ReceiverWindow,
    frame: Frame,
    frames: Seq<Frame>,
)
    requires
        pre.well_formed(),
        pre.window().edges_fit(),
        frame_sequence_number(frame.bytes()) == pre.window().window_left_edge + 1,
        pre.window().window_size > 1,
        receives_into(
            pre.window().frame_status@,
            pre.window().window_left_edge,
            pre.window().window_size,
            pre.slots(),
            mid,
            frame,
        ),
        shifts_into(mid, post, frames),
    ensures
        frames.len() >= 1,
        frames[0] == frame,
        post.window().window_left_edge >= pre.window().window_left_edge + 1,
{
    let s = mid.window().frame_status@;
    assert(s[0]);
    assert(s.len() > 0);
    assert(leading_true_count(s) == 1 + leading_true_count(s.drop_first()));
    lemma_leading_true_count(s);
    assert(mid.slots().len() == s.len());
    assert(mid.slots()[0] == Some(frame));
    assert(mid.slots().take(leading_true_count(s) as int)[0] == Some(frame));
    assert(unwrap_all(mid.slots().take(leading_true_count(s) as int))[0] == frame);
}

/// Whether a frame's control octet carries the end-of-message bit.
pub open spec fn ends_message(bytes: Seq<u8>) -> bool {
    frame_control_bits(bytes) / 2 == 1
}

/// Takes a frame that the window handed out, in order: its data is appended to the message
/// being put together; when the frame ends the message, the whole message is returned and
/// the buffer starts afresh.
pub fn deliver_frame(buffer: &mut Vec<u8>, frame: &Frame) -> (r: Option<Vec<u8>>)
    requires
        known_bits(frame_control_bits(frame.bytes())),
        frame_data_offset(frame.bytes()) + frame_data_length(frame.bytes()) <= MAX_FRAME_SIZE,
    ensures
        ends_message(frame.bytes()) ==> {
            &&& r matches Some(message)
            &&& message@ == old(buffer)@ + frame_data(frame.bytes())
            &&& final(buffer)@ == Seq::<u8>::empty()
        },
        !ends_message(frame.bytes()) ==> {
            &&& r is None
            &&& final(buffer)@ == old(buffer)@ + frame_data(frame.bytes())
        },
{
    let data = frame.get_data();
    let ghost start = buffer@;
    let mut i: usize = 0;
    while i < data.len()
        invariant
            0 <= i <= data@.len(),
            buffer@ == start + data@.take(i as int),
        decreases data@.len() - i,
    {
        buffer.push(data[i]);
        i += 1;
        assert(buffer@ =~= start + data@.take(i as int));
    }
    assert(data@.take(data@.len() as int) =~= data@);
    let bits = frame.get_control_bits();
    let control_bits = ControlBits::from_bits(bits).unwrap();
    if control_bits.contains(ControlBits::eom()) {
        assert(bits / 2 == 1) by (bit_vector)
            requires
                bits <= 3u8,
                bits & 2u8 == 2u8,
        ;
        let mut message: Vec<u8> = Vec::new();
        std::mem::swap(buffer, &mut message);
        Some(message)
    } else {
        assert(bits / 2 == 0) by (bit_vector)
            requires
                bits <= 3u8,
                bits & 2u8 != 2u8,
        ;
        None
    }
}

/// What delivering the buffers `frames` one after another, as `deliver_frame` does, leaves:
/// the message being put together, and the complete messages handed out, in order.
pub open spec fn assemble(frames: Seq<Seq<u8>>) -> (Seq<u8>, Seq<Seq<u8>>)
    decreases frames.len(),
{
    if frames.len() == 0 {
        (Seq::empty(), Seq::empty())
    } else {
        let (buffer, messages) = assemble(frames.drop_last());
        let extended = buffer + frame_data(frames.last());
        if ends_message(frames.last()) {
            (Seq::empty(), messages.push(extended))
        } else {
            (extended, messages)
        }
    }
}

/// A second shift, with no frame received after the first, hands out nothing and leaves the
/// window as it was.
pub proof fn lemma_second_shift_hands_out_nothing(
    pre: ReceiverWindow,
    mid: ReceiverWindow,
    post: ReceiverWindow,
    first: Seq<Frame>,
    second: Seq<Frame>,
)
    requires
        shifts_into(pre, mid, first),
        shifts_into(mid, post, second),
    ensures
        second.len() == 0,
        post.slots() == mid.slots(),
        post.window().frame_status@ == mid.window().frame_status@,
        post.window().window_left_edge == mid.window().window_left_edge,
        post.window().window_size == mid.window().window_size,
{
    crate::transport_layer::window::lemma_shift_is_idempotent(pre.window().frame_status@);
    assert(mid.slots().skip(0) =~= mid.slots());
    assert(mid.window().frame_status@.skip(0) =~= mid.window().frame_status@);
}

/// The slots and status flags of a window after it takes `frame`, as `handle_incoming_frame`
/// makes them (see `receives_into`).
pub open spec fn receive_step(
    slots: Seq<Option<Frame>>,
    status: Seq<bool>,
    left_edge: u32,
    size: u32,
    frame: Frame,
) -> (Seq<Option<Frame>>, Seq<bool>) {
    let sequence_number = frame_sequence_number(frame.bytes());
    let index = sequence_number - left_edge - 1;
    if within_window(left_edge, size, sequence_number) {
        (pad_to(slots, index + 1, None).update(index, Some(frame)), pad_to(status, index + 1, false).update(index, true))
    } else {
        (slots, status)
    }
}

/// A window that takes a frame, as `handle_incoming_frame` does, ends with the slots and
/// status flags of `receive_step`, at the same edge and size.
pub proof fn lemma_receives_into_is_receive_step(
    frame_status: Seq<bool>,
    left_edge: u32,
    size: u32,
    slots: Seq<Option<Frame>>,
    post: ReceiverWindow,
    frame: Frame,
)
    requires
        receives_into(frame_status, left_edge, size, slots, post, frame),
    ensures
        (post.slots(), post.window().frame_status@) == receive_step(slots, frame_status, left_edge, size, frame),
        post.window().window_left_edge == left_edge,
        post.window().window_size == size,
{
}

/// The slots and status flags of a window after it takes `frames`, one after another.
pub open spec fn receive_frames(
    slots: Seq<Option<Frame>>,
    status: Seq<bool>,
    left_edge: u32,
    size: u32,
    frames: Seq<Frame>,
) -> (Seq<Option<Frame>>, Seq<bool>)
    decreases frames.len(),
{
    if frames.len() == 0 {
        (slots, status)
    } else {
        let (s, t) = receive_frames(slots, status, left_edge, size, frames.drop_last());
        receive_step(s, t, left_edge, size, frames.last())
    }
}

proof fn lemma_receive_frames_prefix(left_edge: u32, size: u32, frames: Seq<Frame>, n: int, p: int)
    requires
        0 <= p <= frames.len(),
        0 <= n,
        left_edge + size <= u32::MAX,
        n < size,
        forall|j: int| 0 <= j < frames.len() ==> left_edge < #[trigger] frame_sequence_number(frames[j].bytes())
            <= left_edge + n,
    ensures
        ({
            let (sl, st) = receive_frames(Seq::empty(), Seq::empty(), left_edge, size, frames.take(p));
            &&& sl.len() == st.len() <= n
            &&& forall|i: int| 0 <= i < sl.len() ==> (st[i] <==> #[trigger] sl[i] is Some)
            &&& forall|i: int| 0 <= i < sl.len() && #[trigger] sl[i] is Some ==> {
                &&& frame_sequence_number(sl[i]->0.bytes()) == left_edge + i + 1
                &&& exists|j: int| 0 <= j < p && frames[j] == sl[i]->0
            }
            &&& forall|j: int| 0 <= j < p ==> {
                let i = frame_sequence_number(#[trigger] frames[j].bytes()) - left_edge - 1;
                i < sl.len() && sl[i] is Some
            }
        }),
    decreases p,
{
    if p == 0 {
        assert(frames.take(0) =~= Seq::<Frame>::empty());
    } else {
        lemma_receive_frames_prefix(left_edge, size, frames, n, p - 1);
        let prefix = frames.take(p);
        assert(prefix.drop_last() =~= frames.take(p - 1));
        assert(prefix.last() == frames[p - 1]);
        let (sl0, st0) = receive_frames(Seq::empty(), Seq::empty(), left_edge, size, frames.take(p - 1));
        let f = frames[p - 1];
        let sn = frame_sequence_number(f.bytes());
        let index = sn - left_edge - 1;
        assert(within_window(left_edge, size, sn));
        let (sl, st) = receive_frames(Seq::empty(), Seq::empty(), left_edge, size, prefix);
        assert(sl == pad_to(sl0, index + 1, None).update(index, Some(f)));
        assert(st == pad_to(st0, index + 1, false).update(index, true));
        assert forall|i: int| 0 <= i < sl.len() && #[trigger] sl[i] is Some implies {
            &&& frame_sequence_number(sl[i]->0.bytes()) == left_edge + i + 1
            &&& exists|j: int| 0 <= j < p && frames[j] == sl[i]->0
        } by {
            if i != index {
                assert(i < sl0.len());
                assert(sl[i] == sl0[i]);
                let j = choose|j: int| 0 <= j < p - 1 && frames[j] == sl0[i]->0;
                assert(0 <= j < p && frames[j] == sl[i]->0);
            } else {
                assert(frames[p - 1] == sl[i]->0);
            }
        }
        assert forall|i: int| 0 <= i < sl.len() implies (st[i] <==> #[trigger] sl[i] is Some) by {
            if i != index && i < sl0.len() {
                assert(sl[i] == sl0[i]);
                assert(st[i] == st0[i]);
            }
        }
        assert forall|j: int| 0 <= j < p implies {
            let i = frame_sequence_number(#[trigger] frames[j].bytes()) - left_edge - 1;
            i < sl.len() && sl[i] is Some
        } by {
            if j < p - 1 {
                let i = frame_sequence_number(frames[j].bytes()) - left_edge - 1;
                if i != index {
                    assert(sl[i] == sl0[i]);
                }
            }
        }
    }
}

/// Whether one of `frames` is numbered `sequence_number`.
pub open spec fn numbers_arrive(frames: Seq<Frame>, sequence_number: int) -> bool {
    exists|j: int| 0 <= j < frames.len() && #[trigger] frame_sequence_number(frames[j].bytes()) == sequence_number
}

/// Frames that arrive in any order, each numbered within the next `n` sequence numbers after
/// the left edge of a window that has taken nothing yet, and together covering all of them,
/// fill its first `n` slots in order of sequence number: the window marks those `n` slots as
/// received, slot `i` holding a frame that arrived numbered `left_edge + i + 1`, so that a
/// shift hands out exactly those `n` frames in that order (see `shifts_into`).
pub proof fn lemma_frames_in_any_order_come_out_in_order(left_edge: u32, size: u32, frames: Seq<Frame>, n: int)
    requires
        left_edge + size <= u32::MAX,
        0 <= n < size,
        forall|j: int| 0 <= j < frames.len() ==> left_edge < #[trigger] frame_sequence_number(frames[j].bytes())
            <= left_edge + n,
        forall|k: int| 1 <= k <= n ==> #[trigger] numbers_arrive(frames, left_edge + k),
    ensures
        ({
            let (sl, st) = receive_frames(Seq::empty(), Seq::empty(), left_edge, size, frames);
            &&& sl.len() == n
            &&& st.len() == n
            &&& leading_true_count(st) == n
            &&& forall|i: int| 0 <= i < n ==> {
                &&& #[trigger] sl[i] is Some
                &&& frame_sequence_number(sl[i]->0.bytes()) == left_edge + i + 1
                &&& exists|j: int| 0 <= j < frames.len() && frames[j] == sl[i]->0
            }
        }),
{
    lemma_receive_frames_prefix(left_edge, size, frames, n, frames.len() as int);
    assert(frames.take(frames.len() as int) =~= frames);
    let (sl, st) = receive_frames(Seq::empty(), Seq::empty(), left_edge, size, frames);
    assert forall|i: int| 0 <= i < n implies #[trigger] sl[i] is Some && i < sl.len() by {
        assert(numbers_arrive(frames, left_edge + (i + 1)));
        let j = choose|j: int| 0 <= j < frames.len()
            && #[trigger] frame_sequence_number(frames[j].bytes()) == left_edge + (i + 1);
        assert(frame_sequence_number(frames[j].bytes()) - left_edge - 1 == i);
    }
    if n > 0 {
        assert(sl[n - 1] is Some);
    }
    assert(sl.len() == n);
    assert forall|i: int| 0 <= i < n implies #[trigger] st[i] by {
        assert(sl[i] is Some);
    }
    lemma_leading_true_count_unique(st, n);
}

} // verus!
