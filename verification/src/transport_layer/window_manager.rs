use vstd::prelude::*;

use std::collections::HashMap;
use vstd::std_specs::iter::IteratorSpec;

use crate::transport_layer::constants::MAX_DATA_SIZE;
use crate::transport_layer::frame::{Frame, frame_channel_id};
use crate::transport_layer::receiver_window::{
    ReceiverWindow, receives_into, shifts_into, can_shift, is_fresh,
    lemma_second_shift_hands_out_nothing,
};
use crate::transport_layer::transmitter_window::TransmitterWindow;
use crate::seq_util::leading_true_count;

verus! {

broadcast use vstd::std_specs::hash::group_hash_axioms;

/// A window for the main channel (channel 0) and one for each fragment channel.
pub struct WindowManager<TWindow> {
    main_channel: TWindow,
    fragment_channels: HashMap<u32, TWindow>,
}

/// Whether a receiving window's right edge fits in a sequence number.
pub open spec fn receiver_edges_fit(w: ReceiverWindow) -> bool {
    w.window().edges_fit()
}

/// What `shift_all_windows` makes of a manager, and the frames it hands out for each
/// channel: every window shifts as `shift_window` does, and each channel, the main one as 0,
/// gets the frames its window handed out.
pub open spec fn shifts_all_into(
    pre: WindowManager<ReceiverWindow>,
    post: WindowManager<ReceiverWindow>,
    r: Map<u32, Vec<Frame>>,
) -> bool {
    &&& post.well_formed()
    &&& r.dom() == pre.fragments().dom().insert(0)
    &&& shifts_into(pre.main_window(), post.main_window(), r[0]@)
    &&& post.fragments().dom() == pre.fragments().dom()
    &&& forall|k: u32| #[trigger] pre.fragments().contains_key(k) ==> shifts_into(
        pre.fragments()[k],
        post.fragments()[k],
        r[k]@,
    )
}

/// Shifting all windows a second time, with no frame handled in between, hands out nothing
/// on any channel, for the same channels, and leaves every window as it was.
pub proof fn lemma_second_shift_of_all_windows(
    pre: WindowManager<ReceiverWindow>,
    mid: WindowManager<ReceiverWindow>,
    post: WindowManager<ReceiverWindow>,
    first: Map<u32, Vec<Frame>>,
    second: Map<u32, Vec<Frame>>,
)
    requires
        shifts_all_into(pre, mid, first),
        shifts_all_into(mid, post, second),
    ensures
        second.dom() == first.dom(),
        forall|k: u32| #[trigger] second.contains_key(k) ==> second[k]@.len() == 0,
        post.main_window().slots() == mid.main_window().slots(),
        post.main_window().window().frame_status@ == mid.main_window().window().frame_status@,
        post.main_window().window().window_left_edge == mid.main_window().window().window_left_edge,
        post.fragments().dom() == mid.fragments().dom(),
        forall|k: u32| #[trigger] post.fragments().contains_key(k) ==> {
            &&& post.fragments()[k].slots() == mid.fragments()[k].slots()
            &&& post.fragments()[k].window().frame_status@ == mid.fragments()[k].window().frame_status@
            &&& post.fragments()[k].window().window_left_edge == mid.fragments()[k].window().window_left_edge
        },
{
    lemma_second_shift_hands_out_nothing(
        pre.main_window(),
        mid.main_window(),
        post.main_window(),
        first[0]@,
        second[0]@,
    );
    assert forall|k: u32| #[trigger] post.fragments().contains_key(k) implies {
        &&& post.fragments()[k].slots() == mid.fragments()[k].slots()
        &&& post.fragments()[k].window().frame_status@ == mid.fragments()[k].window().frame_status@
        &&& post.fragments()[k].window().window_left_edge == mid.fragments()[k].window().window_left_edge
    } by {
        assert(pre.fragments().contains_key(k));
        lemma_second_shift_hands_out_nothing(
            pre.fragments()[k],
            mid.fragments()[k],
            post.fragments()[k],
            first[k]@,
            second[k]@,
        );
    }
    assert forall|k: u32| #[trigger] second.contains_key(k) implies second[k]@.len() == 0 by {
        if k != 0 {
            assert(pre.fragments().contains_key(k));
            lemma_second_shift_hands_out_nothing(
                pre.fragments()[k],
                mid.fragments()[k],
                post.fragments()[k],
                first[k]@,
                second[k]@,
            );
        }
    }
}

impl WindowManager<ReceiverWindow> {
    /// The window of the main channel.
    pub closed spec fn main_window(&self) -> ReceiverWindow {
        self.main_channel
    }

    /// The window of each fragment channel.
    pub closed spec fn fragments(&self) -> Map<u32, ReceiverWindow> {
        self.fragment_channels@
    }

    /// Every window is well formed and channel 0 is the main channel only.
    pub open spec fn well_formed(&self) -> bool {
        &&& self.main_window().well_formed()
        &&& forall|k: u32| #[trigger] self.fragments().contains_key(k) ==> self.fragments()[k].well_formed()
        &&& !self.fragments().contains_key(0)
    }

    /// Every window's right edge fits in a sequence number.
    pub open spec fn edges_fit(&self) -> bool {
        &&& receiver_edges_fit(self.main_window())
        &&& forall|k: u32| #[trigger] self.fragments().contains_key(k) ==> receiver_edges_fit(self.fragments()[k])
    }

    pub fn new() -> (r: Self)
        ensures
            r.well_formed(),
            is_fresh(r.main_window()),
            r.fragments() == Map::<u32, ReceiverWindow>::empty(),
    {
        Self { main_channel: ReceiverWindow::default(), fragment_channels: HashMap::new() }
    }

    /// Hands a frame to the window of its channel, opening a window for a new fragment channel.
    pub fn handle_incoming_frame(&mut self, frame: Frame)
        requires
            old(self).well_formed(),
            old(self).edges_fit(),
        ensures
            final(self).well_formed(),
            ({
                let channel_id = frame_channel_id(frame.bytes()) as u32;
                if channel_id == 0 {
                    &&& receives_into(
                        old(self).main_window().window().frame_status@,
                        old(self).main_window().window().window_left_edge,
                        old(self).main_window().window().window_size,
                        old(self).main_window().slots(),
                        final(self).main_window(),
                        frame,
                    )
                    &&& final(self).fragments() == old(self).fragments()
                } else {
                    &&& final(self).main_window() == old(self).main_window()
                    &&& final(self).fragments().dom() == old(self).fragments().dom().insert(channel_id)
                    &&& forall|k: u32| k != channel_id && #[trigger] old(self).fragments().contains_key(k)
                        ==> final(self).fragments()[k] == old(self).fragments()[k]
                    &&& if old(self).fragments().contains_key(channel_id) {
                        let w = old(self).fragments()[channel_id];
                        receives_into(
                            w.window().frame_status@,
                            w.window().window_left_edge,
                            w.window().window_size,
                            w.slots(),
                            final(self).fragments()[channel_id],
                            frame,
                        )
                    } else {
                        receives_into(
                            Seq::empty(),
                            0,
                            u32::MAX / 2,
                            Seq::empty(),
                            final(self).fragments()[channel_id],
                            frame,
                        )
                    }
                }
            }),
    {
        let channel_id = frame.get_channel_id() as u32;
        if channel_id == 0 {
            self.main_channel.handle_incoming_frame(frame);
        } else {
            let mut fragment_channel = match self.fragment_channels.remove(&channel_id) {
                Some(w) => w,
                None => ReceiverWindow::default(),
            };
            fragment_channel.handle_incoming_frame(frame);
            self.fragment_channels.insert(channel_id, fragment_channel);
            assert(self.fragment_channels@.dom() =~= old(self).fragment_channels@.dom().insert(channel_id));
        }
    }

    /// Shifts every window and returns, for each channel, the frames that it hands out.
    pub fn shift_all_windows(&mut self) -> (r: HashMap<u32, Vec<Frame>>)
        requires
            old(self).well_formed(),
            can_shift(old(self).main_window()),
            forall|k: u32| #[trigger] old(self).fragments().contains_key(k) ==> can_shift(old(self).fragments()[k]),
        ensures
            shifts_all_into(*old(self), *final(self), r@),
    {
        let mut all_shifted_frames: HashMap<u32, Vec<Frame>> = HashMap::new();
        let main_frames = self.main_channel.shift_window();
        all_shifted_frames.insert(0, main_frames);
        let mut keys: Vec<u32> = Vec::new();
        let ghost all_keys = vstd::std_specs::hash::spec_keys_iter(&self.fragment_channels).remaining().unref();
        assert(all_keys.to_set() == self.fragment_channels@.dom());
        assert(all_keys.no_duplicates()) by {
            assert forall|a: int, b: int| 0 <= a < all_keys.len() && 0 <= b < all_keys.len() && a != b
                implies all_keys[a] != all_keys[b] by {
                let rem = vstd::std_specs::hash::spec_keys_iter(&self.fragment_channels).remaining();
                assert(rem[a] != rem[b]);
            }
        }
        for k in it: self.fragment_channels.keys()
            invariant
                it.seq().unref() == all_keys,
                keys@ == all_keys.take(it.index() as int),
        {
            keys.push(*k);
            assert(all_keys.take(it.index() + 1) =~= all_keys.take(it.index() as int).push(*k));
        }
        assert(keys@ =~= all_keys);
        let ghost pre = self.fragment_channels@;
        let mut i: usize = 0;
        while i < keys.len()
            invariant
                keys@.to_set() == pre.dom(),
                keys@.no_duplicates(),
                0 <= i <= keys@.len(),
                pre == old(self).fragment_channels@,
                self.fragment_channels@.dom() == pre.dom(),
                !pre.contains_key(0),
                forall|k: u32| #[trigger] pre.contains_key(k) ==> pre[k].well_formed() && can_shift(pre[k]),
                all_shifted_frames@.dom() == keys@.take(i as int).to_set().insert(0),
                shifts_into(old(self).main_channel, self.main_channel, all_shifted_frames@[0]@),
                forall|j: int| 0 <= j < i ==> shifts_into(
                    pre[#[trigger] keys@[j]],
                    self.fragment_channels@[keys@[j]],
                    all_shifted_frames@[keys@[j]]@,
                ),
                forall|j: int| i <= j < keys@.len() ==> self.fragment_channels@[#[trigger] keys@[j]]
                    == pre[keys@[j]],
            decreases keys@.len() - i,
        {
            let key = keys[i];
            assert(keys@.to_set().contains(key));
            let mut fragment_channel = self.fragment_channels.remove(&key).unwrap();
            let shifted = fragment_channel.shift_window();
            self.fragment_channels.insert(key, fragment_channel);
            all_shifted_frames.insert(key, shifted);
            proof {
                assert(keys@.take(i + 1) =~= keys@.take(i as int).push(key));
                let t = keys@.take(i as int);
                let t1 = keys@.take(i + 1);
                assert forall|x: u32| t1.to_set().contains(x) <==> t.to_set().insert(key).contains(x) by {
                    if t.contains(x) {
                        let j = choose|j: int| 0 <= j < t.len() && t[j] == x;
                        assert(t1[j] == x);
                    }
                    if x == key {
                        assert(t1[i as int] == key);
                    }
                    if t1.contains(x) {
                        let j = choose|j: int| 0 <= j < t1.len() && t1[j] == x;
                        if j < i {
                            assert(t[j] == x);
                        }
                    }
                }
                assert(t1.to_set() =~= t.to_set().insert(key));
                assert(all_shifted_frames@.dom() =~= keys@.take(i + 1).to_set().insert(0));
            }
            i = i + 1;
        }
        assert(keys@.take(keys@.len() as int) =~= keys@);
        assert(all_shifted_frames@.dom() =~= old(self).fragment_channels@.dom().insert(0));
        all_shifted_frames
    }
}

impl Default for WindowManager<ReceiverWindow> {
    fn default() -> (r: Self)
        ensures
            r.well_formed(),
            is_fresh(r.main_window()),
            r.fragments() == Map::<u32, ReceiverWindow>::empty(),
    {
        WindowManager::<ReceiverWindow>::new()
    }
}

impl Default for WindowManager<TransmitterWindow> {
    fn default() -> (r: Self)
        ensures
            r.main_window().well_formed(),
    {
        WindowManager::<TransmitterWindow>::new()
    }
}

impl WindowManager<TransmitterWindow> {
    pub fn new() -> (r: Self)
        ensures
            r.main_window().well_formed(),
    {
        Self { main_channel: TransmitterWindow::new(), fragment_channels: HashMap::new() }
    }

    /// The window of the main channel.
    pub closed spec fn main_window(&self) -> TransmitterWindow {
        self.main_channel
    }

    pub fn shift_main_channel_window(&mut self)
        requires
            old(self).main_window().well_formed(),
            old(self).main_window().window().window_left_edge + leading_true_count(
                old(self).main_window().window().frame_status@,
            ) <= u32::MAX,
        ensures
            final(self).main_window().well_formed(),
            final(self).main_window().queue() == old(self).main_window().queue().skip(
                leading_true_count(old(self).main_window().window().frame_status@) as int,
            ),
            final(self).main_window().window().window_left_edge == old(self).main_window().window().window_left_edge
                + leading_true_count(old(self).main_window().window().frame_status@),
    {
        self.main_channel.shift_window();
    }

    /// Whether a message of `data_size` octets takes more than one frame.
    pub fn needs_fragmentation(&self, data_size: usize) -> (r: bool)
        ensures
            r == (data_size > MAX_DATA_SIZE),
    {
        data_size > MAX_DATA_SIZE
    }
}

} // verus!
