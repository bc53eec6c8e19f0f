use vstd::prelude::*;

use std::collections::HashMap;
use vstd::std_specs::iter::IteratorSpec;

use crate::transport_layer::frame::{Frame, frame_channel_id};
use crate::transport_layer::receiver_window::{
    ReceiverWindow, receives_into, shifts_into, can_shift, is_fresh,
};
use crate::transport_layer::window_manager::receiver_edges_fit;

verus! {

broadcast use vstd::std_specs::hash::group_hash_axioms;

/// The receiving windows: the main channel (channel 0) and one window per fragment channel.
pub struct ReceivingWindowManager {
    // If message channel id is 0, this channel will handle the message
    main_channel: ReceiverWindow,
    // If message channel id is not 0, the channel with that id handles it, created if missing
    fragment_channels: HashMap<u8, ReceiverWindow>,
}

impl Default for ReceivingWindowManager {
    fn default() -> (r: Self)
        ensures
            r.well_formed(),
            is_fresh(r.main_window()),
            r.fragments() == Map::<u8, ReceiverWindow>::empty(),
    {
        ReceivingWindowManager::new()
    }
}

impl ReceivingWindowManager {
    /// The window of the main channel.
    pub closed spec fn main_window(&self) -> ReceiverWindow {
        self.main_channel
    }

    /// The window of each fragment channel.
    pub closed spec fn fragments(&self) -> Map<u8, ReceiverWindow> {
        self.fragment_channels@
    }

    /// Every window is well formed and channel 0 is the main channel only.
    pub open spec fn well_formed(&self) -> bool {
        &&& self.main_window().well_formed()
        &&& forall|k: u8| #[trigger] self.fragments().contains_key(k) ==> self.fragments()[k].well_formed()
        &&& !self.fragments().contains_key(0)
    }

    /// Every window's right edge fits in a sequence number.
    pub open spec fn edges_fit(&self) -> bool {
        &&& receiver_edges_fit(self.main_window())
        &&& forall|k: u8| #[trigger] self.fragments().contains_key(k) ==> receiver_edges_fit(self.fragments()[k])
    }

    pub fn new() -> (r: Self)
        ensures
            r.well_formed(),
            is_fresh(r.main_window()),
            r.fragments() == Map::<u8, ReceiverWindow>::empty(),
    {
        Self { main_channel: ReceiverWindow::default(), fragment_channels: HashMap::new() }
    }

    /// Hands a frame to the window of its channel, opening a window for a new fragment channel.
    pub fn handle_incoming_frame(&mut self, frame: Frame)
        requires
            old(self).well_formed(),
            old(self).edges_fit(),
        ensures
            final(self).well_formed(),
            ({
                let channel_id = frame_channel_id(frame.bytes());
                if channel_id == 0 {
                    &&& receives_into(
                        old(self).main_window().window().frame_status@,
                        old(self).main_window().window().window_left_edge,
                        old(self).main_window().window().window_size,
                        old(self).main_window().slots(),
                        final(self).main_window(),
                        frame,
                    )
                    &&& final(self).fragments() == old(self).fragments()
                } else {
                    &&& final(self).main_window() == old(self).main_window()
                    &&& final(self).fragments().dom() == old(self).fragments().dom().insert(channel_id)
                    &&& forall|k: u8| k != channel_id && #[trigger] old(self).fragments().contains_key(k)
                        ==> final(self).fragments()[k] == old(self).fragments()[k]
                    &&& if old(self).fragments().contains_key(channel_id) {
                        let w = old(self).fragments()[channel_id];
                        receives_into(
                            w.window().frame_status@,
                            w.window().window_left_edge,
                            w.window().window_size,
                            w.slots(),
                            final(self).fragments()[channel_id],
                            frame,
                        )
                    } else {
                        receives_into(
                            Seq::empty(),
                            0,
                            u32::MAX / 2,
                            Seq::empty(),
                            final(self).fragments()[channel_id],
                            frame,
                        )
                    }
                }
            }),
    {
        let channel_id = frame.get_channel_id();
        if channel_id == 0 {
            self.main_channel.handle_incoming_frame(frame);
        } else {
            let mut fragment_channel = match self.fragment_channels.remove(&channel_id) {
                Some(w) => w,
                None => ReceiverWindow::default(),
            };
            fragment_channel.handle_incoming_frame(frame);
            self.fragment_channels.insert(channel_id, fragment_channel);
            assert(self.fragment_channels@.dom() =~= old(self).fragment_channels@.dom().insert(channel_id));
        }
    }

    /// Shifts every window and returns, for each channel, the frames that it hands out.
    pub fn shift_all_windows(&mut self) -> (r: HashMap<u8, Vec<Frame>>)
        requires
            old(self).well_formed(),
            can_shift(old(self).main_window()),
            forall|k: u8| #[trigger] old(self).fragments().contains_key(k) ==> can_shift(old(self).fragments()[k]),
        ensures
            final(self).well_formed(),
            r@.dom() == old(self).fragments().dom().insert(0),
            shifts_into(old(self).main_window(), final(self).main_window(), r@[0]@),
            final(self).fragments().dom() == old(self).fragments().dom(),
            forall|k: u8| #[trigger] old(self).fragments().contains_key(k) ==> shifts_into(
                old(self).fragments()[k],
                final(self).fragments()[k],
                r@[k]@,
            ),
    {
        let mut all_shifted_frames: HashMap<u8, Vec<Frame>> = HashMap::new();
        let main_frames = self.main_channel.shift_window();
        all_shifted_frames.insert(0, main_frames);
        let mut keys: Vec<u8> = Vec::new();
        let ghost all_keys = vstd::std_specs::hash::spec_keys_iter(&self.fragment_channels).remaining().unref();
        assert(all_keys.to_set() == self.fragment_channels@.dom());
        assert(all_keys.no_duplicates()) by {
            assert forall|a: int, b: int| 0 <= a < all_keys.len() && 0 <= b < all_keys.len() && a != b
                implies all_keys[a] != all_keys[b] by {
                let rem = vstd::std_specs::hash::spec_keys_iter(&self.fragment_channels).remaining();
                assert(rem[a] != rem[b]);
            }
        }
        for k in it: self.fragment_channels.keys()
            invariant
                it.seq().unref() == all_keys,
                keys@ == all_keys.take(it.index() as int),
        {
            keys.push(*k);
            assert(all_keys.take(it.index() + 1) =~= all_keys.take(it.index() as int).push(*k));
        }
        assert(keys@ =~= all_keys);
        let ghost pre = self.fragment_channels@;
        let mut i: usize = 0;
        while i < keys.len()
            invariant
                keys@.to_set() == pre.dom(),
                keys@.no_duplicates(),
                0 <= i <= keys@.len(),
                pre == old(self).fragment_channels@,
                self.fragment_channels@.dom() == pre.dom(),
                !pre.contains_key(0),
                forall|k: u8| #[trigger] pre.contains_key(k) ==> pre[k].well_formed() && can_shift(pre[k]),
                all_shifted_frames@.dom() == keys@.take(i as int).to_set().insert(0),
                shifts_into(old(self).main_channel, self.main_channel, all_shifted_frames@[0]@),
                forall|j: int| 0 <= j < i ==> shifts_into(
                    pre[#[trigger] keys@[j]],
                    self.fragment_channels@[keys@[j]],
                    all_shifted_frames@[keys@[j]]@,
                ),
                forall|j: int| i <= j < keys@.len() ==> self.fragment_channels@[#[trigger] keys@[j]]
                    == pre[keys@[j]],
            decreases keys@.len() - i,
        {
            let key = keys[i];
            assert(keys@.to_set().contains(key));
            let mut fragment_channel = self.fragment_channels.remove(&key).unwrap();
            let shifted = fragment_channel.shift_window();
            self.fragment_channels.insert(key, fragment_channel);
            all_shifted_frames.insert(key, shifted);
            proof {
                assert(keys@.take(i + 1) =~= keys@.take(i as int).push(key));
                let t = keys@.take(i as int);
                let t1 = keys@.take(i + 1);
                assert forall|x: u8| t1.to_set().contains(x) <==> t.to_set().insert(key).contains(x) by {
                    if t.contains(x) {
                        let j = choose|j: int| 0 <= j < t.len() && t[j] == x;
                        assert(t1[j] == x);
                    }
                    if x == key {
                        assert(t1[i as int] == key);
                    }
                    if t1.contains(x) {
                        let j = choose|j: int| 0 <= j < t1.len() && t1[j] == x;
                        if j < i {
                            assert(t[j] == x);
                        }
                    }
                }
                assert(t1.to_set() =~= t.to_set().insert(key));
                assert(all_shifted_frames@.dom() =~= keys@.take(i + 1).to_set().insert(0));
            }
            i = i + 1;
        }
        assert(keys@.take(keys@.len() as int) =~= keys@);
        assert(all_shifted_frames@.dom() =~= old(self).fragment_channels@.dom().insert(0));
        all_shifted_frames
    }
}

} // verus!
