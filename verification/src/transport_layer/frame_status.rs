use vstd::prelude::*;

use std::time::{Duration, Instant};

use crate::transport_layer::constants::TIMEOUT;

verus! {

#[verifier::external_type_specification]
#[verifier::external_body]
pub struct ExInstant(Instant);

/// Where a frame of the sending queue stands.
#[derive(Clone, Copy, Default)]
pub enum FrameStatus {
    #[default]
    NotSent,
    Acknowledged,
    Sent(Instant),
}

/// Whether a frame with this status goes out again, given how many milliseconds have passed
/// since it was last sent: frames not sent yet do, acknowledged frames do not, sent frames
/// once their timeout has passed.
pub open spec fn due_after(status: FrameStatus, elapsed_millis: u128) -> bool {
    match status {
        FrameStatus::NotSent => true,
        FrameStatus::Acknowledged => false,
        FrameStatus::Sent(_) => elapsed_millis > TIMEOUT,
    }
}

/// `Instant::elapsed`: the time passed since `instant`; it depends on the clock, so nothing
/// is stated of it.
#[verifier::external_body]
fn instant_elapsed(instant: &Instant) -> Duration {
    instant.elapsed()
}

/// `Duration::as_millis`: the whole milliseconds of a duration; nothing is stated of it
/// here, since a duration is opaque to the library.
#[verifier::external_body]
fn duration_as_millis(duration: &Duration) -> u128 {
    duration.as_millis()
}

impl FrameStatus {
    /// Whether a frame with this status goes out again after `elapsed_millis` milliseconds.
    pub fn is_due_after(&self, elapsed_millis: u128) -> (r: bool)
        ensures
            r == due_after(*self, elapsed_millis),
    {
        match self {
            FrameStatus::NotSent => true,
            FrameStatus::Acknowledged => false,
            FrameStatus::Sent(_) => elapsed_millis > TIMEOUT,
        }
    }

    /// The milliseconds since a sent frame went out, as the clock says; 0 for a frame not
    /// sent or acknowledged.
    pub fn elapsed_millis(&self) -> (r: u128)
        ensures
            !(self is Sent) ==> r == 0,
    {
        match self {
            FrameStatus::Sent(timestamp) => duration_as_millis(&instant_elapsed(timestamp)),
            _ => 0,
        }
    }

    /// Whether a frame with this status goes out now: always when not sent yet, never when
    /// acknowledged, and for a sent frame when the clock says its timeout has passed.
    pub fn is_due(&self) -> (r: bool)
        ensures
            self is NotSent ==> r,
            self is Acknowledged ==> !r,
    {
        let elapsed_millis = self.elapsed_millis();
        self.is_due_after(elapsed_millis)
    }
}

} // verus!
