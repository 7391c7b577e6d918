//! The timer that the timed parts share. It runs only while one of them needs it.

use vstd::prelude::*;

use crate::host::{HostCall, HostCallV};
use crate::ids::group_views;
use crate::state::{ClockV, State, StateV};

verus! {

broadcast use group_views;

/// The time between two frames, in microseconds. It is also the beat of the timer.
pub const FRAME_INTERVAL: u64 = 150_000;

/// How long the focus has to stay on a pane before the pane counts as read, in microseconds.
pub const READ_DELAY: u64 = 600_000;

/// A moment that lies this much later. Time does not run past the largest value.
pub open spec fn later(t: u64, by: u64) -> u64 {
    if t + by <= u64::MAX {
        (t + by) as u64
    } else {
        u64::MAX
    }
}

pub fn add_time(t: u64, by: u64) -> (r: u64)
    ensures
        r == later(t, by),
{
    t.saturating_add(by)
}

impl StateV {
    /// The timer is set, unless it is set already.
    pub open spec fn arm_timer(self) -> StateV {
        if self.clock.timer_armed {
            self
        } else {
            StateV { clock: ClockV { timer_armed: true, ..self.clock }, ..self }.asks(
                HostCallV::SetTimeout(FRAME_INTERVAL),
            )
        }
    }
}

impl State {
    pub fn arm_timer(&mut self)
        ensures
            final(self)@ == old(self)@.arm_timer(),
    {
        if !self.clock.timer_armed {
            self.clock.timer_armed = true;
            self.ask(HostCall::SetTimeout(FRAME_INTERVAL));
        }
    }
}

} // verus!
