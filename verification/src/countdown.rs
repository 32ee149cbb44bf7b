//! The live countdown as a state machine: one tick takes one second off
//! the remaining time, and the state completes exactly when the remaining
//! time reaches zero. The caller performs the waiting and the rendering
//! between ticks.

use vstd::prelude::*;
use crate::duration::Duration;
use crate::duration::duration_chars;

verus! {

#[derive(Clone, Copy, PartialEq, Eq, Structural, Debug)]
pub enum CountdownStatus {
    Running,
    Completed,
    Aborted,
}

/// The state of one countdown: the seconds still to wait and whether the
/// countdown is running, completed, or was torn down early.
#[derive(Clone, Copy, PartialEq, Eq, Structural, Debug)]
pub struct CountdownState {
    pub remaining: u64,
    pub status: CountdownStatus,
}

impl CountdownState {
    /// A countdown runs only while time remains and completes exactly at
    /// zero; an aborted countdown may hold any remainder.
    pub open spec fn wf(self) -> bool {
        &&& (self.status is Running ==> self.remaining > 0)
        &&& (self.status is Completed ==> self.remaining == 0)
    }

    /// The state after one tick of a running countdown.
    pub open spec fn tick_spec(self) -> CountdownState {
        CountdownState {
            remaining: (self.remaining - 1) as u64,
            status: if self.remaining == 1 {
                CountdownStatus::Completed
            } else {
                CountdownStatus::Running
            },
        }
    }

    /// Starts a countdown over a duration; a zero duration is complete at
    /// once.
    pub fn new(d: &Duration) -> (s: CountdownState)
        requires
            d.wf(),
        ensures
            s.wf(),
            s.remaining == d.total_spec(),
            s.status == (if d.total_spec() > 0 {
                CountdownStatus::Running
            } else {
                CountdownStatus::Completed
            }),
    {
        let remaining = d.total_seconds();
        let status = if remaining > 0 {
            CountdownStatus::Running
        } else {
            CountdownStatus::Completed
        };
        CountdownState { remaining, status }
    }

    /// One tick: takes exactly one second off the remaining time, and
    /// completes the countdown exactly when the remainder reaches zero.
    pub fn tick(&mut self)
        requires
            old(self).wf(),
            old(self).status is Running,
        ensures
            *final(self) == old(self).tick_spec(),
            final(self).wf(),
            final(self).remaining == old(self).remaining - 1,
    {
        self.remaining = self.remaining - 1;
        if self.remaining == 0 {
            self.status = CountdownStatus::Completed;
        }
    }

    /// Tears the countdown down early, keeping the remainder.
    pub fn abort(&mut self)
        ensures
            final(self).status is Aborted,
            final(self).remaining == old(self).remaining,
    {
        self.status = CountdownStatus::Aborted;
    }

    pub fn is_running(&self) -> (r: bool)
        ensures
            r == (self.status is Running),
    {
        match self.status {
            CountdownStatus::Running => true,
            _ => false,
        }
    }

    /// The remaining time in the zero-padded `HH:MM:SS` form.
    pub fn render(&self) -> (r: String)
        ensures
            r@ == duration_chars(Duration::decompose(self.remaining as int)),
    {
        let d = Duration::from_total_seconds(self.remaining);
        crate::duration::format_duration(&d)
    }
}

/// Countdown monotonicity: each tick of a running countdown lowers the
/// remainder by exactly one second, the remainder never goes below zero,
/// and the countdown moves from running to completed exactly when the
/// remainder reaches zero — after which no further tick is permitted, so
/// the transition happens at most once.
pub proof fn lemma_tick_monotonic(s: CountdownState)
    requires
        s.wf(),
        s.status is Running,
    ensures
        s.tick_spec().wf(),
        s.tick_spec().remaining == s.remaining - 1,
        s.tick_spec().remaining < s.remaining,
        s.tick_spec().remaining >= 0,
        (s.tick_spec().status is Completed) <==> (s.tick_spec().remaining == 0),
        (s.tick_spec().status is Running) <==> (s.tick_spec().remaining > 0),
{
}

} // verus!
