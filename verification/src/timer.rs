//! The countdown timer: a duration, the moment it was started, and what is
//! left of it. All spans of time are counted in nanoseconds.

use vstd::prelude::*;

verus! {

/// A moment on the monotonic clock, as `std::time::Instant` measures it.
#[verifier::external_type_specification]
#[verifier::external_body]
pub struct ExInstant(std::time::Instant);

/// Nanoseconds in one second.
pub const NANOS_PER_SECOND: u128 = 1_000_000_000;

/// A countdown.
pub struct TimerState {
    /// The span that the countdown was started with, in nanoseconds.
    pub duration: u128,
    /// When the countdown was started; `None` while it does not run.
    pub start_time: Option<std::time::Instant>,
    /// What is left of the countdown, in nanoseconds.
    pub remaining: u128,
    /// Whether the countdown runs.
    pub running: bool,
}

/// Calls `std::time::Instant::now`. Nothing is stated of the moment.
#[verifier::external_body]
fn clock_now() -> (now: std::time::Instant) {
    std::time::Instant::now()
}

/// Calls `std::time::Instant::elapsed` and counts the span in nanoseconds.
/// Nothing is stated of the span: it depends on the clock.
#[verifier::external_body]
fn elapsed_nanos(start: &std::time::Instant) -> (nanos: u128) {
    start.elapsed().as_nanos()
}

impl TimerState {
    /// The countdown once `elapsed` nanoseconds have passed since it was
    /// started: a countdown that does not run stays as it is; one that has
    /// run its whole duration stops at zero; any other has what is left of
    /// its duration.
    pub open spec fn after_elapsed(self, elapsed: u128) -> TimerState {
        if self.running && self.start_time is Some {
            if elapsed >= self.duration {
                TimerState { duration: self.duration, start_time: None, remaining: 0, running: false }
            } else {
                TimerState {
                    duration: self.duration,
                    start_time: self.start_time,
                    remaining: (self.duration - elapsed) as u128,
                    running: true,
                }
            }
        } else {
            self
        }
    }

    /// The countdown, stopped where it stands.
    pub open spec fn paused(self) -> TimerState {
        TimerState {
            duration: self.duration,
            start_time: None,
            remaining: self.remaining,
            running: false,
        }
    }

    /// The countdown, stopped and wound back to its whole duration.
    pub open spec fn rewound(self) -> TimerState {
        TimerState {
            duration: self.duration,
            start_time: None,
            remaining: self.duration,
            running: false,
        }
    }

    /// A countdown of no duration that does not run.
    pub fn new() -> (timer: TimerState)
        ensures
            timer.duration == 0,
            timer.start_time is None,
            timer.remaining == 0,
            !timer.running,
    {
        TimerState { duration: 0, start_time: None, remaining: 0, running: false }
    }

    /// Brings `remaining` up to date for a countdown that was started
    /// `elapsed` nanoseconds ago.
    pub fn apply_elapsed(&mut self, elapsed: u128)
        ensures
            *final(self) == old(self).after_elapsed(elapsed),
    {
        if self.running && self.start_time.is_some() {
            if elapsed >= self.duration {
                self.remaining = 0;
                self.running = false;
                self.start_time = None;
            } else {
                self.remaining = self.duration - elapsed;
            }
        }
    }

    /// Brings `remaining` up to date by the clock. A countdown that does
    /// not run is left as it is; a running one is settled for the span that
    /// the clock reports since its start, whatever that span is.
    pub fn update_remaining(&mut self)
        ensures
            exists|elapsed: u128| *final(self) == old(self).after_elapsed(elapsed),
    {
        if self.running {
            if let Some(start) = self.start_time {
                let elapsed = elapsed_nanos(&start);
                self.apply_elapsed(elapsed);
                assert(*self == old(self).after_elapsed(elapsed));
                return ;
            }
        }
        assert(*self == old(self).after_elapsed(0));
    }
}

/// Starts a countdown of `seconds` seconds from now.
pub fn start_timer(state: &mut TimerState, seconds: u64)
    ensures
        final(state).duration == seconds * NANOS_PER_SECOND,
        final(state).remaining == final(state).duration,
        final(state).start_time is Some,
        final(state).running,
{
    assert(seconds * NANOS_PER_SECOND <= u128::MAX) by (nonlinear_arith)
        requires
            seconds <= u64::MAX,
            NANOS_PER_SECOND == 1_000_000_000,
    ;
    state.duration = (seconds as u128) * NANOS_PER_SECOND;
    state.remaining = state.duration;
    state.start_time = Some(clock_now());
    state.running = true;
}

/// Stops the countdown where the clock says it stands.
pub fn pause_timer(state: &mut TimerState)
    ensures
        exists|elapsed: u128| *final(state) == old(state).after_elapsed(elapsed).paused(),
{
    state.update_remaining();
    let ghost settled = *state;
    state.running = false;
    state.start_time = None;
    proof {
        let elapsed = choose|elapsed: u128| settled == old(state).after_elapsed(elapsed);
        assert(*state == old(state).after_elapsed(elapsed).paused());
    }
}

/// Stops the countdown and winds it back to its whole duration.
pub fn reset_timer(state: &mut TimerState)
    ensures
        *final(state) == old(state).rewound(),
{
    state.start_time = None;
    state.remaining = state.duration;
    state.running = false;
}

/// Brings the countdown up to date by the clock and gives what is left of
/// it, in nanoseconds.
pub fn get_remaining(state: &mut TimerState) -> (remaining: u128)
    ensures
        exists|elapsed: u128| *final(state) == old(state).after_elapsed(elapsed),
        remaining == final(state).remaining,
{
    state.update_remaining();
    state.remaining
}

} // verus!
