use vstd::prelude::*;
use std::time::{Duration, Instant};

verus! {

#[verifier::external_type_specification]
#[verifier::external_body]
pub struct ExInstant(Instant);

/// `std::time::Instant::now`: the current reading of the monotonic clock.
/// It depends on the time, so nothing is claimed of it.
#[verifier::external_body]
fn instant_now() -> Instant {
    Instant::now()
}

/// `std::time::Instant::elapsed`: the time that has passed since `t`. It
/// depends on the time, so nothing is claimed of it.
#[verifier::external_body]
fn instant_elapsed(t: &Instant) -> Duration {
    t.elapsed()
}

/// A stopwatch that measures the time between laps.
pub struct Timer {
    t: Instant,
}

impl Timer {
    /// The instant the current lap started.
    pub closed spec fn start(self) -> Instant {
        self.t
    }

    /// Start a timer at the current instant.
    pub fn now() -> Self {
        Timer::starting_at(instant_now())
    }

    /// A timer whose lap starts at `t`.
    pub fn starting_at(t: Instant) -> (timer: Self)
        ensures
            timer.start() == t,
    {
        Timer { t: t }
    }

    /// Return the time since the timer last started, and restart it.
    pub fn elapsed(&mut self) -> Duration {
        let d = instant_elapsed(&self.t);
        self.lap(d, instant_now())
    }

    /// End the current lap, measured as `d`, and start the next at `now`.
    pub fn lap(&mut self, d: Duration, now: Instant) -> (lap: Duration)
        ensures
            lap == d,
            final(self).start() == now,
    {
        self.t = now;
        d
    }
}

} // verus!
