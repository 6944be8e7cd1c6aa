//! A countdown clock driven by elapsed wall-time.

use std::time::Duration;
use vstd::prelude::*;

verus! {

/// The length of a span of time in whole nanoseconds: what
/// `Duration::as_nanos` of std returns for it.
pub uninterp spec fn nanos(d: Duration) -> nat;

/// `Duration::from_millis` of std: the span of that many milliseconds, each
/// of which is a million nanoseconds.
pub assume_specification[ Duration::from_millis ](millis: u64) -> (d: Duration)
    ensures
        nanos(d) == millis * 1_000_000,
;

/// `Duration::saturating_sub` of std: the difference of two spans, or the
/// empty span where the second is the longer.
pub assume_specification[ Duration::saturating_sub ](a: Duration, b: Duration) -> (d: Duration)
    ensures
        nanos(d) == if nanos(a) >= nanos(b) {
            nanos(a) - nanos(b)
        } else {
            0
        },
;

/// `Duration::is_zero` of std: whether the span is empty.
pub assume_specification[ Duration::is_zero ](d: &Duration) -> (zero: bool)
    ensures
        zero == (nanos(*d) == 0),
;

/// What a timer is: the interval it counts down from, what is left of it,
/// and whether the last advance used it up.
pub struct TimerView {
    pub ready: bool,
    pub interval_millis: nat,
    pub remaining_nanos: nat,
}

/// A countdown clock. It starts at its interval, is advanced by elapsed
/// time, reports when nothing is left, and can be started over.
#[derive(Debug, Copy, Clone)]
pub struct Timer {
    pub ready: bool,
    millis: u64,
    duration: Duration,
}

impl View for Timer {
    type V = TimerView;

    closed spec fn view(&self) -> TimerView {
        TimerView {
            ready: self.ready,
            interval_millis: self.millis as nat,
            remaining_nanos: nanos(self.duration),
        }
    }
}

impl TimerView {
    /// What is left of the interval is no more than the interval.
    pub open spec fn valid(self) -> bool {
        self.remaining_nanos <= self.interval_millis * 1_000_000
    }

    /// A clock that has just been started with the given interval.
    pub open spec fn fresh(millis: nat) -> TimerView {
        TimerView { ready: false, interval_millis: millis, remaining_nanos: millis * 1_000_000 }
    }

    /// The clock after `elapsed` nanoseconds more: what is left shrinks, not
    /// below zero, and the clock is ready exactly when nothing is left.
    pub open spec fn advanced(self, elapsed: nat) -> TimerView {
        let left: nat = if self.remaining_nanos >= elapsed {
            (self.remaining_nanos - elapsed) as nat
        } else {
            0
        };
        TimerView { ready: left == 0, interval_millis: self.interval_millis, remaining_nanos: left }
    }

    /// The clock with nothing left.
    pub open spec fn finished(self) -> TimerView {
        TimerView { ready: true, interval_millis: self.interval_millis, remaining_nanos: 0 }
    }
}

impl Timer {
    /// A clock that counts down from `millis` milliseconds. It is not ready,
    /// even where the interval is zero, until it has been advanced.
    pub fn from_millis(millis: u64) -> (timer: Self)
        ensures
            timer@ == TimerView::fresh(millis as nat),
        {
        Self { ready: false, duration: Duration::from_millis(millis), millis }
    }

    /// Advances the clock by `delta`.
    pub fn update(&mut self, delta: Duration)
        ensures
            final(self)@ == old(self)@.advanced(nanos(delta)),
        {
        self.duration = self.duration.saturating_sub(delta);
        self.ready = self.duration.is_zero();
    }

    /// Uses up what is left: the clock is ready at once.
    pub fn finish(&mut self)
        ensures
            final(self)@ == old(self)@.finished(),
        {
        self.duration = Duration::from_millis(0);
        self.ready = true;
    }

    /// Whether the last advance used the interval up.
    pub fn is_ready(&self) -> (ready: bool)
        ensures
            ready == self@.ready,
    {
        self.ready
    }

    /// Starts the clock over from its interval.
    pub fn reset(&mut self)
        ensures
            final(self)@ == TimerView::fresh(old(self)@.interval_millis),
        {
        *self = Timer::from_millis(self.millis);
    }
}

} // verus!
