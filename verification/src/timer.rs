use vstd::prelude::*;
use bevy::time::{Timer, TimerMode};
use std::time::Duration;

verus! {

/// How a countdown behaves once its period has elapsed.
#[derive(Clone, Copy, PartialEq, Eq, Structural, Debug)]
pub enum TimerKind {
    /// Stops at its period and stays finished until it is reset.
    Once,
    /// Wraps around, and is finished only after a tick that reached the period.
    Repeating,
}

/// The state of a timer as plain values, all times in nanoseconds.
#[derive(Clone, Copy, PartialEq, Eq, Structural, Debug)]
pub struct Countdown {
    pub kind: TimerKind,
    pub period: u64,
    pub elapsed: u64,
    pub finished: bool,
}

/// Elapsed time of a running timer after it has advanced by `delta`: the sum
/// while that is short of the period; from there on a one-shot timer stays at
/// its period, and a repeating one keeps the remainder.
pub open spec fn elapsed_after(kind: TimerKind, elapsed: nat, period: nat, delta: nat) -> nat {
    let total = elapsed + delta;
    if total < period {
        total
    } else {
        match kind {
            TimerKind::Once => period,
            TimerKind::Repeating => if period == 0 {
                0
            } else {
                total % period
            },
        }
    }
}

/// Advances a timer of bevy and reads it back: the timer is made with
/// `Timer::new` from the kind and the period, its elapsed time is set with
/// `Timer::set_elapsed`, it is ticked once with `Timer::tick`, and
/// `Timer::elapsed` and `Timer::finished` give the result.
///
/// The contract is taken on trust from bevy's source. For a timer that is
/// neither paused nor finished, as this one is, `tick` adds `delta` to the
/// elapsed time and sets the timer finished when the sum has reached the
/// period; a finished one-shot timer is then set to its period, and a
/// finished repeating one to the remainder of the sum by the period, or to
/// zero where the period is zero.
#[verifier::external_body]
fn tick_timer(kind: TimerKind, elapsed: u64, period: u64, delta: u64) -> (r: (u64, bool))
    ensures
        r.0 == elapsed_after(kind, elapsed as nat, period as nat, delta as nat),
        r.1 == (elapsed + delta >= period),
{
    let mode = match kind {
        TimerKind::Once => TimerMode::Once,
        TimerKind::Repeating => TimerMode::Repeating,
    };
    let mut timer = Timer::new(Duration::from_nanos(period), mode);
    timer.set_elapsed(Duration::from_nanos(elapsed));
    timer.tick(Duration::from_nanos(delta));
    (timer.elapsed().as_nanos() as u64, timer.finished())
}

impl Countdown {
    /// A timer of the given kind and period that has not run yet.
    pub open spec fn fresh(kind: TimerKind, period: u64) -> Countdown {
        Countdown { kind, period, elapsed: 0, finished: false }
    }

    /// This timer after `delta` nanoseconds. A finished one-shot timer
    /// ignores the tick.
    pub open spec fn ticked(self, delta: nat) -> Countdown {
        if self.kind == TimerKind::Once && self.finished {
            self
        } else {
            Countdown {
                kind: self.kind,
                period: self.period,
                elapsed: elapsed_after(self.kind, self.elapsed as nat, self.period as nat, delta) as u64,
                finished: self.elapsed + delta >= self.period,
            }
        }
    }

    /// This timer set back to its start.
    pub open spec fn rewound(self) -> Countdown {
        Countdown { kind: self.kind, period: self.period, elapsed: 0, finished: false }
    }

    /// Makes a timer that has not run yet.
    pub fn new(kind: TimerKind, period: u64) -> (t: Countdown)
        ensures
            t == Countdown::fresh(kind, period),
    {
        Countdown { kind, period, elapsed: 0, finished: false }
    }

    /// Advances the timer by `delta` nanoseconds.
    pub fn tick(&mut self, delta: u64)
        ensures
            *final(self) == old(self).ticked(delta as nat),
    {
        let finished_once = match self.kind {
            TimerKind::Once => self.finished,
            TimerKind::Repeating => false,
        };
        if !finished_once {
            let (elapsed, finished) = tick_timer(self.kind, self.elapsed, self.period, delta);
            self.elapsed = elapsed;
            self.finished = finished;
        }
    }

    /// Whether the last tick reached the period.
    pub fn finished(&self) -> (f: bool)
        ensures
            f == self.finished,
    {
        self.finished
    }

    /// Sets the timer back to its start.
    pub fn reset(&mut self)
        ensures
            *final(self) == old(self).rewound(),
    {
        self.elapsed = 0;
        self.finished = false;
    }
}

} // verus!
