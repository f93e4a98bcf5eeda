//! Readings of a monotonic clock, in ticks of a known resolution.

use crate::env::delta::Delta;
use vstd::prelude::*;

verus! {

/// A point in time: a number of ticks, each `resolution` nanoseconds long.
pub struct Instant {
    ticks: u64,
    resolution: u64,
}

/// What an instant is.
pub struct InstantState {
    pub ticks: nat,
    pub resolution: nat,
}

impl InstantState {
    pub open spec fn nanoseconds(self) -> nat {
        self.ticks * self.resolution
    }

    pub open spec fn microseconds(self) -> nat {
        self.nanoseconds() / 1000
    }

    pub open spec fn milliseconds(self) -> nat {
        self.microseconds() / 1000
    }

    /// The nanoseconds fit in 64 bits.
    pub open spec fn representable(self) -> bool {
        self.nanoseconds() <= u64::MAX
    }
}

impl View for Instant {
    type V = InstantState;

    closed spec fn view(&self) -> InstantState {
        InstantState { ticks: self.ticks as nat, resolution: self.resolution as nat }
    }
}

impl Instant {
    pub fn new(ticks: u64, resolution: u64) -> (instant: Instant)
        ensures
            instant@ == (InstantState { ticks: ticks as nat, resolution: resolution as nat }),
    {
        Instant { ticks, resolution }
    }

    pub fn ticks(&self) -> (ticks: u64)
        ensures
            ticks == self@.ticks,
    {
        self.ticks
    }

    pub fn resolution(&self) -> (resolution: u64)
        ensures
            resolution == self@.resolution,
    {
        self.resolution
    }

    /// Whether the nanoseconds of this instant fit in 64 bits: the
    /// condition under which the conversions below may be called.
    pub fn is_representable(&self) -> (fits: bool)
        ensures
            fits == self@.representable(),
    {
        match self.ticks.checked_mul(self.resolution) {
            Some(_) => true,
            None => false,
        }
    }

    pub fn nanoseconds(&self) -> (nanoseconds: u64)
        requires
            self@.representable(),
        ensures
            nanoseconds == self@.nanoseconds(),
    {
        self.ticks * self.resolution
    }

    pub fn microseconds(&self) -> (microseconds: u64)
        requires
            self@.representable(),
        ensures
            microseconds == self@.microseconds(),
    {
        self.nanoseconds() / 1_000
    }

    pub fn milliseconds(&self) -> (milliseconds: u64)
        requires
            self@.representable(),
        ensures
            milliseconds == self@.milliseconds(),
    {
        self.microseconds() / 1_000
    }
}

/// Milliseconds never exceed microseconds, nor these the nanoseconds.
pub proof fn lemma_units_ordered(instant: InstantState)
    ensures
        instant.milliseconds() <= instant.microseconds() <= instant.nanoseconds(),
        instant.microseconds() * 1000 <= instant.nanoseconds(),
        instant.milliseconds() * 1000 <= instant.microseconds(),
{
}

/// What a clock is: its resolution, the reading it started at, the time
/// elapsed at the last update and the step of that update.
pub struct ClockState {
    pub resolution: nat,
    pub start: nat,
    pub elapsed: nat,
    pub step: nat,
}

impl ClockState {
    /// The clock after it read `reading`.
    pub open spec fn update(self, reading: nat) -> ClockState {
        ClockState {
            elapsed: (reading - self.start) as nat,
            step: (reading - self.start - self.elapsed) as nat,
            ..self
        }
    }
}

/// A clock that is told what the monotonic clock of the machine reads and
/// keeps the time elapsed since it was started.
pub struct Clock {
    resolution: u64,
    start: u64,
    current: Delta<u64>,
}

impl View for Clock {
    type V = ClockState;

    closed spec fn view(&self) -> ClockState {
        ClockState {
            resolution: self.resolution as nat,
            start: self.start as nat,
            elapsed: self.current@.value as nat,
            step: self.current@.delta as nat,
        }
    }
}

impl Clock {
    /// A clock of the given resolution that was started when the machine's
    /// clock read `start`.
    pub fn new(resolution: u64, start: u64) -> (clock: Clock)
        ensures
            clock@ == (ClockState {
                resolution: resolution as nat,
                start: start as nat,
                elapsed: 0,
                step: 0,
            }),
    {
        Clock { resolution, start, current: Delta::new(0) }
    }

    /// Takes a new reading, which must not lie before the last one.
    pub fn update(&mut self, reading: u64)
        requires
            reading >= old(self)@.start + old(self)@.elapsed,
        ensures
            final(self)@ == old(self)@.update(reading as nat),
    {
        let start = self.start;
        self.current.update(reading - start);
    }

    /// The time elapsed at the last update.
    pub fn now(&self) -> (instant: Instant)
        ensures
            instant@ == (InstantState { ticks: self@.elapsed, resolution: self@.resolution }),
    {
        Instant::new(self.current.value(), self.resolution)
    }

    pub fn resolution(&self) -> (resolution: u64)
        ensures
            resolution == self@.resolution,
    {
        self.resolution
    }

    /// What the monotonic clock read when this clock was started.
    pub fn start(&self) -> (start: u64)
        ensures
            start == self@.start,
    {
        self.start
    }
}

} // verus!
