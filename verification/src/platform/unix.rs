//! A monotonic clock, advanced by the readings that it is given.

pub mod filesystem;

use vstd::prelude::*;

verus! {

/// What a clock is: the reading it started at, its resolution, and the time
/// elapsed at the last update and since the update before, in ticks.
pub struct ClockState {
    pub initial_ticks: nat,
    pub ticks_per_second: nat,
    pub ticks: nat,
    pub delta_ticks: nat,
}

impl ClockState {
    pub open spec fn nanoseconds(self) -> nat {
        self.ticks / self.ticks_per_second
    }

    pub open spec fn microseconds(self) -> nat {
        self.nanoseconds() / 1000
    }

    pub open spec fn milliseconds(self) -> nat {
        self.microseconds() / 1000
    }

    pub open spec fn delta_nanoseconds(self) -> nat {
        self.delta_ticks / self.ticks_per_second
    }

    pub open spec fn delta_microseconds(self) -> nat {
        self.delta_nanoseconds() / 1000
    }

    pub open spec fn delta_milliseconds(self) -> nat {
        self.delta_microseconds() / 1000
    }

    /// The clock after it read `reading`.
    pub open spec fn update(self, reading: nat) -> ClockState {
        ClockState {
            ticks: (reading - self.initial_ticks) as nat,
            delta_ticks: (reading - self.initial_ticks - self.ticks) as nat,
            ..self
        }
    }
}

/// The steps of two updates in a row add up to the time between the first
/// reading and the last.
pub proof fn lemma_deltas_add_up(clock: ClockState, first: nat, second: nat)
    requires
        clock.initial_ticks + clock.ticks <= first <= second,
    ensures
        clock.update(first).update(second).ticks == clock.ticks + clock.update(first).delta_ticks
            + clock.update(first).update(second).delta_ticks,
{
}

/// The time elapsed since the clock was started and since its update
/// before the last, in ticks and in the units derived from them.
#[derive(Debug)]
pub struct Clock {
    ticks: u64,
    nanoseconds: u64,
    microseconds: u64,
    milliseconds: u64,
    delta_ticks: u64,
    delta_nanoseconds: u64,
    delta_microseconds: u64,
    delta_milliseconds: u64,
    initial_ticks: u64,
    ticks_per_second: u64,
}

impl View for Clock {
    type V = ClockState;

    closed spec fn view(&self) -> ClockState {
        ClockState {
            initial_ticks: self.initial_ticks as nat,
            ticks_per_second: self.ticks_per_second as nat,
            ticks: self.ticks as nat,
            delta_ticks: self.delta_ticks as nat,
        }
    }
}

impl Clock {
    /// The units kept agree with the ticks they were computed from.
    pub closed spec fn wf(&self) -> bool {
        &&& self.ticks_per_second > 0
        &&& self.nanoseconds == self@.nanoseconds()
        &&& self.microseconds == self@.microseconds()
        &&& self.milliseconds == self@.milliseconds()
        &&& self.delta_nanoseconds == self@.delta_nanoseconds()
        &&& self.delta_microseconds == self@.delta_microseconds()
        &&& self.delta_milliseconds == self@.delta_milliseconds()
    }

    /// A clock of the given resolution that was started when the monotonic
    /// clock of the machine read `ticks`.
    pub fn monotonic(ticks_per_second: u64, ticks: u64) -> (clock: Clock)
        requires
            ticks_per_second > 0,
        ensures
            clock.wf(),
            clock@ == (ClockState {
                initial_ticks: ticks as nat,
                ticks_per_second: ticks_per_second as nat,
                ticks: 0,
                delta_ticks: 0,
            }),
    {
        Clock {
            ticks: 0,
            nanoseconds: 0,
            microseconds: 0,
            milliseconds: 0,
            delta_ticks: 0,
            delta_nanoseconds: 0,
            delta_microseconds: 0,
            delta_milliseconds: 0,
            initial_ticks: ticks,
            ticks_per_second,
        }
    }

    /// Takes a new reading, which must not lie before the last one.
    pub fn update(&mut self, current_ticks: u64)
        requires
            old(self).wf(),
            current_ticks >= old(self)@.initial_ticks + old(self)@.ticks,
        ensures
            final(self).wf(),
            final(self)@ == old(self)@.update(current_ticks as nat),
    {
        let delta_ticks = (current_ticks - self.initial_ticks) - self.ticks;
        let ticks = current_ticks - self.initial_ticks;

        self.delta_ticks = delta_ticks;
        self.ticks = ticks;

        self.delta_nanoseconds = delta_ticks / self.ticks_per_second;
        self.delta_microseconds = self.delta_nanoseconds / 1_000;
        self.delta_milliseconds = self.delta_microseconds / 1_000;

        self.nanoseconds = ticks / self.ticks_per_second;
        self.microseconds = self.nanoseconds / 1_000;
        self.milliseconds = self.microseconds / 1_000;
    }

    pub fn ticks(&self) -> (ticks: u64)
        ensures
            ticks == self@.ticks,
    {
        self.ticks
    }

    pub fn nanoseconds(&self) -> (nanoseconds: u64)
        requires
            self.wf(),
        ensures
            nanoseconds == self@.nanoseconds(),
    {
        self.nanoseconds
    }

    pub fn microseconds(&self) -> (microseconds: u64)
        requires
            self.wf(),
        ensures
            microseconds == self@.microseconds(),
    {
        self.microseconds
    }

    pub fn milliseconds(&self) -> (milliseconds: u64)
        requires
            self.wf(),
        ensures
            milliseconds == self@.milliseconds(),
    {
        self.milliseconds
    }

    pub fn delta_ticks(&self) -> (delta_ticks: u64)
        ensures
            delta_ticks == self@.delta_ticks,
    {
        self.delta_ticks
    }

    pub fn delta_nanoseconds(&self) -> (delta_nanoseconds: u64)
        requires
            self.wf(),
        ensures
            delta_nanoseconds == self@.delta_nanoseconds(),
    {
        self.delta_nanoseconds
    }

    pub fn delta_microseconds(&self) -> (delta_microseconds: u64)
        requires
            self.wf(),
        ensures
            delta_microseconds == self@.delta_microseconds(),
    {
        self.delta_microseconds
    }

    pub fn delta_milliseconds(&self) -> (delta_milliseconds: u64)
        requires
            self.wf(),
        ensures
            delta_milliseconds == self@.delta_milliseconds(),
    {
        self.delta_milliseconds
    }

    pub fn resolution(&self) -> (resolution: u64)
        ensures
            resolution == self@.ticks_per_second,
    {
        self.ticks_per_second
    }

    /// What the monotonic clock read when this clock was started.
    pub fn initial_ticks(&self) -> (ticks: u64)
        ensures
            ticks == self@.initial_ticks,
    {
        self.initial_ticks
    }
}

} // verus!
