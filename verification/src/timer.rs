//! The preemption timer: a countdown of fixed period that is armed again
//! after every tick, and the count of ticks from which elapsed time is read.

use vstd::prelude::*;

verus! {

/// Timer ticks per second.
pub const TICKS_PER_SEC: u64 = 100;

/// Milliseconds per second.
pub const MSEC_PER_SEC: u64 = 1000;

/// Milliseconds between two ticks: the longest a task runs undisturbed.
pub const TICK_PERIOD_MS: u64 = 10;

/// The mathematical value of a [`Timer`].
pub struct TimerState {
    /// A countdown is running and will raise the timer interrupt.
    pub armed: bool,
    /// Ticks counted since boot.
    pub ticks: nat,
}

impl TimerState {
    /// Milliseconds since boot: one period for every tick counted.
    pub open spec fn elapsed_ms(self) -> nat {
        self.ticks * (TICK_PERIOD_MS as nat)
    }

    /// The elapsed time can be reported in a signed machine word.
    pub open spec fn wf(self) -> bool {
        self.elapsed_ms() <= isize::MAX
    }

    /// Counting one more tick would keep the elapsed time reportable.
    pub open spec fn can_count(self) -> bool {
        (self.ticks + 1) * (TICK_PERIOD_MS as nat) <= isize::MAX
    }

    /// A timer that has never been armed and has counted nothing.
    pub open spec fn fresh() -> TimerState {
        TimerState { armed: false, ticks: 0 }
    }

    /// The first countdown is started; the count is untouched.
    pub open spec fn init(self) -> TimerState {
        TimerState { armed: true, ..self }
    }

    /// A tick has fired: it is counted and the next countdown is started.
    /// The count stops at the largest value whose time is still reportable.
    pub open spec fn rearm(self) -> TimerState {
        TimerState {
            armed: true,
            ticks: if self.can_count() {
                self.ticks + 1
            } else {
                self.ticks
            },
        }
    }

    /// Elapsed time never runs backwards, and moves forward by one period
    /// with every tick for as long as the count can grow.
    pub proof fn lemma_time_moves_forward(self)
        requires
            self.wf(),
        ensures
            self.init().wf(),
            self.rearm().wf(),
            self.init().elapsed_ms() == self.elapsed_ms(),
            self.rearm().elapsed_ms() >= self.elapsed_ms(),
            self.can_count() ==> self.rearm().elapsed_ms() == self.elapsed_ms() + TICK_PERIOD_MS,
            self.can_count() ==> self.rearm().elapsed_ms() > self.elapsed_ms(),
    {
    }
}

/// The preemption timer.
pub struct Timer {
    armed: bool,
    ticks: u64,
}

impl View for Timer {
    type V = TimerState;

    closed spec fn view(&self) -> TimerState {
        TimerState { armed: self.armed, ticks: self.ticks as nat }
    }
}

impl Timer {
    /// The elapsed time can be reported in a signed machine word.
    pub open spec fn wf(&self) -> bool {
        self@.wf()
    }

    /// A timer that has never been armed and has counted nothing.
    pub fn new() -> (timer: Timer)
        ensures
            timer.wf(),
            timer@ == TimerState::fresh(),
    {
        Timer { armed: false, ticks: 0 }
    }

    /// Arms the first tick.
    pub fn init(&mut self)
        requires
            old(self).wf(),
        ensures
            final(self).wf(),
            final(self)@ == old(self)@.init(),
    {
        self.armed = true;
    }

    /// Counts the tick that has just fired and arms the next one.
    pub fn rearm(&mut self)
        requires
            old(self).wf(),
        ensures
            final(self).wf(),
            final(self)@ == old(self)@.rearm(),
    {
        let limit: u64 = (isize::MAX as u64) / TICK_PERIOD_MS;
        if self.ticks < limit {
            self.ticks = self.ticks + 1;
        }
        self.armed = true;
    }

    /// Whether a countdown is running.
    pub fn is_armed(&self) -> (armed: bool)
        ensures
            armed == self@.armed,
    {
        self.armed
    }

    /// Ticks counted since boot.
    pub fn ticks(&self) -> (ticks: u64)
        ensures
            ticks == self@.ticks,
    {
        self.ticks
    }

    /// Milliseconds since boot.
    pub fn elapsed_ms(&self) -> (ms: u64)
        requires
            self.wf(),
        ensures
            ms == self@.elapsed_ms(),
            ms <= isize::MAX,
    {
        self.ticks * TICK_PERIOD_MS
    }
}

} // verus!
