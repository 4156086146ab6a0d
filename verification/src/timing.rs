//! Order in which a kernel is warmed up and timed.
//!
//! The host performs each action and reports whether it succeeded; the first
//! failure ends the measurement.
use vstd::prelude::*;

verus! {

/// One thing to be done by the host.
#[derive(Clone, Copy, PartialEq, Eq, Structural, Debug)]
pub enum TimingAction {
    /// Launch the kernel.
    Launch,
    /// Wait for everything launched so far.
    Synchronize,
    /// Record the event at which the time starts.
    RecordStart,
    /// Record the event at which the time ends.
    RecordEnd,
    /// Read the time between the two events.
    ReadElapsed,
    /// The time is known: divide it by the number of timed launches.
    Finish,
    /// Hand the failure on.
    Fail,
}

/// Where the measurement stands.
#[derive(Clone, Copy, PartialEq, Eq, Structural, Debug)]
pub enum TimingPc {
    Warmup { done: usize },
    Start,
    Timed { done: usize },
    Elapsed,
    Finished,
    Failed,
}

/// A measurement with `warmup` launches that are not timed and `iters` that
/// are.
#[derive(Clone, Copy, PartialEq, Eq, Structural, Debug)]
pub struct Timing {
    pub warmup: usize,
    pub iters: usize,
    pub pc: TimingPc,
}

impl Timing {
    pub open spec fn wf(self) -> bool {
        match self.pc {
            TimingPc::Warmup { done } => done <= self.warmup,
            TimingPc::Timed { done } => done <= self.iters,
            _ => true,
        }
    }

    /// What the host does next, given whether its last action succeeded.
    pub open spec fn action(self, ok: bool) -> TimingAction {
        if !ok {
            TimingAction::Fail
        } else {
            match self.pc {
                TimingPc::Warmup { done } => if done < self.warmup {
                    TimingAction::Launch
                } else {
                    TimingAction::Synchronize
                },
                TimingPc::Start => TimingAction::RecordStart,
                TimingPc::Timed { done } => if done < self.iters {
                    TimingAction::Launch
                } else {
                    TimingAction::RecordEnd
                },
                TimingPc::Elapsed => TimingAction::ReadElapsed,
                TimingPc::Finished => TimingAction::Finish,
                TimingPc::Failed => TimingAction::Fail,
            }
        }
    }

    /// Where the measurement stands afterwards.
    pub open spec fn after(self, ok: bool) -> Timing {
        let pc = if !ok {
            TimingPc::Failed
        } else {
            match self.pc {
                TimingPc::Warmup { done } => if done < self.warmup {
                    TimingPc::Warmup { done: (done + 1) as usize }
                } else {
                    TimingPc::Start
                },
                TimingPc::Start => TimingPc::Timed { done: 0 },
                TimingPc::Timed { done } => if done < self.iters {
                    TimingPc::Timed { done: (done + 1) as usize }
                } else {
                    TimingPc::Elapsed
                },
                TimingPc::Elapsed => TimingPc::Finished,
                TimingPc::Finished => TimingPc::Finished,
                TimingPc::Failed => TimingPc::Failed,
            }
        };
        Timing { pc, ..self }
    }

    /// A measurement that has not begun.
    pub fn new(warmup: usize, iters: usize) -> (r: Timing)
        ensures
            r == (Timing { warmup, iters, pc: TimingPc::Warmup { done: 0 } }),
            r.wf(),
    {
        Timing { warmup, iters, pc: TimingPc::Warmup { done: 0 } }
    }
}

/// What the host does next, given whether its last action succeeded.
pub fn time_gpu_iters(timing: &mut Timing, ok: bool) -> (action: TimingAction)
    requires
        old(timing).wf(),
    ensures
        action == old(timing).action(ok),
        *final(timing) == old(timing).after(ok),
        final(timing).wf(),
{
    if !ok {
        timing.pc = TimingPc::Failed;
        return TimingAction::Fail;
    }
    match timing.pc {
        TimingPc::Warmup { done } => {
            if done < timing.warmup {
                timing.pc = TimingPc::Warmup { done: done + 1 };
                TimingAction::Launch
            } else {
                timing.pc = TimingPc::Start;
                TimingAction::Synchronize
            }
        },
        TimingPc::Start => {
            timing.pc = TimingPc::Timed { done: 0 };
            TimingAction::RecordStart
        },
        TimingPc::Timed { done } => {
            if done < timing.iters {
                timing.pc = TimingPc::Timed { done: done + 1 };
                TimingAction::Launch
            } else {
                timing.pc = TimingPc::Elapsed;
                TimingAction::RecordEnd
            }
        },
        TimingPc::Elapsed => {
            timing.pc = TimingPc::Finished;
            TimingAction::ReadElapsed
        },
        TimingPc::Finished => TimingAction::Finish,
        TimingPc::Failed => TimingAction::Fail,
    }
}

/// A measurement after `n` actions that all succeeded.
pub open spec fn run(t: Timing, n: nat) -> Timing
    decreases n,
{
    if n == 0 {
        t
    } else {
        run(t, (n - 1) as nat).after(true)
    }
}

/// A measurement without failure makes `warmup` launches, waits, and times
/// exactly `iters` launches between its two events.
pub proof fn law_exactly_the_timed_launches_are_timed(t: Timing, n: nat)
    requires
        t.pc == (TimingPc::Warmup { done: 0 }),
    ensures
        run(t, n).action(true) == if n < t.warmup {
            TimingAction::Launch
        } else if n == t.warmup {
            TimingAction::Synchronize
        } else if n == t.warmup + 1 {
            TimingAction::RecordStart
        } else if n < t.warmup + 2 + t.iters {
            TimingAction::Launch
        } else if n == t.warmup + 2 + t.iters {
            TimingAction::RecordEnd
        } else if n == t.warmup + 3 + t.iters {
            TimingAction::ReadElapsed
        } else {
            TimingAction::Finish
        },
        run(t, n) == (Timing {
            pc: if n <= t.warmup {
                TimingPc::Warmup { done: n as usize }
            } else if n == t.warmup + 1 {
                TimingPc::Start
            } else if n <= t.warmup + 2 + t.iters {
                TimingPc::Timed { done: (n - t.warmup - 2) as usize }
            } else if n == t.warmup + 3 + t.iters {
                TimingPc::Elapsed
            } else {
                TimingPc::Finished
            },
            ..t
        }),
    decreases n,
{
    if n > 0 {
        law_exactly_the_timed_launches_are_timed(t, (n - 1) as nat);
    }
}

/// A failure ends the measurement: nothing is launched or read after it.
pub proof fn law_failure_ends_the_measurement(t: Timing, ok: bool)
    ensures
        t.action(false) is Fail,
        t.after(false).action(ok) is Fail,
        t.after(false).after(ok) == t.after(false),
{
}

} // verus!
