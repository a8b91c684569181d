//! The daemon's schedule: a pass, then a sleep of the configured number of
//! hours, then the next pass, forever.
use vstd::prelude::*;

verus! {

/// Where the scheduler stands.
#[derive(Clone, Copy, Debug, PartialEq, Eq, Structural)]
pub enum Phase {
    Idle,
    Running,
    Sleeping,
}

/// What the caller is asked to do next.
#[derive(Clone, Copy, Debug, PartialEq, Eq, Structural)]
pub enum ScheduleAction {
    /// Run one full backup pass and report when it is over.
    RunPass,
    /// Sleep for this many hours and report on waking.
    Sleep(u64),
}

/// The daemon's state.
#[derive(Clone, Copy, Debug, PartialEq, Eq, Structural)]
pub struct Scheduler {
    pub interval_hours: u64,
    pub phase: Phase,
    pub passes: u64,
}

/// The state and action after a pass is over, whatever its failures.
pub open spec fn after_pass(s: Scheduler, failures: usize) -> (Scheduler, ScheduleAction) {
    (Scheduler { phase: Phase::Sleeping, ..s }, ScheduleAction::Sleep(s.interval_hours))
}

/// The state and action on waking.
pub open spec fn after_wake(s: Scheduler) -> (Scheduler, ScheduleAction) {
    (
        Scheduler {
            phase: Phase::Running,
            passes: if s.passes < u64::MAX {
                (s.passes + 1) as u64
            } else {
                s.passes
            },
            ..s
        },
        ScheduleAction::RunPass,
    )
}

impl Scheduler {
    /// A scheduler that has not started.
    pub fn new(interval_hours: u64) -> (r: Scheduler)
        ensures
            r == (Scheduler { interval_hours, phase: Phase::Idle, passes: 0 }),
    {
        Scheduler { interval_hours, phase: Phase::Idle, passes: 0 }
    }

    /// Starts the schedule with a first pass.
    pub fn start(&mut self) -> (r: ScheduleAction)
        requires
            old(self).phase == Phase::Idle,
        ensures
            r == ScheduleAction::RunPass,
            *final(self) == (Scheduler { phase: Phase::Running, passes: 1, ..*old(self) }),
    {
        self.phase = Phase::Running;
        self.passes = 1;
        ScheduleAction::RunPass
    }

    /// The pass is over, with `failures` of its copies failed: the sleep of
    /// the configured interval comes next, whatever the failures.
    pub fn pass_finished(&mut self, failures: usize) -> (r: ScheduleAction)
        requires
            old(self).phase == Phase::Running,
        ensures
            (*final(self), r) == after_pass(*old(self), failures),
    {
        self.phase = Phase::Sleeping;
        ScheduleAction::Sleep(self.interval_hours)
    }

    /// The sleep is over: the next pass comes.
    pub fn woke(&mut self) -> (r: ScheduleAction)
        requires
            old(self).phase == Phase::Sleeping,
        ensures
            (*final(self), r) == after_wake(*old(self)),
    {
        self.phase = Phase::Running;
        if self.passes < u64::MAX {
            self.passes = self.passes + 1;
        }
        ScheduleAction::RunPass
    }
}

/// Cadence: after any pass, with or without failures, the scheduler sleeps
/// exactly the configured number of hours and then runs the next pass; the
/// failures of a pass change nothing of this.
pub proof fn lemma_cadence(s: Scheduler, failures: usize, other_failures: usize)
    requires
        s.phase == Phase::Running,
    ensures
        after_pass(s, failures) == after_pass(s, other_failures),
        after_pass(s, failures).1 == ScheduleAction::Sleep(s.interval_hours),
        after_pass(s, failures).0.phase == Phase::Sleeping,
        after_wake(after_pass(s, failures).0).1 == ScheduleAction::RunPass,
        after_wake(after_pass(s, failures).0).0.interval_hours == s.interval_hours,
        after_wake(after_pass(s, failures).0).0.phase == Phase::Running,
{
}

} // verus!
