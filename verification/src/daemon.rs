//! The sweeper: it sleeps for a fixed time, sweeps the registry, and sleeps
//! again, for as long as the process runs.
//!
//! The sweeper decides; its owner sleeps, takes the locks and writes the
//! log line.
use vstd::prelude::*;

use crate::room::Stats;

verus! {

/// Seconds between two sweeps.
pub const CLEANUP_DELAY_SECS: u64 = 60;

/// What the sweeper asks its owner to do next.
#[derive(Clone, Copy, Debug, PartialEq, Eq, Structural)]
pub enum Task {
    /// Sleep for so many seconds, then report `Outcome::Woke`.
    Sleep(u64),
    /// Sweep the registry, then report `Outcome::Swept` with its counts.
    Sweep,
}

/// What the owner reports back.
#[derive(Clone, Copy, Debug, PartialEq, Eq)]
pub enum Outcome {
    /// The sleep is over.
    Woke,
    /// The sweep is done; these are its counts.
    Swept(Stats),
}

/// How loudly a sweep is logged.
#[derive(Clone, Copy, Debug, PartialEq, Eq, Structural)]
pub enum Severity {
    /// Nothing was evicted: of interest only when tracing.
    Trace,
    /// Rooms were evicted: worth a line when debugging.
    Debug,
}

/// A sweep that evicted something is logged at `Debug`, any other at
/// `Trace`.
pub open spec fn severity_of(stats: Stats) -> Severity {
    if stats.expired_rooms == 0 {
        Severity::Trace
    } else {
        Severity::Debug
    }
}

/// The transition of the sweeper: the task after `task` once `outcome` was
/// reported, and the severity of the log line that is due. Waking leads from
/// sleeping to sweeping; a finished sweep is logged and leads back to
/// sleeping. A report that does not answer the task changes nothing.
pub open spec fn follow(task: Task, outcome: Outcome) -> (Task, Option<Severity>) {
    match (task, outcome) {
        (Task::Sleep(_), Outcome::Woke) => (Task::Sweep, None),
        (Task::Sweep, Outcome::Swept(stats)) => (
            Task::Sleep(CLEANUP_DELAY_SECS),
            Some(severity_of(stats)),
        ),
        _ => (task, None),
    }
}

/// The cleanup loop as a state machine.
pub struct Sweeper {
    task: Task,
}

impl View for Sweeper {
    type V = Task;

    /// A sweeper is modelled by the task it has set.
    closed spec fn view(&self) -> Task {
        self.task
    }
}

impl Sweeper {
    /// A sweeper that starts by sleeping.
    pub fn new() -> (sweeper: Sweeper)
        ensures
            sweeper@ == Task::Sleep(CLEANUP_DELAY_SECS),
    {
        Sweeper { task: Task::Sleep(CLEANUP_DELAY_SECS) }
    }

    /// The task that is set.
    pub fn task(&self) -> (task: Task)
        ensures
            task == self@,
    {
        self.task
    }

    /// Takes the report on the task that was set and sets the next one.
    /// Returns the severity at which to log the sweep that was reported, if
    /// one was.
    pub fn advance(&mut self, outcome: Outcome) -> (log: Option<Severity>)
        ensures
            (final(self)@, log) == follow(old(self)@, outcome),
    {
        match (self.task, outcome) {
            (Task::Sleep(_), Outcome::Woke) => {
                self.task = Task::Sweep;
                None
            },
            (Task::Sweep, Outcome::Swept(stats)) => {
                self.task = Task::Sleep(CLEANUP_DELAY_SECS);
                if stats.expired_rooms == 0 {
                    Some(Severity::Trace)
                } else {
                    Some(Severity::Debug)
                }
            },
            _ => None,
        }
    }
}

/// The sweeper alternates: after a sleep comes a sweep, after a sweep a
/// sleep of `CLEANUP_DELAY_SECS`, and only a sweep is logged.
pub proof fn lemma_sweeper_alternates(seconds: u64, stats: Stats)
    ensures
        follow(Task::Sleep(seconds), Outcome::Woke) == (Task::Sweep, None::<Severity>),
        follow(Task::Sweep, Outcome::Swept(stats)).0 == Task::Sleep(CLEANUP_DELAY_SECS),
        follow(Task::Sweep, Outcome::Swept(stats)).1 is Some,
{
}

} // verus!
