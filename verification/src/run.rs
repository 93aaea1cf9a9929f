//! The simulated run: a scripted, strictly ordered event sequence.
//!
//! Starting a run allocates an identifier and hands the caller back
//! immediately; a background task then emits, in order, one Running status,
//! a fixed sequence of informational log lines, and one Completed status.
//! The task itself — its timer delays and its delivery channel — lives in
//! the unverified shell; what it emits at each step is fixed here.

use crate::sys::fresh_id;
use vstd::prelude::*;

verus! {

/// How many scripted log lines a run emits.
pub const RUN_LOG_COUNT: usize = 5;

/// How many events a run emits in all: one Running status, the log lines,
/// one Completed status.
pub const RUN_STEP_COUNT: usize = 7;

/// The fixed pause between consecutive emissions, in milliseconds.
pub const RUN_STEP_DELAY_MS: u64 = 400;

/// A run's lifecycle states, in the order a run passes through them.
#[derive(Clone, Copy, Debug, PartialEq, Eq, Structural)]
pub enum RunStatus {
    Running,
    Completed,
}

/// One emitted event: a status change of the run, or one log line with its
/// severity level, text and wall-clock emission instant.
pub enum RunEvent {
    Status { run_id: String, status: RunStatus },
    Log { run_id: String, level: String, message: String, timestamp: u64 },
}

#[verifier::ext_equal]
pub enum RunEventV {
    Status { run_id: Seq<char>, status: RunStatus },
    Log { run_id: Seq<char>, level: Seq<char>, message: Seq<char>, timestamp: u64 },
}

impl View for RunEvent {
    type V = RunEventV;

    open spec fn view(&self) -> RunEventV {
        match self {
            RunEvent::Status { run_id, status } => RunEventV::Status {
                run_id: run_id@,
                status: *status,
            },
            RunEvent::Log { run_id, level, message, timestamp } => RunEventV::Log {
                run_id: run_id@,
                level: level@,
                message: message@,
                timestamp: *timestamp,
            },
        }
    }
}

/// The scripted log lines, in the order every run emits them.
pub open spec fn script_messages() -> Seq<Seq<char>> {
    seq![
        "Initializing SIRIUS run"@,
        "Loading crystal structure"@,
        "Computing ground state"@,
        "Ground state converged"@,
        "Run complete"@,
    ]
}

/// The event a run emits at `step`: the Running status first, then the
/// scripted log lines, then the Completed status. Only the log lines carry
/// the wall-clock instant `ts`.
pub open spec fn run_event_at(run_id: Seq<char>, step: int, ts: u64) -> RunEventV {
    if step == 0 {
        RunEventV::Status { run_id: run_id, status: RunStatus::Running }
    } else if step <= RUN_LOG_COUNT as int {
        RunEventV::Log {
            run_id: run_id,
            level: "info"@,
            message: script_messages()[step - 1],
            timestamp: ts,
        }
    } else {
        RunEventV::Status { run_id: run_id, status: RunStatus::Completed }
    }
}

/// The whole event sequence of one run, given the wall-clock instants of
/// its emissions.
pub open spec fn run_events(run_id: Seq<char>, stamps: Seq<u64>) -> Seq<RunEventV> {
    Seq::new(RUN_STEP_COUNT as nat, |i: int| run_event_at(run_id, i, stamps[i]))
}

/// Allocates an identifier for a new run and returns it at once; emitting
/// the run's events is the shell's background task.
pub fn start_run() -> (r: String)
    ensures
        r@.len() == 36,
{
    fresh_id()
}

/// One scripted log line.
fn log_message(index: usize) -> (r: String)
    requires
        index < RUN_LOG_COUNT,
    ensures
        r@ == script_messages()[index as int],
{
    if index == 0 {
        String::from_str("Initializing SIRIUS run")
    } else if index == 1 {
        String::from_str("Loading crystal structure")
    } else if index == 2 {
        String::from_str("Computing ground state")
    } else if index == 3 {
        String::from_str("Ground state converged")
    } else {
        String::from_str("Run complete")
    }
}

/// The event a run emits at `step`, carrying the wall-clock instant `ts`
/// when the step is a log line.
pub fn run_event(run_id: &String, step: usize, ts: u64) -> (e: RunEvent)
    requires
        step < RUN_STEP_COUNT,
    ensures
        e@ == run_event_at(run_id@, step as int, ts),
{
    if step == 0 {
        RunEvent::Status { run_id: run_id.clone(), status: RunStatus::Running }
    } else if step <= RUN_LOG_COUNT {
        RunEvent::Log {
            run_id: run_id.clone(),
            level: String::from_str("info"),
            message: log_message(step - 1),
            timestamp: ts,
        }
    } else {
        RunEvent::Status { run_id: run_id.clone(), status: RunStatus::Completed }
    }
}

/// A run's events, observed end to end, are strictly ordered: exactly one
/// Running status and it comes first; then the scripted log lines, each at
/// severity info and in the script's fixed order; then exactly one
/// Completed status and it comes last. No event is duplicated or dropped.
pub proof fn lemma_run_event_order(run_id: Seq<char>, stamps: Seq<u64>)
    requires
        stamps.len() == RUN_STEP_COUNT,
    ensures
        run_events(run_id, stamps).len() == RUN_STEP_COUNT,
        forall|i: int| 0 <= i < RUN_STEP_COUNT ==> (#[trigger] run_events(run_id, stamps)[i]
            == RunEventV::Status { run_id: run_id, status: RunStatus::Running } <==> i == 0),
        forall|i: int| 0 <= i < RUN_STEP_COUNT ==> (#[trigger] run_events(run_id, stamps)[i]
            == RunEventV::Status { run_id: run_id, status: RunStatus::Completed } <==> i
            == RUN_STEP_COUNT - 1),
        forall|i: int| 1 <= i < RUN_STEP_COUNT - 1 ==> #[trigger] run_events(run_id, stamps)[i]
            == (RunEventV::Log {
            run_id: run_id,
            level: "info"@,
            message: script_messages()[i - 1],
            timestamp: stamps[i],
        }),
{
}

/// The log lines and their order are the same for every run: they do not
/// depend on the run's identifier or on when its events were emitted.
pub proof fn lemma_run_script_repeatable(
    a_id: Seq<char>,
    a_stamps: Seq<u64>,
    b_id: Seq<char>,
    b_stamps: Seq<u64>,
)
    requires
        a_stamps.len() == RUN_STEP_COUNT,
        b_stamps.len() == RUN_STEP_COUNT,
    ensures
        forall|i: int| 1 <= i < RUN_STEP_COUNT - 1 ==> (#[trigger] run_events(a_id, a_stamps)[i])
            ->Log_message == run_events(b_id, b_stamps)[i]->Log_message,
{
}

} // verus!
