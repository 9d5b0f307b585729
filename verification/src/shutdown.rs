//! Supervision of background tasks: when a finished task brings the node down.
use vstd::prelude::*;

verus! {

/// How a supervised background task ended.
#[derive(Clone, Copy, Debug, PartialEq, Eq, Structural)]
pub enum TaskOutcome {
    /// The task returned successfully.
    Completed,
    /// The task returned an error.
    Failed,
    /// The task panicked.
    Panicked,
    /// The task was aborted.
    Aborted,
}

/// What the supervisor does after a task has ended.
#[derive(Clone, Copy, Debug, PartialEq, Eq, Structural)]
pub enum SupervisorStep {
    /// Wait for the next of the remaining tasks.
    WaitForNext,
    /// Every task has completed; stop supervising without shutting down.
    Finished,
    /// Cancel the shutdown token and stop supervising.
    CancelAll,
}

/// The supervisor's step after a task ended with `outcome` and `remaining` tasks are
/// still running: any task that does not complete successfully shuts everything down.
pub fn join_step(outcome: TaskOutcome, remaining: usize) -> (r: SupervisorStep)
    ensures
        outcome != TaskOutcome::Completed ==> r == SupervisorStep::CancelAll,
        outcome == TaskOutcome::Completed && remaining > 0 ==> r == SupervisorStep::WaitForNext,
        outcome == TaskOutcome::Completed && remaining == 0 ==> r == SupervisorStep::Finished,
{
    match outcome {
        TaskOutcome::Completed => if remaining > 0 {
            SupervisorStep::WaitForNext
        } else {
            SupervisorStep::Finished
        },
        _ => SupervisorStep::CancelAll,
    }
}

} // verus!
