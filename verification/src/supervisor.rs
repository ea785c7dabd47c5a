//! The supervisor's exit policy.
//!
//! The process runs exactly two long-lived ingress tasks — the WebSocket
//! accept loop and the HTTP listener — and both stay up or the process goes
//! down: an external interrupt ends it cleanly with code zero, while the
//! first task that stops on its own, for whatever reason, ends it with a
//! non-zero code after the rest is cancelled.

use vstd::prelude::*;

use crate::error::ServerError;

verus! {

/// What waiting on the task set can yield.
pub enum TaskWait {
    /// A task returned; its own result rides along (a bind failure arrives
    /// here as the task's error).
    Finished(Result<(), ServerError>),
    /// A task ended abnormally instead of returning.
    JoinFailure,
    /// There was nothing to wait for: no task was ever started.
    NoneLeft,
}

/// The first thing that happens once the supervisor waits.
pub enum SupervisorEvent {
    /// An external interrupt asked the process to stop.
    Interrupted,
    /// The task set yielded before any interrupt.
    Tasks(TaskWait),
}

/// What to report about a task-set wait: a task's own failure is passed
/// through, an abnormal end and an empty task set get errors of their own,
/// and a task that returned cleanly leaves nothing to report — though the
/// process still shuts down, since one ingress path running alone is never
/// a steady state.
pub fn wait_outcome(w: TaskWait) -> (r: Result<(), ServerError>)
    ensures
        match w {
            TaskWait::Finished(res) => r == res,
            TaskWait::JoinFailure => r == Err::<(), ServerError>(ServerError::Join),
            TaskWait::NoneLeft => r == Err::<(), ServerError>(ServerError::NoTasks),
        },
{
    match w {
        TaskWait::Finished(res) => res,
        TaskWait::JoinFailure => Err(ServerError::Join),
        TaskWait::NoneLeft => Err(ServerError::NoTasks),
    }
}

/// The process exit code for the event that ended the wait.
pub open spec fn exit_code_of(ev: SupervisorEvent) -> u8 {
    match ev {
        SupervisorEvent::Interrupted => 0,
        SupervisorEvent::Tasks(_) => 1,
    }
}

/// Exit code zero exactly for an interrupt-driven shutdown; any task
/// stopping on its own — even cleanly — exits non-zero.
pub fn supervisor_exit_code(ev: &SupervisorEvent) -> (c: u8)
    ensures
        c == exit_code_of(*ev),
        c == 0 <==> *ev is Interrupted,
{
    match ev {
        SupervisorEvent::Interrupted => 0,
        SupervisorEvent::Tasks(_) => 1,
    }
}

} // verus!
