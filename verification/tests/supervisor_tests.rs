use wsrelay::error::ServerError;
use wsrelay::supervisor::{supervisor_exit_code, wait_outcome, SupervisorEvent, TaskWait};

#[test]
fn interrupt_exits_clean() {
    assert_eq!(supervisor_exit_code(&SupervisorEvent::Interrupted), 0);
}

#[test]
fn bind_failure_exits_nonzero() {
    let ev = SupervisorEvent::Tasks(TaskWait::Finished(Err(ServerError::Io)));
    assert_ne!(supervisor_exit_code(&ev), 0);
}

#[test]
fn clean_task_exit_still_ends_nonzero() {
    let ev = SupervisorEvent::Tasks(TaskWait::Finished(Ok(())));
    assert_ne!(supervisor_exit_code(&ev), 0);
}

#[test]
fn wait_outcome_mappings() {
    assert_eq!(wait_outcome(TaskWait::Finished(Ok(()))), Ok(()));
    assert_eq!(
        wait_outcome(TaskWait::Finished(Err(ServerError::Io))),
        Err(ServerError::Io)
    );
    assert_eq!(wait_outcome(TaskWait::JoinFailure), Err(ServerError::Join));
    assert_eq!(wait_outcome(TaskWait::NoneLeft), Err(ServerError::NoTasks));
}
