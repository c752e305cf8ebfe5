use ify_controller::action_log::{ActionLog, EventType};
use ify_controller::ids::{DimensionId, TaskId};
use ify_controller::orchestrator::{LocalOrchestrator, OrchestratorError, OrchestratorEvent};

fn make_orchestrator() -> (LocalOrchestrator, ActionLog) {
    (LocalOrchestrator::new(DimensionId::new(), 16), ActionLog::new(32))
}

#[test]
fn submit_and_complete() {
    let (mut orch, mut log) = make_orchestrator();
    let task = TaskId::new();
    let dim = orch.dimension_id();

    orch.submit(task, dim, &mut log).unwrap();
    orch.progress(task, 50, "halfway", &mut log).unwrap();
    orch.complete(task, &mut log).unwrap();

    let history = orch.replay(task, &mut log).unwrap();
    assert_eq!(history.len(), 3);
    assert!(history[2].is_terminal());
    assert!(matches!(&history[1], OrchestratorEvent::Progress { percent: 50, message, .. } if message == "halfway"));
}

#[test]
fn cancel_prevents_further_updates() {
    let (mut orch, mut log) = make_orchestrator();
    let task = TaskId::new();
    let dim = orch.dimension_id();

    orch.submit(task, dim, &mut log).unwrap();
    orch.cancel(task, &mut log).unwrap();

    let err = orch.progress(task, 10, "nope", &mut log);
    assert!(matches!(err, Err(OrchestratorError::AlreadyTerminal(_))));
    assert!(matches!(orch.complete(task, &mut log), Err(OrchestratorError::AlreadyTerminal(_))));
    assert!(matches!(orch.fail(task, "late", &mut log), Err(OrchestratorError::AlreadyTerminal(_))));
    assert_eq!(orch.replay(task, &mut log).unwrap().len(), 2);
}

#[test]
fn submit_dimension_mismatch_fails() {
    let (mut orch, mut log) = make_orchestrator();
    let err = orch.submit(TaskId::new(), DimensionId::new(), &mut log);
    assert!(matches!(err, Err(OrchestratorError::DimensionMismatch { .. })));
    assert_eq!(log.len(), 0);
}

#[test]
fn replay_unknown_task_fails() {
    let (orch, mut log) = make_orchestrator();
    let err = orch.replay(TaskId::new(), &mut log);
    assert!(matches!(err, Err(OrchestratorError::TaskNotFound(_))));
}

#[test]
fn fail_task_emits_failed_event() {
    let (mut orch, mut log) = make_orchestrator();
    let task = TaskId::new();
    let dim = orch.dimension_id();

    orch.submit(task, dim, &mut log).unwrap();
    orch.fail(task, "something broke", &mut log).unwrap();

    let history = orch.replay(task, &mut log).unwrap();
    assert!(matches!(history.last(), Some(OrchestratorEvent::Failed { .. })));
    let entries = log.all_entries();
    assert_eq!(entries[1].event_type, EventType::TaskFailed);
}

#[test]
fn unknown_task_updates_fail() {
    let (mut orch, mut log) = make_orchestrator();
    let task = TaskId::new();
    assert!(matches!(orch.progress(task, 1, "x", &mut log), Err(OrchestratorError::TaskNotFound(_))));
    assert!(matches!(orch.cancel(task, &mut log), Err(OrchestratorError::TaskNotFound(_))));
    assert_eq!(log.len(), 0);
}

#[test]
fn events_name_their_task() {
    let task = TaskId::new();
    let e = OrchestratorEvent::Submitted { task_id: task };
    assert_eq!(e.task_id(), task);
    assert!(!e.is_terminal());
    assert!(OrchestratorEvent::Cancelled { task_id: task }.is_terminal());
    assert_eq!(LocalOrchestrator::new(DimensionId::new(), 0).channel_capacity(), 1);
}
