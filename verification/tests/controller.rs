use ify_controller::action_log::ActionLog;
use ify_controller::controller::{BlockController, BlockControllerError, ControllerState};
use ify_controller::ids::{DimensionId, TaskId};

fn make_controller() -> (BlockController, ActionLog) {
    let mut log = ActionLog::new(32);
    let dim = DimensionId::new();
    let task = TaskId::new();
    let ctrl = BlockController::create(dim, task, &mut log);
    (ctrl, log)
}

#[test]
fn initial_state_is_created() {
    let (ctrl, _) = make_controller();
    assert_eq!(ctrl.state(), ControllerState::Created);
}

#[test]
fn full_lifecycle_emits_action_log_entries() {
    let (mut ctrl, mut log) = make_controller();
    let peer = DimensionId::new();

    ctrl.link(peer, &mut log).unwrap();
    ctrl.isolate(&mut log).unwrap();
    ctrl.dispose(&mut log).unwrap();

    assert_eq!(ctrl.state(), ControllerState::Disposed);

    // create + link + isolate + dispose = 4 entries
    assert_eq!(log.len(), 4);
}

#[test]
fn validate_dimension_ok() {
    let (ctrl, _) = make_controller();
    assert!(ctrl.validate_dimension(ctrl.dimension_id).is_ok());
}

#[test]
fn validate_dimension_mismatch_returns_error() {
    let (ctrl, _) = make_controller();
    let other = DimensionId::new();
    let err = ctrl.validate_dimension(other);
    assert!(matches!(err, Err(BlockControllerError::DimensionMismatch { .. })));
}

#[test]
fn link_from_wrong_state_fails() {
    let (mut ctrl, mut log) = make_controller();
    let peer = DimensionId::new();
    ctrl.link(peer, &mut log).unwrap();
    // Calling link() again from Linked state must fail
    let err = ctrl.link(peer, &mut log);
    assert!(matches!(err, Err(BlockControllerError::InvalidTransition { .. })));
}

#[test]
fn isolate_from_wrong_state_fails() {
    let (mut ctrl, mut log) = make_controller();
    // Cannot isolate from Created (must link first)
    let err = ctrl.isolate(&mut log);
    assert!(matches!(err, Err(BlockControllerError::InvalidTransition { .. })));
}

#[test]
fn dispose_twice_fails() {
    let (mut ctrl, mut log) = make_controller();
    ctrl.dispose(&mut log).unwrap();
    let err = ctrl.dispose(&mut log);
    assert!(matches!(err, Err(BlockControllerError::AlreadyDisposed(_))));
}

#[test]
fn dispose_from_created_state_allowed() {
    let (mut ctrl, mut log) = make_controller();
    // Emergency cleanup without linking/isolating must succeed
    assert!(ctrl.dispose(&mut log).is_ok());
    assert_eq!(ctrl.state(), ControllerState::Disposed);
}

#[test]
fn link_records_peer_and_failed_transition_leaves_log_alone() {
    let (mut ctrl, mut log) = make_controller();
    let peer = DimensionId::new();
    assert_eq!(ctrl.peer_dimension(), None);
    ctrl.link(peer, &mut log).unwrap();
    assert_eq!(ctrl.peer_dimension(), Some(peer));
    let before = log.len();
    assert!(ctrl.link(peer, &mut log).is_err());
    assert_eq!(log.len(), before);
    assert_eq!(ctrl.state(), ControllerState::Linked);
}
