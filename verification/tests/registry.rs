use ify_controller::action_log::ActionLog;
use ify_controller::ids::{DimensionId, TaskId};
use ify_controller::json::JsonValue;
use ify_controller::registry::{BlockRegistry, RegistryError};

fn make_registry() -> (BlockRegistry, ActionLog) {
    (BlockRegistry::new(), ActionLog::new(32))
}

#[test]
fn full_pipeline_succeeds() {
    let (mut reg, mut log) = make_registry();
    let dim = DimensionId::new();
    let task = TaskId::new();

    let block_id = reg.register_block(dim, task, &mut log);
    let editor_id = reg.create_editor(block_id, "rust", &mut log).unwrap();
    reg.attach_interpreter(block_id, "lsp", JsonValue::empty_object(), &mut log).unwrap();
    let binding = reg.bind_runtime(block_id, &mut log).unwrap();

    assert_eq!(binding.block_id, block_id);
    assert_eq!(binding.editor_id, editor_id);
    assert_eq!(binding.dimension_id, dim);
    assert_eq!(log.len(), 4);
    assert_eq!(reg.binding_for(block_id), Some(binding));
    assert_eq!(reg.editor_for(block_id).unwrap().language, "rust");
}

#[test]
fn create_editor_unknown_block_fails() {
    let (mut reg, mut log) = make_registry();
    let err = reg.create_editor(uuid::Uuid::new_v4().as_u128(), "rust", &mut log);
    assert!(matches!(err, Err(RegistryError::BlockNotFound(_))));
}

#[test]
fn attach_without_editor_fails() {
    let (mut reg, mut log) = make_registry();
    let block_id = reg.register_block(DimensionId::new(), TaskId::new(), &mut log);

    let err = reg.attach_interpreter(block_id, "lsp", JsonValue::empty_object(), &mut log);
    assert!(matches!(err, Err(RegistryError::StageNotComplete { .. })));
}

#[test]
fn bind_without_interpreter_fails() {
    let (mut reg, mut log) = make_registry();
    let block_id = reg.register_block(DimensionId::new(), TaskId::new(), &mut log);
    reg.create_editor(block_id, "python", &mut log).unwrap();

    let err = reg.bind_runtime(block_id, &mut log);
    assert!(matches!(err, Err(RegistryError::StageNotComplete { .. })));
}

#[test]
fn duplicate_editor_fails() {
    let (mut reg, mut log) = make_registry();
    let block_id = reg.register_block(DimensionId::new(), TaskId::new(), &mut log);

    reg.create_editor(block_id, "rust", &mut log).unwrap();
    let err = reg.create_editor(block_id, "rust", &mut log);
    assert!(matches!(err, Err(RegistryError::EditorAlreadyExists(_))));
}

#[test]
fn duplicate_bind_fails() {
    let (mut reg, mut log) = make_registry();
    let block_id = reg.register_block(DimensionId::new(), TaskId::new(), &mut log);

    reg.create_editor(block_id, "rust", &mut log).unwrap();
    reg.attach_interpreter(block_id, "lsp", JsonValue::empty_object(), &mut log).unwrap();
    reg.bind_runtime(block_id, &mut log).unwrap();

    let err = reg.bind_runtime(block_id, &mut log);
    assert!(matches!(err, Err(RegistryError::AlreadyBound(_))));
}

#[test]
fn stage_errors_name_the_missing_stage() {
    let (mut reg, mut log) = make_registry();
    let block_id = reg.register_block(DimensionId::new(), TaskId::new(), &mut log);
    match reg.bind_runtime(block_id, &mut log) {
        Err(RegistryError::StageNotComplete { reason, .. }) => {
            assert_eq!(reason, "create_editor() and attach_interpreter() must be called first")
        }
        other => panic!("unexpected {:?}", other),
    }
    reg.create_editor(block_id, "rust", &mut log).unwrap();
    match reg.bind_runtime(block_id, &mut log) {
        Err(RegistryError::StageNotComplete { reason, .. }) => {
            assert_eq!(reason, "attach_interpreter() must be called before bind_runtime()")
        }
        other => panic!("unexpected {:?}", other),
    }
    assert!(matches!(
        reg.attach_interpreter(block_id, "lsp", JsonValue::Null, &mut log),
        Ok(())
    ));
    assert!(matches!(
        reg.attach_interpreter(block_id, "lsp", JsonValue::Null, &mut log),
        Err(RegistryError::InterpreterAlreadyAttached(_))
    ));
    assert_eq!(reg.len(), 1);
    assert!(!reg.is_empty());
}
