use ify_controller::action_log::{ActionLog, ActionLogEntry, Actor, EventType};
use ify_controller::ids::{DimensionId, TaskId};
use ify_controller::json::JsonValue;

fn make_entry(dim: DimensionId, task: TaskId) -> ActionLogEntry {
    ActionLogEntry::new(
        EventType::ControllerRegistered,
        Actor::System,
        Some(dim),
        Some(task),
        JsonValue::object(vec![
            ("controller_kind".to_string(), JsonValue::string("block")),
            ("dimension_id".to_string(), JsonValue::from_uuid(dim.0)),
        ]),
    )
}

#[test]
fn append_and_query() {
    let mut log = ActionLog::new(16);
    let dim = DimensionId::new();
    let task = TaskId::new();

    log.append(make_entry(dim, task));
    log.append(make_entry(dim, task));
    log.append(make_entry(DimensionId::new(), TaskId::new()));

    assert_eq!(log.len(), 3);
    assert_eq!(log.entries_for_dimension(dim).len(), 2);
    assert_eq!(log.entries_for_task(task).len(), 2);
}

#[test]
fn entry_has_unique_event_ids() {
    let mut log = ActionLog::new(8);
    let dim = DimensionId::new();
    let task = TaskId::new();

    log.append(make_entry(dim, task));
    log.append(make_entry(dim, task));

    let entries = log.all_entries();
    assert_ne!(entries[0].event_id, entries[1].event_id);
}

#[test]
fn event_type_display_matches_spec() {
    assert_eq!(EventType::ControllerRegistered.as_str(), "controller.registered");
    assert_eq!(EventType::TaskSubmitted.as_str(), "task.submitted");
    assert_eq!(EventType::ArtifactProduced.as_str(), "artifact.produced");
    assert_eq!(EventType::NodeCreated.as_str(), "node.created");
}

#[test]
fn causality_and_correlation_chain() {
    let mut log = ActionLog::new(8);
    let dim = DimensionId::new();
    let task = TaskId::new();
    let cause_id = uuid::Uuid::new_v4().as_u128();

    let entry = ActionLogEntry::new(
        EventType::TaskStarted,
        Actor::Agent("agent-1".into()),
        Some(dim),
        Some(task),
        JsonValue::empty_object(),
    )
    .with_causality(cause_id)
    .with_correlation("req-abc".to_string());

    assert_eq!(entry.causality_id, Some(cause_id));
    assert_eq!(entry.correlation_id.as_deref(), Some("req-abc"));

    log.append(entry);
    assert_eq!(log.len(), 1);
}

#[test]
fn record_builds_system_entry_in_scope() {
    let mut log = ActionLog::new(0);
    assert_eq!(log.subscriber_capacity(), 1);
    assert!(log.is_empty());
    let dim = DimensionId::new();
    let task = TaskId::new();
    log.record(EventType::TaskSubmitted, Some(dim), Some(task), JsonValue::empty_object());
    log.record(EventType::TaskCompleted, None, Some(task), JsonValue::empty_object());
    assert_eq!(log.len(), 2);
    assert_eq!(log.entries_for_dimension(dim).len(), 1);
    assert_eq!(log.entries_for_task(task).len(), 2);
    let all = log.all_entries();
    assert_eq!(all[0].event_type, EventType::TaskSubmitted);
    assert_eq!(all[1].event_type, EventType::TaskCompleted);
    assert!(matches!(all[0].actor, Actor::System));
}

#[test]
fn event_type_strings_for_added_variants() {
    assert_eq!(EventType::TemplateCreated.as_str(), "template.created");
    assert_eq!(EventType::NodeMessageBroadcast.as_str(), "node_message.broadcast");
    assert_eq!(EventType::PipelineCreated.as_str(), "pipeline.created");
}

#[test]
fn event_type_texts_are_distinct_and_dotted() {
    let all = [
        EventType::ControllerRegistered, EventType::TaskSubmitted, EventType::TaskStarted, EventType::TaskFailed,
        EventType::NodeUndo, EventType::NodeRedo, EventType::GraphValidated, EventType::GraphPatched,
    ];
    for (i, a) in all.iter().enumerate() {
        let t = a.as_str();
        assert_eq!(t.matches('.').count(), 1);
        let (l, r) = t.split_once('.').unwrap();
        assert!(!l.is_empty() && !r.is_empty());
        assert!(t.chars().all(|c| c == '.' || c == '_' || c.is_ascii_lowercase()));
        for b in all.iter().skip(i + 1) {
            assert_ne!(t, b.as_str());
        }
    }
}
