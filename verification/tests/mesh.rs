use ify_controller::action_log::ActionLog;
use ify_controller::ids::{ArtifactId, DimensionId, TaskId};
use ify_controller::json::JsonValue;
use ify_controller::mesh::{
    normalize_tags, ConflictStrategy, GarbageCollectionPolicy, MeshArtifact, MeshArtifactBuilder, MeshArtifactStore,
    MeshError, MeshReplicator, MeshSchemaRegistry, PatchOp, SchemaVersion, SubscriptionFilter,
};

fn make_store() -> (MeshArtifactStore, ActionLog) {
    (MeshArtifactStore::new(16), ActionLog::new(32))
}

fn obj(k: &str, v: JsonValue) -> JsonValue {
    JsonValue::object(vec![(k.to_string(), v)])
}

fn make_artifact(dim: DimensionId, task: TaskId) -> MeshArtifact {
    MeshArtifactBuilder::new(dim, task).payload(obj("hello", JsonValue::string("mesh"))).build()
}

fn new_id() -> u128 {
    uuid::Uuid::new_v4().as_u128()
}

#[test]
fn produce_and_consume() {
    let (mut store, mut log) = make_store();
    let dim = DimensionId::new();
    let task = TaskId::new();

    let id = store.produce(make_artifact(dim, task), &mut log);
    let consumed = store.consume(id, &mut log).unwrap();
    assert_eq!(consumed.id, id);
    assert!(consumed.consumed);
}

#[test]
fn consume_twice_fails() {
    let (mut store, mut log) = make_store();
    let id = store.produce(make_artifact(DimensionId::new(), TaskId::new()), &mut log);
    store.consume(id, &mut log).unwrap();

    let err = store.consume(id, &mut log);
    assert!(matches!(err, Err(MeshError::AlreadyConsumed(_))));
}

#[test]
fn consume_unknown_fails() {
    let (mut store, mut log) = make_store();
    let err = store.consume(ArtifactId::new(), &mut log);
    assert!(matches!(err, Err(MeshError::NotFound(_))));
}

#[test]
fn snapshot_node_roundtrip() {
    let (mut store, mut log) = make_store();
    let dim = DimensionId::new();
    let task = TaskId::new();
    let node_id = new_id();
    let state = JsonValue::object(vec![
        ("x".to_string(), JsonValue::from_u64(100)),
        ("y".to_string(), JsonValue::from_u64(200)),
    ]);

    let snap_id = store.snapshot_node(node_id, state.clone(), task, dim, &mut log);
    let snap = store.get_snapshot(snap_id).unwrap();

    assert_eq!(snap.node_id, node_id);
    assert!(matches!(&snap.state, JsonValue::Object(_)));
    assert_eq!(format!("{:?}", snap.state), format!("{:?}", state));
}

#[test]
fn patch_roundtrip() {
    let (mut store, mut log) = make_store();
    let dim = DimensionId::new();
    let task = TaskId::new();
    let node_id = new_id();

    let before = obj("color", JsonValue::string("red"));
    let after = obj("color", JsonValue::string("blue"));
    let ops = vec![PatchOp::Replace {
        path: "/color".to_owned(),
        old: JsonValue::string("red"),
        new: JsonValue::string("blue"),
    }];

    let patch_id = store.patch(node_id, before.clone(), after.clone(), ops, task, dim, &mut log);
    let patch = store.get_patch(patch_id).unwrap();

    assert_eq!(patch.node_id, node_id);
    assert_eq!(format!("{:?}", patch.before), format!("{:?}", before));
    assert_eq!(format!("{:?}", patch.after), format!("{:?}", after));
    assert_eq!(patch.ops.len(), 1);
}

#[test]
fn produce_queues_notification() {
    let (mut store, mut log) = make_store();
    let id = store.produce(make_artifact(DimensionId::new(), TaskId::new()), &mut log);
    let notes = store.take_notifications();
    assert_eq!(notes.len(), 1);
    assert_eq!(notes[0].ids, vec![id]);
    assert!(store.take_notifications().is_empty());
}

#[test]
fn schema_registry_validates_versions() {
    let (mut store, _) = make_store();
    store.register_schema("text/plain", "2.0.0", "Plain text payloads").unwrap();
    assert!(store.validate_schema("text/plain", "2.0.0").is_ok());
    let err = store.validate_schema("text/plain", "2.1.0");
    assert!(matches!(err, Err(MeshError::SchemaVersionMismatch { .. })));
}

#[test]
fn schema_version_parse_and_print() {
    let v = SchemaVersion::parse("1.2.3").unwrap();
    assert_eq!(v.to_string(), "1.2.3");
    assert!(SchemaVersion::parse("1.2").is_err());
    assert!(SchemaVersion::parse("1.x.3").is_err());
    assert!(SchemaVersion::parse("1.2.3").unwrap().lt(&SchemaVersion::parse("1.10.0").unwrap()));
}

#[test]
fn produce_validated_rejects_unknown_schema() {
    let (mut store, mut log) = make_store();
    let dim = DimensionId::new();
    let task = TaskId::new();
    let artifact = MeshArtifactBuilder::new(dim, task)
        .content_type("text/custom")
        .schema_version("1.2.3")
        .payload(obj("value", JsonValue::from_u64(7)))
        .build();
    let err = store.produce_validated(artifact, &mut log);
    assert!(matches!(err, Err(MeshError::SchemaNotRegistered { .. })));

    store.register_schema("text/custom", "1.2.3", "Custom payload").unwrap();
    let artifact = MeshArtifactBuilder::new(dim, task)
        .content_type("text/custom")
        .schema_version("1.2.3")
        .payload(obj("value", JsonValue::from_u64(7)))
        .build();
    assert!(store.produce_validated(artifact, &mut log).is_ok());
}

#[test]
fn produce_batch_indexes_by_tag_and_node() {
    let (mut store, mut log) = make_store();
    let dim = DimensionId::new();
    let task = TaskId::new();
    let node_id = new_id();
    let artifact_a =
        MeshArtifactBuilder::new(dim, task).node_id(node_id).tag("batch").payload(obj("a", JsonValue::from_u64(1))).build();
    let artifact_b =
        MeshArtifactBuilder::new(dim, task).node_id(node_id).tag("batch").payload(obj("b", JsonValue::from_u64(2))).build();

    let ids = store.produce_batch(vec![artifact_a, artifact_b], &mut log).unwrap();
    assert_eq!(ids.len(), 2);
    assert_eq!(store.artifact_count(), 2);
    assert_eq!(store.artifacts_for_node(node_id).len(), 2);
    assert_eq!(store.artifacts_with_tag("batch").len(), 2);
}

#[test]
fn produce_batch_rejects_empty_and_mixed_batches() {
    let (mut store, mut log) = make_store();
    assert!(matches!(store.produce_batch(vec![], &mut log), Err(MeshError::EmptyBatch)));
    let a = MeshArtifactBuilder::new(DimensionId::new(), TaskId::new()).build();
    let b = MeshArtifactBuilder::new(DimensionId::new(), TaskId::new()).build();
    assert!(matches!(store.produce_batch(vec![a, b], &mut log), Err(MeshError::BatchMismatch { .. })));
    assert_eq!(store.artifact_count(), 0);
    assert_eq!(log.len(), 0);
}

#[test]
fn patch_with_revision_detects_conflict() {
    let (mut store, mut log) = make_store();
    let dim = DimensionId::new();
    let task = TaskId::new();
    let node_id = new_id();
    let before = obj("x", JsonValue::from_u64(1));
    let after = obj("x", JsonValue::from_u64(2));
    let ops = vec![PatchOp::Replace { path: "/x".to_owned(), old: JsonValue::from_u64(1), new: JsonValue::from_u64(2) }];

    let result = store
        .patch_with_revision(
            node_id, before.clone(), after.clone(), ops.clone(), task, dim, 0, ConflictStrategy::Reject, &mut log,
        )
        .unwrap();
    assert_eq!(result.new_revision, 1);

    let err = store.patch_with_revision(
        node_id, before.clone(), after.clone(), ops.clone(), task, dim, 0, ConflictStrategy::Reject, &mut log,
    );
    assert!(matches!(err, Err(MeshError::ConcurrentEdit { .. })));

    let ok = store
        .patch_with_revision(node_id, before, after, ops, task, dim, 0, ConflictStrategy::LastWriteWins, &mut log)
        .unwrap();
    assert!(ok.conflict);
    assert_eq!(ok.new_revision, 2);
}

#[test]
fn filtered_subscription_matches_tag() {
    let (mut store, mut log) = make_store();
    let filter = SubscriptionFilter { tag: Some("notify".to_owned()), ..SubscriptionFilter::default() };
    let dim = DimensionId::new();
    let task = TaskId::new();
    let tagged = MeshArtifactBuilder::new(dim, task).tag("notify").payload(obj("value", JsonValue::from_u64(1))).build();
    let _ = store.produce(tagged, &mut log);
    let untagged = MeshArtifactBuilder::new(dim, task).build();
    let _ = store.produce(untagged, &mut log);

    let notes: Vec<_> = store.take_notifications().into_iter().filter(|n| filter.matches(n)).collect();
    assert_eq!(notes.len(), 1);
    assert_eq!(notes[0].tags, vec!["notify"]);
}

#[test]
fn garbage_collection_removes_ephemeral_consumed() {
    let (mut store, mut log) = make_store();
    let dim = DimensionId::new();
    let task = TaskId::new();
    let artifact =
        MeshArtifactBuilder::new(dim, task).immutability_tier(0).payload(obj("temp", JsonValue::from_bool(true))).build();
    let id = store.produce(artifact, &mut log);
    store.consume(id, &mut log).unwrap();
    let report = store.collect_garbage(&GarbageCollectionPolicy::default());
    assert_eq!(report.artifacts_removed, 1);
    assert_eq!(store.artifact_count(), 0);
}

#[test]
fn garbage_collection_keeps_unconsumed() {
    let (mut store, mut log) = make_store();
    let artifact = MeshArtifactBuilder::new(DimensionId::new(), TaskId::new()).immutability_tier(0).build();
    let _ = store.produce(artifact, &mut log);
    let report = store.collect_garbage(&GarbageCollectionPolicy::default());
    assert_eq!(report.artifacts_removed, 0);
    assert_eq!(store.artifact_count(), 1);
}

#[test]
fn replication_copies_artifact() {
    let (mut source, mut log) = make_store();
    let target = MeshArtifactStore::new(16);
    let id = source.produce(make_artifact(DimensionId::new(), TaskId::new()), &mut log);
    let mut replicator = MeshReplicator::new(source, target);
    replicator.replicate_artifact(id, &mut log).unwrap();
    assert_eq!(replicator.target.artifact_count(), 1);
    assert_eq!(replicator.target.get_artifact(id).unwrap().id, id);
}

#[test]
fn normalize_tags_sorts_and_dedups() {
    let tags = normalize_tags(vec!["b".to_string(), "a".to_string(), "b".to_string()]);
    assert_eq!(tags, vec!["a".to_string(), "b".to_string()]);
}

#[test]
fn schema_version_text_parses_back() {
    for (a, b, c) in [(0u32, 0u32, 0u32), (1, 2, 3), (10, 0, 4294967295)] {
        let v = SchemaVersion { major: a, minor: b, patch: c };
        let back = SchemaVersion::parse(&v.to_string()).unwrap();
        assert_eq!((back.major, back.minor, back.patch), (a, b, c));
    }
    assert!(SchemaVersion::parse("1.2").is_err());
    assert!(SchemaVersion::parse("1.2.x").is_err());
}

#[test]
fn artifact_ids_are_never_nil() {
    let a = ArtifactId::new();
    let b = ArtifactId::new();
    assert_ne!(a.value(), 0);
    assert_ne!(b.value(), 0);
    assert_ne!(a.value(), b.value());
}

#[test]
fn registry_lookup_finds_last_registration() {
    let mut reg = MeshSchemaRegistry::new();
    reg.register_schema("text/plain", "1.0.0", "first").unwrap();
    reg.register_schema("text/csv", "1.0.0", "csv").unwrap();
    let d = reg.register_schema("text/plain", "1.0.0", "second").unwrap();
    let v = SchemaVersion::parse("1.0.0").unwrap();
    let found = reg.schema("text/plain", &v).unwrap();
    assert_eq!(found.description, "second");
    assert_eq!(found.registered_at_ms, d.registered_at_ms);
    assert_eq!(reg.schema("text/csv", &v).unwrap().description, "csv");
    let v2 = SchemaVersion::parse("2.0.0").unwrap();
    assert!(reg.schema("text/plain", &v2).is_none());
    assert!(reg.schema("application/json", &v).is_none());
}
