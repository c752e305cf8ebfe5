use ify_controller::action_log::ActionLog;
use ify_controller::ids::{ArtifactId, DimensionId, TaskId};
use ify_controller::json::JsonValue;
use ify_controller::pipeline::{
    BatchConfig, DeadLetterEntry, DeadLetterQueue, DeadLetterReason, EventWatermark, FieldType, LineageRecord,
    LineageTracker, Pipeline, PipelineBuilderNode, PipelineBuilderRegistry, PipelineError, PipelineNodeKind,
    PipelineRegistry, PipelineStep, SchemaInferrer, SchemaRegistry, SchemaValidator, StepKind, StorageConnector,
    StorageConnectorKind, StorageConnectorRegistry, StreamPipeline, StreamRecord, TransformReplayRequest,
    TransformVersion,
};

fn obj(members: Vec<(&str, JsonValue)>) -> JsonValue {
    JsonValue::object(members.into_iter().map(|(k, v)| (k.to_string(), v)).collect())
}

fn new_id() -> u128 {
    uuid::Uuid::new_v4().as_u128()
}

#[test]
fn pipeline_add_remove_step() {
    let dim = DimensionId::new();
    let mut pipeline = Pipeline::new("test", dim);
    assert_eq!(pipeline.version, 1);

    let step = PipelineStep::new("map prices", StepKind::Mapping);
    let step_id = step.id;
    pipeline.add_step(step);
    assert_eq!(pipeline.steps.len(), 1);
    assert_eq!(pipeline.version, 2);

    assert!(pipeline.remove_step(step_id));
    assert!(pipeline.steps.is_empty());
    assert_eq!(pipeline.version, 3);
    assert!(!pipeline.remove_step(step_id));
    assert_eq!(pipeline.version, 3);
}

#[test]
fn step_kind_str_roundtrip() {
    let kinds = [StepKind::Mapping, StepKind::Filter, StepKind::Reduce, StepKind::Aggregate, StepKind::Window];
    let expected = ["map", "filter", "reduce", "aggregate", "window"];
    for (kind, exp) in kinds.iter().zip(expected.iter()) {
        assert_eq!(kind.as_str(), *exp);
    }
}

#[test]
fn transform_version_capture() {
    let dim = DimensionId::new();
    let mut pipeline = Pipeline::new("v-test", dim);
    pipeline.add_step(PipelineStep::new("filter negatives", StepKind::Filter));

    let tv = TransformVersion::capture(&pipeline, "alice", "initial version");
    assert_eq!(tv.pipeline_id, pipeline.id);
    assert_eq!(tv.version, pipeline.version);
    assert_eq!(tv.steps_snapshot.len(), 1);
    assert_eq!(tv.author, "alice");
}

#[test]
fn registry_replay_version() {
    let mut log = ActionLog::new(64);
    let mut registry = PipelineRegistry::new();
    let dim = DimensionId::new();
    let mut pipeline = Pipeline::new("replay-test", dim);
    pipeline.add_step(PipelineStep::new("map", StepKind::Mapping));
    let pipeline_id = registry.register_pipeline(pipeline.clone(), &mut log);

    registry.update_pipeline(pipeline.clone(), "bot", "step 1", &mut log).unwrap();

    let versions = registry.versions_for_pipeline(pipeline_id);
    assert_eq!(versions.len(), 1);

    let task = TaskId::new();
    let req = TransformReplayRequest {
        pipeline_id,
        version: versions[0].version,
        input_records: vec![obj(vec![("x", JsonValue::from_u64(1))])],
        task_id: task,
    };
    let (tv, records) = registry.replay_version(req, &mut log).unwrap();
    assert_eq!(tv.version, versions[0].version);
    assert_eq!(records.len(), 1);
}

#[test]
fn replay_unknown_version_fails() {
    let mut log = ActionLog::new(64);
    let mut registry = PipelineRegistry::new();
    let pipeline = Pipeline::new("p", DimensionId::new());
    let id = registry.register_pipeline(pipeline.clone(), &mut log);
    let req = TransformReplayRequest { pipeline_id: id, version: 7, input_records: vec![], task_id: TaskId::new() };
    assert!(matches!(registry.replay_version(req, &mut log), Err(PipelineError::PipelineNotFound(_))));
    registry.update_pipeline(pipeline, "bot", "v", &mut log).unwrap();
    let req = TransformReplayRequest { pipeline_id: id, version: 7, input_records: vec![], task_id: TaskId::new() };
    assert!(matches!(registry.replay_version(req, &mut log), Err(PipelineError::VersionNotFound { .. })));
}

#[test]
fn dlq_enqueue_and_drain() {
    let mut dlq = DeadLetterQueue::new();
    let pipeline_id = new_id();
    let step_id = new_id();
    dlq.enqueue(DeadLetterEntry::new(
        pipeline_id,
        step_id,
        obj(vec![("record", JsonValue::string("bad"))]),
        "parse error",
        DeadLetterReason::StepError,
    ));
    assert_eq!(dlq.len(), 1);
    assert_eq!(dlq.entries_for_pipeline(pipeline_id).len(), 1);
    let drained = dlq.drain();
    assert_eq!(drained.len(), 1);
    assert!(dlq.is_empty());
}

#[test]
fn schema_infer_from_object() {
    let sample = obj(vec![
        ("id", JsonValue::from_u64(1)),
        ("name", JsonValue::string("alice")),
        ("score", JsonValue::Float("9.5".to_string())),
        ("active", JsonValue::from_bool(true)),
    ]);
    let schema = SchemaInferrer::infer("users", &sample);
    assert_eq!(schema.fields.len(), 4);
    assert_eq!(schema.version, 1, "inferred schema must have version 1");
    let name_field = schema.fields.iter().find(|f| f.name == "name").unwrap();
    assert_eq!(name_field.field_type, FieldType::String);
    let id_field = schema.fields.iter().find(|f| f.name == "id").unwrap();
    assert_eq!(id_field.field_type, FieldType::Integer);
    let score_field = schema.fields.iter().find(|f| f.name == "score").unwrap();
    assert_eq!(score_field.field_type, FieldType::Float);
}

#[test]
fn schema_validation_passes() {
    let sample = obj(vec![("id", JsonValue::from_u64(1)), ("name", JsonValue::string("bob"))]);
    let schema = SchemaInferrer::infer("t", &sample);
    assert!(SchemaValidator::validate(&sample, &schema).is_ok());
}

#[test]
fn schema_validation_fails_wrong_type() {
    let sample = obj(vec![("id", JsonValue::from_u64(1)), ("name", JsonValue::string("bob"))]);
    let schema = SchemaInferrer::infer("t", &sample);
    let bad_record = obj(vec![("id", JsonValue::string("not-an-int")), ("name", JsonValue::string("carol"))]);
    assert!(SchemaValidator::validate(&bad_record, &schema).is_err());
}

#[test]
fn schema_validation_reports_missing_field() {
    let sample = obj(vec![("id", JsonValue::from_u64(1))]);
    let schema = SchemaInferrer::infer("t", &sample);
    match SchemaValidator::validate(&obj(vec![]), &schema) {
        Err(PipelineError::SchemaValidationFailed(msg)) => assert_eq!(msg, "required field 'id' is missing"),
        other => panic!("unexpected {:?}", other),
    }
}

#[test]
fn schema_registry_store_retrieve() {
    let mut registry = SchemaRegistry::new();
    let schema = SchemaInferrer::infer("events", &obj(vec![("ts", JsonValue::from_u64(0))]));
    let id = registry.register(schema);
    assert!(registry.get(id).is_some());
    assert_eq!(registry.all().len(), 1);
}

#[test]
fn stream_pipeline_advance_watermark() {
    let dim = DimensionId::new();
    let pipeline = Pipeline::new("stream", dim);
    let mut sp = StreamPipeline::new(pipeline);
    assert_eq!(sp.low_watermark_ms, 0);

    let r1 = StreamRecord::new(obj(vec![("v", JsonValue::from_u64(1))]), 1_000);
    let r2 = StreamRecord::new(obj(vec![("v", JsonValue::from_u64(2))]), 3_000);
    sp.advance(&r1);
    sp.advance(&r2);

    assert_eq!(sp.low_watermark_ms, 3_000);
    assert_eq!(sp.records_processed, 2);
}

#[test]
fn watermark_never_moves_back() {
    let mut sp = StreamPipeline::new(Pipeline::new("s", DimensionId::new()));
    sp.advance(&StreamRecord::new(JsonValue::Null, 5_000));
    sp.advance(&StreamRecord::new(JsonValue::Null, 2_000));
    assert_eq!(sp.low_watermark_ms, 5_000);
    sp.mark_failed();
    assert_eq!(sp.records_failed, 1);
}

#[test]
fn event_watermark_lag() {
    let wm = EventWatermark { event_time_ms: 1_000, processing_time_ms: 1_500 };
    assert_eq!(wm.lag_ms(), 500);
}

#[test]
fn event_watermark_lag_can_be_negative() {
    let wm = EventWatermark { event_time_ms: 2_000, processing_time_ms: 1_500 };
    assert_eq!(wm.lag_ms(), -500);
}

#[test]
fn checkpoint_save_and_resume() {
    let mut log = ActionLog::new(64);
    let mut registry = PipelineRegistry::new();
    let pipeline_id = registry.register_pipeline(Pipeline::new("cp-test", DimensionId::new()), &mut log);

    let cp = registry
        .save_checkpoint(pipeline_id, 2, 5_000, obj(vec![("acc", JsonValue::from_u64(42))]), &mut log)
        .unwrap();
    assert_eq!(cp.completed_step_index, 2);
    assert_eq!(cp.processed_count, 5_000);

    let resumed = registry.resume_from_checkpoint(pipeline_id, &mut log).unwrap();
    assert_eq!(resumed.id, cp.id);
}

#[test]
fn resume_without_checkpoint_errors() {
    let mut log = ActionLog::new(64);
    let mut registry = PipelineRegistry::new();
    let pipeline_id = registry.register_pipeline(Pipeline::new("no-cp", DimensionId::new()), &mut log);
    let result = registry.resume_from_checkpoint(pipeline_id, &mut log);
    assert!(matches!(result, Err(PipelineError::CheckpointNotFound(_))));
}

#[test]
fn lineage_record_and_query() {
    let mut log = ActionLog::new(64);
    let mut tracker = LineageTracker::new();
    let dim = DimensionId::new();
    let task = TaskId::new();
    let pipeline_id = new_id();
    let step_id = new_id();
    let input = ArtifactId::new();
    let output = ArtifactId::new();

    let record = LineageRecord::new(pipeline_id, step_id, "map step", vec![input], output, 1, task, dim);
    tracker.record(record, &mut log);
    assert_eq!(tracker.len(), 1);
    let for_pipeline = tracker.records_for_pipeline(pipeline_id);
    assert_eq!(for_pipeline.len(), 1);
    assert_eq!(for_pipeline[0].output_artifact_id, output);
    assert_eq!(tracker.records_for_artifact(input).len(), 0);
    assert_eq!(tracker.records_for_artifact(output).len(), 1);
    assert_eq!(log.len(), 1);
}

#[test]
fn batch_config_defaults() {
    let config = BatchConfig::default();
    assert_eq!(config.parallelism, 4);
}

#[test]
fn builder_registry_has_all_kinds() {
    let registry = PipelineBuilderRegistry::with_defaults();
    assert_eq!(registry.len(), 9);
}

#[test]
fn builder_node_for_map_has_ports() {
    let node = PipelineBuilderNode::for_kind(PipelineNodeKind::Mapping);
    assert_eq!(node.input_ports, vec!["in"]);
    assert_eq!(node.output_ports, vec!["out"]);
    assert_eq!(node.node_kind_str, "pipeline.map");
}

#[test]
fn builder_node_source_has_no_inputs() {
    let node = PipelineBuilderNode::for_kind(PipelineNodeKind::Source);
    assert!(node.input_ports.is_empty());
    assert!(!node.output_ports.is_empty());
}

#[test]
fn connector_registry_register_and_retrieve() {
    let mut log = ActionLog::new(64);
    let mut registry = StorageConnectorRegistry::with_log();
    let conn = StorageConnector::new(
        "prod-postgres",
        StorageConnectorKind::Postgresql,
        obj(vec![
            ("host", JsonValue::string("localhost")),
            ("port", JsonValue::from_u64(5432)),
            ("db", JsonValue::string("infinity")),
        ]),
    );
    let id = registry.register(conn, &mut log);
    let retrieved = registry.get(id).unwrap();
    assert_eq!(retrieved.kind, StorageConnectorKind::Postgresql);
    assert_eq!(log.len(), 1);
}

#[test]
fn connector_registry_remove() {
    let mut log = ActionLog::new(64);
    let mut registry = StorageConnectorRegistry::new();
    let conn = StorageConnector::new(
        "test-s3",
        StorageConnectorKind::S3Compatible,
        obj(vec![("endpoint", JsonValue::string("http://minio:9000")), ("bucket", JsonValue::string("data"))]),
    );
    let id = registry.register(conn, &mut log);
    assert!(registry.remove(id));
    assert!(registry.get(id).is_none());
    assert!(registry.is_empty());
}

#[test]
fn registry_full_pipeline_lifecycle() {
    let mut log = ActionLog::new(64);
    let mut registry = PipelineRegistry::new();
    let dim = DimensionId::new();

    let mut pipeline = Pipeline::new("etl", dim);
    pipeline.add_step(PipelineStep::new("parse", StepKind::Mapping));
    pipeline.add_step(PipelineStep::new("drop nulls", StepKind::Filter));
    let id = registry.register_pipeline(pipeline.clone(), &mut log);

    registry.update_pipeline(pipeline.clone(), "system", "initial", &mut log).unwrap();
    assert_eq!(registry.versions_for_pipeline(id).len(), 1);

    let schema = SchemaInferrer::infer("row", &obj(vec![("id", JsonValue::from_u64(1)), ("val", JsonValue::string("x"))]));
    let schema_id = registry.schemas.register(schema);
    assert!(registry.schemas.get(schema_id).is_some());

    registry.save_checkpoint(id, 1, 500, JsonValue::empty_object(), &mut log).unwrap();
    let cp = registry.resume_from_checkpoint(id, &mut log).unwrap();
    assert_eq!(cp.completed_step_index, 1);

    let conn = StorageConnector::new(
        "local",
        StorageConnectorKind::LocalFilesystem,
        obj(vec![("path", JsonValue::string("/data/output"))]),
    );
    registry.connectors.register(conn, &mut log);
    assert_eq!(registry.connectors.len(), 1);

    assert!(log.len() >= 4);
}
