use ify_controller::action_log::ActionLog;
use ify_controller::graph::{FlowGraphSchema, GraphNode};
use ify_controller::ids::{DimensionId, TaskId};
use ify_controller::json::{uuid_to_string, JsonValue};
use ify_controller::node_instance::{
    InstanceConfig, InstanceError, InstanceRegistry, InstanceTemplate, LockPolicy, NodeInstance, ParamInheritance,
    ParamSchema, PublishReceipt,
};
use ify_controller::params::ParamMap;

fn make_registry() -> (InstanceRegistry, ActionLog) {
    (InstanceRegistry::new(DimensionId::new(), TaskId::new()), ActionLog::new(32))
}

fn make_template(name: &str, registry: &mut InstanceRegistry, log: &mut ActionLog) -> u128 {
    let mut schema = FlowGraphSchema::new(DimensionId::new());
    let mut node_a = GraphNode::new("http.request", "Fetch");
    node_a.parameters.insert("url".into(), JsonValue::string("https://default.example.com"));
    let node_id = node_a.id;
    schema.nodes.insert(node_id, node_a);

    let tmpl = InstanceTemplate::new(name, vec![node_id], schema, "alice");
    registry.register_template(tmpl, log)
}

fn overrides(k: &str, v: JsonValue) -> ParamMap {
    let mut m = ParamMap::new();
    m.insert(k.into(), v);
    m
}

fn new_id() -> u128 {
    uuid::Uuid::new_v4().as_u128()
}

#[test]
fn register_and_retrieve_template() {
    let (mut reg, mut log) = make_registry();
    let id = make_template("My Template", &mut reg, &mut log);
    assert!(reg.get_template(id).is_some());
    assert_eq!(reg.get_template(id).unwrap().name, "My Template");
    assert_eq!(log.len(), 1);
}

#[test]
fn remove_template() {
    let (mut reg, mut log) = make_registry();
    let id = make_template("T", &mut reg, &mut log);
    reg.remove_template(id).unwrap();
    assert!(reg.get_template(id).is_none());
}

#[test]
fn remove_unknown_template_fails() {
    let (mut reg, _) = make_registry();
    let err = reg.remove_template(new_id()).unwrap_err();
    assert!(matches!(err, InstanceError::TemplateNotFound(_)));
}

#[test]
fn instantiate_with_overrides() {
    let (mut reg, mut log) = make_registry();
    let mut schema = FlowGraphSchema::new(DimensionId::new());
    let node = GraphNode::new("http.request", "Fetch");
    let node_id = node.id;
    schema.nodes.insert(node_id, node);

    let tmpl = InstanceTemplate::new("Fetch Template", vec![node_id], schema, "alice")
        .with_param(ParamSchema::overridable("url", JsonValue::string("https://default.example.com")));
    let tmpl_id = reg.register_template(tmpl, &mut log);

    let params = overrides("url", JsonValue::string("https://custom.example.com"));
    let inst_id =
        reg.instantiate(tmpl_id, InstanceConfig { params, ..InstanceConfig::empty() }, "bob", &mut log).unwrap();

    let inst = reg.get_instance(inst_id).unwrap();
    assert_eq!(inst.template_id, tmpl_id);
    assert!(matches!(inst.resolved_params.get("url"), Some(JsonValue::Str(s)) if s == "https://custom.example.com"));
    assert!(matches!(inst.nodes[0].parameters.get("url"), Some(JsonValue::Str(s)) if s == "https://custom.example.com"));
}

#[test]
fn instantiate_unknown_template_fails() {
    let (mut reg, mut log) = make_registry();
    let err = reg.instantiate(new_id(), InstanceConfig::empty(), "alice", &mut log).unwrap_err();
    assert!(matches!(err, InstanceError::TemplateNotFound(_)));
}

#[test]
fn frozen_param_cannot_be_overridden() {
    let (mut reg, mut log) = make_registry();
    let schema = FlowGraphSchema::new(DimensionId::new());
    let tmpl = InstanceTemplate::new("T", vec![], schema, "alice")
        .with_param(ParamSchema::frozen("secret_key", JsonValue::string("locked")));
    let tmpl_id = reg.register_template(tmpl, &mut log);

    let params = overrides("secret_key", JsonValue::string("hacked"));
    let err =
        reg.instantiate(tmpl_id, InstanceConfig { params, ..InstanceConfig::empty() }, "bob", &mut log).unwrap_err();
    assert!(matches!(err, InstanceError::FrozenParam { .. }));
}

#[test]
fn readonly_template_rejects_overrides() {
    let (mut reg, mut log) = make_registry();
    let mut schema = FlowGraphSchema::new(DimensionId::new());
    let node = GraphNode::new("k", "n");
    let nid = node.id;
    schema.nodes.insert(nid, node);
    let mut tmpl = InstanceTemplate::new("Locked", vec![nid], schema, "sys");
    tmpl.lock_policy = LockPolicy::ReadOnly;
    let tmpl_id = reg.register_template(tmpl, &mut log);

    let params = overrides("url", JsonValue::string("x"));
    let err =
        reg.instantiate(tmpl_id, InstanceConfig { params, ..InstanceConfig::empty() }, "bob", &mut log).unwrap_err();
    assert!(matches!(err, InstanceError::TemplateReadOnly(_)));
}

#[test]
fn clone_template_has_new_id_and_editable_policy() {
    let (mut reg, mut log) = make_registry();
    let schema = FlowGraphSchema::new(DimensionId::new());
    let mut tmpl = InstanceTemplate::new("Orig", vec![], schema.duplicate(), "alice");
    tmpl.lock_policy = LockPolicy::ReadOnly;
    let orig_id = reg.register_template(tmpl, &mut log);

    let clone_id = reg.clone_template(orig_id, "Clone", "bob", &mut log).unwrap();
    assert_ne!(clone_id, orig_id);
    let clone = reg.get_template(clone_id).unwrap();
    assert_eq!(clone.lock_policy, LockPolicy::Editable);
    assert_eq!(clone.provenance.forked_from, Some(orig_id));
    assert_eq!(clone.version, 1);
    assert_eq!(clone.provenance.reason.as_deref(), Some("cloned"));
}

#[test]
fn fork_template_preserves_version() {
    let (mut reg, mut log) = make_registry();
    let schema = FlowGraphSchema::new(DimensionId::new());
    let mut tmpl = InstanceTemplate::new("Base", vec![], schema, "alice");
    tmpl.version = 3;
    let base_id = reg.register_template(tmpl, &mut log);

    let fork_id = reg.fork_template(base_id, "Fork", "carol", &mut log).unwrap();
    let fork = reg.get_template(fork_id).unwrap();
    assert_eq!(fork.version, 3);
    assert_eq!(fork.provenance.forked_from_version, Some(3));
    assert_eq!(fork.provenance.reason.as_deref(), Some("forked"));
}

#[test]
fn export_and_import_roundtrip() {
    let (mut reg, mut log) = make_registry();
    let id = make_template("Exported", &mut reg, &mut log);
    let exported = reg.export_template(id).unwrap();

    let (mut reg2, mut log2) = make_registry();
    let imported_id = reg2.import_template(exported, &mut log2);
    assert_eq!(imported_id, id);
    assert_eq!(reg2.get_template(imported_id).unwrap().name, "Exported");
}

#[test]
fn template_expansion_is_deterministic() {
    let schema = FlowGraphSchema::new(DimensionId::new());
    let tmpl = InstanceTemplate::new("DT", vec![], schema, "system")
        .with_param(ParamSchema::overridable("a", JsonValue::from_u64(1)))
        .with_param(ParamSchema::overridable("b", JsonValue::from_u64(2)))
        .with_param(ParamSchema::overridable("c", JsonValue::from_u64(3)));

    let ov = overrides("b", JsonValue::from_u64(99));
    let resolved1 = tmpl.resolve_params(&ov).unwrap();
    let resolved2 = tmpl.resolve_params(&ov).unwrap();

    assert_eq!(format!("{:?}", resolved1), format!("{:?}", resolved2), "resolved params must be deterministic");
    assert!(matches!(resolved1.get("b"), Some(JsonValue::Int(99))));
    assert!(matches!(resolved1.get("a"), Some(JsonValue::Int(1))));
    assert_eq!(resolved1.len(), 3);
}

#[test]
fn version_bump() {
    let schema = FlowGraphSchema::new(DimensionId::new());
    let mut tmpl = InstanceTemplate::new("V", vec![], schema, "sys");
    assert_eq!(tmpl.version, 1);
    tmpl.bump_version();
    assert_eq!(tmpl.version, 2);
}

#[test]
fn migration_downgrade_fails() {
    let schema = FlowGraphSchema::new(DimensionId::new());
    let mut tmpl = InstanceTemplate::new("V", vec![], schema, "sys");
    tmpl.version = 5;
    let err = tmpl.migrate_params(ParamMap::new(), 10).unwrap_err();
    assert!(matches!(err, InstanceError::MigrationFailed { .. }));
}

#[test]
fn migration_no_op_same_version() {
    let schema = FlowGraphSchema::new(DimensionId::new());
    let tmpl = InstanceTemplate::new("V", vec![], schema, "sys");
    let params = overrides("x", JsonValue::from_u64(42));
    let expected = format!("{:?}", params);
    let result = tmpl.migrate_params(params, 1).unwrap();
    assert_eq!(format!("{:?}", result), expected);
}

#[test]
fn prepare_publish_request() {
    let (mut reg, mut log) = make_registry();
    let id = make_template("Pub", &mut reg, &mut log);
    let req = reg.prepare_publish(id, "1.0.0", "initial release", "alice").unwrap();
    assert_eq!(req.template_id, id);
    assert_eq!(req.semver, "1.0.0");
}

#[test]
fn local_publish_returns_receipt() {
    let (mut reg, mut log) = make_registry();
    let id = make_template("Pub", &mut reg, &mut log);
    let receipt = reg.publish_local(id, "2.0.0").unwrap();
    assert_eq!(receipt.template_id, id);
    assert_eq!(receipt.semver, "2.0.0");
    assert!(receipt.url.contains(&uuid::Uuid::from_u128(id).to_string()));
}

#[test]
fn local_receipt_url_format() {
    let receipt = PublishReceipt::local(0x42, "0.1.0");
    assert_eq!(receipt.url, format!("local://marketplace/templates/{}", uuid_to_string(0x42)));
}

#[test]
fn publish_unknown_template_fails() {
    let (reg, _) = make_registry();
    let err = reg.publish_local(new_id(), "1.0.0").unwrap_err();
    assert!(matches!(err, InstanceError::TemplateNotFound(_)));
}

#[test]
fn instances_of_template() {
    let (mut reg, mut log) = make_registry();
    let tmpl_id = make_template("Shared", &mut reg, &mut log);
    let inst1 = reg.instantiate(tmpl_id, InstanceConfig::empty(), "u1", &mut log).unwrap();
    let inst2 = reg.instantiate(tmpl_id, InstanceConfig::empty(), "u2", &mut log).unwrap();

    let instances = reg.instances_of(tmpl_id);
    assert_eq!(instances.len(), 2);
    let ids: Vec<u128> = instances.iter().map(|i| i.id).collect();
    assert!(ids.contains(&inst1));
    assert!(ids.contains(&inst2));
    assert_eq!(reg.all_instances().len(), 2);
}

#[test]
fn templates_with_tag() {
    let (mut reg, mut log) = make_registry();
    let schema = FlowGraphSchema::new(DimensionId::new());

    let mut t1 = InstanceTemplate::new("T1", vec![], schema.duplicate(), "alice");
    t1.tags = vec!["ml".into(), "experimental".into()];
    let mut t2 = InstanceTemplate::new("T2", vec![], schema, "bob");
    t2.tags = vec!["ml".into()];

    let id1 = reg.register_template(t1, &mut log);
    reg.register_template(t2, &mut log);

    let tagged = reg.templates_with_tag("experimental");
    assert_eq!(tagged.len(), 1);
    assert_eq!(tagged[0].id, id1);
    assert_eq!(reg.templates_with_tag("ml").len(), 2);
    assert_eq!(reg.all_templates().len(), 2);
}

#[test]
fn label_prefixes_node_labels() {
    let dim = DimensionId::new();
    let mut schema = FlowGraphSchema::new(dim);
    let node = GraphNode::new("k", "Worker");
    let nid = node.id;
    schema.nodes.insert(nid, node);

    let tmpl = InstanceTemplate::new("WF", vec![nid], schema, "sys");
    let config = InstanceConfig { label: Some("MyInstance".into()), ..InstanceConfig::empty() };
    let inst = NodeInstance::expand(&tmpl, dim, config, "user").unwrap();
    assert!(inst.nodes[0].label.starts_with("MyInstance/"));
    assert_eq!(inst.nodes[0].label, "MyInstance/Worker");
    assert_ne!(inst.nodes[0].id, nid);
    assert_eq!(inst.provenance.reason.as_deref(), Some("expanded from template 'WF' v1"));
}

#[test]
fn node_parameters_win_over_template_defaults() {
    let dim = DimensionId::new();
    let mut schema = FlowGraphSchema::new(dim);
    let mut node = GraphNode::new("k", "N");
    node.parameters.insert("url".into(), JsonValue::string("node-own"));
    schema.nodes.insert(node.id, node);
    let tmpl = InstanceTemplate::new("WF", vec![], schema, "sys")
        .with_param(ParamSchema::overridable("url", JsonValue::string("template")))
        .with_param(ParamSchema::overridable("extra", JsonValue::from_u64(5)));
    let inst = NodeInstance::expand(&tmpl, dim, InstanceConfig::empty(), "user").unwrap();
    assert!(matches!(inst.nodes[0].parameters.get("url"), Some(JsonValue::Str(s)) if s == "node-own"));
    assert!(matches!(inst.nodes[0].parameters.get("extra"), Some(JsonValue::Int(5))));
    assert_eq!(inst.nodes[0].provenance.created_by, "user");
}

#[test]
fn with_param_replaces_same_name_and_schema_kinds() {
    let schema = FlowGraphSchema::new(DimensionId::new());
    let tmpl = InstanceTemplate::new("P", vec![], schema, "sys")
        .with_param(ParamSchema::overridable("a", JsonValue::from_u64(1)))
        .with_param(ParamSchema::instance_only("b"))
        .with_param(ParamSchema::frozen("a", JsonValue::from_u64(2)));
    assert_eq!(tmpl.param_schema.len(), 2);
    assert_eq!(tmpl.param_schema[0].inheritance, ParamInheritance::Frozen);
    assert!(tmpl.param_schema[1].required);
    let resolved = tmpl.resolve_params(&ParamMap::new()).unwrap();
    assert!(matches!(resolved.get("a"), Some(JsonValue::Int(2))));
    assert!(resolved.get("b").is_none());
}

#[test]
fn params_are_kept_in_name_order() {
    let schema = FlowGraphSchema::new(DimensionId::new());
    let tmpl = InstanceTemplate::new("Order", vec![], schema, "system")
        .with_param(ParamSchema::overridable("c", JsonValue::from_u64(3)))
        .with_param(ParamSchema::overridable("a", JsonValue::from_u64(1)))
        .with_param(ParamSchema::frozen("b", JsonValue::from_u64(2)))
        .with_param(ParamSchema::overridable("a", JsonValue::from_u64(10)));
    let names: Vec<&str> = tmpl.param_schema.iter().map(|p| p.name.as_str()).collect();
    assert_eq!(names, vec!["a", "b", "c"]);

    let resolved = tmpl.resolve_params(&ParamMap::new()).unwrap();
    assert_eq!(resolved.keys(), vec!["a", "b", "c"]);
    assert!(matches!(resolved.get("a"), Some(JsonValue::Int(10))));
}
