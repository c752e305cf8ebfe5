use ify_controller::action_log::ActionLog;
use ify_controller::ids::{DimensionId, TaskId};
use ify_controller::json::JsonValue;
use ify_controller::node::{Node, NodeCustomizer, NodeError, NodeGraph, NodeParameter, NodePreset, NodeTemplate};
use ify_controller::params::ParamMap;

fn make_template() -> NodeTemplate {
    let mut t = NodeTemplate::new("TestNode", "A test node template");
    t.parameters = vec![
        NodeParameter {
            name: "color".to_owned(),
            type_hint: "string".to_owned(),
            default: Some(JsonValue::string("red")),
            required: false,
            description: "Node color".to_owned(),
        },
        NodeParameter {
            name: "required_param".to_owned(),
            type_hint: "string".to_owned(),
            default: None,
            required: true,
            description: "A required param".to_owned(),
        },
    ];
    let mut values = ParamMap::new();
    values.insert("color".to_owned(), JsonValue::string("blue"));
    t.presets = vec![NodePreset { name: "blue".to_owned(), values }];
    t
}

fn make_graph() -> (NodeGraph, ActionLog) {
    (NodeGraph::new(DimensionId::new(), TaskId::new()), ActionLog::new(32))
}

fn required(v: &str) -> ParamMap {
    let mut params = ParamMap::new();
    params.insert("required_param".to_owned(), JsonValue::string(v));
    params
}

fn bare_node(template_id: u128) -> Node {
    Node {
        id: uuid::Uuid::new_v4().as_u128(),
        dimension_id: DimensionId::new(),
        template_id,
        name: "n".to_owned(),
        parameters: ParamMap::new(),
        position: (0, 0),
    }
}

#[test]
fn node_add_and_remove_node() {
    let (mut graph, mut log) = make_graph();
    let template = make_template();

    let id = graph.add_node(&template, "my-node", (0, 0), required("hello"), &mut log).unwrap();
    assert_eq!(graph.len(), 1);

    graph.remove_node(id, &mut log).unwrap();
    assert_eq!(graph.len(), 0);
}

#[test]
fn add_node_missing_required_param_fails() {
    let (mut graph, mut log) = make_graph();
    let template = make_template();

    let err = graph.add_node(&template, "bad-node", (0, 0), ParamMap::new(), &mut log);
    assert!(matches!(err, Err(NodeError::MissingRequiredParameter { .. })));
    assert!(graph.is_empty());
    assert_eq!(log.len(), 0);
}

#[test]
fn add_node_fills_template_defaults() {
    let (mut graph, mut log) = make_graph();
    let template = make_template();
    let id = graph.add_node(&template, "n", (3, -4), required("x"), &mut log).unwrap();
    let node = graph.get(id).unwrap();
    assert!(matches!(node.parameters.get("color"), Some(JsonValue::Str(s)) if s == "red"));
    assert_eq!(node.position, (3, -4));
}

#[test]
fn undo_redo_add_node() {
    let (mut graph, mut log) = make_graph();
    let template = make_template();

    let id = graph.add_node(&template, "node", (0, 0), required("x"), &mut log).unwrap();
    assert_eq!(graph.len(), 1);

    graph.undo(&mut log).unwrap();
    assert_eq!(graph.len(), 0, "undo should remove the node");
    assert!(graph.get(id).is_none());

    graph.redo(&mut log).unwrap();
    assert_eq!(graph.len(), 1, "redo should restore the node");
    assert!(graph.get(id).is_some());
}

#[test]
fn undo_empty_stack_fails() {
    let (mut graph, mut log) = make_graph();
    let err = graph.undo(&mut log);
    assert!(matches!(err, Err(NodeError::NothingToUndo)));
}

#[test]
fn redo_empty_stack_fails() {
    let (mut graph, mut log) = make_graph();
    let err = graph.redo(&mut log);
    assert!(matches!(err, Err(NodeError::NothingToRedo)));
}

#[test]
fn redo_stack_clears_on_new_action() {
    let (mut graph, mut log) = make_graph();
    let template = make_template();

    graph.add_node(&template, "n1", (0, 0), required("x"), &mut log).unwrap();
    graph.undo(&mut log).unwrap();
    graph.add_node(&template, "n2", (1, 1), required("x"), &mut log).unwrap();

    assert_eq!(graph.redo_depth(), 0);
    assert_eq!(graph.undo_depth(), 1);
}

#[test]
fn undo_of_update_restores_parameters() {
    let (mut graph, mut log) = make_graph();
    let template = make_template();
    let id = graph.add_node(&template, "n", (0, 0), required("x"), &mut log).unwrap();
    let mut updates = ParamMap::new();
    updates.insert("color".to_owned(), JsonValue::string("green"));
    graph.update_node(id, updates, &mut log).unwrap();
    assert!(matches!(graph.get(id).unwrap().parameters.get("color"), Some(JsonValue::Str(s)) if s == "green"));
    graph.undo(&mut log).unwrap();
    assert!(matches!(graph.get(id).unwrap().parameters.get("color"), Some(JsonValue::Str(s)) if s == "red"));
    graph.redo(&mut log).unwrap();
    assert!(matches!(graph.get(id).unwrap().parameters.get("color"), Some(JsonValue::Str(s)) if s == "green"));
}

#[test]
fn customizer_apply_preset() {
    let mut log = ActionLog::new(16);
    let mut customizer = NodeCustomizer::new();
    let template = make_template();
    let template_id = template.id;
    customizer.register_template(template);

    let mut node = bare_node(template_id);
    customizer.apply_preset(&mut node, template_id, "blue", &mut log).unwrap();
    assert!(matches!(node.parameters.get("color"), Some(JsonValue::Str(s)) if s == "blue"));
}

#[test]
fn customizer_preset_not_found_fails() {
    let mut log = ActionLog::new(16);
    let mut customizer = NodeCustomizer::new();
    let template = make_template();
    let tid = template.id;
    customizer.register_template(template);

    let mut node = bare_node(tid);
    let err = customizer.apply_preset(&mut node, tid, "nonexistent", &mut log);
    assert!(matches!(err, Err(NodeError::PresetNotFound { .. })));
}

#[test]
fn customizer_validate_missing_required_fails() {
    let mut customizer = NodeCustomizer::new();
    let template = make_template();
    let tid = template.id;
    customizer.register_template(template);

    let node = bare_node(tid);
    let err = customizer.validate_params(&node);
    assert!(matches!(err, Err(NodeError::MissingRequiredParameter { .. })));
}
