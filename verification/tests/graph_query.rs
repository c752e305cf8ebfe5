use ify_controller::action_log::ActionLog;
use ify_controller::graph::{
    FlowGraph, FlowGraphError, FlowGraphSchema, GraphNode, Group, NodeRelation, PortDataType, PortDef, PortDirection,
    RelationKind,
};
use ify_controller::graph_query::{NodeCommunicator, NodeCondition, NodeMessage, NodeSelector};
use ify_controller::ids::{DimensionId, TaskId};
use ify_controller::json::JsonValue;

fn make_schema_with_nodes() -> FlowGraphSchema {
    let dim = DimensionId::new();
    let mut schema = FlowGraphSchema::new(dim);
    let kinds = [
        ("http.request", "Fetch A"),
        ("http.request", "Fetch B"),
        ("ml.predict", "Predict"),
        ("db.query", "Query DB"),
        ("db.query", "Archive DB"),
    ];
    for (kind, label) in kinds {
        let mut node = GraphNode::new(kind, label);
        node.parameters.insert("url".into(), JsonValue::string("https://example.com"));
        schema.nodes.insert(node.id, node);
    }
    schema
}

fn make_graph() -> (FlowGraph, ActionLog) {
    (FlowGraph::new(DimensionId::new(), TaskId::new()), ActionLog::new(64))
}

fn new_id() -> u128 {
    uuid::Uuid::new_v4().as_u128()
}

#[test]
fn selector_no_conditions_returns_all() {
    let schema = make_schema_with_nodes();
    let sample = NodeSelector::new().apply(&schema);
    assert_eq!(sample.count(), schema.nodes.len());
}

#[test]
fn selector_by_kind() {
    let schema = make_schema_with_nodes();
    let sample = NodeSelector::new().with_kind("http.request").apply(&schema);
    assert_eq!(sample.count(), 2);
    assert!(sample.iter().all(|n| n.kind == "http.request"));
}

#[test]
fn selector_by_kind_no_match() {
    let schema = make_schema_with_nodes();
    let sample = NodeSelector::new().with_kind("trading.order").apply(&schema);
    assert!(sample.is_empty());
}

#[test]
fn selector_by_label_containing() {
    let schema = make_schema_with_nodes();
    let sample = NodeSelector::new().with_label_containing("DB").apply(&schema);
    assert_eq!(sample.count(), 2);
}

#[test]
fn selector_by_label_exact() {
    let schema = make_schema_with_nodes();
    let sample = NodeSelector::new().with_label("Predict").apply(&schema);
    assert_eq!(sample.count(), 1);
    assert_eq!(sample.first().unwrap().label, "Predict");
}

#[test]
fn selector_param_exists() {
    let schema = make_schema_with_nodes();
    let sample = NodeSelector::new().with_param_exists("url").apply(&schema);
    assert_eq!(sample.count(), 5);
}

#[test]
fn selector_param_eq() {
    let schema = make_schema_with_nodes();
    let sample = NodeSelector::new().with_param_eq("url", JsonValue::string("https://example.com")).apply(&schema);
    assert_eq!(sample.count(), 5);
}

#[test]
fn selector_param_eq_other_value_matches_nothing() {
    let schema = make_schema_with_nodes();
    let sample = NodeSelector::new().with_param_eq("url", JsonValue::string("https://other.example")).apply(&schema);
    assert!(sample.is_empty());
    let sample = NodeSelector::new().with_param_eq("url", JsonValue::from_u64(1)).apply(&schema);
    assert!(sample.is_empty());
}

#[test]
fn selector_in_group() {
    let mut schema = make_schema_with_nodes();
    let mut group = Group::new("G");
    let ids: Vec<u128> = schema.nodes.keys().into_iter().take(2).collect();
    for id in &ids {
        group.node_ids.insert(*id, ());
    }
    let gid = group.id;
    schema.groups.insert(gid, group.clone());

    let sample = NodeSelector::new().in_group(gid).apply(&schema);
    assert_eq!(sample.count(), 2);
}

#[test]
fn selector_has_port_matching() {
    let mut schema = make_schema_with_nodes();
    let id = schema.nodes.keys()[0];
    let mut node = schema.nodes.remove(id).unwrap();
    node.add_port(PortDef::new("out", PortDirection::Out, PortDataType::Number)).unwrap();
    schema.nodes.insert(id, node);

    let sample = NodeSelector::new().having_port_matching(PortDirection::Out, PortDataType::Number).apply(&schema);
    assert_eq!(sample.count(), 1);
    assert_eq!(NodeSelector::new().having_output_port().apply(&schema).count(), 1);
    assert_eq!(NodeSelector::new().having_input_port().apply(&schema).count(), 0);
    assert_eq!(NodeSelector::new().having_port_of_type(PortDataType::Number).apply(&schema).count(), 1);
    assert_eq!(NodeSelector::new().having_port_of_type(PortDataType::String).apply(&schema).count(), 0);
}

#[test]
fn selector_not_condition() {
    let schema = make_schema_with_nodes();
    let sample = NodeSelector::new()
        .with_condition(NodeCondition::Not(Box::new(NodeCondition::KindEq("http.request".into()))))
        .apply(&schema);
    assert_eq!(sample.count(), 3);
}

#[test]
fn selector_or_condition() {
    let schema = make_schema_with_nodes();
    let sample = NodeSelector::new()
        .with_condition(NodeCondition::Or(vec![
            NodeCondition::KindEq("ml.predict".into()),
            NodeCondition::KindEq("db.query".into()),
        ]))
        .apply(&schema);
    assert_eq!(sample.count(), 3);
}

#[test]
fn selector_and_stacks_conditions() {
    let schema = make_schema_with_nodes();
    let sample = NodeSelector::new().with_kind("db.query").with_label_containing("Archive").apply(&schema);
    assert_eq!(sample.count(), 1);
    assert_eq!(sample.first().unwrap().label, "Archive DB");
}

#[test]
fn empty_and_holds_and_empty_or_fails() {
    let schema = make_schema_with_nodes();
    assert_eq!(NodeSelector::new().with_condition(NodeCondition::And(vec![])).apply(&schema).count(), 5);
    assert_eq!(NodeSelector::new().with_condition(NodeCondition::Or(vec![])).apply(&schema).count(), 0);
    assert_eq!(NodeSelector::new().subgraph_refs_only().apply(&schema).count(), 0);
    assert_eq!(NodeSelector::new().with_label_containing("").apply(&schema).count(), 5);
}

#[test]
fn sample_range_slices_correctly() {
    let schema = make_schema_with_nodes();
    let sample = NodeSelector::new().apply(&schema);
    let sliced = sample.range(1, 3);
    assert_eq!(sliced.count(), 2);
}

#[test]
fn sample_range_out_of_bounds_clamps() {
    let schema = make_schema_with_nodes();
    let sample = NodeSelector::new().apply(&schema);
    let all = sample.range(0, 9999);
    assert_eq!(all.count(), 5);
    assert_eq!(sample.range(9, 9999).count(), 0);
}

#[test]
fn sample_first_and_last() {
    let schema = make_schema_with_nodes();
    let sample = NodeSelector::new().with_kind("http.request").apply(&schema);
    assert!(sample.first().is_some());
    assert!(sample.last().is_some());
    let ids = sample.ids();
    assert_eq!(sample.first().unwrap().id, ids[0]);
    assert_eq!(sample.last().unwrap().id, ids[1]);
}

#[test]
fn sample_group_by_kind() {
    let schema = make_schema_with_nodes();
    let sample = NodeSelector::new().apply(&schema);
    let grouped = sample.group_by_kind();
    let group = |k: &str| grouped.iter().find(|(kind, _)| kind == k).map(|(_, v)| v.len()).unwrap();
    assert_eq!(group("http.request"), 2);
    assert_eq!(group("db.query"), 2);
    assert_eq!(group("ml.predict"), 1);
    assert_eq!(grouped.len(), 3);
}

#[test]
fn sample_sort_by_label() {
    let schema = make_schema_with_nodes();
    let sample = NodeSelector::new().apply(&schema).sort_by_label();
    let labels: Vec<&str> = sample.iter().map(|n| n.label.as_str()).collect();
    let mut sorted = labels.clone();
    sorted.sort_unstable();
    assert_eq!(labels, sorted);
    assert_eq!(labels.len(), 5);
}

#[test]
fn sample_sort_by_id() {
    let schema = make_schema_with_nodes();
    let sample = NodeSelector::new().apply(&schema).sort_by_label().sort_by_id();
    let ids = sample.ids();
    let mut sorted = ids.clone();
    sorted.sort();
    assert_eq!(ids, sorted);
}

#[test]
fn sample_ids() {
    let schema = make_schema_with_nodes();
    let sample = NodeSelector::new().with_kind("db.query").apply(&schema);
    let ids = sample.ids();
    assert_eq!(ids.len(), 2);
    for id in &ids {
        assert_eq!(schema.nodes.get(*id).unwrap().kind, "db.query");
    }
}

#[test]
fn sample_into_vec_keeps_order() {
    let schema = make_schema_with_nodes();
    let sample = NodeSelector::new().apply(&schema);
    let ids = sample.ids();
    let v = sample.into_vec();
    let back: Vec<u128> = v.iter().map(|n| n.id).collect();
    assert_eq!(ids, back);
}

#[test]
fn add_and_query_relation() {
    let (mut g, mut log) = make_graph();
    let a = g.add_node(GraphNode::new("src", "A"), &mut log);
    let b = g.add_node(GraphNode::new("tgt", "B"), &mut log);

    let rel = NodeRelation::new(a, b, RelationKind::Triggers);
    let rel_id = g.add_relation(rel, &mut log).unwrap();

    let rels = g.relations_for_node(a);
    assert_eq!(rels.len(), 1);
    assert_eq!(rels[0].id, rel_id);
    assert!(matches!(rels[0].kind, RelationKind::Triggers));
}

#[test]
fn relation_missing_node_fails() {
    let (mut g, mut log) = make_graph();
    let a = g.add_node(GraphNode::new("src", "A"), &mut log);
    let missing = new_id();

    let rel = NodeRelation::new(a, missing, RelationKind::DependsOn);
    assert!(matches!(g.add_relation(rel, &mut log), Err(FlowGraphError::NodeNotFound(_))));
}

#[test]
fn remove_relation() {
    let (mut g, mut log) = make_graph();
    let a = g.add_node(GraphNode::new("A", "A"), &mut log);
    let b = g.add_node(GraphNode::new("B", "B"), &mut log);

    let rid = g.add_relation(NodeRelation::new(a, b, RelationKind::ObservedBy), &mut log).unwrap();
    g.remove_relation(rid, &mut log).unwrap();

    assert!(g.relations_for_node(a).is_empty());
}

#[test]
fn outgoing_and_incoming_relations() {
    let (mut g, mut log) = make_graph();
    let a = g.add_node(GraphNode::new("A", "A"), &mut log);
    let b = g.add_node(GraphNode::new("B", "B"), &mut log);

    g.add_relation(NodeRelation::new(a, b, RelationKind::ProvidesDataTo), &mut log).unwrap();

    assert_eq!(g.outgoing_relations(a).len(), 1);
    assert_eq!(g.incoming_relations(b).len(), 1);
    assert!(g.outgoing_relations(b).is_empty());
    assert!(g.incoming_relations(a).is_empty());
}

#[test]
fn relation_kind_custom() {
    let kind = RelationKind::Custom("co_located".into());
    assert_eq!(kind.as_str(), "co_located");
}

#[test]
fn relation_kind_strings() {
    assert_eq!(RelationKind::DependsOn.as_str(), "depends_on");
    assert_eq!(RelationKind::Triggers.as_str(), "triggers");
    assert_eq!(RelationKind::ObservedBy.as_str(), "observed_by");
    assert_eq!(RelationKind::ProvidesDataTo.as_str(), "provides_data_to");
}

fn make_comm() -> (NodeCommunicator, ActionLog) {
    (NodeCommunicator::new(DimensionId::new(), TaskId::new()), ActionLog::new(64))
}

#[test]
fn send_unicast_message() {
    let (mut comm, mut log) = make_comm();
    let from = new_id();
    let to = new_id();
    comm.send(NodeMessage::to(from, to, "data", JsonValue::from_u64(42)), &mut log);

    assert_eq!(comm.pending_count(to), 1);
    assert!(matches!(comm.inbox_for(to)[0].payload, JsonValue::Int(42)));
    assert_eq!(log.len(), 1);
}

#[test]
fn broadcast_delivers_to_all() {
    let (mut comm, mut log) = make_comm();
    let from = new_id();
    let recipients: Vec<u128> = (0..4).map(|_| new_id()).collect();

    let count = comm.broadcast(from, "ping", JsonValue::Null, recipients.clone(), &mut log);
    assert_eq!(count, 4);
    for id in &recipients {
        assert_eq!(comm.pending_count(*id), 1);
    }
    assert_eq!(comm.total_pending(), 4);
    assert_eq!(log.len(), 1);
}

#[test]
fn drain_inbox_removes_messages() {
    let (mut comm, mut log) = make_comm();
    let from = new_id();
    let to = new_id();
    comm.send(NodeMessage::to(from, to, "ch", JsonValue::from_u64(1)), &mut log);
    comm.send(NodeMessage::to(from, to, "ch", JsonValue::from_u64(2)), &mut log);

    let drained = comm.drain_inbox(to);
    assert_eq!(drained.len(), 2);
    assert!(comm.inbox_is_empty(to));
}

#[test]
fn drain_channel_leaves_other_channels() {
    let (mut comm, mut log) = make_comm();
    let from = new_id();
    let to = new_id();
    comm.send(NodeMessage::to(from, to, "alpha", JsonValue::from_u64(1)), &mut log);
    comm.send(NodeMessage::to(from, to, "beta", JsonValue::from_u64(2)), &mut log);

    let drained = comm.drain_channel(to, "alpha");
    assert_eq!(drained.len(), 1);
    assert_eq!(drained[0].channel, "alpha");
    assert_eq!(comm.pending_count(to), 1);
}

#[test]
fn inbox_for_channel_filters_correctly() {
    let (mut comm, mut log) = make_comm();
    let from = new_id();
    let to = new_id();
    comm.send(NodeMessage::to(from, to, "signals", JsonValue::from_u64(1)), &mut log);
    comm.send(NodeMessage::to(from, to, "signals", JsonValue::from_u64(2)), &mut log);
    comm.send(NodeMessage::to(from, to, "control", JsonValue::from_u64(3)), &mut log);

    let signals = comm.inbox_for_channel(to, "signals");
    assert_eq!(signals.len(), 2);
}

#[test]
fn send_broadcast_message_is_null_safe() {
    let (mut comm, mut log) = make_comm();
    let bcast = NodeMessage::broadcast(new_id(), "ch", JsonValue::from_u64(0));
    comm.send(bcast, &mut log);
    assert_eq!(comm.total_pending(), 0);
    assert_eq!(log.len(), 0);
}

#[test]
fn broadcast_to_repeated_recipient_delivers_twice() {
    let (mut comm, mut log) = make_comm();
    let to = new_id();
    let count = comm.broadcast(new_id(), "ping", JsonValue::Null, vec![to, to], &mut log);
    assert_eq!(count, 2);
    assert_eq!(comm.pending_count(to), 2);
    assert!(comm.inbox_for(to).iter().all(|m| m.to_node == Some(to) && m.channel == "ping"));
}

#[test]
fn sort_by_label_keeps_equal_labels_in_order() {
    let mut schema = FlowGraphSchema::new(DimensionId::new());
    for label in ["b", "a", "b", "a", "b"] {
        let n = GraphNode::new("k", label);
        schema.nodes.insert(n.id, n);
    }
    let before: Vec<(u128, String)> =
        NodeSelector::new().apply(&schema).iter().map(|n| (n.id, n.label.clone())).collect();
    let sorted = NodeSelector::new().apply(&schema).sort_by_label();
    let after: Vec<(u128, String)> = sorted.iter().map(|n| (n.id, n.label.clone())).collect();
    let expected: Vec<(u128, String)> = before
        .iter()
        .filter(|(_, l)| l == "a")
        .chain(before.iter().filter(|(_, l)| l == "b"))
        .cloned()
        .collect();
    assert_eq!(after, expected);
    assert_eq!(after.len(), 5);
}
