use ify_controller::action_log::ActionLog;
use ify_controller::graph::{
    FlowGraph, FlowGraphError, FlowGraphSchema, GraphNode, GraphPatch, GraphPatchOp, Group, Link, NodeExecutionState,
    NodeProvenance, PortDataType, PortDef, PortDirection, Subgraph, GRAPH_SCHEMA_VERSION,
};
use ify_controller::ids::{DimensionId, TaskId};
use ify_controller::json::JsonValue;

fn make_graph() -> (FlowGraph, ActionLog) {
    let log = ActionLog::new(64);
    let dim = DimensionId::new();
    let task = TaskId::new();
    (FlowGraph::new(dim, task), log)
}

fn num_out_port() -> PortDef {
    PortDef::new("value", PortDirection::Out, PortDataType::Number)
}

fn num_in_port() -> PortDef {
    PortDef::new("input", PortDirection::In, PortDataType::Number)
}

fn port_id(n: &GraphNode, dir: PortDirection) -> u128 {
    n.ports.values().into_iter().find(|p| p.direction == dir).unwrap().id
}

fn make_any_node(kind: &str) -> GraphNode {
    let mut n = GraphNode::new(kind, kind);
    n.add_port(PortDef::new("out", PortDirection::Out, PortDataType::Any)).unwrap();
    n.add_port(PortDef::new("in", PortDirection::In, PortDataType::Any)).unwrap();
    n
}

#[test]
fn port_any_compatible_with_all() {
    assert!(PortDataType::Any.is_compatible_with(PortDataType::Number));
    assert!(PortDataType::Number.is_compatible_with(PortDataType::Any));
    assert!(PortDataType::Any.is_compatible_with(PortDataType::Json));
}

#[test]
fn port_same_types_compatible() {
    assert!(PortDataType::Number.is_compatible_with(PortDataType::Number));
    assert!(PortDataType::String.is_compatible_with(PortDataType::String));
}

#[test]
fn port_different_types_incompatible() {
    assert!(!PortDataType::Number.is_compatible_with(PortDataType::String));
    assert!(!PortDataType::Bool.is_compatible_with(PortDataType::Json));
}

#[test]
fn graph_add_and_remove_node() {
    let (mut g, mut log) = make_graph();
    let node = GraphNode::new("test", "Test");
    let id = g.add_node(node, &mut log);
    assert!(g.get_node(id).is_some());
    g.remove_node(id, &mut log).unwrap();
    assert!(g.get_node(id).is_none());
}

#[test]
fn remove_nonexistent_node_fails() {
    let (mut g, mut log) = make_graph();
    let err = g.remove_node(uuid::Uuid::new_v4().as_u128(), &mut log);
    assert!(matches!(err, Err(FlowGraphError::NodeNotFound(_))));
}

#[test]
fn duplicate_port_name_rejected() {
    let mut node = GraphNode::new("dup", "Dup");
    node.add_port(PortDef::new("x", PortDirection::Out, PortDataType::Number)).unwrap();
    let err = node.add_port(PortDef::new("x", PortDirection::Out, PortDataType::Number)).unwrap_err();
    assert!(matches!(err, FlowGraphError::DuplicatePortName { .. }));
}

#[test]
fn add_valid_link() {
    let (mut g, mut log) = make_graph();
    let mut src = GraphNode::new("src", "Source");
    let out_id = src.add_port(num_out_port()).unwrap();
    let src_id = g.add_node(src, &mut log);

    let mut tgt = GraphNode::new("tgt", "Target");
    let in_id = tgt.add_port(num_in_port()).unwrap();
    let tgt_id = g.add_node(tgt, &mut log);

    let link = Link::new(src_id, out_id, tgt_id, in_id);
    let link_id = g.add_link(link, &mut log).unwrap();
    assert!(g.schema.links.contains_key(link_id));
}

#[test]
fn add_link_type_mismatch_rejected() {
    let (mut g, mut log) = make_graph();
    let mut src = GraphNode::new("src", "Source");
    let out_id = src.add_port(PortDef::new("val", PortDirection::Out, PortDataType::Number)).unwrap();
    let src_id = g.add_node(src, &mut log);

    let mut tgt = GraphNode::new("tgt", "Target");
    let in_id = tgt.add_port(PortDef::new("in", PortDirection::In, PortDataType::String)).unwrap();
    let tgt_id = g.add_node(tgt, &mut log);

    let link = Link::new(src_id, out_id, tgt_id, in_id);
    let err = g.add_link(link, &mut log).unwrap_err();
    assert!(matches!(err, FlowGraphError::TypeMismatch { .. }));
}

#[test]
fn remove_node_cascades_links() {
    let (mut g, mut log) = make_graph();
    let mut src = GraphNode::new("src", "S");
    let out_id = src.add_port(num_out_port()).unwrap();
    let src_id = g.add_node(src, &mut log);

    let mut tgt = GraphNode::new("tgt", "T");
    let in_id = tgt.add_port(num_in_port()).unwrap();
    let tgt_id = g.add_node(tgt, &mut log);

    let link = Link::new(src_id, out_id, tgt_id, in_id);
    let link_id = g.add_link(link, &mut log).unwrap();

    g.remove_node(src_id, &mut log).unwrap();
    assert!(!g.schema.links.contains_key(link_id));
}

#[test]
fn acyclic_graph_passes() {
    let (mut g, mut log) = make_graph();
    let mut a = GraphNode::new("A", "A");
    let a_out = a.add_port(num_out_port()).unwrap();
    let a_id = g.add_node(a, &mut log);

    let mut b = GraphNode::new("B", "B");
    let b_in = b.add_port(num_in_port()).unwrap();
    b.add_port(num_out_port()).unwrap();
    let b_id = g.add_node(b, &mut log);

    g.add_link(Link::new(a_id, a_out, b_id, b_in), &mut log).unwrap();
    assert!(g.detect_cycle().is_ok());
}

#[test]
fn cyclic_graph_detected() {
    let (mut g, mut log) = make_graph();
    let a = make_any_node("A");
    let (a_out, a_in) = (port_id(&a, PortDirection::Out), port_id(&a, PortDirection::In));
    let a_id = g.add_node(a, &mut log);
    let b = make_any_node("B");
    let (b_out, b_in) = (port_id(&b, PortDirection::Out), port_id(&b, PortDirection::In));
    let b_id = g.add_node(b, &mut log);
    let c = make_any_node("C");
    let (c_out, c_in) = (port_id(&c, PortDirection::Out), port_id(&c, PortDirection::In));
    let c_id = g.add_node(c, &mut log);

    g.add_link(Link::new(a_id, a_out, b_id, b_in), &mut log).unwrap();
    g.add_link(Link::new(b_id, b_out, c_id, c_in), &mut log).unwrap();
    g.add_link(Link::new(c_id, c_out, a_id, a_in), &mut log).unwrap();

    assert!(matches!(g.detect_cycle(), Err(FlowGraphError::CycleDetected(_))));
}

#[test]
fn topological_order_linear_chain() {
    let (mut g, mut log) = make_graph();
    let a = make_any_node("A");
    let a_out = port_id(&a, PortDirection::Out);
    let a_id = g.add_node(a, &mut log);
    let b = make_any_node("B");
    let (b_out, b_in) = (port_id(&b, PortDirection::Out), port_id(&b, PortDirection::In));
    let b_id = g.add_node(b, &mut log);
    let c = make_any_node("C");
    let c_in = port_id(&c, PortDirection::In);
    let c_id = g.add_node(c, &mut log);

    g.add_link(Link::new(a_id, a_out, b_id, b_in), &mut log).unwrap();
    g.add_link(Link::new(b_id, b_out, c_id, c_in), &mut log).unwrap();

    let order = g.topological_order().unwrap();
    assert_eq!(order.len(), 3);
    let ai = order.iter().position(|&x| x == a_id).unwrap();
    let bi = order.iter().position(|&x| x == b_id).unwrap();
    let ci = order.iter().position(|&x| x == c_id).unwrap();
    assert!(ai < bi, "A must come before B");
    assert!(bi < ci, "B must come before C");
}

#[test]
fn topological_order_is_deterministic() {
    let build_graph = || {
        let mut log = ActionLog::new(32);
        let dim = DimensionId(1);
        let task = TaskId(2);
        let mut g = FlowGraph::new(dim, task);
        let node_ids: [u128; 3] = [0x1000_0001, 0x1000_0002, 0x1000_0003];
        let port_ids: [u128; 4] = [0x2000_0001, 0x2000_0002, 0x2000_0003, 0x2000_0004];

        let mut a = GraphNode::new("A", "A");
        a.id = node_ids[0];
        let mut pa_out = PortDef::new("out", PortDirection::Out, PortDataType::Any);
        pa_out.id = port_ids[0];
        a.add_port(pa_out).unwrap();
        g.add_node(a, &mut log);

        let mut b = GraphNode::new("B", "B");
        b.id = node_ids[1];
        let mut pb_in = PortDef::new("in", PortDirection::In, PortDataType::Any);
        pb_in.id = port_ids[1];
        let mut pb_out = PortDef::new("out", PortDirection::Out, PortDataType::Any);
        pb_out.id = port_ids[2];
        b.add_port(pb_in).unwrap();
        b.add_port(pb_out).unwrap();
        g.add_node(b, &mut log);

        let mut c = GraphNode::new("C", "C");
        c.id = node_ids[2];
        let mut pc_in = PortDef::new("in", PortDirection::In, PortDataType::Any);
        pc_in.id = port_ids[3];
        c.add_port(pc_in).unwrap();
        g.add_node(c, &mut log);

        let mut l1 = Link::new(node_ids[0], port_ids[0], node_ids[1], port_ids[1]);
        l1.id = 0x3000_0001;
        g.add_link(l1, &mut log).unwrap();
        let mut l2 = Link::new(node_ids[1], port_ids[2], node_ids[2], port_ids[3]);
        l2.id = 0x3000_0002;
        g.add_link(l2, &mut log).unwrap();
        g
    };

    let order1 = build_graph().topological_order().unwrap();
    let order2 = build_graph().topological_order().unwrap();
    assert_eq!(order1, order2, "topological order must be deterministic");
    assert_eq!(order1, vec![0x1000_0001u128, 0x1000_0002, 0x1000_0003]);
}

#[test]
fn execution_contract_happy_path() {
    let (mut g, mut log) = make_graph();
    let id = g.add_node(GraphNode::new("worker", "Worker"), &mut log);

    let mut contract = g.execution_contract(id).unwrap();
    contract.start(&mut log).unwrap();
    contract.progress(50, "halfway", &mut log).unwrap();
    contract
        .complete(JsonValue::object(vec![("result".to_string(), JsonValue::from_u64(42))]), &mut log)
        .unwrap();

    assert!(contract.state().is_terminal());
    assert!(matches!(contract.state(), NodeExecutionState::Complete { .. }));
}

#[test]
fn execution_contract_fail_path() {
    let (mut g, mut log) = make_graph();
    let id = g.add_node(GraphNode::new("worker", "Worker"), &mut log);

    let mut contract = g.execution_contract(id).unwrap();
    contract.start(&mut log).unwrap();
    contract.fail("something went wrong", &mut log).unwrap();

    assert!(matches!(contract.state(), NodeExecutionState::Failed { .. }));
}

#[test]
fn execution_contract_cancel_path() {
    let (mut g, mut log) = make_graph();
    let id = g.add_node(GraphNode::new("worker", "Worker"), &mut log);

    let mut contract = g.execution_contract(id).unwrap();
    contract.start(&mut log).unwrap();
    contract.cancel(&mut log).unwrap();

    assert!(matches!(contract.state(), NodeExecutionState::Cancelled { .. }));
}

#[test]
fn execution_contract_invalid_transition() {
    let (mut g, mut log) = make_graph();
    let id = g.add_node(GraphNode::new("worker", "Worker"), &mut log);

    let mut contract = g.execution_contract(id).unwrap();
    let err = contract.complete(JsonValue::empty_object(), &mut log).unwrap_err();
    assert!(matches!(err, FlowGraphError::InvalidStateTransition { .. }));
}

#[test]
fn validate_clean_graph_passes() {
    let (g, mut log) = make_graph();
    let report = g.validate(&mut log);
    assert!(report.valid);
    assert!(report.issues.is_empty());
}

#[test]
fn validate_unconnected_required_port_fails() {
    let (mut g, mut log) = make_graph();
    let mut node = GraphNode::new("sink", "Sink");
    let req_port = PortDef::new("required_in", PortDirection::In, PortDataType::Number).required();
    node.add_port(req_port).unwrap();
    g.add_node(node, &mut log);

    let report = g.validate(&mut log);
    assert!(!report.valid);
    assert!(report.issues.iter().any(|i| i.kind == "unconnected_required_port"));
}

#[test]
fn validate_cycle_reported() {
    let (mut g, mut log) = make_graph();
    let a = make_any_node("A");
    let (a_out, a_in) = (port_id(&a, PortDirection::Out), port_id(&a, PortDirection::In));
    let a_id = g.add_node(a, &mut log);
    let b = make_any_node("B");
    let (b_out, b_in) = (port_id(&b, PortDirection::Out), port_id(&b, PortDirection::In));
    let b_id = g.add_node(b, &mut log);

    g.add_link(Link::new(a_id, a_out, b_id, b_in), &mut log).unwrap();
    g.add_link(Link::new(b_id, b_out, a_id, a_in), &mut log).unwrap();

    let report = g.validate(&mut log);
    assert!(!report.valid);
    assert!(report.issues.iter().any(|i| i.kind == "cycle_detected"));
}

#[test]
fn schema_version_mismatch_rejected() {
    let dim = DimensionId::new();
    let mut schema = FlowGraphSchema::new(dim);
    schema.schema_version = 999;
    let err = schema.check_version().unwrap_err();
    assert!(matches!(err, FlowGraphError::SchemaMismatch { found: 999, .. }));
}

#[test]
fn schema_current_version_accepted() {
    let schema = FlowGraphSchema::new(DimensionId::new());
    let id = schema.graph_id;
    let back = schema.check_version().unwrap();
    assert_eq!(back.graph_id, id);
    assert_eq!(back.schema_version, GRAPH_SCHEMA_VERSION);
}

#[test]
fn patch_add_and_remove_node() {
    let (mut g, mut log) = make_graph();
    let node = GraphNode::new("patched", "Patched");
    let node_id = node.id;

    g.apply_patch(GraphPatch::new("test", vec![GraphPatchOp::AddNode(node)]), &mut log).unwrap();
    assert!(g.schema.nodes.contains_key(node_id));

    g.apply_patch(GraphPatch::new("test", vec![GraphPatchOp::RemoveNode { id: node_id }]), &mut log).unwrap();
    assert!(!g.schema.nodes.contains_key(node_id));
}

#[test]
fn patch_atomic_rollback_on_error() {
    let (mut g, mut log) = make_graph();
    let node = GraphNode::new("existing", "Existing");
    let node_id = node.id;
    g.add_node(node.clone(), &mut log);

    let ops = vec![
        GraphPatchOp::AddNode(GraphNode::new("valid_new", "Valid New")),
        GraphPatchOp::AddNode(node),
    ];
    let before = log.len();
    let err = g.apply_patch(GraphPatch::new("test", ops), &mut log);
    assert!(err.is_err());

    assert_eq!(g.schema.nodes.len(), 1);
    assert!(g.schema.nodes.contains_key(node_id));
    assert_eq!(log.len(), before);
}

#[test]
fn diff_captures_added_and_removed_nodes() {
    let dim = DimensionId::new();
    let from = FlowGraphSchema::new(dim);
    let mut to = from.duplicate();
    let new_node = GraphNode::new("added", "Added");
    let new_id = new_node.id;
    to.nodes.insert(new_id, new_node);

    let patch = FlowGraph::compute_diff(&from, to, "agent");
    assert!(patch.ops.iter().any(|op| matches!(op, GraphPatchOp::AddNode(n) if n.id == new_id)));

    let mut log = ActionLog::new(16);
    let mut g = FlowGraph::new(dim, TaskId::new());
    g.schema = from.duplicate();
    g.apply_patch(patch, &mut log).unwrap();
    assert!(g.schema.nodes.contains_key(new_id));
}

#[test]
fn add_and_remove_subgraph() {
    let (mut g, mut log) = make_graph();
    let inner = FlowGraphSchema::new(g.schema.dimension_id);
    let sg = Subgraph::new("MySub", inner);
    let sg_id = sg.id;

    g.add_subgraph(sg, &mut log);
    assert!(g.schema.subgraphs.contains_key(sg_id));

    g.remove_subgraph(sg_id).unwrap();
    assert!(!g.schema.subgraphs.contains_key(sg_id));
}

#[test]
fn group_membership() {
    let (mut g, mut log) = make_graph();
    let node_id = g.add_node(GraphNode::new("n", "N"), &mut log);
    let group_id = g.add_group(Group::new("MyGroup"), &mut log);

    g.apply_patch(GraphPatch::new("test", vec![GraphPatchOp::AddNodeToGroup { node_id, group_id }]), &mut log)
        .unwrap();
    assert!(g.schema.groups.get(group_id).unwrap().node_ids.contains_key(node_id));

    g.apply_patch(GraphPatch::new("test", vec![GraphPatchOp::RemoveNodeFromGroup { node_id, group_id }]), &mut log)
        .unwrap();
    assert!(!g.schema.groups.get(group_id).unwrap().node_ids.contains_key(node_id));
}

#[test]
fn node_provenance_records_actor() {
    let mut node = GraphNode::new("k", "k");
    node.provenance = NodeProvenance::for_actor("alice");
    assert_eq!(node.provenance.created_by, "alice");
    assert!(node.provenance.modified_by.is_none());

    node.provenance.touch("bob");
    assert_eq!(node.provenance.modified_by.as_deref(), Some("bob"));
}

#[test]
fn patch_on_missing_group_fails_and_changes_nothing() {
    let (mut g, mut log) = make_graph();
    let node_id = g.add_node(GraphNode::new("n", "N"), &mut log);
    let err = g.apply_patch(
        GraphPatch::new("test", vec![GraphPatchOp::AddNodeToGroup { node_id, group_id: 7 }]),
        &mut log,
    );
    assert!(err.is_err());
    assert_eq!(g.schema.groups.len(), 0);
    assert_eq!(g.schema.nodes.len(), 1);
}

#[test]
fn node_planner_plan_empty_graph() {
    let dim = DimensionId::new();
    let graph = FlowGraph::new(dim, TaskId::new());
    let plan = graph.plan(dim).expect("empty graph should produce an empty plan");
    assert!(plan.is_empty(), "empty graph has no nodes to execute");
}

#[test]
fn node_planner_dimension_mismatch_returns_error() {
    let dim = DimensionId::new();
    let other_dim = DimensionId::new();
    let graph = FlowGraph::new(dim, TaskId::new());
    assert!(graph.plan(other_dim).is_err(), "plan with wrong dimension should fail");
    assert!(matches!(graph.plan(other_dim), Err(FlowGraphError::DimensionMismatch { .. })));
    let mut log = ActionLog::new(8);
    let err = graph.validate_for(other_dim, &mut log).unwrap_err();
    assert_eq!(err.len(), 1);
    assert!(err[0].starts_with("dimension mismatch: graph owns "), "validate with wrong dimension should fail");
    assert_eq!(log.len(), 0);
}

#[test]
fn node_planner_validate_valid_graph() {
    let dim = DimensionId::new();
    let graph = FlowGraph::new(dim, TaskId::new());
    let mut log = ActionLog::new(8);
    assert!(graph.validate_for(dim, &mut log).is_ok(), "empty graph should be valid");
    assert_eq!(log.len(), 1);
}

#[test]
fn node_planner_plan_with_nodes() {
    let mut log = ActionLog::new(32);
    let dim = DimensionId::new();
    let mut graph = FlowGraph::new(dim, TaskId::new());
    graph.add_node(GraphNode::new("node_a", "any"), &mut log);
    graph.add_node(GraphNode::new("node_b", "any"), &mut log);
    let plan = graph.plan(dim).expect("plan should succeed for valid graph");
    assert_eq!(plan.len(), 2, "plan should contain both nodes");
}

#[test]
fn diff_with_removals_reproduces_target() {
    let (mut g, mut log) = make_graph();
    let keep_id = g.add_node(GraphNode::new("keep", "Keep"), &mut log);
    let drop_id = g.add_node(GraphNode::new("drop", "Drop"), &mut log);
    let old_group = g.add_group(Group::new("old"), &mut log);
    let from = g.schema.duplicate();

    let mut to = from.duplicate();
    to.nodes.remove(drop_id);
    to.groups.remove(old_group);
    let added = GraphNode::new("added", "Added");
    let added_id = added.id;
    to.nodes.insert(added_id, added);
    let new_group = Group::new("new");
    let new_group_id = new_group.id;
    to.groups.insert(new_group_id, new_group);

    let patch = FlowGraph::compute_diff(&from, to, "agent");
    assert_eq!(patch.ops.len(), 4);
    g.apply_patch(patch, &mut log).unwrap();
    assert!(g.schema.nodes.contains_key(keep_id));
    assert!(g.schema.nodes.contains_key(added_id));
    assert!(!g.schema.nodes.contains_key(drop_id));
    assert_eq!(g.schema.nodes.len(), 2);
    assert!(g.schema.groups.contains_key(new_group_id));
    assert!(!g.schema.groups.contains_key(old_group));
    assert_eq!(g.schema.groups.len(), 1);
}

#[test]
fn diff_dropping_a_linked_node_and_its_link_applies() {
    let (mut g, mut log) = make_graph();
    let mut src = GraphNode::new("src", "Source");
    let out_id = src.add_port(num_out_port()).unwrap();
    let src_id = g.add_node(src, &mut log);
    let mut tgt = GraphNode::new("tgt", "Target");
    let in_id = tgt.add_port(num_in_port()).unwrap();
    let tgt_id = g.add_node(tgt, &mut log);
    let link_id = g.add_link(Link::new(src_id, out_id, tgt_id, in_id), &mut log).unwrap();
    let from = g.schema.duplicate();

    let mut to = from.duplicate();
    to.nodes.remove(src_id);
    to.links.remove(link_id);

    // The link is removed first, so removing its node afterwards succeeds.
    let patch = FlowGraph::compute_diff(&from, to, "agent");
    assert_eq!(patch.ops.len(), 2);
    assert!(matches!(patch.ops[0], GraphPatchOp::RemoveLink { .. }));
    g.apply_patch(patch, &mut log).unwrap();
    assert!(!g.schema.nodes.contains_key(src_id));
    assert!(g.schema.nodes.contains_key(tgt_id));
    assert!(!g.schema.links.contains_key(link_id));
}

#[test]
fn topological_order_takes_sources_then_ready_nodes_by_id() {
    let (mut g, mut log) = make_graph();
    let mut ids = Vec::new();
    for label in ["a", "b", "c", "d"] {
        let mut n = GraphNode::new("k", label);
        n.add_port(num_out_port()).unwrap();
        n.add_port(num_in_port()).unwrap();
        ids.push(g.add_node(n, &mut log));
    }
    let port = |g: &FlowGraph, id: u128, d: PortDirection| {
        g.schema.nodes.get(id).unwrap().ports.values().iter().find(|p| p.direction == d).unwrap().id
    };
    // ids[0] -> ids[2], ids[0] -> ids[3], ids[1] -> ids[3]
    for (s, t) in [(0usize, 2usize), (0, 3), (1, 3)] {
        let sp = port(&g, ids[s], PortDirection::Out);
        let tp = port(&g, ids[t], PortDirection::In);
        g.add_link(Link::new(ids[s], sp, ids[t], tp), &mut log).unwrap();
    }
    let order = g.topological_order().unwrap();
    let mut sources = vec![ids[0], ids[1]];
    sources.sort();
    assert_eq!(&order[..2], &sources[..]);
    // ids[2] is ready once ids[0] is taken; ids[3] once both are.
    let first = sources[0];
    if first == ids[0] {
        assert_eq!(&order[2..], &[ids[2], ids[3]]);
    } else {
        let mut rest = vec![ids[2], ids[3]];
        rest.sort();
        assert_eq!(&order[2..], &rest[..]);
    }
}

fn uuid_str(id: u128) -> String {
    uuid::Uuid::from_u128(id).to_string()
}

#[test]
fn validate_required_port_description_names_node_and_port() {
    let (mut g, mut log) = make_graph();
    let mut node = GraphNode::new("sink", "Sink");
    node.add_port(PortDef::new("required_in", PortDirection::In, PortDataType::Number).required()).unwrap();
    let nid = g.add_node(node, &mut log);
    let report = g.validate(&mut log);
    assert_eq!(report.issues.len(), 1);
    assert_eq!(
        report.issues[0].description,
        format!("Node {}: required input port 'required_in' has no incoming link", uuid_str(nid))
    );
}

#[test]
fn validate_cycle_description_lists_nodes() {
    let (mut g, mut log) = make_graph();
    let a = make_any_node("A");
    let (a_out, a_in) = (port_id(&a, PortDirection::Out), port_id(&a, PortDirection::In));
    let a_id = g.add_node(a, &mut log);
    let b = make_any_node("B");
    let (b_out, b_in) = (port_id(&b, PortDirection::Out), port_id(&b, PortDirection::In));
    let b_id = g.add_node(b, &mut log);
    g.add_link(Link::new(a_id, a_out, b_id, b_in), &mut log).unwrap();
    g.add_link(Link::new(b_id, b_out, a_id, a_in), &mut log).unwrap();
    let report = g.validate(&mut log);
    let issue = report.issues.iter().find(|i| i.kind == "cycle_detected").unwrap();
    let (lo, hi) = if a_id < b_id { (a_id, b_id) } else { (b_id, a_id) };
    assert_eq!(
        issue.description,
        format!("Directed cycle detected through nodes: [{}, {}]", uuid_str(lo), uuid_str(hi))
    );
}

#[test]
fn validate_dangling_link_descriptions() {
    let (mut g, mut log) = make_graph();
    let mut src = GraphNode::new("src", "Source");
    let out_id = src.add_port(PortDef::new("val", PortDirection::Out, PortDataType::Number)).unwrap();
    let src_id = g.add_node(src, &mut log);
    let missing_node: u128 = 0x1234;
    let missing_port: u128 = 0x5678;
    let to_missing_node = Link::new(src_id, out_id, missing_node, missing_port);
    let to_missing_node_id = to_missing_node.id;
    let from_missing_port = Link::new(src_id, missing_port, src_id, out_id);
    let from_missing_port_id = from_missing_port.id;
    g.apply_patch(
        GraphPatch::new("test", vec![GraphPatchOp::AddLink(to_missing_node), GraphPatchOp::AddLink(from_missing_port)]),
        &mut log,
    )
    .unwrap();
    let report = g.validate(&mut log);
    let node_issue = report.issues.iter().find(|i| i.kind == "missing_target_node").unwrap();
    assert_eq!(
        node_issue.description,
        format!("Link {}: target node {} not found", uuid_str(to_missing_node_id), uuid_str(missing_node))
    );
    let port_issue = report.issues.iter().find(|i| i.kind == "missing_source_port").unwrap();
    assert_eq!(
        port_issue.description,
        format!(
            "Link {}: source port {} not found on node {}",
            uuid_str(from_missing_port_id),
            uuid_str(missing_port),
            uuid_str(src_id)
        )
    );
}

#[test]
fn validate_type_mismatch_description() {
    let (mut g, mut log) = make_graph();
    let mut src = GraphNode::new("src", "Source");
    let out_id = src.add_port(PortDef::new("val", PortDirection::Out, PortDataType::Number)).unwrap();
    let src_id = g.add_node(src, &mut log);
    let mut tgt = GraphNode::new("tgt", "Target");
    let in_id = tgt.add_port(PortDef::new("in", PortDirection::In, PortDataType::String)).unwrap();
    let tgt_id = g.add_node(tgt, &mut log);
    let link = Link::new(src_id, out_id, tgt_id, in_id);
    let link_id = link.id;
    g.apply_patch(GraphPatch::new("test", vec![GraphPatchOp::AddLink(link)]), &mut log).unwrap();
    let report = g.validate(&mut log);
    let issue = report.issues.iter().find(|i| i.kind == "type_mismatch").unwrap();
    assert_eq!(issue.description, format!("Link {}: type Number \u{219b} String", uuid_str(link_id)));
}

#[test]
fn patch_duplicate_node_reports_invalid_operation() {
    let (mut g, mut log) = make_graph();
    let node = GraphNode::new("existing", "Existing");
    let node_id = node.id;
    g.add_node(node.clone(), &mut log);
    let patch = GraphPatch::new("test", vec![GraphPatchOp::AddNode(node)]);
    let patch_id = patch.id;
    let err = g.apply_patch(patch, &mut log).unwrap_err();
    match err {
        FlowGraphError::InvalidPatch(t) => assert_eq!(
            t,
            format!(
                "patch {} op failed: invalid patch operation: node {} already exists",
                uuid_str(patch_id),
                uuid_str(node_id)
            )
        ),
        other => panic!("unexpected error {:?}", other),
    }
}

#[test]
fn diff_leaves_the_target_ids_when_shared_ids_differ() {
    let (mut g, mut log) = make_graph();
    let keep_id = g.add_node(GraphNode::new("keep", "Keep"), &mut log);
    let drop_id = g.add_node(GraphNode::new("drop", "Drop"), &mut log);
    let from = g.schema.duplicate();

    // `to` keeps the id of `keep` with another label, drops `drop`, adds one.
    let mut to = from.duplicate();
    to.nodes.remove(drop_id);
    let mut relabelled = GraphNode::new("keep", "Relabelled");
    relabelled.id = keep_id;
    to.nodes.insert(keep_id, relabelled);
    let added = GraphNode::new("added", "Added");
    let added_id = added.id;
    to.nodes.insert(added_id, added);

    let patch = FlowGraph::compute_diff(&from, to, "agent");
    g.apply_patch(patch, &mut log).unwrap();
    let mut ids = g.schema.nodes.keys();
    ids.sort();
    let mut expected = vec![keep_id, added_id];
    expected.sort();
    assert_eq!(ids, expected);
}
