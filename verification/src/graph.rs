//! Flow graphs: typed ports, links between ports, groups, subgraphs, node
//! relations, node execution contracts, cycle detection, execution order,
//! validation, and atomic patches.
//!
//! Every collection is keyed by identifier and walked in ascending key
//! order, so results that depend on iteration order are deterministic.

use vstd::prelude::*;
use crate::action_log::{ActionLog, EventType, appended_one, now_ms};
use crate::ids::{DimensionId, TaskId, new_uuid_v7};
use crate::idmap::{IdMap, lemma_same_keys_sorted, keys_sorted, seq_keys, seq_to_map, has_key, key_index, lemma_key_index,
    lemma_seq_keys, lemma_map_len, entries_find, entries_insert, entries_remove_at, entries_keys};
use crate::json::{JsonModel, JsonValue, id_event_model, id_object, lemma_members_models, uuid_text, uuid_to_string};
use crate::params::ParamMap;
use vstd::string::*;
use crate::topo::{kahn_order, has_topological_order, is_topological_order, contains_id, with_endpoints,
    lemma_with_endpoints};

verus! {

/// Wire-format schema version of [`FlowGraphSchema`].
pub const GRAPH_SCHEMA_VERSION: u32 = 1;

/// Errors produced by flow graph operations.
#[derive(Debug)]
#[allow(inconsistent_fields)]
pub enum FlowGraphError {
    /// A referenced node was not found in the graph.
    NodeNotFound(u128),
    /// A referenced link was not found in the graph.
    LinkNotFound(u128),
    /// A referenced port was not found on the given node.
    PortNotFound { node_id: u128, port_id: u128 },
    /// A referenced group was not found.
    GroupNotFound(u128),
    /// A referenced subgraph was not found.
    SubgraphNotFound(u128),
    /// A referenced node relation was not found.
    RelationNotFound(u128),
    /// The graph contains a cycle; the payload lists the nodes involved.
    CycleDetected(Vec<u128>),
    /// Port types are incompatible across a link.
    TypeMismatch { link_id: u128, source_type: PortDataType, target_type: PortDataType },
    /// A required input port has no incoming link.
    UnconnectedRequiredPort { node_id: u128, port_name: String },
    /// An edge is forbidden by graph policy.
    ForbiddenEdge { from_node: u128, to_node: u128, reason: String },
    /// A patch operation could not be applied.
    InvalidPatch(String),
    /// The schema version does not match.
    SchemaMismatch { expected: u32, found: u32 },
    /// A node execution state transition is not permitted.
    InvalidStateTransition { node_id: u128, from: &'static str, to: &'static str },
    /// A port name is used more than once on the same node.
    DuplicatePortName { node_id: u128, name: String },
    /// The provided dimension does not match this graph's dimension.
    DimensionMismatch { expected: DimensionId, got: DimensionId },
}

// ---------------------------------------------------------------------------
// Ports
// ---------------------------------------------------------------------------

/// Whether data flows into or out of a node through a port.
#[derive(Clone, Copy, Debug, PartialEq, Eq, Structural, Hash)]
pub enum PortDirection {
    /// Data enters the node.
    In,
    /// Data leaves the node.
    Out,
}

/// Data type carried by a port; `Any` is compatible with every type.
#[derive(Clone, Copy, Debug, PartialEq, Eq, Structural, Hash)]
pub enum PortDataType {
    Any,
    Number,
    String,
    Bool,
    Json,
    Array,
}

/// `a` and `b` can be connected: one is `Any`, or they are equal.
pub open spec fn compatible(a: PortDataType, b: PortDataType) -> bool {
    a == PortDataType::Any || b == PortDataType::Any || a == b
}

/// Compatibility law: `Any` connects to every type (on either side), every
/// type connects to itself, compatibility is symmetric, and two distinct
/// concrete types never connect.
pub proof fn lemma_compatibility(a: PortDataType, b: PortDataType)
    ensures
        compatible(PortDataType::Any, b),
        compatible(a, PortDataType::Any),
        compatible(a, a),
        compatible(a, b) == compatible(b, a),
        a != PortDataType::Any && b != PortDataType::Any && a != b ==> !compatible(a, b),
        compatible(a, b) ==> a == PortDataType::Any || b == PortDataType::Any || a == b,
{
}

impl PortDataType {
    /// Returns `true` if `self` and `other` can be connected.
    pub fn is_compatible_with(self, other: PortDataType) -> (r: bool)
        ensures
            r == compatible(self, other),
    {
        self == PortDataType::Any || other == PortDataType::Any || self == other
    }
}

/// A typed port definition attached to a node.
#[derive(Debug)]
pub struct PortDef {
    /// Port identifier.
    pub id: u128,
    /// Name, unique within the owning node.
    pub name: String,
    /// Data flow direction.
    pub direction: PortDirection,
    /// Expected data type.
    pub data_type: PortDataType,
    /// For input ports: an incoming link is required before execution.
    pub required: bool,
    /// Human-readable description.
    pub description: String,
}

impl PortDef {
    /// A new, non-required port with an empty description and a fresh id.
    pub fn new(name: &str, direction: PortDirection, data_type: PortDataType) -> (r: Self)
        ensures
            r.name@ == name@,
            r.direction == direction,
            r.data_type == data_type,
            !r.required,
            r.description@ == Seq::<char>::empty(),
    {
        PortDef {
            id: new_uuid_v7(),
            name: name.to_owned(),
            direction,
            data_type,
            required: false,
            description: String::new(),
        }
    }

    /// Mark the port as required.
    pub fn required(self) -> (r: Self)
        ensures
            r == (PortDef { required: true, ..self }),
    {
        let mut s = self;
        s.required = true;
        s
    }

    /// Attach a description.
    pub fn with_description(self, desc: &str) -> (r: Self)
        ensures
            r.description@ == desc@,
            r.id == self.id,
            r.name == self.name,
            r.direction == self.direction,
            r.data_type == self.data_type,
            r.required == self.required,
    {
        let mut s = self;
        s.description = desc.to_owned();
        s
    }
}

impl Clone for PortDef {
    fn clone(&self) -> (r: Self)
        ensures
            r == *self,
    {
        PortDef {
            id: self.id,
            name: self.name.clone(),
            direction: self.direction,
            data_type: self.data_type,
            required: self.required,
            description: self.description.clone(),
        }
    }
}

// ---------------------------------------------------------------------------
// Links and groups
// ---------------------------------------------------------------------------

/// A directed edge from an output port of one node to an input port of
/// another.
#[derive(Debug)]
pub struct Link {
    /// Link identifier.
    pub id: u128,
    /// Node that emits data.
    pub source_node: u128,
    /// Output port on the source node.
    pub source_port: u128,
    /// Node that receives data.
    pub target_node: u128,
    /// Input port on the target node.
    pub target_port: u128,
    /// Optional label.
    pub label: Option<String>,
}

impl Link {
    /// A new unlabelled link with a fresh id.
    pub fn new(source_node: u128, source_port: u128, target_node: u128, target_port: u128) -> (r: Self)
        ensures
            r.source_node == source_node,
            r.source_port == source_port,
            r.target_node == target_node,
            r.target_port == target_port,
            r.label is None,
    {
        Link { id: new_uuid_v7(), source_node, source_port, target_node, target_port, label: None }
    }
}

impl Clone for Link {
    fn clone(&self) -> (r: Self)
        ensures
            r == *self,
    {
        Link {
            id: self.id,
            source_node: self.source_node,
            source_port: self.source_port,
            target_node: self.target_node,
            target_port: self.target_port,
            label: match &self.label {
                Some(l) => Some(l.clone()),
                None => None,
            },
        }
    }
}

/// A named collection of node ids.
#[derive(Debug)]
pub struct Group {
    /// Group identifier.
    pub id: u128,
    /// Display name.
    pub name: String,
    /// Member nodes (the keys of the map).
    pub node_ids: IdMap<()>,
}

impl Group {
    /// An empty group with a fresh id.
    pub fn new(name: &str) -> (r: Self)
        ensures
            r.name@ == name@,
            r.node_ids@ == Map::<u128, ()>::empty(),
    {
        Group { id: new_uuid_v7(), name: name.to_owned(), node_ids: IdMap::new() }
    }
}

// ---------------------------------------------------------------------------
// Relations and provenance
// ---------------------------------------------------------------------------

/// The semantic kind of a relation between two nodes.
#[derive(Debug)]
pub enum RelationKind {
    /// `from_node` cannot run until `to_node` has completed.
    DependsOn,
    /// Completion of `from_node` triggers `to_node`.
    Triggers,
    /// `to_node` monitors outputs of `from_node`.
    ObservedBy,
    /// `from_node` is the data source consumed by `to_node`.
    ProvidesDataTo,
    /// Application-defined relation with a free-form label.
    Custom(String),
}

impl RelationKind {
    /// The stable text of a relation kind.
    pub open spec fn spec_str(&self) -> Seq<char> {
        match self {
            RelationKind::DependsOn => "depends_on"@,
            RelationKind::Triggers => "triggers"@,
            RelationKind::ObservedBy => "observed_by"@,
            RelationKind::ProvidesDataTo => "provides_data_to"@,
            RelationKind::Custom(s) => s@,
        }
    }

    /// Return the stable text of the relation kind.
    pub fn as_str(&self) -> (r: &str)
        ensures
            r@ == self.spec_str(),
    {
        match self {
            RelationKind::DependsOn => "depends_on",
            RelationKind::Triggers => "triggers",
            RelationKind::ObservedBy => "observed_by",
            RelationKind::ProvidesDataTo => "provides_data_to",
            RelationKind::Custom(s) => s.as_str(),
        }
    }
}

/// A semantic relation between two nodes.
#[derive(Debug)]
pub struct NodeRelation {
    /// Relation identifier.
    pub id: u128,
    /// Source node.
    pub from_node: u128,
    /// Target node.
    pub to_node: u128,
    /// Kind of relation.
    pub kind: RelationKind,
    /// Optional label.
    pub label: Option<String>,
    /// Arbitrary metadata.
    pub metadata: ParamMap,
}

impl NodeRelation {
    /// A new relation with a fresh id, no label and no metadata.
    pub fn new(from_node: u128, to_node: u128, kind: RelationKind) -> (r: Self)
        ensures
            r.from_node == from_node,
            r.to_node == to_node,
            r.kind == kind,
            r.label is None,
            r.metadata@ == Map::<Seq<char>, JsonValue>::empty(),
    {
        NodeRelation { id: new_uuid_v7(), from_node, to_node, kind, label: None, metadata: ParamMap::new() }
    }
}

/// Who created a node, when, and why.
#[derive(Debug)]
pub struct NodeProvenance {
    /// Actor that created the node.
    pub created_by: String,
    /// Creation time, Unix epoch milliseconds.
    pub created_at_ms: u64,
    /// Actor that last modified the node.
    pub modified_by: Option<String>,
    /// Time of the last modification.
    pub modified_at_ms: Option<u64>,
    /// Reason for creating the node.
    pub reason: Option<String>,
    /// Task that caused the creation.
    pub task_id: Option<String>,
}

impl NodeProvenance {
    /// A provenance record attributed to `actor`, created now.
    pub fn for_actor(actor: &str) -> (r: Self)
        ensures
            r.created_by@ == actor@,
            r.modified_by is None,
            r.modified_at_ms is None,
            r.reason is None,
            r.task_id is None,
    {
        NodeProvenance {
            created_by: actor.to_owned(),
            created_at_ms: now_ms(),
            modified_by: None,
            modified_at_ms: None,
            reason: None,
            task_id: None,
        }
    }

    /// Record a modification by `actor` at the current time.
    pub fn touch(&mut self, actor: &str)
        ensures
            final(self).modified_by matches Some(m) && m@ == actor@,
            final(self).modified_at_ms is Some,
            final(self).created_by == old(self).created_by,
            final(self).created_at_ms == old(self).created_at_ms,
            final(self).reason == old(self).reason,
            final(self).task_id == old(self).task_id,
    {
        self.modified_by = Some(actor.to_owned());
        self.modified_at_ms = Some(now_ms());
    }
}

impl Default for NodeProvenance {
    /// Provenance attributed to `"system"`.
    fn default() -> (r: Self)
        ensures
            r.created_by@ == "system"@,
            r.modified_by is None,
            r.modified_at_ms is None,
            r.reason is None,
            r.task_id is None,
    {
        NodeProvenance::for_actor("system")
    }
}

impl Clone for NodeProvenance {
    fn clone(&self) -> (r: Self)
        ensures
            r == *self,
    {
        NodeProvenance {
            created_by: self.created_by.clone(),
            created_at_ms: self.created_at_ms,
            modified_by: match &self.modified_by {
                Some(s) => Some(s.clone()),
                None => None,
            },
            modified_at_ms: self.modified_at_ms,
            reason: match &self.reason {
                Some(s) => Some(s.clone()),
                None => None,
            },
            task_id: match &self.task_id {
                Some(s) => Some(s.clone()),
                None => None,
            },
        }
    }
}

// ---------------------------------------------------------------------------
// Nodes
// ---------------------------------------------------------------------------

/// A node of the flow graph with typed ports and parameters.
#[derive(Debug)]
pub struct GraphNode {
    /// Node identifier.
    pub id: u128,
    /// Node kind (for example `"http.request"`).
    pub kind: String,
    /// Canvas label.
    pub label: String,
    /// Port definitions keyed by port id.
    pub ports: IdMap<PortDef>,
    /// Configuration parameters.
    pub parameters: ParamMap,
    /// Canvas position `(x, y)`, in whole canvas units.
    pub position: (i64, i64),
    /// Subgraph this node stands for, if any.
    pub subgraph_ref: Option<u128>,
    /// Provenance record.
    pub provenance: NodeProvenance,
}

/// Some port of `ports` has the name `name`.
pub open spec fn has_port_named(ports: Map<u128, PortDef>, name: Seq<char>) -> bool {
    exists|k: u128| ports.contains_key(k) && (#[trigger] ports[k]).name@ == name
}

/// The ports of a port entry sequence with the given direction, in order.
pub open spec fn ports_with_direction(s: Seq<(u128, PortDef)>, d: PortDirection) -> Seq<PortDef>
    decreases s.len(),
{
    if s.len() == 0 {
        Seq::empty()
    } else {
        let rest = ports_with_direction(s.drop_last(), d);
        if s.last().1.direction == d { rest.push(s.last().1) } else { rest }
    }
}

impl GraphNode {
    /// A new node with a fresh id, no ports, no parameters, at the origin,
    /// attributed to `"system"`.
    pub fn new(kind: &str, label: &str) -> (r: Self)
        ensures
            r.kind@ == kind@,
            r.label@ == label@,
            r.ports@ == Map::<u128, PortDef>::empty(),
            r.parameters@ == Map::<Seq<char>, JsonValue>::empty(),
            r.position == (0i64, 0i64),
            r.subgraph_ref is None,
            r.provenance.created_by@ == "system"@,
    {
        GraphNode {
            id: new_uuid_v7(),
            kind: kind.to_owned(),
            label: label.to_owned(),
            ports: IdMap::new(),
            parameters: ParamMap::new(),
            position: (0, 0),
            subgraph_ref: None,
            provenance: NodeProvenance::default(),
        }
    }

    /// Add a port and return its id; a port name may occur once per node.
    pub fn add_port(&mut self, port: PortDef) -> (r: Result<u128, FlowGraphError>)
        ensures
            r is Err <==> has_port_named(old(self).ports@, port.name@),
            r matches Ok(id) ==> id == port.id && final(self).ports@ == old(self).ports@.insert(port.id, port),
            r matches Err(e) ==> e == (FlowGraphError::DuplicatePortName { node_id: old(self).id, name: port.name }),
            r is Err ==> final(self).ports@ == old(self).ports@,
            final(self).id == old(self).id,
            final(self).kind == old(self).kind,
            final(self).label == old(self).label,
            final(self).parameters@ == old(self).parameters@,
            final(self).position == old(self).position,
            final(self).subgraph_ref == old(self).subgraph_ref,
            final(self).provenance == old(self).provenance,
    {
        let keys = self.ports.keys();
        let n = keys.len();
        for i in 0..n
            invariant
                n == keys@.len(),
                forall|k: u128| #[trigger] keys@.contains(k) <==> self.ports@.contains_key(k),
                forall|j: int| 0 <= j < i ==> self.ports@[#[trigger] keys@[j]].name@ != port.name@,
        {
            let k = keys[i];
            proof {
                assert(keys@.contains(keys@[i as int]));
            }
            match self.ports.get(k) {
                Some(p) => {
                    if p.name == port.name {
                        return Err(FlowGraphError::DuplicatePortName { node_id: self.id, name: port.name });
                    }
                },
                None => {},
            }
        }
        proof {
            assert(!has_port_named(self.ports@, port.name@)) by {
                if has_port_named(self.ports@, port.name@) {
                    let k = choose|k: u128| self.ports@.contains_key(k) && (#[trigger] self.ports@[k]).name@ == port.name@;
                    assert(keys@.contains(k));
                    let j = choose|j: int| 0 <= j < keys@.len() && keys@[j] == k;
                    assert(self.ports@[keys@[j]].name@ != port.name@);
                }
            }
        }
        let id = port.id;
        self.ports.insert(id, port);
        Ok(id)
    }

    /// The input ports, in ascending port-id order.
    pub fn inputs(&self) -> (r: Vec<&PortDef>)
        ensures
            r@.len() == ports_with_direction(self.ports.entries(), PortDirection::In).len(),
            forall|i: int| 0 <= i < r@.len() ==> *r@[i] == ports_with_direction(self.ports.entries(), PortDirection::In)[i],
    {
        self.ports_in_direction(PortDirection::In)
    }

    /// The output ports, in ascending port-id order.
    pub fn outputs(&self) -> (r: Vec<&PortDef>)
        ensures
            r@.len() == ports_with_direction(self.ports.entries(), PortDirection::Out).len(),
            forall|i: int| 0 <= i < r@.len() ==> *r@[i] == ports_with_direction(self.ports.entries(), PortDirection::Out)[i],
    {
        self.ports_in_direction(PortDirection::Out)
    }

    fn ports_in_direction(&self, d: PortDirection) -> (r: Vec<&PortDef>)
        ensures
            r@.len() == ports_with_direction(self.ports.entries(), d).len(),
            forall|i: int| 0 <= i < r@.len() ==> *r@[i] == ports_with_direction(self.ports.entries(), d)[i],
    {
        let mut out: Vec<&PortDef> = Vec::new();
        let n = self.ports.len();
        for i in 0..n
            invariant
                n == self.ports.entries().len(),
                out@.len() == ports_with_direction(self.ports.entries().take(i as int), d).len(),
                forall|j: int| 0 <= j < out@.len() ==> *out@[j] == ports_with_direction(self.ports.entries().take(i as int), d)[j],
        {
            let e = self.ports.entry_at(i);
            proof {
                assert(self.ports.entries().take(i + 1).drop_last() == self.ports.entries().take(i as int));
            }
            if e.1.direction == d {
                out.push(&e.1);
            }
        }
        proof {
            assert(self.ports.entries().take(n as int) == self.ports.entries());
        }
        out
    }

    /// Whether this node stands for a subgraph.
    pub fn is_subgraph_ref(&self) -> (r: bool)
        ensures
            r == self.subgraph_ref is Some,
    {
        self.subgraph_ref.is_some()
    }
}

// ---------------------------------------------------------------------------
// Node execution contracts
// ---------------------------------------------------------------------------

/// Execution state of one graph node:
/// `Idle → Running → Progress* → Complete | Failed | Cancelled`.
#[derive(Debug)]
pub enum NodeExecutionState {
    /// Not started.
    Idle,
    /// Started at the given time.
    Running { started_at_ms: u64 },
    /// Intermediate progress (a percentage) with a message.
    Progress { percent: u8, message: String },
    /// Finished successfully with an output.
    Complete { finished_at_ms: u64, output: JsonValue },
    /// Terminated with an error.
    Failed { error: String, failed_at_ms: u64 },
    /// Cancelled before completion.
    Cancelled { cancelled_at_ms: u64 },
}

impl NodeExecutionState {
    /// Short label of a state.
    pub open spec fn spec_label(&self) -> &'static str {
        match self {
            NodeExecutionState::Idle => "Idle",
            NodeExecutionState::Running { .. } => "Running",
            NodeExecutionState::Progress { .. } => "Progress",
            NodeExecutionState::Complete { .. } => "Complete",
            NodeExecutionState::Failed { .. } => "Failed",
            NodeExecutionState::Cancelled { .. } => "Cancelled",
        }
    }

    /// Short label used in error reports.
    fn label(&self) -> (r: &'static str)
        ensures
            r == self.spec_label(),
    {
        match self {
            NodeExecutionState::Idle => "Idle",
            NodeExecutionState::Running { .. } => "Running",
            NodeExecutionState::Progress { .. } => "Progress",
            NodeExecutionState::Complete { .. } => "Complete",
            NodeExecutionState::Failed { .. } => "Failed",
            NodeExecutionState::Cancelled { .. } => "Cancelled",
        }
    }

    /// A terminal state: complete, failed or cancelled.
    pub open spec fn spec_is_terminal(&self) -> bool {
        self is Complete || self is Failed || self is Cancelled
    }

    /// Returns `true` for a terminal state.
    pub fn is_terminal(&self) -> (r: bool)
        ensures
            r == self.spec_is_terminal(),
    {
        match self {
            NodeExecutionState::Complete { .. } | NodeExecutionState::Failed { .. } | NodeExecutionState::Cancelled { .. } => true,
            _ => false,
        }
    }

    /// Running or reporting progress: the states a run can leave.
    pub open spec fn spec_is_active(&self) -> bool {
        self is Running || self is Progress
    }
}

/// Manages the lifecycle of one node run; every transition is logged.
#[derive(Debug)]
pub struct NodeExecutionContract {
    node_id: u128,
    dimension_id: DimensionId,
    task_id: TaskId,
    state: NodeExecutionState,
}

impl NodeExecutionContract {
    /// The node being executed.
    pub closed spec fn spec_node_id(&self) -> u128 {
        self.node_id
    }

    /// The dimension scope.
    pub closed spec fn spec_dimension_id(&self) -> DimensionId {
        self.dimension_id
    }

    /// The task scope.
    pub closed spec fn spec_task_id(&self) -> TaskId {
        self.task_id
    }
    /// The current state.
    pub closed spec fn spec_state(&self) -> NodeExecutionState {
        self.state
    }

    /// A contract in the `Idle` state.
    pub fn new(node_id: u128, dimension_id: DimensionId, task_id: TaskId) -> (r: Self)
        ensures
            r.spec_node_id() == node_id,
            r.spec_dimension_id() == dimension_id,
            r.spec_task_id() == task_id,
            r.spec_state() == NodeExecutionState::Idle,
    {
        NodeExecutionContract { node_id, dimension_id, task_id, state: NodeExecutionState::Idle }
    }

    /// The current state.
    pub fn state(&self) -> (r: &NodeExecutionState)
        ensures
            *r == self.spec_state(),
    {
        &self.state
    }

    fn log_transition(&self, ev: EventType, payload: JsonValue, log: &mut ActionLog)
        ensures
            appended_one(old(log)@, final(log)@, ev, Some(self.spec_dimension_id()), Some(self.spec_task_id())),
    {
        let entry = crate::action_log::ActionLogEntry::new(
            ev,
            crate::action_log::Actor::System,
            Some(self.dimension_id),
            Some(self.task_id),
            payload,
        ).with_correlation(crate::json::uuid_to_string(self.node_id));
        log.append(entry);
    }

    fn transition_error(&self, to: &'static str) -> (r: FlowGraphError)
        ensures
            r == (FlowGraphError::InvalidStateTransition { node_id: self.spec_node_id(), from: self.spec_state().spec_label(), to }),
    {
        FlowGraphError::InvalidStateTransition { node_id: self.node_id, from: self.state.label(), to }
    }

    /// `Idle → Running`.
    pub fn start(&mut self, log: &mut ActionLog) -> (r: Result<(), FlowGraphError>)
        ensures
            r is Ok <==> old(self).spec_state() is Idle,
            r is Ok ==> final(self).spec_state() is Running
                && appended_one(old(log)@, final(log)@, EventType::NodeExecutionStarted, Some(old(self).spec_dimension_id()), Some(old(self).spec_task_id())),
            r matches Err(e) ==> e == (FlowGraphError::InvalidStateTransition {
                node_id: old(self).spec_node_id(), from: old(self).spec_state().spec_label(), to: "Running" })
                && final(self).spec_state() == old(self).spec_state() && final(log)@ == old(log)@,
            final(self).spec_node_id() == old(self).spec_node_id(),
            final(self).spec_dimension_id() == old(self).spec_dimension_id(),
            final(self).spec_task_id() == old(self).spec_task_id(),
    {
        match self.state {
            NodeExecutionState::Idle => {},
            _ => {
                return Err(self.transition_error("Running"));
            },
        }
        self.state = NodeExecutionState::Running { started_at_ms: now_ms() };
        let payload = JsonValue::object(vec![("node_id".to_owned(), JsonValue::from_uuid(self.node_id))]);
        self.log_transition(EventType::NodeExecutionStarted, payload, log);
        Ok(())
    }

    /// Report progress from `Running` or `Progress`.
    pub fn progress(&mut self, percent: u8, message: &str, log: &mut ActionLog) -> (r: Result<(), FlowGraphError>)
        ensures
            r is Ok <==> old(self).spec_state().spec_is_active(),
            r is Ok ==> (final(self).spec_state() matches NodeExecutionState::Progress { percent: p, message: m }
                && p == percent && m@ == message@)
                && appended_one(old(log)@, final(log)@, EventType::NodeExecutionProgress, Some(old(self).spec_dimension_id()), Some(old(self).spec_task_id())),
            r matches Err(e) ==> e == (FlowGraphError::InvalidStateTransition {
                node_id: old(self).spec_node_id(), from: old(self).spec_state().spec_label(), to: "Progress" })
                && final(self).spec_state() == old(self).spec_state() && final(log)@ == old(log)@,
            final(self).spec_node_id() == old(self).spec_node_id(),
            final(self).spec_dimension_id() == old(self).spec_dimension_id(),
            final(self).spec_task_id() == old(self).spec_task_id(),
    {
        match self.state {
            NodeExecutionState::Running { .. } | NodeExecutionState::Progress { .. } => {},
            _ => {
                return Err(self.transition_error("Progress"));
            },
        }
        self.state = NodeExecutionState::Progress { percent, message: message.to_owned() };
        let payload = JsonValue::object(vec![
            ("node_id".to_owned(), JsonValue::from_uuid(self.node_id)),
            ("percent".to_owned(), JsonValue::from_u64(percent as u64)),
            ("message".to_owned(), JsonValue::string(message)),
        ]);
        self.log_transition(EventType::NodeExecutionProgress, payload, log);
        Ok(())
    }

    /// `Running | Progress → Complete` with the node's output.
    pub fn complete(&mut self, output: JsonValue, log: &mut ActionLog) -> (r: Result<(), FlowGraphError>)
        ensures
            r is Ok <==> old(self).spec_state().spec_is_active(),
            r is Ok ==> (final(self).spec_state() matches NodeExecutionState::Complete { output: o, .. } && o == output)
                && appended_one(old(log)@, final(log)@, EventType::NodeExecutionCompleted, Some(old(self).spec_dimension_id()), Some(old(self).spec_task_id())),
            r matches Err(e) ==> e == (FlowGraphError::InvalidStateTransition {
                node_id: old(self).spec_node_id(), from: old(self).spec_state().spec_label(), to: "Complete" })
                && final(self).spec_state() == old(self).spec_state() && final(log)@ == old(log)@,
            final(self).spec_node_id() == old(self).spec_node_id(),
            final(self).spec_dimension_id() == old(self).spec_dimension_id(),
            final(self).spec_task_id() == old(self).spec_task_id(),
    {
        match self.state {
            NodeExecutionState::Running { .. } | NodeExecutionState::Progress { .. } => {},
            _ => {
                return Err(self.transition_error("Complete"));
            },
        }
        let payload = JsonValue::object(vec![
            ("node_id".to_owned(), JsonValue::from_uuid(self.node_id)),
            ("output".to_owned(), output.clone()),
        ]);
        self.state = NodeExecutionState::Complete { finished_at_ms: now_ms(), output };
        self.log_transition(EventType::NodeExecutionCompleted, payload, log);
        Ok(())
    }

    /// `Running | Progress → Failed` with an error description.
    pub fn fail(&mut self, error: &str, log: &mut ActionLog) -> (r: Result<(), FlowGraphError>)
        ensures
            r is Ok <==> old(self).spec_state().spec_is_active(),
            r is Ok ==> (final(self).spec_state() matches NodeExecutionState::Failed { error: m, .. } && m@ == error@)
                && appended_one(old(log)@, final(log)@, EventType::NodeExecutionFailed, Some(old(self).spec_dimension_id()), Some(old(self).spec_task_id())),
            r matches Err(e) ==> e == (FlowGraphError::InvalidStateTransition {
                node_id: old(self).spec_node_id(), from: old(self).spec_state().spec_label(), to: "Failed" })
                && final(self).spec_state() == old(self).spec_state() && final(log)@ == old(log)@,
            final(self).spec_node_id() == old(self).spec_node_id(),
            final(self).spec_dimension_id() == old(self).spec_dimension_id(),
            final(self).spec_task_id() == old(self).spec_task_id(),
    {
        match self.state {
            NodeExecutionState::Running { .. } | NodeExecutionState::Progress { .. } => {},
            _ => {
                return Err(self.transition_error("Failed"));
            },
        }
        self.state = NodeExecutionState::Failed { error: error.to_owned(), failed_at_ms: now_ms() };
        let payload = JsonValue::object(vec![
            ("node_id".to_owned(), JsonValue::from_uuid(self.node_id)),
            ("error".to_owned(), JsonValue::string(error)),
        ]);
        self.log_transition(EventType::NodeExecutionFailed, payload, log);
        Ok(())
    }

    /// `Running | Progress → Cancelled`.
    pub fn cancel(&mut self, log: &mut ActionLog) -> (r: Result<(), FlowGraphError>)
        ensures
            r is Ok <==> old(self).spec_state().spec_is_active(),
            r is Ok ==> final(self).spec_state() is Cancelled
                && appended_one(old(log)@, final(log)@, EventType::NodeExecutionCancelled, Some(old(self).spec_dimension_id()), Some(old(self).spec_task_id())),
            r matches Err(e) ==> e == (FlowGraphError::InvalidStateTransition {
                node_id: old(self).spec_node_id(), from: old(self).spec_state().spec_label(), to: "Cancelled" })
                && final(self).spec_state() == old(self).spec_state() && final(log)@ == old(log)@,
            final(self).spec_node_id() == old(self).spec_node_id(),
            final(self).spec_dimension_id() == old(self).spec_dimension_id(),
            final(self).spec_task_id() == old(self).spec_task_id(),
    {
        match self.state {
            NodeExecutionState::Running { .. } | NodeExecutionState::Progress { .. } => {},
            _ => {
                return Err(self.transition_error("Cancelled"));
            },
        }
        self.state = NodeExecutionState::Cancelled { cancelled_at_ms: now_ms() };
        let payload = JsonValue::object(vec![("node_id".to_owned(), JsonValue::from_uuid(self.node_id))]);
        self.log_transition(EventType::NodeExecutionCancelled, payload, log);
        Ok(())
    }
}

/// Once a run has reached a terminal state, no transition of the contract
/// leaves it: `start` needs `Idle`, the others need `Running` or `Progress`.
pub proof fn lemma_terminal_is_final(s: NodeExecutionState)
    requires
        s.spec_is_terminal(),
    ensures
        !(s is Idle),
        !s.spec_is_active(),
{
}

impl NodeExecutionContract {
    /// The node being executed.
    pub fn node_id(&self) -> (r: u128)
        ensures
            r == self.spec_node_id(),
    {
        self.node_id
    }

    /// The dimension scope.
    pub fn dimension_id(&self) -> (r: DimensionId)
        ensures
            r == self.spec_dimension_id(),
    {
        self.dimension_id
    }

    /// The task scope.
    pub fn task_id(&self) -> (r: TaskId)
        ensures
            r == self.spec_task_id(),
    {
        self.task_id
    }
}

// ---------------------------------------------------------------------------
// Subgraphs and the schema
// ---------------------------------------------------------------------------

/// A versioned, parameterisable sub-graph that a node can stand for.
#[derive(Debug)]
pub struct Subgraph {
    /// Subgraph identifier.
    pub id: u128,
    /// Version, bumped on incompatible change.
    pub version: u32,
    /// Name.
    pub name: String,
    /// Description.
    pub description: String,
    /// Input ports exposed to the parent graph.
    pub exposed_inputs: IdMap<PortDef>,
    /// Output ports exposed to the parent graph.
    pub exposed_outputs: IdMap<PortDef>,
    /// The inner graph.
    pub inner: FlowGraphSchema,
}

impl Subgraph {
    /// A version-1 subgraph with a fresh id wrapping `inner`.
    pub fn new(name: &str, inner: FlowGraphSchema) -> (r: Self)
        ensures
            r.version == 1,
            r.name@ == name@,
            r.description@ == Seq::<char>::empty(),
            r.exposed_inputs@ == Map::<u128, PortDef>::empty(),
            r.exposed_outputs@ == Map::<u128, PortDef>::empty(),
            r.inner == inner,
    {
        Subgraph {
            id: new_uuid_v7(),
            version: 1,
            name: name.to_owned(),
            description: String::new(),
            exposed_inputs: IdMap::new(),
            exposed_outputs: IdMap::new(),
            inner,
        }
    }
}

/// Subgraphs keyed by id, walked in ascending key order.
#[derive(Debug)]
pub struct SubgraphMap {
    entries: Vec<(u128, Subgraph)>,
}

impl View for SubgraphMap {
    type V = Map<u128, Subgraph>;

    open spec fn view(&self) -> Map<u128, Subgraph> {
        seq_to_map(self.entries())
    }
}

impl SubgraphMap {
    /// Keys strictly increase.
    #[verifier::type_invariant]
    spec fn sorted(&self) -> bool {
        keys_sorted(self.entries@)
    }

    /// The entries in ascending key order.
    pub closed spec fn entries(&self) -> Seq<(u128, Subgraph)> {
        self.entries@
    }

    /// An empty map.
    pub fn new() -> (r: Self)
        ensures
            r@ == Map::<u128, Subgraph>::empty(),
    {
        let r = SubgraphMap { entries: Vec::new() };
        assert(r@ =~= Map::<u128, Subgraph>::empty());
        r
    }

    /// Number of subgraphs.
    pub fn len(&self) -> (r: usize)
        ensures
            r == self@.len(),
            self@.dom().finite(),
    {
        proof {
            use_type_invariant(self);
            lemma_map_len(self.entries@);
        }
        self.entries.len()
    }

    /// Whether a subgraph with id `k` is present.
    pub fn contains_key(&self, k: u128) -> (r: bool)
        ensures
            r == self@.contains_key(k),
    {
        proof {
            use_type_invariant(self);
        }
        entries_find(&self.entries, k).is_some()
    }

    /// The subgraph with id `k`, if any.
    pub fn get(&self, k: u128) -> (r: Option<&Subgraph>)
        ensures
            r is Some <==> self@.contains_key(k),
            r matches Some(v) ==> *v == self@[k],
    {
        proof {
            use_type_invariant(self);
        }
        match entries_find(&self.entries, k) {
            Some(i) => {
                proof {
                    lemma_key_index(self.entries@, i as int);
                }
                Some(&self.entries[i].1)
            },
            None => None,
        }
    }

    /// The ids in ascending order.
    pub fn keys(&self) -> (r: Vec<u128>)
        ensures
            r@.no_duplicates(),
            forall|k: u128| #[trigger] r@.contains(k) <==> self@.contains_key(k),
    {
        proof {
            use_type_invariant(self);
        }
        let r = entries_keys(&self.entries);
        proof {
            lemma_seq_keys(self.entries@);
        }
        r
    }

    /// Insert `v` under `k`, returning the subgraph it replaces.
    pub fn insert(&mut self, k: u128, v: Subgraph) -> (r: Option<Subgraph>)
        ensures
            final(self)@ == old(self)@.insert(k, v),
            r is Some <==> old(self)@.contains_key(k),
    {
        proof {
            use_type_invariant(&*self);
        }
        let mut e: Vec<(u128, Subgraph)> = Vec::new();
        std::mem::swap(&mut e, &mut self.entries);
        let r = entries_insert(&mut e, k, v);
        self.entries = e;
        r
    }

    /// Remove the subgraph with id `k`, returning it.
    pub fn remove(&mut self, k: u128) -> (r: Option<Subgraph>)
        ensures
            final(self)@ == old(self)@.remove(k),
            r is Some <==> old(self)@.contains_key(k),
            r matches Some(v) ==> v == old(self)@[k],
    {
        proof {
            use_type_invariant(&*self);
        }
        match entries_find(&self.entries, k) {
            Some(i) => {
                proof {
                    lemma_key_index(self.entries@, i as int);
                }
                let mut e: Vec<(u128, Subgraph)> = Vec::new();
                std::mem::swap(&mut e, &mut self.entries);
                let r = entries_remove_at(&mut e, i);
                self.entries = e;
                Some(r.1)
            },
            None => {
                proof {
                    assert(self@.remove(k) =~= self@);
                }
                None
            },
        }
    }
}

/// The versioned data of a flow graph.
#[derive(Debug)]
pub struct FlowGraphSchema {
    /// Schema version.
    pub schema_version: u32,
    /// Graph identifier.
    pub graph_id: u128,
    /// Dimension the graph belongs to.
    pub dimension_id: DimensionId,
    /// Nodes keyed by id.
    pub nodes: IdMap<GraphNode>,
    /// Links keyed by id.
    pub links: IdMap<Link>,
    /// Groups keyed by id.
    pub groups: IdMap<Group>,
    /// Subgraphs keyed by id.
    pub subgraphs: SubgraphMap,
    /// Node relations keyed by id.
    pub relations: IdMap<NodeRelation>,
}

impl FlowGraphSchema {
    /// An empty schema of the current version, with a fresh graph id.
    pub fn new(dimension_id: DimensionId) -> (r: Self)
        ensures
            r.schema_version == GRAPH_SCHEMA_VERSION,
            r.dimension_id == dimension_id,
            r.nodes@ == Map::<u128, GraphNode>::empty(),
            r.links@ == Map::<u128, Link>::empty(),
            r.groups@ == Map::<u128, Group>::empty(),
            r.subgraphs@ == Map::<u128, Subgraph>::empty(),
            r.relations@ == Map::<u128, NodeRelation>::empty(),
    {
        FlowGraphSchema {
            schema_version: GRAPH_SCHEMA_VERSION,
            graph_id: new_uuid_v7(),
            dimension_id,
            nodes: IdMap::new(),
            links: IdMap::new(),
            groups: IdMap::new(),
            subgraphs: SubgraphMap::new(),
            relations: IdMap::new(),
        }
    }

    /// Check the version of a schema read from the wire: a schema of another
    /// version is refused.
    pub fn check_version(self) -> (r: Result<Self, FlowGraphError>)
        ensures
            r is Ok <==> self.schema_version == GRAPH_SCHEMA_VERSION,
            r matches Ok(s) ==> s == self,
            r matches Err(e) ==> e == (FlowGraphError::SchemaMismatch { expected: GRAPH_SCHEMA_VERSION, found: self.schema_version }),
    {
        if self.schema_version != GRAPH_SCHEMA_VERSION {
            return Err(FlowGraphError::SchemaMismatch { expected: GRAPH_SCHEMA_VERSION, found: self.schema_version });
        }
        Ok(self)
    }
}

// ---------------------------------------------------------------------------
// FlowGraph
// ---------------------------------------------------------------------------

/// A link with an end at node `id`.
pub open spec fn link_touches(l: Link, id: u128) -> bool {
    l.source_node == id || l.target_node == id
}

/// The links of `links` that do not touch node `id`.
pub open spec fn links_without(links: Map<u128, Link>, id: u128) -> Map<u128, Link> {
    Map::new(|k: u128| links.contains_key(k) && !link_touches(links[k], id), |k: u128| links[k])
}

/// The `(source, target)` node pairs of link entries, in order.
pub open spec fn link_edges(s: Seq<(u128, Link)>) -> Seq<(u128, u128)> {
    s.map_values(|e: (u128, Link)| (e.1.source_node, e.1.target_node))
}

/// The relations among `s` satisfying `p`, in order.
pub open spec fn relations_where(s: Seq<(u128, NodeRelation)>, p: spec_fn(NodeRelation) -> bool) -> Seq<NodeRelation> {
    s.map_values(|e: (u128, NodeRelation)| e.1).filter(p)
}

/// The error `add_link` reports for `link`, checked in order: source node,
/// source port, target node, target port, type compatibility.
pub open spec fn add_link_error(nodes: Map<u128, GraphNode>, link: Link) -> Option<FlowGraphError> {
    if !nodes.contains_key(link.source_node) {
        Some(FlowGraphError::NodeNotFound(link.source_node))
    } else if !nodes[link.source_node].ports@.contains_key(link.source_port) {
        Some(FlowGraphError::PortNotFound { node_id: link.source_node, port_id: link.source_port })
    } else if !nodes.contains_key(link.target_node) {
        Some(FlowGraphError::NodeNotFound(link.target_node))
    } else if !nodes[link.target_node].ports@.contains_key(link.target_port) {
        Some(FlowGraphError::PortNotFound { node_id: link.target_node, port_id: link.target_port })
    } else {
        let st = nodes[link.source_node].ports@[link.source_port].data_type;
        let tt = nodes[link.target_node].ports@[link.target_port].data_type;
        if !compatible(st, tt) {
            Some(FlowGraphError::TypeMismatch { link_id: link.id, source_type: st, target_type: tt })
        } else {
            None
        }
    }
}

/// The runtime flow graph: the schema plus per-node execution states.
#[derive(Debug)]
pub struct FlowGraph {
    /// The graph data.
    pub schema: FlowGraphSchema,
    execution_states: IdMap<NodeExecutionState>,
    dimension_id: DimensionId,
    task_id: TaskId,
}

impl FlowGraph {
    /// The graph data.
    pub closed spec fn spec_schema(&self) -> FlowGraphSchema {
        self.schema
    }

    /// Per-node execution states.
    pub closed spec fn spec_states(&self) -> Map<u128, NodeExecutionState> {
        self.execution_states@
    }

    /// The dimension the graph operates in.
    pub closed spec fn spec_dimension(&self) -> DimensionId {
        self.dimension_id
    }

    /// The task the graph operates for.
    pub closed spec fn spec_task(&self) -> TaskId {
        self.task_id
    }

    /// The node ids in ascending order.
    pub open spec fn node_ids(&self) -> Seq<u128> {
        seq_keys(self.spec_schema().nodes.entries())
    }

    /// The links as `(source, target)` pairs, in ascending link-id order.
    pub open spec fn edges(&self) -> Seq<(u128, u128)> {
        link_edges(self.spec_schema().links.entries())
    }

    /// An empty graph.
    pub fn new(dimension_id: DimensionId, task_id: TaskId) -> (r: Self)
        ensures
            r.spec_schema().schema_version == GRAPH_SCHEMA_VERSION,
            r.spec_schema().dimension_id == dimension_id,
            r.spec_schema().nodes@ == Map::<u128, GraphNode>::empty(),
            r.spec_schema().links@ == Map::<u128, Link>::empty(),
            r.spec_schema().groups@ == Map::<u128, Group>::empty(),
            r.spec_schema().subgraphs@ == Map::<u128, Subgraph>::empty(),
            r.spec_schema().relations@ == Map::<u128, NodeRelation>::empty(),
            r.spec_states() == Map::<u128, NodeExecutionState>::empty(),
            r.spec_dimension() == dimension_id,
            r.spec_task() == task_id,
    {
        FlowGraph {
            schema: FlowGraphSchema::new(dimension_id),
            execution_states: IdMap::new(),
            dimension_id,
            task_id,
        }
    }

    fn log(&self, ev: EventType, key: &str, id: u128, log: &mut ActionLog)
        ensures
            appended_one(old(log)@, final(log)@, ev, Some(self.spec_dimension()), Some(self.spec_task())),
            final(log)@.last().payload.model() == id_event_model(key@, id),
    {
        let payload = id_object(key, id);
        log.record(ev, Some(self.dimension_id), Some(self.task_id), payload);
    }

    /// Add a node (replacing one with the same id) in the `Idle` state.
    pub fn add_node(&mut self, node: GraphNode, log: &mut ActionLog) -> (r: u128)
        ensures
            r == node.id,
            final(self).spec_schema().nodes@ == old(self).spec_schema().nodes@.insert(node.id, node),
            final(self).spec_schema().links == old(self).spec_schema().links,
            final(self).spec_schema().groups == old(self).spec_schema().groups,
            final(self).spec_schema().subgraphs == old(self).spec_schema().subgraphs,
            final(self).spec_schema().relations == old(self).spec_schema().relations,
            final(self).spec_schema().graph_id == old(self).spec_schema().graph_id,
            final(self).spec_schema().dimension_id == old(self).spec_schema().dimension_id,
            final(self).spec_schema().schema_version == old(self).spec_schema().schema_version,
            final(self).spec_states() == old(self).spec_states().insert(node.id, NodeExecutionState::Idle),
            final(self).spec_dimension() == old(self).spec_dimension(),
            final(self).spec_task() == old(self).spec_task(),
            appended_one(old(log)@, final(log)@, EventType::NodeCreated, Some(old(self).spec_dimension()), Some(old(self).spec_task())),
            final(log)@.last().payload.model() == id_event_model("node_id"@, node.id),
    {
        let id = node.id;
        self.schema.nodes.insert(id, node);
        self.execution_states.insert(id, NodeExecutionState::Idle);
        self.log(EventType::NodeCreated, "node_id", id, log);
        id
    }

    /// Remove a node, every link touching it, and its group memberships.
    pub fn remove_node(&mut self, id: u128, log: &mut ActionLog) -> (r: Result<GraphNode, FlowGraphError>)
        ensures
            r is Ok <==> old(self).spec_schema().nodes@.contains_key(id),
            r matches Err(e) ==> e == FlowGraphError::NodeNotFound(id)
                && final(self).spec_schema() == old(self).spec_schema()
                && final(self).spec_states() == old(self).spec_states()
                && final(log)@ == old(log)@,
            r matches Ok(n) ==> {
                &&& n == old(self).spec_schema().nodes@[id]
                &&& final(self).spec_schema().nodes@ == old(self).spec_schema().nodes@.remove(id)
                &&& final(self).spec_schema().links@ == links_without(old(self).spec_schema().links@, id)
                &&& final(self).spec_schema().groups@.dom() == old(self).spec_schema().groups@.dom()
                &&& forall|g: u128| #[trigger] final(self).spec_schema().groups@.contains_key(g) ==> {
                    &&& final(self).spec_schema().groups@[g].id == old(self).spec_schema().groups@[g].id
                    &&& final(self).spec_schema().groups@[g].name == old(self).spec_schema().groups@[g].name
                    &&& final(self).spec_schema().groups@[g].node_ids@ == old(self).spec_schema().groups@[g].node_ids@.remove(id)
                }
                &&& final(self).spec_schema().subgraphs == old(self).spec_schema().subgraphs
                &&& final(self).spec_schema().relations == old(self).spec_schema().relations
                &&& final(self).spec_schema().graph_id == old(self).spec_schema().graph_id
                &&& final(self).spec_schema().dimension_id == old(self).spec_schema().dimension_id
                &&& final(self).spec_schema().schema_version == old(self).spec_schema().schema_version
                &&& final(self).spec_states() == old(self).spec_states().remove(id)
                &&& appended_one(old(log)@, final(log)@, EventType::NodeDeleted, Some(old(self).spec_dimension()), Some(old(self).spec_task()))
                &&& final(log)@.last().payload.model() == id_event_model("node_id"@, id)
            },
            final(self).spec_dimension() == old(self).spec_dimension(),
            final(self).spec_task() == old(self).spec_task(),
    {
        if !self.schema.nodes.contains_key(id) {
            return Err(FlowGraphError::NodeNotFound(id));
        }
        let node = match self.schema.nodes.remove(id) {
            Some(n) => n,
            None => {
                return Err(FlowGraphError::NodeNotFound(id));
            },
        };
        self.execution_states.remove(id);
        remove_links_touching(&mut self.schema.links, id);
        remove_member_everywhere(&mut self.schema.groups, id);
        self.log(EventType::NodeDeleted, "node_id", id, log);
        Ok(node)
    }

    /// The node with id `id`, if any.
    pub fn get_node(&self, id: u128) -> (r: Option<&GraphNode>)
        ensures
            r is Some <==> self.spec_schema().nodes@.contains_key(id),
            r matches Some(n) ==> *n == self.spec_schema().nodes@[id],
    {
        self.schema.nodes.get(id)
    }

    /// Add a link after checking that both nodes and ports exist and that
    /// the port types are compatible.
    pub fn add_link(&mut self, link: Link, log: &mut ActionLog) -> (r: Result<u128, FlowGraphError>)
        ensures
            r is Ok <==> add_link_error(old(self).spec_schema().nodes@, link) is None,
            r matches Err(e) ==> Some(e) == add_link_error(old(self).spec_schema().nodes@, link)
                && final(self).spec_schema() == old(self).spec_schema() && final(log)@ == old(log)@,
            r matches Ok(id) ==> id == link.id
                && final(self).spec_schema().links@ == old(self).spec_schema().links@.insert(link.id, link)
                && final(self).spec_schema().nodes == old(self).spec_schema().nodes
                && final(self).spec_schema().groups == old(self).spec_schema().groups
                && final(self).spec_schema().subgraphs == old(self).spec_schema().subgraphs
                && final(self).spec_schema().relations == old(self).spec_schema().relations
                && final(self).spec_schema().graph_id == old(self).spec_schema().graph_id
                && final(self).spec_schema().dimension_id == old(self).spec_schema().dimension_id
                && final(self).spec_schema().schema_version == old(self).spec_schema().schema_version
                && appended_one(old(log)@, final(log)@, EventType::LinkCreated, Some(old(self).spec_dimension()), Some(old(self).spec_task()))
                && final(log)@.last().payload.model() == id_event_model("link_id"@, link.id),
            final(self).spec_states() == old(self).spec_states(),
            final(self).spec_dimension() == old(self).spec_dimension(),
            final(self).spec_task() == old(self).spec_task(),
    {
        let src_node = match self.schema.nodes.get(link.source_node) {
            Some(n) => n,
            None => {
                return Err(FlowGraphError::NodeNotFound(link.source_node));
            },
        };
        let src_port = match src_node.ports.get(link.source_port) {
            Some(p) => p,
            None => {
                return Err(FlowGraphError::PortNotFound { node_id: link.source_node, port_id: link.source_port });
            },
        };
        let tgt_node = match self.schema.nodes.get(link.target_node) {
            Some(n) => n,
            None => {
                return Err(FlowGraphError::NodeNotFound(link.target_node));
            },
        };
        let tgt_port = match tgt_node.ports.get(link.target_port) {
            Some(p) => p,
            None => {
                return Err(FlowGraphError::PortNotFound { node_id: link.target_node, port_id: link.target_port });
            },
        };
        if !src_port.data_type.is_compatible_with(tgt_port.data_type) {
            return Err(FlowGraphError::TypeMismatch {
                link_id: link.id,
                source_type: src_port.data_type,
                target_type: tgt_port.data_type,
            });
        }
        let id = link.id;
        self.schema.links.insert(id, link);
        self.log(EventType::LinkCreated, "link_id", id, log);
        Ok(id)
    }

    /// Remove a link.
    pub fn remove_link(&mut self, id: u128, log: &mut ActionLog) -> (r: Result<Link, FlowGraphError>)
        ensures
            r is Ok <==> old(self).spec_schema().links@.contains_key(id),
            r matches Err(e) ==> e == FlowGraphError::LinkNotFound(id)
                && final(self).spec_schema() == old(self).spec_schema() && final(log)@ == old(log)@,
            r matches Ok(l) ==> l == old(self).spec_schema().links@[id]
                && final(self).spec_schema().links@ == old(self).spec_schema().links@.remove(id)
                && final(self).spec_schema().nodes == old(self).spec_schema().nodes
                && final(self).spec_schema().groups == old(self).spec_schema().groups
                && final(self).spec_schema().subgraphs == old(self).spec_schema().subgraphs
                && final(self).spec_schema().relations == old(self).spec_schema().relations
                && appended_one(old(log)@, final(log)@, EventType::LinkRemoved, Some(old(self).spec_dimension()), Some(old(self).spec_task()))
                && final(log)@.last().payload.model() == id_event_model("link_id"@, id),
            final(self).spec_states() == old(self).spec_states(),
            final(self).spec_dimension() == old(self).spec_dimension(),
            final(self).spec_task() == old(self).spec_task(),
    {
        if !self.schema.links.contains_key(id) {
            return Err(FlowGraphError::LinkNotFound(id));
        }
        match self.schema.links.remove(id) {
            Some(l) => {
                self.log(EventType::LinkRemoved, "link_id", id, log);
                Ok(l)
            },
            None => Err(FlowGraphError::LinkNotFound(id)),
        }
    }

    /// Add a group (replacing one with the same id).
    pub fn add_group(&mut self, group: Group, log: &mut ActionLog) -> (r: u128)
        ensures
            r == group.id,
            final(self).spec_schema().groups@ == old(self).spec_schema().groups@.insert(group.id, group),
            final(self).spec_schema().nodes == old(self).spec_schema().nodes,
            final(self).spec_schema().links == old(self).spec_schema().links,
            final(self).spec_schema().subgraphs == old(self).spec_schema().subgraphs,
            final(self).spec_schema().relations == old(self).spec_schema().relations,
            final(self).spec_states() == old(self).spec_states(),
            final(self).spec_dimension() == old(self).spec_dimension(),
            final(self).spec_task() == old(self).spec_task(),
            appended_one(old(log)@, final(log)@, EventType::GroupCreated, Some(old(self).spec_dimension()), Some(old(self).spec_task())),
            final(log)@.last().payload.model() == id_event_model("group_id"@, group.id),
    {
        let id = group.id;
        self.schema.groups.insert(id, group);
        self.log(EventType::GroupCreated, "group_id", id, log);
        id
    }

    /// Remove a group.
    pub fn remove_group(&mut self, id: u128, log: &mut ActionLog) -> (r: Result<Group, FlowGraphError>)
        ensures
            r is Ok <==> old(self).spec_schema().groups@.contains_key(id),
            r matches Err(e) ==> e == FlowGraphError::GroupNotFound(id)
                && final(self).spec_schema() == old(self).spec_schema() && final(log)@ == old(log)@,
            r matches Ok(g) ==> g == old(self).spec_schema().groups@[id]
                && final(self).spec_schema().groups@ == old(self).spec_schema().groups@.remove(id)
                && final(self).spec_schema().nodes == old(self).spec_schema().nodes
                && final(self).spec_schema().links == old(self).spec_schema().links
                && final(self).spec_schema().subgraphs == old(self).spec_schema().subgraphs
                && final(self).spec_schema().relations == old(self).spec_schema().relations
                && appended_one(old(log)@, final(log)@, EventType::GroupRemoved, Some(old(self).spec_dimension()), Some(old(self).spec_task()))
                && final(log)@.last().payload.model() == id_event_model("group_id"@, id),
            final(self).spec_states() == old(self).spec_states(),
            final(self).spec_dimension() == old(self).spec_dimension(),
            final(self).spec_task() == old(self).spec_task(),
    {
        if !self.schema.groups.contains_key(id) {
            return Err(FlowGraphError::GroupNotFound(id));
        }
        match self.schema.groups.remove(id) {
            Some(g) => {
                self.log(EventType::GroupRemoved, "group_id", id, log);
                Ok(g)
            },
            None => Err(FlowGraphError::GroupNotFound(id)),
        }
    }

    /// Register a subgraph (replacing one with the same id).
    pub fn add_subgraph(&mut self, subgraph: Subgraph, log: &mut ActionLog) -> (r: u128)
        ensures
            r == subgraph.id,
            final(self).spec_schema().subgraphs@ == old(self).spec_schema().subgraphs@.insert(subgraph.id, subgraph),
            final(self).spec_schema().nodes == old(self).spec_schema().nodes,
            final(self).spec_schema().links == old(self).spec_schema().links,
            final(self).spec_schema().groups == old(self).spec_schema().groups,
            final(self).spec_schema().relations == old(self).spec_schema().relations,
            final(self).spec_states() == old(self).spec_states(),
            final(self).spec_dimension() == old(self).spec_dimension(),
            final(self).spec_task() == old(self).spec_task(),
            appended_one(old(log)@, final(log)@, EventType::SubgraphCreated, Some(old(self).spec_dimension()), Some(old(self).spec_task())),
            final(log)@.last().payload.model() == id_event_model("subgraph_id"@, subgraph.id),
    {
        let id = subgraph.id;
        self.schema.subgraphs.insert(id, subgraph);
        self.log(EventType::SubgraphCreated, "subgraph_id", id, log);
        id
    }

    /// Remove a subgraph (not logged).
    pub fn remove_subgraph(&mut self, id: u128) -> (r: Result<Subgraph, FlowGraphError>)
        ensures
            r is Ok <==> old(self).spec_schema().subgraphs@.contains_key(id),
            r matches Err(e) ==> e == FlowGraphError::SubgraphNotFound(id) && final(self).spec_schema() == old(self).spec_schema(),
            r matches Ok(g) ==> g == old(self).spec_schema().subgraphs@[id]
                && final(self).spec_schema().subgraphs@ == old(self).spec_schema().subgraphs@.remove(id)
                && final(self).spec_schema().nodes == old(self).spec_schema().nodes
                && final(self).spec_schema().links == old(self).spec_schema().links
                && final(self).spec_schema().groups == old(self).spec_schema().groups
                && final(self).spec_schema().relations == old(self).spec_schema().relations,
            final(self).spec_states() == old(self).spec_states(),
            final(self).spec_dimension() == old(self).spec_dimension(),
            final(self).spec_task() == old(self).spec_task(),
    {
        if !self.schema.subgraphs.contains_key(id) {
            return Err(FlowGraphError::SubgraphNotFound(id));
        }
        match self.schema.subgraphs.remove(id) {
            Some(g) => Ok(g),
            None => Err(FlowGraphError::SubgraphNotFound(id)),
        }
    }

    /// Add a relation between two existing nodes.
    pub fn add_relation(&mut self, relation: NodeRelation, log: &mut ActionLog) -> (r: Result<u128, FlowGraphError>)
        ensures
            r is Ok <==> old(self).spec_schema().nodes@.contains_key(relation.from_node)
                && old(self).spec_schema().nodes@.contains_key(relation.to_node),
            r matches Err(e) ==> (if !old(self).spec_schema().nodes@.contains_key(relation.from_node) {
                    e == FlowGraphError::NodeNotFound(relation.from_node)
                } else {
                    e == FlowGraphError::NodeNotFound(relation.to_node)
                }) && final(self).spec_schema() == old(self).spec_schema() && final(log)@ == old(log)@,
            r matches Ok(id) ==> id == relation.id
                && final(self).spec_schema().relations@ == old(self).spec_schema().relations@.insert(relation.id, relation)
                && final(self).spec_schema().nodes == old(self).spec_schema().nodes
                && final(self).spec_schema().links == old(self).spec_schema().links
                && final(self).spec_schema().groups == old(self).spec_schema().groups
                && final(self).spec_schema().subgraphs == old(self).spec_schema().subgraphs
                && appended_one(old(log)@, final(log)@, EventType::NodeRelationCreated, Some(old(self).spec_dimension()), Some(old(self).spec_task()))
                && final(log)@.last().payload.model() == id_event_model("relation_id"@, relation.id),
            final(self).spec_states() == old(self).spec_states(),
            final(self).spec_dimension() == old(self).spec_dimension(),
            final(self).spec_task() == old(self).spec_task(),
    {
        if !self.schema.nodes.contains_key(relation.from_node) {
            return Err(FlowGraphError::NodeNotFound(relation.from_node));
        }
        if !self.schema.nodes.contains_key(relation.to_node) {
            return Err(FlowGraphError::NodeNotFound(relation.to_node));
        }
        let id = relation.id;
        self.schema.relations.insert(id, relation);
        self.log(EventType::NodeRelationCreated, "relation_id", id, log);
        Ok(id)
    }

    /// Remove a relation.
    pub fn remove_relation(&mut self, id: u128, log: &mut ActionLog) -> (r: Result<NodeRelation, FlowGraphError>)
        ensures
            r is Ok <==> old(self).spec_schema().relations@.contains_key(id),
            r matches Err(e) ==> e == FlowGraphError::RelationNotFound(id)
                && final(self).spec_schema() == old(self).spec_schema() && final(log)@ == old(log)@,
            r matches Ok(rel) ==> rel == old(self).spec_schema().relations@[id]
                && final(self).spec_schema().relations@ == old(self).spec_schema().relations@.remove(id)
                && final(self).spec_schema().nodes == old(self).spec_schema().nodes
                && final(self).spec_schema().links == old(self).spec_schema().links
                && final(self).spec_schema().groups == old(self).spec_schema().groups
                && final(self).spec_schema().subgraphs == old(self).spec_schema().subgraphs
                && appended_one(old(log)@, final(log)@, EventType::NodeRelationRemoved, Some(old(self).spec_dimension()), Some(old(self).spec_task()))
                && final(log)@.last().payload.model() == id_event_model("relation_id"@, id),
            final(self).spec_states() == old(self).spec_states(),
            final(self).spec_dimension() == old(self).spec_dimension(),
            final(self).spec_task() == old(self).spec_task(),
    {
        if !self.schema.relations.contains_key(id) {
            return Err(FlowGraphError::RelationNotFound(id));
        }
        match self.schema.relations.remove(id) {
            Some(rel) => {
                self.log(EventType::NodeRelationRemoved, "relation_id", id, log);
                Ok(rel)
            },
            None => Err(FlowGraphError::RelationNotFound(id)),
        }
    }

    fn relations_matching(&self, node_id: u128, from: bool, to: bool) -> (r: Vec<&NodeRelation>)
        ensures
            r@.len() == relations_where(self.spec_schema().relations.entries(), relation_filter(node_id, from, to)).len(),
            forall|i: int| 0 <= i < r@.len() ==> *r@[i] == relations_where(self.spec_schema().relations.entries(), relation_filter(node_id, from, to))[i],
    {
        let ghost p = relation_filter(node_id, from, to);
        let ghost vals = self.schema.relations.entries().map_values(|e: (u128, NodeRelation)| e.1);
        let mut out: Vec<&NodeRelation> = Vec::new();
        let n = self.schema.relations.len();
        for i in 0..n
            invariant
                n == self.schema.relations.entries().len(),
                vals == self.schema.relations.entries().map_values(|e: (u128, NodeRelation)| e.1),
                p == relation_filter(node_id, from, to),
                out@.len() == vals.take(i as int).filter(p).len(),
                forall|j: int| 0 <= j < out@.len() ==> *out@[j] == vals.take(i as int).filter(p)[j],
        {
            let e = self.schema.relations.entry_at(i);
            proof {
                assert(vals.take(i + 1) == vals.take(i as int).push(vals[i as int]));
                vals.take(i as int).lemma_filter_push(vals[i as int], p);
            }
            if (from && e.1.from_node == node_id) || (to && e.1.to_node == node_id) {
                out.push(&e.1);
            }
        }
        proof {
            assert(vals.take(n as int) == vals);
        }
        out
    }

    /// The relations with `node_id` at either end, in ascending relation-id order.
    pub fn relations_for_node(&self, node_id: u128) -> (r: Vec<&NodeRelation>)
        ensures
            r@.len() == relations_where(self.spec_schema().relations.entries(), relation_filter(node_id, true, true)).len(),
            forall|i: int| 0 <= i < r@.len() ==> *r@[i] == relations_where(self.spec_schema().relations.entries(), relation_filter(node_id, true, true))[i],
    {
        self.relations_matching(node_id, true, true)
    }

    /// The relations leaving `node_id`, in ascending relation-id order.
    pub fn outgoing_relations(&self, node_id: u128) -> (r: Vec<&NodeRelation>)
        ensures
            r@.len() == relations_where(self.spec_schema().relations.entries(), relation_filter(node_id, true, false)).len(),
            forall|i: int| 0 <= i < r@.len() ==> *r@[i] == relations_where(self.spec_schema().relations.entries(), relation_filter(node_id, true, false))[i],
    {
        self.relations_matching(node_id, true, false)
    }

    /// The relations entering `node_id`, in ascending relation-id order.
    pub fn incoming_relations(&self, node_id: u128) -> (r: Vec<&NodeRelation>)
        ensures
            r@.len() == relations_where(self.spec_schema().relations.entries(), relation_filter(node_id, false, true)).len(),
            forall|i: int| 0 <= i < r@.len() ==> *r@[i] == relations_where(self.spec_schema().relations.entries(), relation_filter(node_id, false, true))[i],
    {
        self.relations_matching(node_id, false, true)
    }

    /// The execution state of a node, if it was added through this graph.
    pub fn execution_state(&self, node_id: u128) -> (r: Option<&NodeExecutionState>)
        ensures
            r is Some <==> self.spec_states().contains_key(node_id),
            r matches Some(st) ==> *st == self.spec_states()[node_id],
    {
        self.execution_states.get(node_id)
    }

    /// An execution contract for an existing node, in the `Idle` state.
    pub fn execution_contract(&self, node_id: u128) -> (r: Result<NodeExecutionContract, FlowGraphError>)
        ensures
            r is Ok <==> self.spec_schema().nodes@.contains_key(node_id),
            r matches Err(e) ==> e == FlowGraphError::NodeNotFound(node_id),
            r matches Ok(c) ==> c.spec_node_id() == node_id
                && c.spec_dimension_id() == self.spec_dimension()
                && c.spec_task_id() == self.spec_task()
                && c.spec_state() == NodeExecutionState::Idle,
    {
        if !self.schema.nodes.contains_key(node_id) {
            return Err(FlowGraphError::NodeNotFound(node_id));
        }
        Ok(NodeExecutionContract::new(node_id, self.dimension_id, self.task_id))
    }
}

/// Relations with `node_id` as source (when `from`) or as target (when `to`).
pub open spec fn relation_filter(node_id: u128, from: bool, to: bool) -> spec_fn(NodeRelation) -> bool {
    |r: NodeRelation| (from && r.from_node == node_id) || (to && r.to_node == node_id)
}

/// Remove every link touching node `id`.
fn remove_links_touching(links: &mut IdMap<Link>, id: u128)
    ensures
        final(links)@ == links_without(old(links)@, id),
{
    let ghost old_links = links@;
    let keys = links.keys();
    let n = keys.len();
    for i in 0..n
        invariant
            n == keys@.len(),
            keys@.no_duplicates(),
            forall|k: u128| #[trigger] keys@.contains(k) <==> old_links.contains_key(k),
            links@ == Map::new(
                |k: u128| old_links.contains_key(k) && !(keys@.take(i as int).contains(k) && link_touches(old_links[k], id)),
                |k: u128| old_links[k],
            ),
    {
        let k = keys[i];
        proof {
            assert(keys@.contains(keys@[i as int]));
            assert(!keys@.take(i as int).contains(k)) by {
                if keys@.take(i as int).contains(k) {
                    let j = choose|j: int| #![trigger keys@.take(i as int)[j]] 0 <= j < i && keys@.take(i as int)[j] == k;
                    assert(keys@[j] == keys@[i as int]);
                }
            }
            assert(links@.contains_key(k));
        }
        let touch = match links.get(k) {
            Some(l) => l.source_node == id || l.target_node == id,
            None => false,
        };
        if touch {
            links.remove(k);
        }
        proof {
            assert(keys@.take(i + 1) == keys@.take(i as int).push(k));
            assert forall|x: u128| #[trigger] keys@.take(i + 1).contains(x) == (keys@.take(i as int).contains(x) || x == k) by {
                if keys@.take(i + 1).contains(x) {
                    let j = choose|j: int| #![trigger keys@.take(i + 1)[j]] 0 <= j < i + 1 && keys@.take(i + 1)[j] == x;
                    if j < i {
                        assert(keys@.take(i as int)[j] == x);
                    }
                }
                if keys@.take(i as int).contains(x) {
                    let j = choose|j: int| #![trigger keys@.take(i as int)[j]] 0 <= j < i && keys@.take(i as int)[j] == x;
                    assert(keys@.take(i + 1)[j] == x);
                }
                if x == k {
                    assert(keys@.take(i + 1)[i as int] == x);
                }
            }
            assert(links@ =~= Map::new(
                |x: u128| old_links.contains_key(x) && !(keys@.take(i + 1).contains(x) && link_touches(old_links[x], id)),
                |x: u128| old_links[x],
            ));
        }
    }
    proof {
        assert(keys@.take(n as int) == keys@);
        assert(links@ =~= links_without(old_links, id));
    }
}

/// Remove node `id` from every group's members.
fn remove_member_everywhere(groups: &mut IdMap<Group>, id: u128)
    ensures
        final(groups)@.dom() == old(groups)@.dom(),
        forall|g: u128| #[trigger] final(groups)@.contains_key(g) ==> {
            &&& final(groups)@[g].id == old(groups)@[g].id
            &&& final(groups)@[g].name == old(groups)@[g].name
            &&& final(groups)@[g].node_ids@ == old(groups)@[g].node_ids@.remove(id)
        },
{
    let ghost old_groups = groups@;
    let keys = groups.keys();
    let n = keys.len();
    for i in 0..n
        invariant
            n == keys@.len(),
            keys@.no_duplicates(),
            forall|k: u128| #[trigger] keys@.contains(k) <==> old_groups.contains_key(k),
            groups@.dom() == old_groups.dom(),
            forall|g: u128| #[trigger] groups@.contains_key(g) ==> {
                &&& groups@[g].id == old_groups[g].id
                &&& groups@[g].name == old_groups[g].name
                &&& groups@[g].node_ids@ == if keys@.take(i as int).contains(g) {
                    old_groups[g].node_ids@.remove(id)
                } else {
                    old_groups[g].node_ids@
                }
            },
    {
        let k = keys[i];
        proof {
            assert(keys@.contains(keys@[i as int]));
            assert(!keys@.take(i as int).contains(k)) by {
                if keys@.take(i as int).contains(k) {
                    let j = choose|j: int| #![trigger keys@.take(i as int)[j]] 0 <= j < i && keys@.take(i as int)[j] == k;
                    assert(keys@[j] == keys@[i as int]);
                }
            }
            assert forall|x: u128| #[trigger] keys@.take(i + 1).contains(x) == (keys@.take(i as int).contains(x) || x == k) by {
                if keys@.take(i + 1).contains(x) {
                    let j = choose|j: int| #![trigger keys@.take(i + 1)[j]] 0 <= j < i + 1 && keys@.take(i + 1)[j] == x;
                    if j < i {
                        assert(keys@.take(i as int)[j] == x);
                    }
                }
                if keys@.take(i as int).contains(x) {
                    let j = choose|j: int| #![trigger keys@.take(i as int)[j]] 0 <= j < i && keys@.take(i as int)[j] == x;
                    assert(keys@.take(i + 1)[j] == x);
                }
                if x == k {
                    assert(keys@.take(i + 1)[i as int] == x);
                }
            }
        }
        let ghost before = groups@;
        match groups.remove(k) {
            Some(g) => {
                let mut g = g;
                g.node_ids.remove(id);
                groups.insert(k, g);
                proof {
                    assert(groups@.dom() =~= before.dom());
                }
            },
            None => {},
        }
    }
    proof {
        assert(keys@.take(n as int) == keys@);
    }
}

impl FlowGraph {
    /// The links as `(source, target)` pairs, in ascending link-id order.
    fn edge_list(&self) -> (r: Vec<(u128, u128)>)
        ensures
            r@ == self.edges(),
    {
        let mut out: Vec<(u128, u128)> = Vec::new();
        let n = self.schema.links.len();
        for i in 0..n
            invariant
                n == self.schema.links.entries().len(),
                out@ == link_edges(self.schema.links.entries().take(i as int)),
        {
            let e = self.schema.links.entry_at(i);
            proof {
                assert(link_edges(self.schema.links.entries().take(i + 1))
                    == link_edges(self.schema.links.entries().take(i as int)).push((e.1.source_node, e.1.target_node)));
            }
            out.push((e.1.source_node, e.1.target_node));
        }
        proof {
            assert(self.schema.links.entries().take(n as int) == self.schema.links.entries());
        }
        out
    }

    /// Detect a directed cycle among the links.
    ///
    /// The vertices are the nodes and every link endpoint; `Ok(())` exactly
    /// when they can be ordered so that every link points forward.  Otherwise
    /// `CycleDetected` lists the vertices that no such order can reach, each
    /// entered by a link from another of them.
    pub fn detect_cycle(&self) -> (r: Result<(), FlowGraphError>)
        ensures
            r is Ok <==> has_topological_order(with_endpoints(self.node_ids(), self.edges()), self.edges()),
            r matches Err(e) ==> e matches FlowGraphError::CycleDetected(rest)
                && crate::topo::cycle_witness(rest@, self.edges())
                && crate::topo::within(rest@, with_endpoints(self.node_ids(), self.edges())),
    {
        let edges = self.edge_list();
        let mut verts = self.schema.nodes.keys();
        let ghost nodes = verts@;
        let n = edges.len();
        for k in 0..n
            invariant
                n == edges@.len(),
                nodes.no_duplicates(),
                verts@ == with_endpoints(nodes, edges@.take(k as int)),
        {
            let (a, b) = edges[k];
            proof {
                assert(edges@.take(k + 1).drop_last() == edges@.take(k as int));
                assert(edges@.take(k + 1).last() == (a, b));
            }
            if !contains_id(&verts, a) {
                verts.push(a);
            }
            if !contains_id(&verts, b) {
                verts.push(b);
            }
        }
        proof {
            assert(edges@.take(n as int) == edges@);
            lemma_with_endpoints(nodes, edges@);
            assert(crate::topo::edges_closed(verts@, edges@)) by {
                assert forall|k: int| 0 <= k < edges@.len() implies verts@.contains(edges@[k].0) && verts@.contains(edges@[k].1) by {
                    assert(verts@.contains(edges@[k].0));
                    assert(verts@.contains(edges@[k].1));
                }
            }
        }
        match kahn_order(&verts, &edges) {
            Ok(_) => Ok(()),
            Err(rest) => Err(FlowGraphError::CycleDetected(rest)),
        }
    }

    /// A deterministic execution order of the nodes (Kahn's algorithm):
    /// nodes without incoming links first, sorted by id; after each node,
    /// the targets of its links whose sources have all been ordered, sorted
    /// by id.
    ///
    /// Every link entering an ordered node leaves an earlier one.  When every
    /// link joins two nodes, the result is `Ok` exactly when the nodes admit
    /// a topological order, and is one.
    pub fn topological_order(&self) -> (r: Result<Vec<u128>, FlowGraphError>)
        ensures
            r matches Ok(o) ==> o@.no_duplicates() && o@.len() == self.node_ids().len()
                && crate::topo::sources_precede(o@, self.edges()),
            r matches Ok(o) ==> crate::topo::kahn_ordered(self.node_ids(), self.edges(), o@),
            r matches Err(e) ==> e matches FlowGraphError::CycleDetected(rest)
                && crate::topo::never_ordered(self.node_ids(), self.edges(), rest@),
            crate::topo::edges_closed(self.node_ids(), self.edges()) ==> {
                &&& (r is Ok <==> has_topological_order(self.node_ids(), self.edges()))
                &&& (r matches Ok(o) ==> is_topological_order(o@, self.node_ids(), self.edges()))
                &&& (r matches Err(e) ==> e matches FlowGraphError::CycleDetected(rest)
                    && crate::topo::cycle_witness(rest@, self.edges()))
            },
            r matches Err(e) ==> e matches FlowGraphError::CycleDetected(rest)
                && crate::topo::within(rest@, self.node_ids()),
    {
        let edges = self.edge_list();
        let nodes = self.schema.nodes.keys();
        match kahn_order(&nodes, &edges) {
            Ok(o) => Ok(o),
            Err(rest) => Err(FlowGraphError::CycleDetected(rest)),
        }
    }

    /// The execution plan for a caller in `dimension_id`: refused with
    /// `DimensionMismatch` for another dimension, else the topological order.
    pub fn plan(&self, dimension_id: DimensionId) -> (r: Result<Vec<u128>, FlowGraphError>)
        ensures
            self.spec_schema().dimension_id != dimension_id ==> (r matches Err(e) && e == (FlowGraphError::DimensionMismatch {
                expected: self.spec_schema().dimension_id,
                got: dimension_id,
            })),
            self.spec_schema().dimension_id == dimension_id ==> {
                &&& (r matches Ok(o) ==> o@.no_duplicates() && o@.len() == self.node_ids().len()
                    && crate::topo::sources_precede(o@, self.edges())
                    && crate::topo::kahn_ordered(self.node_ids(), self.edges(), o@))
                &&& (crate::topo::edges_closed(self.node_ids(), self.edges()) ==> {
                    &&& (r is Ok <==> has_topological_order(self.node_ids(), self.edges()))
                    &&& (r matches Ok(o) ==> is_topological_order(o@, self.node_ids(), self.edges()))
                })
                &&& (r matches Err(e) ==> e matches FlowGraphError::CycleDetected(rest)
                    && crate::topo::within(rest@, self.node_ids()))
            },
    {
        if self.schema.dimension_id != dimension_id {
            return Err(FlowGraphError::DimensionMismatch { expected: self.schema.dimension_id, got: dimension_id });
        }
        self.topological_order()
    }
}

// ---------------------------------------------------------------------------
// Validation
// ---------------------------------------------------------------------------

/// One problem found by [`FlowGraph::validate`].
#[derive(Debug)]
pub struct ValidationIssue {
    /// Machine-readable kind.
    pub kind: String,
    /// Human-readable description.
    pub description: String,
    /// Node involved, if any.
    pub node_id: Option<u128>,
    /// Link involved, if any.
    pub link_id: Option<u128>,
}

/// The result of [`FlowGraph::validate`].
#[derive(Debug)]
pub struct ValidationReport {
    /// `true` when no issue was found.
    pub valid: bool,
    /// The issues found.
    pub issues: Vec<ValidationIssue>,
}

/// An issue by its kind and the node and link it names.
pub type IssueModel = (Seq<char>, Option<u128>, Option<u128>);

/// The model of an issue.
pub open spec fn issue_model(i: ValidationIssue) -> IssueModel {
    (i.kind@, i.node_id, i.link_id)
}

/// The models of a list of issues.
pub open spec fn issue_models(s: Seq<ValidationIssue>) -> Seq<IssueModel> {
    s.map_values(|i: ValidationIssue| issue_model(i))
}

/// Node `n` exists and has a port with id `p`.
pub open spec fn port_exists(nodes: Map<u128, GraphNode>, n: u128, p: u128) -> bool {
    nodes.contains_key(n) && nodes[n].ports@.contains_key(p)
}

/// Both ends of `l` name existing ports of existing nodes.
pub open spec fn link_resolves(nodes: Map<u128, GraphNode>, l: Link) -> bool {
    port_exists(nodes, l.source_node, l.source_port) && port_exists(nodes, l.target_node, l.target_port)
}

/// `seq![x]` when `c`, else empty.
pub open spec fn issue_if(c: bool, x: IssueModel) -> Seq<IssueModel> {
    if c { seq![x] } else { Seq::empty() }
}

/// The issues of link `id`: for a resolving link its port directions and
/// type compatibility; otherwise the first missing end (node or port).
pub open spec fn link_issues(nodes: Map<u128, GraphNode>, id: u128, l: Link) -> Seq<IssueModel> {
    if link_resolves(nodes, l) {
        let sp = nodes[l.source_node].ports@[l.source_port];
        let tp = nodes[l.target_node].ports@[l.target_port];
        issue_if(sp.direction != PortDirection::Out, ("wrong_source_port_direction"@, Some(l.source_node), Some(id)))
            + issue_if(tp.direction != PortDirection::In, ("wrong_target_port_direction"@, Some(l.target_node), Some(id)))
            + issue_if(!compatible(sp.data_type, tp.data_type), ("type_mismatch"@, None, Some(id)))
    } else if !port_exists(nodes, l.source_node, l.source_port) {
        if !nodes.contains_key(l.source_node) {
            seq![("missing_source_node"@, Some(l.source_node), Some(id))]
        } else {
            seq![("missing_source_port"@, Some(l.source_node), Some(id))]
        }
    } else if !nodes.contains_key(l.target_node) {
        seq![("missing_target_node"@, Some(l.target_node), Some(id))]
    } else {
        seq![("missing_target_port"@, Some(l.target_node), Some(id))]
    }
}

/// The issues of the link entries, in order.
pub open spec fn all_link_issues(nodes: Map<u128, GraphNode>, s: Seq<(u128, Link)>) -> Seq<IssueModel>
    decreases s.len(),
{
    if s.len() == 0 {
        Seq::empty()
    } else {
        all_link_issues(nodes, s.drop_last()) + link_issues(nodes, s.last().0, s.last().1)
    }
}

/// Some resolving link enters port `p` of node `n`.
pub open spec fn has_incoming(nodes: Map<u128, GraphNode>, links: Map<u128, Link>, n: u128, p: u128) -> bool {
    exists|k: u128| #[trigger] links.contains_key(k) && links[k].target_node == n && links[k].target_port == p
        && link_resolves(nodes, links[k])
}

/// The unconnected-required-port issues of node `n` over its port entries.
pub open spec fn port_issues(nodes: Map<u128, GraphNode>, links: Map<u128, Link>, n: u128, s: Seq<(u128, PortDef)>) -> Seq<IssueModel>
    decreases s.len(),
{
    if s.len() == 0 {
        Seq::empty()
    } else {
        let p = s.last().1;
        port_issues(nodes, links, n, s.drop_last()) + issue_if(
            p.direction == PortDirection::In && p.required && !has_incoming(nodes, links, n, p.id),
            ("unconnected_required_port"@, Some(n), None),
        )
    }
}

/// The unconnected-required-port issues of the node entries, in order.
pub open spec fn all_port_issues(nodes: Map<u128, GraphNode>, links: Map<u128, Link>, s: Seq<(u128, GraphNode)>) -> Seq<IssueModel>
    decreases s.len(),
{
    if s.len() == 0 {
        Seq::empty()
    } else {
        all_port_issues(nodes, links, s.drop_last()) + port_issues(nodes, links, s.last().0, s.last().1.ports.entries())
    }
}

/// The name of a port data type, as written in messages.
pub open spec fn data_type_name(t: PortDataType) -> Seq<char> {
    match t {
        PortDataType::Any => "Any"@,
        PortDataType::Number => "Number"@,
        PortDataType::String => "String"@,
        PortDataType::Bool => "Bool"@,
        PortDataType::Json => "Json"@,
        PortDataType::Array => "Array"@,
    }
}

/// The name of a port data type.
fn data_type_text(t: PortDataType) -> (r: &'static str)
    ensures
        r@ == data_type_name(t),
{
    match t {
        PortDataType::Any => "Any",
        PortDataType::Number => "Number",
        PortDataType::String => "String",
        PortDataType::Bool => "Bool",
        PortDataType::Json => "Json",
        PortDataType::Array => "Array",
    }
}

/// The descriptions of a list of issues.
pub open spec fn issue_texts(s: Seq<ValidationIssue>) -> Seq<Seq<char>> {
    s.map_values(|i: ValidationIssue| i.description@)
}

/// `seq![t]` when `c`, else empty.
pub open spec fn text_if(c: bool, t: Seq<char>) -> Seq<Seq<char>> {
    if c { seq![t] } else { Seq::empty() }
}

/// The descriptions of the issues of link `id`, one for each issue that
/// `link_issues` lists, in the same order.
pub open spec fn link_issue_texts(nodes: Map<u128, GraphNode>, id: u128, l: Link) -> Seq<Seq<char>> {
    let head = "Link "@ + uuid_text(id);
    if link_resolves(nodes, l) {
        let sp = nodes[l.source_node].ports@[l.source_port];
        let tp = nodes[l.target_node].ports@[l.target_port];
        text_if(sp.direction != PortDirection::Out, head + ": source port '"@ + sp.name@ + "' is not an Out port"@)
            + text_if(tp.direction != PortDirection::In, head + ": target port '"@ + tp.name@ + "' is not an In port"@)
            + text_if(!compatible(sp.data_type, tp.data_type),
                head + ": type "@ + data_type_name(sp.data_type) + " \u{219b} "@ + data_type_name(tp.data_type))
    } else if !port_exists(nodes, l.source_node, l.source_port) {
        if !nodes.contains_key(l.source_node) {
            seq![head + ": source node "@ + uuid_text(l.source_node) + " not found"@]
        } else {
            seq![head + ": source port "@ + uuid_text(l.source_port) + " not found on node "@ + uuid_text(l.source_node)]
        }
    } else if !nodes.contains_key(l.target_node) {
        seq![head + ": target node "@ + uuid_text(l.target_node) + " not found"@]
    } else {
        seq![head + ": target port "@ + uuid_text(l.target_port) + " not found on node "@ + uuid_text(l.target_node)]
    }
}

/// The descriptions of the issues of the link entries, in order.
pub open spec fn all_link_texts(nodes: Map<u128, GraphNode>, s: Seq<(u128, Link)>) -> Seq<Seq<char>>
    decreases s.len(),
{
    if s.len() == 0 {
        Seq::empty()
    } else {
        all_link_texts(nodes, s.drop_last()) + link_issue_texts(nodes, s.last().0, s.last().1)
    }
}

/// The descriptions of the unconnected-required-port issues of node `n`.
pub open spec fn port_texts(nodes: Map<u128, GraphNode>, links: Map<u128, Link>, n: u128, s: Seq<(u128, PortDef)>) -> Seq<Seq<char>>
    decreases s.len(),
{
    if s.len() == 0 {
        Seq::empty()
    } else {
        let p = s.last().1;
        port_texts(nodes, links, n, s.drop_last()) + text_if(
            p.direction == PortDirection::In && p.required && !has_incoming(nodes, links, n, p.id),
            "Node "@ + uuid_text(n) + ": required input port '"@ + p.name@ + "' has no incoming link"@,
        )
    }
}

/// The descriptions of the unconnected-required-port issues of the node
/// entries, in order.
pub open spec fn all_port_texts(nodes: Map<u128, GraphNode>, links: Map<u128, Link>, s: Seq<(u128, GraphNode)>) -> Seq<Seq<char>>
    decreases s.len(),
{
    if s.len() == 0 {
        Seq::empty()
    } else {
        all_port_texts(nodes, links, s.drop_last()) + port_texts(nodes, links, s.last().0, s.last().1.ports.entries())
    }
}

/// Identifiers separated by a comma and a space.
pub open spec fn uuid_list_body(s: Seq<u128>) -> Seq<char>
    decreases s.len(),
{
    if s.len() == 0 {
        Seq::empty()
    } else if s.len() == 1 {
        uuid_text(s[0])
    } else {
        uuid_list_body(s.drop_last()) + ", "@ + uuid_text(s.last())
    }
}

/// The description of a cycle through `nodes`: the identifiers in square
/// brackets.
pub open spec fn cycle_text(nodes: Seq<u128>) -> Seq<char> {
    "Directed cycle detected through nodes: "@ + "["@ + uuid_list_body(nodes) + "]"@
}

/// The text of a list of identifiers: in square brackets, separated by a
/// comma and a space.
fn uuid_list_text(prefix: &str, ids: &Vec<u128>) -> (r: String)
    ensures
        r@ == prefix@ + "["@ + uuid_list_body(ids@) + "]"@,
{
    let mut t = prefix.to_owned();
    t.append("[");
    let n = ids.len();
    for i in 0..n
        invariant
            n == ids@.len(),
            t@ == prefix@ + "["@ + uuid_list_body(ids@.take(i as int)),
    {
        proof {
            assert(ids@.take(i + 1).drop_last() =~= ids@.take(i as int));
            assert(ids@.take(i + 1).last() == ids@[i as int]);
        }
        if i > 0 {
            t.append(", ");
        } else {
            proof {
                assert(ids@.take(0) =~= Seq::<u128>::empty());
                assert(ids@.take(1)[0] == ids@[0]);
            }
        }
        let idt = uuid_to_string(ids[i]);
        t.append(idt.as_str());
        proof {
            if i > 0 {
                assert(t@ =~= prefix@ + "["@ + (uuid_list_body(ids@.take(i as int)) + ", "@ + uuid_text(ids@[i as int])));
            } else {
                assert(t@ =~= prefix@ + "["@ + uuid_list_body(ids@.take(i + 1)));
            }
        }
    }
    proof {
        assert(ids@.take(n as int) =~= ids@);
    }
    t.append("]");
    t
}

/// A text made of a prefix, an identifier and a suffix.
fn id_text(prefix: &str, id: u128, suffix: &str) -> (r: String)
    ensures
        r@ == prefix@ + uuid_text(id) + suffix@,
{
    let mut t = prefix.to_owned();
    let idt = uuid_to_string(id);
    t.append(idt.as_str());
    t.append(suffix);
    t
}

/// An issue with the given kind, description, node and link.
fn issue(kind: &str, description: String, node_id: Option<u128>, link_id: Option<u128>) -> (r: ValidationIssue)
    ensures
        issue_model(r) == (kind@, node_id, link_id),
        r.description@ == description@,
{
    ValidationIssue { kind: kind.to_owned(), description, node_id, link_id }
}

impl FlowGraph {
    /// Whether both ends of `l` name existing ports.
    fn resolves(&self, l: &Link) -> (r: bool)
        ensures
            r == link_resolves(self.schema.nodes@, *l),
    {
        let s = match self.schema.nodes.get(l.source_node) {
            Some(n) => n.ports.contains_key(l.source_port),
            None => false,
        };
        let t = match self.schema.nodes.get(l.target_node) {
            Some(n) => n.ports.contains_key(l.target_port),
            None => false,
        };
        s && t
    }

    /// The issues of one link, in the order `link_issues` gives.
    fn check_link(&self, id: u128, l: &Link, out: &mut Vec<ValidationIssue>)
        ensures
            issue_models(final(out)@) == issue_models(old(out)@) + link_issues(self.schema.nodes@, id, *l),
            issue_texts(final(out)@) == issue_texts(old(out)@) + link_issue_texts(self.schema.nodes@, id, *l),
    {
        let ghost start = issue_models(out@);
        let ghost start_t = issue_texts(out@);
        let ghost nodes = self.schema.nodes@;
        let src = match self.schema.nodes.get(l.source_node) {
            Some(n) => n.ports.get(l.source_port),
            None => None,
        };
        let tgt = match self.schema.nodes.get(l.target_node) {
            Some(n) => n.ports.get(l.target_port),
            None => None,
        };
        match (src, tgt) {
            (Some(sp), Some(tp)) => {
                if sp.direction != PortDirection::Out {
                    let mut d = id_text("Link ", id, ": source port '");
                    d.append(sp.name.as_str());
                    d.append("' is not an Out port");
                    out.push(issue("wrong_source_port_direction", d, Some(l.source_node), Some(id)));
                }
                if tp.direction != PortDirection::In {
                    let mut d = id_text("Link ", id, ": target port '");
                    d.append(tp.name.as_str());
                    d.append("' is not an In port");
                    out.push(issue("wrong_target_port_direction", d, Some(l.target_node), Some(id)));
                }
                if !sp.data_type.is_compatible_with(tp.data_type) {
                    let mut d = id_text("Link ", id, ": type ");
                    d.append(data_type_text(sp.data_type));
                    d.append(" \u{219b} ");
                    d.append(data_type_text(tp.data_type));
                    out.push(issue("type_mismatch", d, None, Some(id)));
                }
                proof {
                    let a = issue_if(sp.direction != PortDirection::Out, ("wrong_source_port_direction"@, Some(l.source_node), Some(id)));
                    let b = issue_if(tp.direction != PortDirection::In, ("wrong_target_port_direction"@, Some(l.target_node), Some(id)));
                    let c = issue_if(!compatible(sp.data_type, tp.data_type), ("type_mismatch"@, None, Some(id)));
                    assert(issue_models(out@) =~= start + (a + b + c));
                    assert(issue_texts(out@) =~= start_t + link_issue_texts(nodes, id, *l));
                }
            },
            (None, _) => {
                if !self.schema.nodes.contains_key(l.source_node) {
                    let mut d = id_text("Link ", id, ": source node ");
                    let nt = uuid_to_string(l.source_node);
                    d.append(nt.as_str());
                    d.append(" not found");
                    out.push(issue("missing_source_node", d, Some(l.source_node), Some(id)));
                } else {
                    let mut d = id_text("Link ", id, ": source port ");
                    let pt = uuid_to_string(l.source_port);
                    d.append(pt.as_str());
                    let nt = id_text(" not found on node ", l.source_node, "");
                    d.append(nt.as_str());
                    proof {
                        reveal_strlit("");
                        assert(d@ =~= "Link "@ + uuid_text(id) + ": source port "@ + uuid_text(l.source_port)
                            + " not found on node "@ + uuid_text(l.source_node));
                    }
                    out.push(issue("missing_source_port", d, Some(l.source_node), Some(id)));
                }
                proof {
                    assert(issue_models(out@) =~= start + link_issues(nodes, id, *l));
                    assert(issue_texts(out@) =~= start_t + link_issue_texts(nodes, id, *l));
                }
            },
            (_, None) => {
                if !self.schema.nodes.contains_key(l.target_node) {
                    let mut d = id_text("Link ", id, ": target node ");
                    let nt = uuid_to_string(l.target_node);
                    d.append(nt.as_str());
                    d.append(" not found");
                    out.push(issue("missing_target_node", d, Some(l.target_node), Some(id)));
                } else {
                    let mut d = id_text("Link ", id, ": target port ");
                    let pt = uuid_to_string(l.target_port);
                    d.append(pt.as_str());
                    let nt = id_text(" not found on node ", l.target_node, "");
                    d.append(nt.as_str());
                    proof {
                        reveal_strlit("");
                        assert(d@ =~= "Link "@ + uuid_text(id) + ": target port "@ + uuid_text(l.target_port)
                            + " not found on node "@ + uuid_text(l.target_node));
                    }
                    out.push(issue("missing_target_port", d, Some(l.target_node), Some(id)));
                }
                proof {
                    assert(issue_models(out@) =~= start + link_issues(nodes, id, *l));
                    assert(issue_texts(out@) =~= start_t + link_issue_texts(nodes, id, *l));
                }
            },
        }
    }

    /// Whether some resolving link enters port `p` of node `n`.
    fn incoming_exists(&self, n: u128, p: u128) -> (r: bool)
        ensures
            r == has_incoming(self.schema.nodes@, self.schema.links@, n, p),
    {
        let count = self.schema.links.len();
        for i in 0..count
            invariant
                count == self.schema.links.entries().len(),
                forall|j: int| 0 <= j < i ==> !({
                    let l = #[trigger] self.schema.links.entries()[j].1;
                    l.target_node == n && l.target_port == p && link_resolves(self.schema.nodes@, l)
                }),
        {
            let e = self.schema.links.entry_at(i);
            if e.1.target_node == n && e.1.target_port == p && self.resolves(&e.1) {
                return true;
            }
        }
        proof {
            if has_incoming(self.schema.nodes@, self.schema.links@, n, p) {
                let k = choose|k: u128| #[trigger] self.schema.links@.contains_key(k) && self.schema.links@[k].target_node == n
                    && self.schema.links@[k].target_port == p && link_resolves(self.schema.nodes@, self.schema.links@[k]);
                let j = key_index(self.schema.links.entries(), k);
                lemma_key_index(self.schema.links.entries(), j);
                assert(self.schema.links.entries()[j].1 == self.schema.links@[k]);
            }
        }
        false
    }

    /// The unconnected-required-port issues of node `nid`.
    fn check_ports(&self, nid: u128, node: &GraphNode, out: &mut Vec<ValidationIssue>)
        ensures
            issue_models(final(out)@) == issue_models(old(out)@)
                + port_issues(self.schema.nodes@, self.schema.links@, nid, node.ports.entries()),
            issue_texts(final(out)@) == issue_texts(old(out)@)
                + port_texts(self.schema.nodes@, self.schema.links@, nid, node.ports.entries()),
    {
        let ghost start = issue_models(out@);
        let ghost start_t = issue_texts(out@);
        let count = node.ports.len();
        for i in 0..count
            invariant
                count == node.ports.entries().len(),
                issue_models(out@) == start + port_issues(self.schema.nodes@, self.schema.links@, nid, node.ports.entries().take(i as int)),
                issue_texts(out@) == start_t + port_texts(self.schema.nodes@, self.schema.links@, nid, node.ports.entries().take(i as int)),
        {
            let e = node.ports.entry_at(i);
            let ghost before = issue_models(out@);
            let ghost before_t = issue_texts(out@);
            proof {
                assert(node.ports.entries().take(i + 1).drop_last() == node.ports.entries().take(i as int));
                assert(node.ports.entries().take(i + 1).last() == *e);
            }
            if e.1.direction == PortDirection::In && e.1.required && !self.incoming_exists(nid, e.1.id) {
                let mut d = id_text("Node ", nid, ": required input port '");
                d.append(e.1.name.as_str());
                d.append("' has no incoming link");
                out.push(issue("unconnected_required_port", d, Some(nid), None));
                proof {
                    assert(issue_models(out@) =~= before.push(("unconnected_required_port"@, Some(nid), None)));
                    assert(issue_texts(out@) =~= before_t.push(
                        "Node "@ + uuid_text(nid) + ": required input port '"@ + e.1.name@ + "' has no incoming link"@));
                }
            } else {
                proof {
                    assert(issue_models(out@) =~= before + Seq::<IssueModel>::empty());
                    assert(issue_texts(out@) =~= before_t + Seq::<Seq<char>>::empty());
                }
            }
            proof {
                assert(issue_models(out@) =~= start + port_issues(self.schema.nodes@, self.schema.links@, nid, node.ports.entries().take(i + 1)));
                assert(issue_texts(out@) =~= start_t + port_texts(self.schema.nodes@, self.schema.links@, nid, node.ports.entries().take(i + 1)));
            }
        }
        proof {
            assert(node.ports.entries().take(count as int) == node.ports.entries());
        }
    }

    /// Check link endpoints, port directions and types, required inputs,
    /// and cycles; log `graph.validated`.
    pub fn validate(&self, log: &mut ActionLog) -> (r: ValidationReport)
        ensures
            issue_models(r.issues@) == self.graph_issues(),
            has_topological_order(with_endpoints(self.node_ids(), self.edges()), self.edges())
                ==> issue_texts(r.issues@) == self.graph_issue_texts(),
            !has_topological_order(with_endpoints(self.node_ids(), self.edges()), self.edges())
                ==> exists|rest: Seq<u128>| #[trigger] crate::topo::cycle_witness(rest, self.edges())
                    && crate::topo::within(rest, with_endpoints(self.node_ids(), self.edges()))
                    && issue_texts(r.issues@) == self.graph_issue_texts().push(cycle_text(rest)),
            final(log)@.last().payload.model() == JsonModel::Object(seq![
                ("valid"@, JsonModel::Bool(r.valid)),
                ("issue_count"@, JsonModel::Int(r.issues@.len() as int)),
            ]),
            r.valid == (r.issues@.len() == 0),
            appended_one(old(log)@, final(log)@, EventType::GraphValidated, Some(self.spec_dimension()), Some(self.spec_task())),
    {
        let mut issues: Vec<ValidationIssue> = Vec::new();
        let nl = self.schema.links.len();
        for i in 0..nl
            invariant
                nl == self.schema.links.entries().len(),
                issue_models(issues@) == all_link_issues(self.schema.nodes@, self.schema.links.entries().take(i as int)),
                issue_texts(issues@) == all_link_texts(self.schema.nodes@, self.schema.links.entries().take(i as int)),
        {
            let e = self.schema.links.entry_at(i);
            proof {
                assert(self.schema.links.entries().take(i + 1).drop_last() == self.schema.links.entries().take(i as int));
                assert(self.schema.links.entries().take(i + 1).last() == *e);
            }
            self.check_link(e.0, &e.1, &mut issues);
        }
        proof {
            assert(self.schema.links.entries().take(nl as int) == self.schema.links.entries());
        }
        let ghost after_links = issue_models(issues@);
        let ghost after_links_t = issue_texts(issues@);
        let nn = self.schema.nodes.len();
        for i in 0..nn
            invariant
                nn == self.schema.nodes.entries().len(),
                issue_models(issues@) == after_links + all_port_issues(self.schema.nodes@, self.schema.links@, self.schema.nodes.entries().take(i as int)),
                issue_texts(issues@) == after_links_t + all_port_texts(self.schema.nodes@, self.schema.links@, self.schema.nodes.entries().take(i as int)),
        {
            let e = self.schema.nodes.entry_at(i);
            proof {
                assert(self.schema.nodes.entries().take(i + 1).drop_last() == self.schema.nodes.entries().take(i as int));
                assert(self.schema.nodes.entries().take(i + 1).last() == *e);
            }
            let ghost before = issue_models(issues@);
            self.check_ports(e.0, &e.1, &mut issues);
            proof {
                assert(issue_models(issues@) =~= after_links + all_port_issues(self.schema.nodes@, self.schema.links@, self.schema.nodes.entries().take(i + 1)));
                assert(issue_texts(issues@) =~= after_links_t + all_port_texts(self.schema.nodes@, self.schema.links@, self.schema.nodes.entries().take(i + 1)));
            }
        }
        proof {
            assert(self.schema.nodes.entries().take(nn as int) == self.schema.nodes.entries());
        }
        let ghost after_ports = issue_models(issues@);
        let ghost after_ports_t = issue_texts(issues@);
        assert(after_ports_t == self.graph_issue_texts());
        match self.detect_cycle() {
            Err(FlowGraphError::CycleDetected(cycle)) => {
                let d = uuid_list_text("Directed cycle detected through nodes: ", &cycle);
                issues.push(issue("cycle_detected", d, None, None));
                proof {
                    assert(issue_models(issues@) =~= after_ports.push(("cycle_detected"@, None, None)));
                    assert(issue_texts(issues@) =~= after_ports_t.push(cycle_text(cycle@)));
                }
            },
            _ => {
                proof {
                    assert(issue_models(issues@) =~= after_ports + Seq::<IssueModel>::empty());
                    assert(issue_texts(issues@) =~= after_ports_t);
                }
            },
        }
        let valid = issues.len() == 0;
        let members = vec![
            ("valid".to_owned(), JsonValue::from_bool(valid)),
            ("issue_count".to_owned(), JsonValue::from_u64(issues.len() as u64)),
        ];
        proof {
            lemma_members_models(members@);
            assert(members@.map_values(|m: (String, JsonValue)| (m.0@, m.1.model())) =~= seq![
                ("valid"@, JsonModel::Bool(valid)),
                ("issue_count"@, JsonModel::Int(issues@.len() as int)),
            ]);
        }
        let payload = JsonValue::object(members);
        log.record(EventType::GraphValidated, Some(self.dimension_id), Some(self.task_id), payload);
        ValidationReport { valid, issues }
    }
}

/// How the line for a validation issue of `kind` starts: the kind in
/// brackets and a space; the issue's description follows.
pub open spec fn issue_line_start(kind: Seq<char>) -> Seq<char> {
    "["@ + kind + "] "@
}

/// The message for a caller in dimension `asked` about a graph of dimension
/// `own`.
pub open spec fn dimension_mismatch_line(own: DimensionId, asked: DimensionId) -> Seq<char> {
    "dimension mismatch: graph owns "@ + uuid_text(own.0) + ", caller requested "@ + uuid_text(asked.0)
}

impl FlowGraph {
    /// The descriptions of the link and port issues, in the order of
    /// `graph_issues`.
    pub open spec fn graph_issue_texts(&self) -> Seq<Seq<char>> {
        all_link_texts(self.spec_schema().nodes@, self.spec_schema().links.entries())
            + all_port_texts(self.spec_schema().nodes@, self.spec_schema().links@, self.spec_schema().nodes.entries())
    }

    /// The issues validation finds, in order: link issues, port issues,
    /// then a cycle.
    pub open spec fn graph_issues(&self) -> Seq<IssueModel> {
        all_link_issues(self.spec_schema().nodes@, self.spec_schema().links.entries())
            + all_port_issues(self.spec_schema().nodes@, self.spec_schema().links@, self.spec_schema().nodes.entries())
            + issue_if(!has_topological_order(with_endpoints(self.node_ids(), self.edges()), self.edges()),
                ("cycle_detected"@, None, None))
    }

    /// Validation for a caller in `dimension_id`: a caller in another
    /// dimension gets the mismatch message alone and nothing is validated;
    /// otherwise the graph is validated (and that is logged) and each issue
    /// comes back as a line.
    pub fn validate_for(&self, dimension_id: DimensionId, log: &mut ActionLog) -> (r: Result<(), Vec<String>>)
        ensures
            self.spec_schema().dimension_id != dimension_id ==> (r matches Err(m) && m@.len() == 1
                && m@[0]@ == dimension_mismatch_line(self.spec_schema().dimension_id, dimension_id)
                && final(log)@ == old(log)@),
            self.spec_schema().dimension_id == dimension_id ==> {
                &&& appended_one(old(log)@, final(log)@, EventType::GraphValidated, Some(self.spec_dimension()), Some(self.spec_task()))
                &&& (r is Ok <==> self.graph_issues().len() == 0)
                &&& (r matches Err(m) ==> m@.len() == self.graph_issues().len()
                    && forall|i: int| 0 <= i < m@.len()
                        ==> issue_line_start(self.graph_issues()[i].0).is_prefix_of((#[trigger] m@[i])@))
                &&& (r matches Err(m) ==> forall|i: int| 0 <= i < self.graph_issue_texts().len()
                        ==> (#[trigger] m@[i])@ == issue_line_start(self.graph_issues()[i].0) + self.graph_issue_texts()[i])
            },
    {
        if self.schema.dimension_id != dimension_id {
            let mut t = "dimension mismatch: graph owns ".to_owned();
            let own = uuid_to_string(self.schema.dimension_id.0);
            t.append(own.as_str());
            t.append(", caller requested ");
            let asked = uuid_to_string(dimension_id.0);
            t.append(asked.as_str());
            return Err(vec![t]);
        }
        let report = self.validate(log);
        proof {
            assert(issue_models(report.issues@).len() == report.issues@.len());
        }
        if report.valid {
            return Ok(());
        }
        let n = report.issues.len();
        let mut lines: Vec<String> = Vec::new();
        for i in 0..n
            invariant
                n == report.issues@.len(),
                lines@.len() == i,
                forall|j: int| 0 <= j < i ==> (#[trigger] lines@[j])@
                    == issue_line_start(report.issues@[j].kind@) + report.issues@[j].description@,
        {
            let mut t = "[".to_owned();
            t.append(report.issues[i].kind.as_str());
            t.append("] ");
            t.append(report.issues[i].description.as_str());
            lines.push(t);
        }
        proof {
            assert forall|i: int| 0 <= i < lines@.len()
                implies issue_line_start(self.graph_issues()[i].0).is_prefix_of((#[trigger] lines@[i])@) by {
                assert(issue_models(report.issues@)[i] == issue_model(report.issues@[i]));
                let a = issue_line_start(report.issues@[i].kind@);
                assert((a + report.issues@[i].description@).subrange(0, a.len() as int) =~= a);
            }
            let gt = self.graph_issue_texts();
            assert(gt.len() <= issue_texts(report.issues@).len());
            assert forall|i: int| 0 <= i < gt.len()
                implies (#[trigger] lines@[i])@ == issue_line_start(self.graph_issues()[i].0) + gt[i] by {
                assert(issue_models(report.issues@)[i] == issue_model(report.issues@[i]));
                assert(issue_texts(report.issues@)[i] == report.issues@[i].description@);
                if !has_topological_order(with_endpoints(self.node_ids(), self.edges()), self.edges()) {
                    let rest = choose|rest: Seq<u128>| #[trigger] crate::topo::cycle_witness(rest, self.edges())
                        && crate::topo::within(rest, with_endpoints(self.node_ids(), self.edges()))
                        && issue_texts(report.issues@) == gt.push(cycle_text(rest));
                    assert(gt.push(cycle_text(rest))[i] == gt[i]);
                }
            }
        }
        Err(lines)
    }
}

// ---------------------------------------------------------------------------
// Patches
// ---------------------------------------------------------------------------

/// One operation of a [`GraphPatch`].
#[derive(Debug)]
pub enum GraphPatchOp {
    /// Insert a node; fails if the id exists.
    AddNode(GraphNode),
    /// Remove a node and every link touching it; fails if absent.
    RemoveNode { id: u128 },
    /// Replace a node's label.
    UpdateNodeLabel { id: u128, new_label: String },
    /// Upsert parameters into a node.
    UpdateNodeParams { id: u128, params: ParamMap },
    /// Move a node.
    MoveNode { id: u128, position: (i64, i64) },
    /// Insert a link; fails if the id exists.
    AddLink(Link),
    /// Remove a link; fails if absent.
    RemoveLink { id: u128 },
    /// Insert a group; fails if the id exists.
    AddGroup(Group),
    /// Remove a group; fails if absent.
    RemoveGroup { id: u128 },
    /// Add a node id to a group; fails if the group is absent.
    AddNodeToGroup { node_id: u128, group_id: u128 },
    /// Remove a node id from a group; fails if the group is absent.
    RemoveNodeFromGroup { node_id: u128, group_id: u128 },
    /// Insert a subgraph; fails if the id exists.
    AddSubgraph(Subgraph),
    /// Remove a subgraph; fails if absent.
    RemoveSubgraph { id: u128 },
}

/// An authored, time-stamped list of operations applied all-or-nothing.
#[derive(Debug)]
pub struct GraphPatch {
    /// Patch identifier.
    pub id: u128,
    /// Author.
    pub author: String,
    /// Creation time, Unix epoch milliseconds.
    pub created_at_ms: u64,
    /// Operations, in order.
    pub ops: Vec<GraphPatchOp>,
}

impl GraphPatch {
    /// A new patch with a fresh id, created now.
    pub fn new(author: &str, ops: Vec<GraphPatchOp>) -> (r: Self)
        ensures
            r.author@ == author@,
            r.ops == ops,
    {
        GraphPatch { id: new_uuid_v7(), author: author.to_owned(), created_at_ms: now_ms(), ops }
    }
}

/// A node by its values: id, kind, label, ports, parameters, position,
/// subgraph reference, provenance.
pub type NodeModel = (u128, Seq<char>, Seq<char>, Map<u128, PortDef>, Map<Seq<char>, JsonValue>, (i64, i64), Option<u128>, NodeProvenance);

/// A group by its id, name and members.
pub type GroupModel = (u128, Seq<char>, Set<u128>);

/// The parts of a schema that patches change: nodes, links, groups, subgraphs.
pub type GraphModel = (Map<u128, NodeModel>, Map<u128, Link>, Map<u128, GroupModel>, Map<u128, Subgraph>);

/// The model of a node.
pub open spec fn node_model(n: GraphNode) -> NodeModel {
    (n.id, n.kind@, n.label@, n.ports@, n.parameters@, n.position, n.subgraph_ref, n.provenance)
}

/// The model of a group.
pub open spec fn group_model(g: Group) -> GroupModel {
    (g.id, g.name@, g.node_ids@.dom())
}

/// The model of a schema.
pub open spec fn schema_model(s: FlowGraphSchema) -> GraphModel {
    (
        s.nodes@.map_values(|n: GraphNode| node_model(n)),
        s.links@,
        s.groups@.map_values(|g: Group| group_model(g)),
        s.subgraphs@,
    )
}

/// Group models with `id` removed from every group's members.
pub open spec fn groups_without_member(gs: Map<u128, GroupModel>, id: u128) -> Map<u128, GroupModel> {
    gs.map_values(|g: GroupModel| (g.0, g.1, g.2.remove(id)))
}

/// The effect of one operation on a graph model, or `None` when it fails.
pub open spec fn apply_op_model(m: GraphModel, op: GraphPatchOp) -> Option<GraphModel> {
    match op {
        GraphPatchOp::AddNode(n) => if m.0.contains_key(n.id) { None } else {
            Some((m.0.insert(n.id, node_model(n)), m.1, m.2, m.3))
        },
        GraphPatchOp::RemoveNode { id } => if !m.0.contains_key(id) { None } else {
            Some((m.0.remove(id), links_without(m.1, id), groups_without_member(m.2, id), m.3))
        },
        GraphPatchOp::UpdateNodeLabel { id, new_label } => if !m.0.contains_key(id) { None } else {
            let n = m.0[id];
            Some((m.0.insert(id, (n.0, n.1, new_label@, n.3, n.4, n.5, n.6, n.7)), m.1, m.2, m.3))
        },
        GraphPatchOp::UpdateNodeParams { id, params } => if !m.0.contains_key(id) { None } else {
            let n = m.0[id];
            Some((m.0.insert(id, (n.0, n.1, n.2, n.3, n.4.union_prefer_right(params@), n.5, n.6, n.7)), m.1, m.2, m.3))
        },
        GraphPatchOp::MoveNode { id, position } => if !m.0.contains_key(id) { None } else {
            let n = m.0[id];
            Some((m.0.insert(id, (n.0, n.1, n.2, n.3, n.4, position, n.6, n.7)), m.1, m.2, m.3))
        },
        GraphPatchOp::AddLink(l) => if m.1.contains_key(l.id) { None } else {
            Some((m.0, m.1.insert(l.id, l), m.2, m.3))
        },
        GraphPatchOp::RemoveLink { id } => if !m.1.contains_key(id) { None } else {
            Some((m.0, m.1.remove(id), m.2, m.3))
        },
        GraphPatchOp::AddGroup(g) => if m.2.contains_key(g.id) { None } else {
            Some((m.0, m.1, m.2.insert(g.id, group_model(g)), m.3))
        },
        GraphPatchOp::RemoveGroup { id } => if !m.2.contains_key(id) { None } else {
            Some((m.0, m.1, m.2.remove(id), m.3))
        },
        GraphPatchOp::AddNodeToGroup { node_id, group_id } => if !m.2.contains_key(group_id) { None } else {
            let g = m.2[group_id];
            Some((m.0, m.1, m.2.insert(group_id, (g.0, g.1, g.2.insert(node_id))), m.3))
        },
        GraphPatchOp::RemoveNodeFromGroup { node_id, group_id } => if !m.2.contains_key(group_id) { None } else {
            let g = m.2[group_id];
            Some((m.0, m.1, m.2.insert(group_id, (g.0, g.1, g.2.remove(node_id))), m.3))
        },
        GraphPatchOp::AddSubgraph(sg) => if m.3.contains_key(sg.id) { None } else {
            Some((m.0, m.1, m.2, m.3.insert(sg.id, sg)))
        },
        GraphPatchOp::RemoveSubgraph { id } => if !m.3.contains_key(id) { None } else {
            Some((m.0, m.1, m.2, m.3.remove(id)))
        },
    }
}

/// The effect of a list of operations applied in order, or `None` when one
/// of them fails.
pub open spec fn apply_ops_model(m: GraphModel, ops: Seq<GraphPatchOp>) -> Option<GraphModel>
    decreases ops.len(),
{
    if ops.len() == 0 {
        Some(m)
    } else {
        match apply_ops_model(m, ops.drop_last()) {
            Some(m2) => apply_op_model(m2, ops.last()),
            None => None,
        }
    }
}

/// The keys that decide whether operations succeed: node ids, links,
/// group ids, subgraph ids.
pub type KeyModel = (Set<u128>, Map<u128, Link>, Set<u128>, Set<u128>);

/// The keys of a graph model.
pub open spec fn keys_of(m: GraphModel) -> KeyModel {
    (m.0.dom(), m.1, m.2.dom(), m.3.dom())
}

/// The effect of one operation on the keys, or `None` when it fails.
pub open spec fn key_step(k: KeyModel, op: GraphPatchOp) -> Option<KeyModel> {
    match op {
        GraphPatchOp::AddNode(n) => if k.0.contains(n.id) { None } else { Some((k.0.insert(n.id), k.1, k.2, k.3)) },
        GraphPatchOp::RemoveNode { id } => if !k.0.contains(id) { None } else {
            Some((k.0.remove(id), links_without(k.1, id), k.2, k.3))
        },
        GraphPatchOp::UpdateNodeLabel { id, .. } => if !k.0.contains(id) { None } else { Some(k) },
        GraphPatchOp::UpdateNodeParams { id, .. } => if !k.0.contains(id) { None } else { Some(k) },
        GraphPatchOp::MoveNode { id, .. } => if !k.0.contains(id) { None } else { Some(k) },
        GraphPatchOp::AddLink(l) => if k.1.contains_key(l.id) { None } else { Some((k.0, k.1.insert(l.id, l), k.2, k.3)) },
        GraphPatchOp::RemoveLink { id } => if !k.1.contains_key(id) { None } else { Some((k.0, k.1.remove(id), k.2, k.3)) },
        GraphPatchOp::AddGroup(g) => if k.2.contains(g.id) { None } else { Some((k.0, k.1, k.2.insert(g.id), k.3)) },
        GraphPatchOp::RemoveGroup { id } => if !k.2.contains(id) { None } else { Some((k.0, k.1, k.2.remove(id), k.3)) },
        GraphPatchOp::AddNodeToGroup { group_id, .. } => if !k.2.contains(group_id) { None } else { Some(k) },
        GraphPatchOp::RemoveNodeFromGroup { group_id, .. } => if !k.2.contains(group_id) { None } else { Some(k) },
        GraphPatchOp::AddSubgraph(sg) => if k.3.contains(sg.id) { None } else { Some((k.0, k.1, k.2, k.3.insert(sg.id))) },
        GraphPatchOp::RemoveSubgraph { id } => if !k.3.contains(id) { None } else { Some((k.0, k.1, k.2, k.3.remove(id))) },
    }
}

/// The keys decide one operation: it succeeds on the model exactly when it
/// succeeds on the keys, with matching keys after.
proof fn lemma_key_step(m: GraphModel, op: GraphPatchOp)
    ensures
        apply_op_model(m, op) is Some <==> key_step(keys_of(m), op) is Some,
        apply_op_model(m, op) is Some ==> keys_of(apply_op_model(m, op)->0) == key_step(keys_of(m), op)->0,
{
    match op {
        GraphPatchOp::AddNode(n) => {
            if !m.0.contains_key(n.id) {
                assert(m.0.insert(n.id, node_model(n)).dom() =~= m.0.dom().insert(n.id));
            }
        },
        GraphPatchOp::RemoveNode { id } => {
            if m.0.contains_key(id) {
                assert(m.0.remove(id).dom() =~= m.0.dom().remove(id));
                assert(groups_without_member(m.2, id).dom() =~= m.2.dom());
            }
        },
        GraphPatchOp::UpdateNodeLabel { id, new_label } => {
            if m.0.contains_key(id) {
                let n = m.0[id];
                assert(m.0.insert(id, (n.0, n.1, new_label@, n.3, n.4, n.5, n.6, n.7)).dom() =~= m.0.dom());
            }
        },
        GraphPatchOp::UpdateNodeParams { id, params } => {
            if m.0.contains_key(id) {
                let n = m.0[id];
                assert(m.0.insert(id, (n.0, n.1, n.2, n.3, n.4.union_prefer_right(params@), n.5, n.6, n.7)).dom() =~= m.0.dom());
            }
        },
        GraphPatchOp::MoveNode { id, position } => {
            if m.0.contains_key(id) {
                let n = m.0[id];
                assert(m.0.insert(id, (n.0, n.1, n.2, n.3, n.4, position, n.6, n.7)).dom() =~= m.0.dom());
            }
        },
        GraphPatchOp::AddGroup(g) => {
            if !m.2.contains_key(g.id) {
                assert(m.2.insert(g.id, group_model(g)).dom() =~= m.2.dom().insert(g.id));
            }
        },
        GraphPatchOp::RemoveGroup { id } => {
            if m.2.contains_key(id) {
                assert(m.2.remove(id).dom() =~= m.2.dom().remove(id));
            }
        },
        GraphPatchOp::AddNodeToGroup { node_id, group_id } => {
            if m.2.contains_key(group_id) {
                let g = m.2[group_id];
                assert(m.2.insert(group_id, (g.0, g.1, g.2.insert(node_id))).dom() =~= m.2.dom());
            }
        },
        GraphPatchOp::RemoveNodeFromGroup { node_id, group_id } => {
            if m.2.contains_key(group_id) {
                let g = m.2[group_id];
                assert(m.2.insert(group_id, (g.0, g.1, g.2.remove(node_id))).dom() =~= m.2.dom());
            }
        },
        GraphPatchOp::AddSubgraph(sg) => {
            if !m.3.contains_key(sg.id) {
                assert(m.3.insert(sg.id, sg).dom() =~= m.3.dom().insert(sg.id));
            }
        },
        GraphPatchOp::RemoveSubgraph { id } => {
            if m.3.contains_key(id) {
                assert(m.3.remove(id).dom() =~= m.3.dom().remove(id));
            }
        },
        _ => {},
    }
}

/// Once a prefix of the operations fails, the whole list fails.
proof fn lemma_ops_fail_prefix(m: GraphModel, ops: Seq<GraphPatchOp>, j: int)
    requires
        0 <= j <= ops.len(),
        apply_ops_model(m, ops.take(j)) is None,
    ensures
        apply_ops_model(m, ops) is None,
    decreases ops.len() - j,
{
    if j < ops.len() {
        assert(ops.take(j + 1).drop_last() == ops.take(j));
        lemma_ops_fail_prefix(m, ops, j + 1);
    } else {
        assert(ops.take(j) == ops);
    }
}

/// Applying one more operation extends the prefix.
proof fn lemma_ops_step(m: GraphModel, ops: Seq<GraphPatchOp>, i: int)
    requires
        0 <= i < ops.len(),
    ensures
        apply_ops_model(m, ops.take(i + 1)) == match apply_ops_model(m, ops.take(i)) {
            Some(m2) => apply_op_model(m2, ops[i]),
            None => None,
        },
{
    assert(ops.take(i + 1).drop_last() == ops.take(i));
    assert(ops.take(i + 1).last() == ops[i]);
}

/// The keys a patch is checked against.
struct PatchKeys {
    nodes: IdMap<()>,
    links: IdMap<Link>,
    groups: IdMap<()>,
    subgraphs: IdMap<()>,
}

impl PatchKeys {
    spec fn model(&self) -> KeyModel {
        (self.nodes@.dom(), self.links@, self.groups@.dom(), self.subgraphs@.dom())
    }
}

/// A map of unit values holding exactly the keys of `keys`.
fn unit_map(keys: &Vec<u128>) -> (r: IdMap<()>)
    ensures
        forall|k: u128| #[trigger] r@.contains_key(k) <==> keys@.contains(k),
{
    let mut m: IdMap<()> = IdMap::new();
    let n = keys.len();
    for i in 0..n
        invariant
            n == keys@.len(),
            forall|k: u128| #[trigger] m@.contains_key(k) <==> keys@.take(i as int).contains(k),
    {
        m.insert(keys[i], ());
        proof {
            assert forall|k: u128| #[trigger] m@.contains_key(k) <==> keys@.take(i + 1).contains(k) by {
                if keys@.take(i + 1).contains(k) {
                    let j = choose|j: int| #![trigger keys@.take(i + 1)[j]] 0 <= j < i + 1 && keys@.take(i + 1)[j] == k;
                    if j < i {
                        assert(keys@.take(i as int)[j] == k);
                    }
                }
                if keys@.take(i as int).contains(k) {
                    let j = choose|j: int| #![trigger keys@.take(i as int)[j]] 0 <= j < i && keys@.take(i as int)[j] == k;
                    assert(keys@.take(i + 1)[j] == k);
                }
                if k == keys@[i as int] {
                    assert(keys@.take(i + 1)[i as int] == k);
                }
            }
        }
    }
    proof {
        assert(keys@.take(n as int) == keys@);
    }
    m
}

/// A copy of a link map.
fn copy_links(links: &IdMap<Link>) -> (r: IdMap<Link>)
    ensures
        r@ == links@,
{
    let mut m: IdMap<Link> = IdMap::new();
    let n = links.len();
    for i in 0..n
        invariant
            n == links.entries().len(),
            keys_sorted(links.entries()),
            m@ == seq_to_map(links.entries().take(i as int)),
    {
        let e = links.entry_at(i);
        proof {
            let p = links.entries().take(i as int);
            let q = links.entries().take(i + 1);
            assert(q == p.push(*e));
            assert(!has_key(p, e.0)) by {
                if has_key(p, e.0) {
                    let j = key_index(p, e.0);
                    assert(links.entries()[j].0 < links.entries()[i as int].0);
                }
            }
            assert(keys_sorted(q));
            assert forall|k: u128| #[trigger] seq_to_map(q).contains_key(k) == seq_to_map(p).insert(e.0, e.1).contains_key(k) by {
                if has_key(p, k) {
                    let j = key_index(p, k);
                    assert(q[j] == p[j]);
                }
                if has_key(q, k) {
                    let j = key_index(q, k);
                    if j < i {
                        assert(p[j] == q[j]);
                    }
                }
                if k == e.0 {
                    assert(q[i as int].0 == k);
                }
            }
            assert forall|k: u128| #[trigger] seq_to_map(q).contains_key(k) implies seq_to_map(q)[k] == seq_to_map(p).insert(e.0, e.1)[k] by {
                let j = key_index(q, k);
                lemma_key_index(q, j);
                if j < i {
                    assert(keys_sorted(p));
                    lemma_key_index(p, j);
                }
            }
            assert(seq_to_map(q) =~= seq_to_map(p).insert(e.0, e.1));
        }
        m.insert(e.0, e.1.clone());
    }
    proof {
        assert(links.entries().take(n as int) == links.entries());
    }
    m
}

/// The keys of a schema.
fn patch_keys(schema: &FlowGraphSchema) -> (r: PatchKeys)
    ensures
        r.model() == keys_of(schema_model(*schema)),
{
    let nk = schema.nodes.keys();
    let gk = schema.groups.keys();
    let sk = schema.subgraphs.keys();
    let r = PatchKeys {
        nodes: unit_map(&nk),
        links: copy_links(&schema.links),
        groups: unit_map(&gk),
        subgraphs: unit_map(&sk),
    };
    proof {
        assert(r.nodes@.dom() =~= schema_model(*schema).0.dom());
        assert(r.groups@.dom() =~= schema_model(*schema).2.dom());
        assert(r.subgraphs@.dom() =~= schema_model(*schema).3.dom());
    }
    r
}

/// What a failing operation reports: the item it names, and that it
/// exists already (an addition, reported as an invalid operation) or is
/// missing (anything else).
pub open spec fn op_error_text(op: GraphPatchOp) -> Seq<char> {
    match op {
        GraphPatchOp::AddNode(n) => "invalid patch operation: node "@ + uuid_text(n.id) + " already exists"@,
        GraphPatchOp::RemoveNode { id } => "node "@ + uuid_text(id) + " not found in graph"@,
        GraphPatchOp::UpdateNodeLabel { id, .. } => "node "@ + uuid_text(id) + " not found in graph"@,
        GraphPatchOp::UpdateNodeParams { id, .. } => "node "@ + uuid_text(id) + " not found in graph"@,
        GraphPatchOp::MoveNode { id, .. } => "node "@ + uuid_text(id) + " not found in graph"@,
        GraphPatchOp::AddLink(l) => "invalid patch operation: link "@ + uuid_text(l.id) + " already exists"@,
        GraphPatchOp::RemoveLink { id } => "link "@ + uuid_text(id) + " not found in graph"@,
        GraphPatchOp::AddGroup(g) => "invalid patch operation: group "@ + uuid_text(g.id) + " already exists"@,
        GraphPatchOp::RemoveGroup { id } => "group "@ + uuid_text(id) + " not found in graph"@,
        GraphPatchOp::AddNodeToGroup { group_id, .. } => "group "@ + uuid_text(group_id) + " not found in graph"@,
        GraphPatchOp::RemoveNodeFromGroup { group_id, .. } => "group "@ + uuid_text(group_id) + " not found in graph"@,
        GraphPatchOp::AddSubgraph(sg) => "invalid patch operation: subgraph "@ + uuid_text(sg.id) + " already exists"@,
        GraphPatchOp::RemoveSubgraph { id } => "subgraph "@ + uuid_text(id) + " not found in graph"@,
    }
}

/// The error text of a patch whose operation `op` failed.
pub open spec fn patch_error_text(patch_id: u128, op: GraphPatchOp) -> Seq<char> {
    "patch "@ + uuid_text(patch_id) + " op failed: "@ + op_error_text(op)
}

/// Check one operation against the keys and advance them.
fn check_op(keys: &mut PatchKeys, op: &GraphPatchOp) -> (r: Result<(), String>)
    ensures
        r is Ok <==> key_step(old(keys).model(), *op) is Some,
        r is Ok ==> final(keys).model() == key_step(old(keys).model(), *op)->0,
        r matches Err(m) ==> m@ == op_error_text(*op),
{
    let ghost k0 = keys.model();
    match op {
        GraphPatchOp::AddNode(n) => {
            if keys.nodes.contains_key(n.id) {
                return Err(id_text("invalid patch operation: node ", n.id, " already exists"));
            }
            keys.nodes.insert(n.id, ());
            proof { assert(keys.model().0 =~= k0.0.insert(n.id)); }
        },
        GraphPatchOp::RemoveNode { id } => {
            if !keys.nodes.contains_key(*id) {
                return Err(id_text("node ", *id, " not found in graph"));
            }
            keys.nodes.remove(*id);
            remove_links_touching(&mut keys.links, *id);
            proof { assert(keys.model().0 =~= k0.0.remove(*id)); }
        },
        GraphPatchOp::UpdateNodeLabel { id, .. } | GraphPatchOp::UpdateNodeParams { id, .. } | GraphPatchOp::MoveNode { id, .. } => {
            if !keys.nodes.contains_key(*id) {
                return Err(id_text("node ", *id, " not found in graph"));
            }
        },
        GraphPatchOp::AddLink(l) => {
            if keys.links.contains_key(l.id) {
                return Err(id_text("invalid patch operation: link ", l.id, " already exists"));
            }
            keys.links.insert(l.id, l.clone());
        },
        GraphPatchOp::RemoveLink { id } => {
            if !keys.links.contains_key(*id) {
                return Err(id_text("link ", *id, " not found in graph"));
            }
            keys.links.remove(*id);
        },
        GraphPatchOp::AddGroup(g) => {
            if keys.groups.contains_key(g.id) {
                return Err(id_text("invalid patch operation: group ", g.id, " already exists"));
            }
            keys.groups.insert(g.id, ());
            proof { assert(keys.model().2 =~= k0.2.insert(g.id)); }
        },
        GraphPatchOp::RemoveGroup { id } => {
            if !keys.groups.contains_key(*id) {
                return Err(id_text("group ", *id, " not found in graph"));
            }
            keys.groups.remove(*id);
            proof { assert(keys.model().2 =~= k0.2.remove(*id)); }
        },
        GraphPatchOp::AddNodeToGroup { group_id, .. } | GraphPatchOp::RemoveNodeFromGroup { group_id, .. } => {
            if !keys.groups.contains_key(*group_id) {
                return Err(id_text("group ", *group_id, " not found in graph"));
            }
        },
        GraphPatchOp::AddSubgraph(sg) => {
            if keys.subgraphs.contains_key(sg.id) {
                return Err(id_text("invalid patch operation: subgraph ", sg.id, " already exists"));
            }
            keys.subgraphs.insert(sg.id, ());
            proof { assert(keys.model().3 =~= k0.3.insert(sg.id)); }
        },
        GraphPatchOp::RemoveSubgraph { id } => {
            if !keys.subgraphs.contains_key(*id) {
                return Err(id_text("subgraph ", *id, " not found in graph"));
            }
            keys.subgraphs.remove(*id);
            proof { assert(keys.model().3 =~= k0.3.remove(*id)); }
        },
    }
    Ok(())
}

/// Apply one operation known to succeed.
fn apply_op(schema: &mut FlowGraphSchema, op: GraphPatchOp)
    requires
        apply_op_model(schema_model(*old(schema)), op) is Some,
    ensures
        schema_model(*final(schema)) == apply_op_model(schema_model(*old(schema)), op)->0,
        final(schema).relations == old(schema).relations,
        final(schema).graph_id == old(schema).graph_id,
        final(schema).dimension_id == old(schema).dimension_id,
        final(schema).schema_version == old(schema).schema_version,
{
    let ghost m0 = schema_model(*schema);
    let ghost op0 = op;
    match op {
        GraphPatchOp::AddNode(n) => {
            let ghost nm = node_model(n);
            let id = n.id;
            schema.nodes.insert(id, n);
            proof { assert(schema_model(*schema).0 =~= m0.0.insert(id, nm)); }
        },
        GraphPatchOp::RemoveNode { id } => {
            let ghost g0 = schema.groups@;
            schema.nodes.remove(id);
            remove_links_touching(&mut schema.links, id);
            remove_member_everywhere(&mut schema.groups, id);
            proof {
                assert(schema_model(*schema).0 =~= m0.0.remove(id));
                assert forall|g: u128| #[trigger] schema.groups@.contains_key(g) implies
                    schema.groups@[g].node_ids@.dom() == g0[g].node_ids@.dom().remove(id) by {
                    assert(schema.groups@[g].node_ids@.dom() =~= g0[g].node_ids@.dom().remove(id));
                }
                assert(schema_model(*schema).2 =~= groups_without_member(m0.2, id));
            }
        },
        GraphPatchOp::UpdateNodeLabel { id, new_label } => {
            match schema.nodes.remove(id) {
                Some(n) => {
                    let mut n = n;
                    n.label = new_label;
                    schema.nodes.insert(id, n);
                },
                None => {},
            }
            proof { assert(schema_model(*schema).0 =~= (apply_op_model(m0, op0)->0).0); }
        },
        GraphPatchOp::UpdateNodeParams { id, params } => {
            match schema.nodes.remove(id) {
                Some(n) => {
                    let mut n = n;
                    n.parameters.merge(&params);
                    schema.nodes.insert(id, n);
                },
                None => {},
            }
            proof { assert(schema_model(*schema).0 =~= (apply_op_model(m0, op0)->0).0); }
        },
        GraphPatchOp::MoveNode { id, position } => {
            match schema.nodes.remove(id) {
                Some(n) => {
                    let mut n = n;
                    n.position = position;
                    schema.nodes.insert(id, n);
                },
                None => {},
            }
            proof { assert(schema_model(*schema).0 =~= (apply_op_model(m0, op0)->0).0); }
        },
        GraphPatchOp::AddLink(l) => {
            let id = l.id;
            schema.links.insert(id, l);
        },
        GraphPatchOp::RemoveLink { id } => {
            schema.links.remove(id);
        },
        GraphPatchOp::AddGroup(g) => {
            let ghost gm = group_model(g);
            let id = g.id;
            schema.groups.insert(id, g);
            proof { assert(schema_model(*schema).2 =~= m0.2.insert(id, gm)); }
        },
        GraphPatchOp::RemoveGroup { id } => {
            schema.groups.remove(id);
            proof { assert(schema_model(*schema).2 =~= m0.2.remove(id)); }
        },
        GraphPatchOp::AddNodeToGroup { node_id, group_id } => {
            match schema.groups.remove(group_id) {
                Some(g) => {
                    let mut g = g;
                    g.node_ids.insert(node_id, ());
                    schema.groups.insert(group_id, g);
                },
                None => {},
            }
            proof { assert(schema_model(*schema).2 =~= (apply_op_model(m0, op0)->0).2); }
        },
        GraphPatchOp::RemoveNodeFromGroup { node_id, group_id } => {
            match schema.groups.remove(group_id) {
                Some(g) => {
                    let mut g = g;
                    g.node_ids.remove(node_id);
                    schema.groups.insert(group_id, g);
                },
                None => {},
            }
            proof { assert(schema_model(*schema).2 =~= (apply_op_model(m0, op0)->0).2); }
        },
        GraphPatchOp::AddSubgraph(sg) => {
            let id = sg.id;
            schema.subgraphs.insert(id, sg);
        },
        GraphPatchOp::RemoveSubgraph { id } => {
            schema.subgraphs.remove(id);
        },
    }
}

impl FlowGraph {
    /// Apply a patch all-or-nothing: the operations are checked in order
    /// first, and the graph changes only when every one of them succeeds.
    pub fn apply_patch(&mut self, patch: GraphPatch, log: &mut ActionLog) -> (r: Result<(), FlowGraphError>)
        ensures
            r is Ok <==> apply_ops_model(schema_model(old(self).spec_schema()), patch.ops@) is Some,
            r is Ok ==> {
                &&& schema_model(final(self).spec_schema()) == apply_ops_model(schema_model(old(self).spec_schema()), patch.ops@)->0
                &&& final(self).spec_schema().relations == old(self).spec_schema().relations
                &&& final(self).spec_schema().graph_id == old(self).spec_schema().graph_id
                &&& final(self).spec_schema().dimension_id == old(self).spec_schema().dimension_id
                &&& final(self).spec_schema().schema_version == old(self).spec_schema().schema_version
                &&& appended_one(old(log)@, final(log)@, EventType::GraphPatched, Some(old(self).spec_dimension()), Some(old(self).spec_task()))
                &&& final(log)@.last().payload.model() == JsonModel::Object(seq![
                    ("patch_id"@, JsonModel::Str(uuid_text(patch.id))),
                    ("author"@, JsonModel::Str(patch.author@)),
                    ("op_count"@, JsonModel::Int(patch.ops@.len() as int)),
                ])
            },
            r matches Err(e) ==> e is InvalidPatch
                && final(self).spec_schema() == old(self).spec_schema()
                && final(log)@ == old(log)@,
            r matches Err(FlowGraphError::InvalidPatch(t)) ==> exists|j: int| {
                &&& 0 <= j < patch.ops@.len()
                &&& apply_ops_model(schema_model(old(self).spec_schema()), patch.ops@.take(j)) is Some
                &&& apply_ops_model(schema_model(old(self).spec_schema()), #[trigger] patch.ops@.take(j + 1)) is None
                &&& t@ == patch_error_text(patch.id, patch.ops@[j])
            },
            final(self).spec_states() == old(self).spec_states(),
            final(self).spec_dimension() == old(self).spec_dimension(),
            final(self).spec_task() == old(self).spec_task(),
    {
        let ghost m0 = schema_model(self.schema);
        let ghost ops = patch.ops@;
        let mut keys = patch_keys(&self.schema);
        let n = patch.ops.len();
        for i in 0..n
            invariant
                n == ops.len(),
                ops == patch.ops@,
                m0 == schema_model(old(self).schema),
                *self == *old(self),
                apply_ops_model(m0, ops.take(i as int)) is Some,
                keys.model() == keys_of(apply_ops_model(m0, ops.take(i as int))->0),
        {
            proof {
                lemma_ops_step(m0, ops, i as int);
                lemma_key_step(apply_ops_model(m0, ops.take(i as int))->0, ops[i as int]);
            }
            match check_op(&mut keys, &patch.ops[i]) {
                Ok(()) => {},
                Err(msg) => {
                    proof {
                        lemma_ops_fail_prefix(m0, ops, i + 1);
                    }
                    let mut text = id_text("patch ", patch.id, " op failed: ");
                    text.append(msg.as_str());
                    proof {
                        assert(apply_ops_model(m0, ops.take(i + 1)) is None);
                        assert(text@ == patch_error_text(patch.id, ops[i as int]));
                    }
                    return Err(FlowGraphError::InvalidPatch(text));
                },
            }
        }
        proof {
            assert(ops.take(n as int) == ops);
        }
        let patch_id = patch.id;
        let author = patch.author;
        let mut rest = patch.ops;
        let mut i: usize = 0;
        while i < n
            invariant
                n == ops.len(),
                i <= n,
                rest@ == ops.skip(i as int),
                apply_ops_model(m0, ops) is Some,
                apply_ops_model(m0, ops.take(i as int)) is Some,
                schema_model(self.schema) == apply_ops_model(m0, ops.take(i as int))->0,
                self.schema.relations == old(self).schema.relations,
                self.schema.graph_id == old(self).schema.graph_id,
                self.schema.dimension_id == old(self).schema.dimension_id,
                self.schema.schema_version == old(self).schema.schema_version,
                self.execution_states == old(self).execution_states,
                self.dimension_id == old(self).dimension_id,
                self.task_id == old(self).task_id,
            decreases n - i,
        {
            proof {
                lemma_ops_step(m0, ops, i as int);
                if apply_ops_model(m0, ops.take(i + 1)) is None {
                    lemma_ops_fail_prefix(m0, ops, i + 1);
                }
                assert(rest@[0] == ops[i as int]);
            }
            let op = rest.remove(0);
            apply_op(&mut self.schema, op);
            proof {
                assert(rest@ =~= ops.skip(i + 1));
            }
            i = i + 1;
        }
        proof {
            assert(ops.take(n as int) == ops);
        }
        let mut payload_author = String::new();
        payload_author.append(author.as_str());
        let members = vec![
            ("patch_id".to_owned(), JsonValue::from_uuid(patch_id)),
            ("author".to_owned(), JsonValue::Str(payload_author)),
            ("op_count".to_owned(), JsonValue::from_u64(n as u64)),
        ];
        proof {
            lemma_members_models(members@);
            assert(members@.map_values(|m: (String, JsonValue)| (m.0@, m.1.model())) =~= seq![
                ("patch_id"@, JsonModel::Str(uuid_text(patch_id))),
                ("author"@, JsonModel::Str(author@)),
                ("op_count"@, JsonModel::Int(n as int)),
            ]);
        }
        let payload = JsonValue::object(members);
        log.record(EventType::GraphPatched, Some(self.dimension_id), Some(self.task_id), payload);
        Ok(())
    }
}

// ---------------------------------------------------------------------------
// Diff
// ---------------------------------------------------------------------------

/// Entries whose key is not in `keys`.
pub open spec fn entry_not_in<T>(keys: Set<u128>) -> spec_fn((u128, T)) -> bool {
    |e: (u128, T)| !keys.contains(e.0)
}

/// Keys not in `keys`.
pub open spec fn key_not_in(keys: Set<u128>) -> spec_fn(u128) -> bool {
    |k: u128| !keys.contains(k)
}

/// Which collection a removal operation is about.
#[derive(Clone, Copy, Debug, PartialEq, Eq, Structural)]
pub enum DiffTarget {
    Node,
    Link,
    Group,
    Subgraph,
}

/// The removal operation of `what` for id `k`.
pub open spec fn removal_op(what: DiffTarget, k: u128) -> GraphPatchOp {
    match what {
        DiffTarget::Node => GraphPatchOp::RemoveNode { id: k },
        DiffTarget::Link => GraphPatchOp::RemoveLink { id: k },
        DiffTarget::Group => GraphPatchOp::RemoveGroup { id: k },
        DiffTarget::Subgraph => GraphPatchOp::RemoveSubgraph { id: k },
    }
}

/// The operations that turn `from` into `to`, in this order: links removed,
/// nodes added, nodes removed, links added, groups added, groups removed,
/// subgraphs added, subgraphs removed; each in ascending id order.  Links go
/// first so that removing a node never drops a link that is removed again.
pub open spec fn diff_ops(from: FlowGraphSchema, to: FlowGraphSchema) -> Seq<GraphPatchOp> {
    seq_keys(from.links.entries()).filter(key_not_in(to.links@.dom())).map_values(|k: u128| removal_op(DiffTarget::Link, k))
        + to.nodes.entries().filter(entry_not_in(from.nodes@.dom())).map_values(|e: (u128, GraphNode)| GraphPatchOp::AddNode(e.1))
        + seq_keys(from.nodes.entries()).filter(key_not_in(to.nodes@.dom())).map_values(|k: u128| removal_op(DiffTarget::Node, k))
        + to.links.entries().filter(entry_not_in(from.links@.dom())).map_values(|e: (u128, Link)| GraphPatchOp::AddLink(e.1))
        + to.groups.entries().filter(entry_not_in(from.groups@.dom())).map_values(|e: (u128, Group)| GraphPatchOp::AddGroup(e.1))
        + seq_keys(from.groups.entries()).filter(key_not_in(to.groups@.dom())).map_values(|k: u128| removal_op(DiffTarget::Group, k))
        + to.subgraphs.entries().filter(entry_not_in(from.subgraphs@.dom())).map_values(|e: (u128, Subgraph)| GraphPatchOp::AddSubgraph(e.1))
        + seq_keys(from.subgraphs.entries()).filter(key_not_in(to.subgraphs@.dom())).map_values(|k: u128| removal_op(DiffTarget::Subgraph, k))
}

/// `new` is `old` with each entry of `s` added under its key, valued by `g`.
pub open spec fn extends_with<V, W>(old: Map<u128, W>, new: Map<u128, W>, s: Seq<(u128, V)>, g: spec_fn(V) -> W) -> bool {
    &&& forall|k: u128| #[trigger] new.contains_key(k) <==> (old.contains_key(k) || has_key(s, k))
    &&& forall|k: u128| #[trigger] old.contains_key(k) ==> new[k] == old[k]
    &&& forall|i: int| 0 <= i < s.len() ==> new[#[trigger] s[i].0] == g(s[i].1)
}

/// Every node, link, group and subgraph of `to` is stored under its own id.
pub open spec fn schema_keyed_by_id(to: FlowGraphSchema) -> bool {
    &&& forall|k: u128| #[trigger] to.nodes@.contains_key(k) ==> to.nodes@[k].id == k
    &&& forall|k: u128| #[trigger] to.links@.contains_key(k) ==> to.links@[k].id == k
    &&& forall|k: u128| #[trigger] to.groups@.contains_key(k) ==> to.groups@[k].id == k
    &&& forall|k: u128| #[trigger] to.subgraphs@.contains_key(k) ==> to.subgraphs@[k].id == k
}

/// Wherever `from` and `to` both hold an id, they hold the same value
/// under it.
pub open spec fn schema_shared_agree(from: FlowGraphSchema, to: FlowGraphSchema) -> bool {
    &&& forall|k: u128| #[trigger] from.nodes@.contains_key(k) && to.nodes@.contains_key(k)
        ==> node_model(to.nodes@[k]) == node_model(from.nodes@[k])
    &&& forall|k: u128| #[trigger] from.links@.contains_key(k) && to.links@.contains_key(k)
        ==> to.links@[k] == from.links@[k]
    &&& forall|k: u128| #[trigger] from.groups@.contains_key(k) && to.groups@.contains_key(k)
        ==> group_model(to.groups@[k]) == group_model(from.groups@[k])
    &&& forall|k: u128| #[trigger] from.subgraphs@.contains_key(k) && to.subgraphs@.contains_key(k)
        ==> to.subgraphs@[k] == from.subgraphs@[k]
}

/// A node of `from` that `to` drops is not an endpoint, in `from`, of a
/// link that `from` and `to` share.
pub open spec fn kept_links_detached(from: FlowGraphSchema, to: FlowGraphSchema) -> bool {
    forall|k: u128, l: u128|
        #![trigger from.nodes@.contains_key(k), from.links@.contains_key(l)]
        from.nodes@.contains_key(k) && !to.nodes@.contains_key(k) && from.links@.contains_key(l)
            && to.links@.contains_key(l) ==> !link_touches(from.links@[l], k)
}

/// Every link of `s` joins two nodes of `s`.
pub open spec fn links_within(s: FlowGraphSchema) -> bool {
    forall|l: u128| #[trigger] s.links@.contains_key(l)
        ==> s.nodes@.contains_key(s.links@[l].source_node) && s.nodes@.contains_key(s.links@[l].target_node)
}

/// A node of `from` that `to` drops is neither an endpoint of a link that
/// `from` and `to` share nor a member of a group that they share (so it
/// holds whenever the links and groups of `to` only name nodes of `to`).
pub open spec fn dropped_nodes_detached(from: FlowGraphSchema, to: FlowGraphSchema) -> bool {
    &&& kept_links_detached(from, to)
    &&& forall|k: u128, g: u128|
        #![trigger from.nodes@.contains_key(k), from.groups@.contains_key(g)]
        from.nodes@.contains_key(k) && !to.nodes@.contains_key(k) && from.groups@.contains_key(g)
            && to.groups@.contains_key(g) ==> !from.groups@[g].node_ids@.contains_key(k)
}

/// The entries of a sorted sequence that pass a filter are sorted.
proof fn lemma_filter_sorted<V>(s: Seq<(u128, V)>, p: spec_fn((u128, V)) -> bool)
    requires
        keys_sorted(s),
    ensures
        keys_sorted(s.filter(p)),
    decreases s.len(),
{
    if s.len() > 0 {
        let q = s.drop_last();
        lemma_filter_sorted(q, p);
        q.lemma_filter_push(s.last(), p);
        assert(q.push(s.last()) == s);
        let f = s.filter(p);
        let fq = q.filter(p);
        if p(s.last()) {
            assert forall|a: int, b: int| 0 <= a < b < f.len() implies f[a].0 < f[b].0 by {
                if b == f.len() - 1 {
                    assert(f[a] == fq[a]);
                    assert(fq.contains(fq[a]));
                    q.lemma_filter_contains_rev(p, fq[a]);
                    let j = choose|j: int| 0 <= j < q.len() && q[j] == fq[a];
                    assert(s[j] == q[j]);
                } else {
                    assert(f[a] == fq[a] && f[b] == fq[b]);
                }
            }
        }
    }
}

/// Applying two lists of operations one after the other.
proof fn lemma_apply_concat(m: GraphModel, a: Seq<GraphPatchOp>, b: Seq<GraphPatchOp>)
    ensures
        apply_ops_model(m, a + b) == match apply_ops_model(m, a) {
            Some(m2) => apply_ops_model(m2, b),
            None => None,
        },
    decreases b.len(),
{
    if b.len() == 0 {
        assert(a + b == a);
    } else {
        lemma_apply_concat(m, a, b.drop_last());
        assert((a + b).drop_last() == a + b.drop_last());
        assert((a + b).last() == b.last());
    }
}

/// Adding the nodes of sorted entries keyed by their ids, none present.
proof fn lemma_apply_node_adds(m: GraphModel, s: Seq<(u128, GraphNode)>)
    requires
        keys_sorted(s),
        forall|i: int| 0 <= i < s.len() ==> (#[trigger] s[i]).1.id == s[i].0,
        forall|i: int| 0 <= i < s.len() ==> !m.0.contains_key(#[trigger] s[i].0),
    ensures
        apply_ops_model(m, s.map_values(|e: (u128, GraphNode)| GraphPatchOp::AddNode(e.1))) matches Some(r)
            && r.1 == m.1 && r.2 == m.2 && r.3 == m.3 && extends_with(m.0, r.0, s, |n: GraphNode| node_model(n)),
    decreases s.len(),
{
    let ops = s.map_values(|e: (u128, GraphNode)| GraphPatchOp::AddNode(e.1));
    if s.len() == 0 {
        assert(apply_ops_model(m, ops) == Some(m));
    } else {
        let q = s.drop_last();
        lemma_apply_node_adds(m, q);
        assert(ops.drop_last() == q.map_values(|e: (u128, GraphNode)| GraphPatchOp::AddNode(e.1)));
        let r = apply_ops_model(m, ops.drop_last())->0;
        let e = s.last();
        assert(!has_key(q, e.0)) by {
            if has_key(q, e.0) {
                let j = choose|j: int| 0 <= j < q.len() && q[j].0 == e.0;
                assert(s[j] == q[j]);
            }
        }
        assert(s[s.len() - 1] == e);
        let r2 = apply_ops_model(m, ops)->0;
        assert(r2.0 == r.0.insert(e.0, node_model(e.1)));
        assert forall|i: int| 0 <= i < s.len() implies r2.0[#[trigger] s[i].0] == node_model(s[i].1) by {
            if i < s.len() - 1 {
                assert(s[i] == q[i]);
            }
        }
        assert forall|k: u128| #[trigger] r2.0.contains_key(k) <==> (m.0.contains_key(k) || has_key(s, k)) by {
            if has_key(q, k) {
                let j = choose|j: int| 0 <= j < q.len() && q[j].0 == k;
                assert(s[j] == q[j]);
            }
            if has_key(s, k) && k != e.0 {
                let j = choose|j: int| 0 <= j < s.len() && s[j].0 == k;
                assert(q[j] == s[j]);
            }
        }
    }
}

/// Adding sorted links keyed by their ids, none present.
proof fn lemma_apply_link_adds(m: GraphModel, s: Seq<(u128, Link)>)
    requires
        keys_sorted(s),
        forall|i: int| 0 <= i < s.len() ==> (#[trigger] s[i]).1.id == s[i].0,
        forall|i: int| 0 <= i < s.len() ==> !m.1.contains_key(#[trigger] s[i].0),
    ensures
        apply_ops_model(m, s.map_values(|e: (u128, Link)| GraphPatchOp::AddLink(e.1))) matches Some(r)
            && r.0 == m.0 && r.2 == m.2 && r.3 == m.3 && extends_with(m.1, r.1, s, |l: Link| l),
    decreases s.len(),
{
    let ops = s.map_values(|e: (u128, Link)| GraphPatchOp::AddLink(e.1));
    if s.len() == 0 {
        assert(apply_ops_model(m, ops) == Some(m));
    } else {
        let q = s.drop_last();
        lemma_apply_link_adds(m, q);
        assert(ops.drop_last() == q.map_values(|e: (u128, Link)| GraphPatchOp::AddLink(e.1)));
        let r = apply_ops_model(m, ops.drop_last())->0;
        let e = s.last();
        assert(!has_key(q, e.0)) by {
            if has_key(q, e.0) {
                let j = choose|j: int| 0 <= j < q.len() && q[j].0 == e.0;
                assert(s[j] == q[j]);
            }
        }
        assert(s[s.len() - 1] == e);
        let r2 = apply_ops_model(m, ops)->0;
        assert(r2.1 == r.1.insert(e.0, e.1));
        assert forall|i: int| 0 <= i < s.len() implies r2.1[#[trigger] s[i].0] == s[i].1 by {
            if i < s.len() - 1 {
                assert(s[i] == q[i]);
            }
        }
        assert forall|k: u128| #[trigger] r2.1.contains_key(k) <==> (m.1.contains_key(k) || has_key(s, k)) by {
            if has_key(q, k) {
                let j = choose|j: int| 0 <= j < q.len() && q[j].0 == k;
                assert(s[j] == q[j]);
            }
            if has_key(s, k) && k != e.0 {
                let j = choose|j: int| 0 <= j < s.len() && s[j].0 == k;
                assert(q[j] == s[j]);
            }
        }
    }
}

/// Adding sorted groups keyed by their ids, none present.
proof fn lemma_apply_group_adds(m: GraphModel, s: Seq<(u128, Group)>)
    requires
        keys_sorted(s),
        forall|i: int| 0 <= i < s.len() ==> (#[trigger] s[i]).1.id == s[i].0,
        forall|i: int| 0 <= i < s.len() ==> !m.2.contains_key(#[trigger] s[i].0),
    ensures
        apply_ops_model(m, s.map_values(|e: (u128, Group)| GraphPatchOp::AddGroup(e.1))) matches Some(r)
            && r.0 == m.0 && r.1 == m.1 && r.3 == m.3 && extends_with(m.2, r.2, s, |g: Group| group_model(g)),
    decreases s.len(),
{
    let ops = s.map_values(|e: (u128, Group)| GraphPatchOp::AddGroup(e.1));
    if s.len() == 0 {
        assert(apply_ops_model(m, ops) == Some(m));
    } else {
        let q = s.drop_last();
        lemma_apply_group_adds(m, q);
        assert(ops.drop_last() == q.map_values(|e: (u128, Group)| GraphPatchOp::AddGroup(e.1)));
        let r = apply_ops_model(m, ops.drop_last())->0;
        let e = s.last();
        assert(!has_key(q, e.0)) by {
            if has_key(q, e.0) {
                let j = choose|j: int| 0 <= j < q.len() && q[j].0 == e.0;
                assert(s[j] == q[j]);
            }
        }
        assert(s[s.len() - 1] == e);
        let r2 = apply_ops_model(m, ops)->0;
        assert(r2.2 == r.2.insert(e.0, group_model(e.1)));
        assert forall|i: int| 0 <= i < s.len() implies r2.2[#[trigger] s[i].0] == group_model(s[i].1) by {
            if i < s.len() - 1 {
                assert(s[i] == q[i]);
            }
        }
        assert forall|k: u128| #[trigger] r2.2.contains_key(k) <==> (m.2.contains_key(k) || has_key(s, k)) by {
            if has_key(q, k) {
                let j = choose|j: int| 0 <= j < q.len() && q[j].0 == k;
                assert(s[j] == q[j]);
            }
            if has_key(s, k) && k != e.0 {
                let j = choose|j: int| 0 <= j < s.len() && s[j].0 == k;
                assert(q[j] == s[j]);
            }
        }
    }
}

/// Adding sorted subgraphs keyed by their ids, none present.
proof fn lemma_apply_subgraph_adds(m: GraphModel, s: Seq<(u128, Subgraph)>)
    requires
        keys_sorted(s),
        forall|i: int| 0 <= i < s.len() ==> (#[trigger] s[i]).1.id == s[i].0,
        forall|i: int| 0 <= i < s.len() ==> !m.3.contains_key(#[trigger] s[i].0),
    ensures
        apply_ops_model(m, s.map_values(|e: (u128, Subgraph)| GraphPatchOp::AddSubgraph(e.1))) matches Some(r)
            && r.0 == m.0 && r.1 == m.1 && r.2 == m.2 && extends_with(m.3, r.3, s, |g: Subgraph| g),
    decreases s.len(),
{
    let ops = s.map_values(|e: (u128, Subgraph)| GraphPatchOp::AddSubgraph(e.1));
    if s.len() == 0 {
        assert(apply_ops_model(m, ops) == Some(m));
    } else {
        let q = s.drop_last();
        lemma_apply_subgraph_adds(m, q);
        assert(ops.drop_last() == q.map_values(|e: (u128, Subgraph)| GraphPatchOp::AddSubgraph(e.1)));
        let r = apply_ops_model(m, ops.drop_last())->0;
        let e = s.last();
        assert(!has_key(q, e.0)) by {
            if has_key(q, e.0) {
                let j = choose|j: int| 0 <= j < q.len() && q[j].0 == e.0;
                assert(s[j] == q[j]);
            }
        }
        assert(s[s.len() - 1] == e);
        let r2 = apply_ops_model(m, ops)->0;
        assert(r2.3 == r.3.insert(e.0, e.1));
        assert forall|i: int| 0 <= i < s.len() implies r2.3[#[trigger] s[i].0] == s[i].1 by {
            if i < s.len() - 1 {
                assert(s[i] == q[i]);
            }
        }
        assert forall|k: u128| #[trigger] r2.3.contains_key(k) <==> (m.3.contains_key(k) || has_key(s, k)) by {
            if has_key(q, k) {
                let j = choose|j: int| 0 <= j < q.len() && q[j].0 == k;
                assert(s[j] == q[j]);
            }
            if has_key(s, k) && k != e.0 {
                let j = choose|j: int| 0 <= j < s.len() && s[j].0 == k;
                assert(q[j] == s[j]);
            }
        }
    }
}

/// The elements of an increasing sequence that pass a filter increase.
proof fn lemma_filter_increasing(s: Seq<u128>, p: spec_fn(u128) -> bool)
    requires
        forall|a: int, b: int| 0 <= a < b < s.len() ==> s[a] < s[b],
    ensures
        forall|a: int, b: int| 0 <= a < b < s.filter(p).len() ==> s.filter(p)[a] < s.filter(p)[b],
    decreases s.len(),
{
    if s.len() > 0 {
        let q = s.drop_last();
        lemma_filter_increasing(q, p);
        q.lemma_filter_push(s.last(), p);
        assert(q.push(s.last()) == s);
        let f = s.filter(p);
        let fq = q.filter(p);
        if p(s.last()) {
            assert forall|a: int, b: int| 0 <= a < b < f.len() implies f[a] < f[b] by {
                if b == f.len() - 1 {
                    assert(f[a] == fq[a]);
                    assert(fq.contains(fq[a]));
                    q.lemma_filter_contains_rev(p, fq[a]);
                    let j = choose|j: int| 0 <= j < q.len() && q[j] == fq[a];
                    assert(s[j] == q[j]);
                } else {
                    assert(f[a] == fq[a] && f[b] == fq[b]);
                }
            }
        }
    }
}

/// The keys of sorted entries that pass a filter: increasing, and exactly
/// the keys of the map that pass it.
proof fn lemma_keys_filter<V>(s: Seq<(u128, V)>, p: spec_fn(u128) -> bool)
    requires
        keys_sorted(s),
    ensures
        forall|a: int, b: int| 0 <= a < b < seq_keys(s).filter(p).len()
            ==> seq_keys(s).filter(p)[a] < seq_keys(s).filter(p)[b],
        forall|k: u128| #[trigger] seq_keys(s).filter(p).contains(k) <==> (seq_to_map(s).contains_key(k) && p(k)),
{
    let t = seq_keys(s);
    lemma_seq_keys(s);
    assert forall|a: int, b: int| 0 <= a < b < t.len() implies t[a] < t[b] by {
        assert(s[a].0 < s[b].0);
    }
    lemma_filter_increasing(t, p);
    assert forall|k: u128| #[trigger] t.filter(p).contains(k) <==> (seq_to_map(s).contains_key(k) && p(k)) by {
        if t.filter(p).contains(k) {
            t.lemma_filter_contains_rev(p, k);
        }
        if seq_to_map(s).contains_key(k) && p(k) {
            assert(t.contains(k));
            let i = choose|i: int| 0 <= i < t.len() && t[i] == k;
            t.lemma_filter_contains(p, i);
        }
    }
}

/// Removing nodes that no link touches, each present once: the nodes go,
/// the links stay, and the groups lose them as members.
proof fn lemma_apply_node_removals(m: GraphModel, ks: Seq<u128>)
    requires
        forall|a: int, b: int| 0 <= a < b < ks.len() ==> ks[a] < ks[b],
        forall|i: int| 0 <= i < ks.len() ==> m.0.contains_key(#[trigger] ks[i]),
        forall|i: int, l: u128| #![trigger ks[i], m.1.contains_key(l)]
            0 <= i < ks.len() && m.1.contains_key(l) ==> !link_touches(m.1[l], ks[i]),
    ensures
        apply_ops_model(m, ks.map_values(|k: u128| removal_op(DiffTarget::Node, k))) matches Some(r)
            && r.0 == m.0.remove_keys(ks.to_set())
            && r.1 == m.1
            && r.2 == m.2.map_values(|g: GroupModel| (g.0, g.1, g.2.difference(ks.to_set())))
            && r.3 == m.3,
    decreases ks.len(),
{
    let ops = ks.map_values(|k: u128| removal_op(DiffTarget::Node, k));
    if ks.len() == 0 {
        assert(apply_ops_model(m, ops) == Some(m));
        assert(m.0.remove_keys(ks.to_set()) =~= m.0);
        assert forall|g: u128| #[trigger] m.2.contains_key(g) implies
            m.2[g] == (m.2[g].0, m.2[g].1, m.2[g].2.difference(ks.to_set())) by {
            assert(m.2[g].2.difference(ks.to_set()) =~= m.2[g].2);
        }
        assert(m.2.map_values(|g: GroupModel| (g.0, g.1, g.2.difference(ks.to_set()))) =~= m.2);
    } else {
        let q = ks.drop_last();
        let e = ks.last();
        lemma_apply_node_removals(m, q);
        assert(ops.drop_last() == q.map_values(|k: u128| removal_op(DiffTarget::Node, k)));
        let r = apply_ops_model(m, ops.drop_last())->0;
        assert(ks == q.push(e));
        assert(!q.contains(e)) by {
            if q.contains(e) {
                let j = choose|j: int| 0 <= j < q.len() && q[j] == e;
                assert(ks[j] == q[j]);
            }
        }
        assert(ks[ks.len() - 1] == e);
        assert(r.0.contains_key(e));
        assert(ks.to_set() =~= q.to_set().insert(e));
        assert(links_without(r.1, e) =~= r.1) by {
            assert forall|l: u128| r.1.contains_key(l) implies !link_touches(r.1[l], e) by {
                assert(ks[ks.len() - 1] == e);
            }
        }
        let r2 = apply_ops_model(m, ops)->0;
        assert(r2.0 =~= m.0.remove_keys(ks.to_set()));
        let target = m.2.map_values(|g: GroupModel| (g.0, g.1, g.2.difference(ks.to_set())));
        assert forall|g: u128| #[trigger] r2.2.contains_key(g) implies r2.2[g] == target[g] by {
            assert(r2.2[g].2 =~= target[g].2);
        }
        assert(r2.2 =~= target);
    }
}

/// Removing links, each present once.
proof fn lemma_apply_link_removals(m: GraphModel, ks: Seq<u128>)
    requires
        forall|a: int, b: int| 0 <= a < b < ks.len() ==> ks[a] < ks[b],
        forall|i: int| 0 <= i < ks.len() ==> m.1.contains_key(#[trigger] ks[i]),
    ensures
        apply_ops_model(m, ks.map_values(|k: u128| removal_op(DiffTarget::Link, k))) matches Some(r)
            && r.0 == m.0 && r.1 == m.1.remove_keys(ks.to_set()) && r.2 == m.2 && r.3 == m.3,
    decreases ks.len(),
{
    let ops = ks.map_values(|k: u128| removal_op(DiffTarget::Link, k));
    if ks.len() == 0 {
        assert(apply_ops_model(m, ops) == Some(m));
        assert(m.1.remove_keys(ks.to_set()) =~= m.1);
    } else {
        let q = ks.drop_last();
        let e = ks.last();
        lemma_apply_link_removals(m, q);
        assert(ops.drop_last() == q.map_values(|k: u128| removal_op(DiffTarget::Link, k)));
        assert(ks == q.push(e));
        assert(!q.contains(e)) by {
            if q.contains(e) {
                let j = choose|j: int| 0 <= j < q.len() && q[j] == e;
                assert(ks[j] == q[j]);
            }
        }
        assert(ks[ks.len() - 1] == e);
        assert(ks.to_set() =~= q.to_set().insert(e));
        let r2 = apply_ops_model(m, ops)->0;
        assert(r2.1 =~= m.1.remove_keys(ks.to_set()));
    }
}

/// Removing groups, each present once.
proof fn lemma_apply_group_removals(m: GraphModel, ks: Seq<u128>)
    requires
        forall|a: int, b: int| 0 <= a < b < ks.len() ==> ks[a] < ks[b],
        forall|i: int| 0 <= i < ks.len() ==> m.2.contains_key(#[trigger] ks[i]),
    ensures
        apply_ops_model(m, ks.map_values(|k: u128| removal_op(DiffTarget::Group, k))) matches Some(r)
            && r.0 == m.0 && r.1 == m.1 && r.2 == m.2.remove_keys(ks.to_set()) && r.3 == m.3,
    decreases ks.len(),
{
    let ops = ks.map_values(|k: u128| removal_op(DiffTarget::Group, k));
    if ks.len() == 0 {
        assert(apply_ops_model(m, ops) == Some(m));
        assert(m.2.remove_keys(ks.to_set()) =~= m.2);
    } else {
        let q = ks.drop_last();
        let e = ks.last();
        lemma_apply_group_removals(m, q);
        assert(ops.drop_last() == q.map_values(|k: u128| removal_op(DiffTarget::Group, k)));
        assert(ks == q.push(e));
        assert(!q.contains(e)) by {
            if q.contains(e) {
                let j = choose|j: int| 0 <= j < q.len() && q[j] == e;
                assert(ks[j] == q[j]);
            }
        }
        assert(ks[ks.len() - 1] == e);
        assert(ks.to_set() =~= q.to_set().insert(e));
        let r2 = apply_ops_model(m, ops)->0;
        assert(r2.2 =~= m.2.remove_keys(ks.to_set()));
    }
}

/// Removing subgraphs, each present once.
proof fn lemma_apply_subgraph_removals(m: GraphModel, ks: Seq<u128>)
    requires
        forall|a: int, b: int| 0 <= a < b < ks.len() ==> ks[a] < ks[b],
        forall|i: int| 0 <= i < ks.len() ==> m.3.contains_key(#[trigger] ks[i]),
    ensures
        apply_ops_model(m, ks.map_values(|k: u128| removal_op(DiffTarget::Subgraph, k))) matches Some(r)
            && r.0 == m.0 && r.1 == m.1 && r.2 == m.2 && r.3 == m.3.remove_keys(ks.to_set()),
    decreases ks.len(),
{
    let ops = ks.map_values(|k: u128| removal_op(DiffTarget::Subgraph, k));
    if ks.len() == 0 {
        assert(apply_ops_model(m, ops) == Some(m));
        assert(m.3.remove_keys(ks.to_set()) =~= m.3);
    } else {
        let q = ks.drop_last();
        let e = ks.last();
        lemma_apply_subgraph_removals(m, q);
        assert(ops.drop_last() == q.map_values(|k: u128| removal_op(DiffTarget::Subgraph, k)));
        assert(ks == q.push(e));
        assert(!q.contains(e)) by {
            if q.contains(e) {
                let j = choose|j: int| 0 <= j < q.len() && q[j] == e;
                assert(ks[j] == q[j]);
            }
        }
        assert(ks[ks.len() - 1] == e);
        assert(ks.to_set() =~= q.to_set().insert(e));
        let r2 = apply_ops_model(m, ops)->0;
        assert(r2.3 =~= m.3.remove_keys(ks.to_set()));
    }
}

/// Extending `old` by the entries of `to` that it lacks, then dropping the
/// keys of `old` that `to` lacks, gives `to` valued by `g`, when `old`
/// agrees with `to` on the keys they share.
proof fn lemma_diff_is_target<V, W>(old: Map<u128, W>, to: Seq<(u128, V)>, new: Map<u128, W>, g: spec_fn(V) -> W, gone: Set<u128>)
    requires
        keys_sorted(to),
        forall|k: u128| #[trigger] old.contains_key(k) && seq_to_map(to).contains_key(k) ==> g(seq_to_map(to)[k]) == old[k],
        extends_with(old, new, to.filter(entry_not_in(old.dom())), g),
        forall|k: u128| #[trigger] gone.contains(k) <==> (old.contains_key(k) && !seq_to_map(to).contains_key(k)),
    ensures
        new.remove_keys(gone) == seq_to_map(to).map_values(g),
{
    let f = to.filter(entry_not_in::<V>(old.dom()));
    let target = seq_to_map(to).map_values(g);
    let res = new.remove_keys(gone);
    assert forall|k: u128| res.contains_key(k) <==> target.contains_key(k) by {
        if has_key(f, k) {
            let i = choose|i: int| 0 <= i < f.len() && f[i].0 == k;
            assert(f.contains(f[i]));
            to.lemma_filter_contains_rev(entry_not_in::<V>(old.dom()), f[i]);
            let j = choose|j: int| 0 <= j < to.len() && to[j] == f[i];
            assert(has_key(to, k));
        }
        if has_key(to, k) && !old.contains_key(k) {
            let j = choose|j: int| 0 <= j < to.len() && to[j].0 == k;
            to.lemma_filter_contains(entry_not_in::<V>(old.dom()), j);
            let i = choose|i: int| 0 <= i < f.len() && f[i] == to[j];
            assert(has_key(f, k));
        }
    }
    assert forall|k: u128| #[trigger] res.contains_key(k) implies res[k] == target[k] by {
        if !old.contains_key(k) {
            let i = choose|i: int| 0 <= i < f.len() && f[i].0 == k;
            assert(f.contains(f[i]));
            to.lemma_filter_contains_rev(entry_not_in::<V>(old.dom()), f[i]);
            let j = choose|j: int| 0 <= j < to.len() && to[j] == f[i];
            lemma_key_index(to, j);
        }
    }
    assert(res =~= target);
}

/// The sorted entries of a map are keyed by id when the map's values are.
proof fn lemma_entries_keyed<V>(s: Seq<(u128, V)>, ids: spec_fn(V) -> u128, f: Seq<(u128, V)>, p: spec_fn((u128, V)) -> bool)
    requires
        keys_sorted(s),
        forall|k: u128| #[trigger] seq_to_map(s).contains_key(k) ==> ids(seq_to_map(s)[k]) == k,
        f == s.filter(p),
    ensures
        forall|i: int| 0 <= i < f.len() ==> ids((#[trigger] f[i]).1) == f[i].0,
{
    assert forall|i: int| 0 <= i < f.len() implies ids((#[trigger] f[i]).1) == f[i].0 by {
        assert(f.contains(f[i]));
        s.lemma_filter_contains_rev(p, f[i]);
        let j = choose|j: int| 0 <= j < s.len() && s[j] == f[i];
        lemma_key_index(s, j);
    }
}

/// Dropping from `old` the keys that `to` lacks, then adding the entries of
/// `to` that `old` lacks, gives `to` valued by `g`, when `old` agrees with
/// `to` on the keys they share.
proof fn lemma_trim_extend_is_target<V, W>(old: Map<u128, W>, to: Seq<(u128, V)>, new: Map<u128, W>, g: spec_fn(V) -> W, gone: Set<u128>)
    requires
        keys_sorted(to),
        forall|k: u128| #[trigger] old.contains_key(k) && seq_to_map(to).contains_key(k) ==> g(seq_to_map(to)[k]) == old[k],
        extends_with(old.remove_keys(gone), new, to.filter(entry_not_in(old.dom())), g),
        forall|k: u128| #[trigger] gone.contains(k) <==> (old.contains_key(k) && !seq_to_map(to).contains_key(k)),
    ensures
        new == seq_to_map(to).map_values(g),
{
    let f = to.filter(entry_not_in::<V>(old.dom()));
    let target = seq_to_map(to).map_values(g);
    let trimmed = old.remove_keys(gone);
    assert forall|k: u128| new.contains_key(k) <==> target.contains_key(k) by {
        if has_key(f, k) {
            let i = choose|i: int| 0 <= i < f.len() && f[i].0 == k;
            assert(f.contains(f[i]));
            to.lemma_filter_contains_rev(entry_not_in::<V>(old.dom()), f[i]);
            let j = choose|j: int| 0 <= j < to.len() && to[j] == f[i];
            assert(has_key(to, k));
        }
        if has_key(to, k) && !old.contains_key(k) {
            let j = choose|j: int| 0 <= j < to.len() && to[j].0 == k;
            to.lemma_filter_contains(entry_not_in::<V>(old.dom()), j);
            let i = choose|i: int| 0 <= i < f.len() && f[i] == to[j];
            assert(has_key(f, k));
        }
        if trimmed.contains_key(k) {
            assert(!gone.contains(k));
        }
    }
    assert forall|k: u128| #[trigger] new.contains_key(k) implies new[k] == target[k] by {
        if !trimmed.contains_key(k) {
            let i = choose|i: int| 0 <= i < f.len() && f[i].0 == k;
            assert(f.contains(f[i]));
            to.lemma_filter_contains_rev(entry_not_in::<V>(old.dom()), f[i]);
            let j = choose|j: int| 0 <= j < to.len() && to[j] == f[i];
            lemma_key_index(to, j);
        } else {
            assert(!gone.contains(k));
        }
    }
    assert(new =~= target);
}

/// Applying the diff from `from` to `to` to `from` gives `to`, whenever
/// the two agree on every id they share, every entry of `to` is stored
/// under its own id, and no node that `to` drops is still an endpoint of a
/// link or a member of a group that both keep.
pub proof fn lemma_diff_applies(from: FlowGraphSchema, to: FlowGraphSchema)
    requires
        keys_sorted(from.nodes.entries()),
        keys_sorted(from.links.entries()),
        keys_sorted(from.groups.entries()),
        keys_sorted(from.subgraphs.entries()),
        keys_sorted(to.nodes.entries()),
        keys_sorted(to.links.entries()),
        keys_sorted(to.groups.entries()),
        keys_sorted(to.subgraphs.entries()),
        schema_keyed_by_id(to),
        schema_shared_agree(from, to),
        dropped_nodes_detached(from, to),
    ensures
        apply_ops_model(schema_model(from), diff_ops(from, to)) == Some(schema_model(to)),
{
    let m0 = schema_model(from);
    let an = to.nodes.entries().filter(entry_not_in(from.nodes@.dom()));
    let al = to.links.entries().filter(entry_not_in(from.links@.dom()));
    let ag = to.groups.entries().filter(entry_not_in(from.groups@.dom()));
    let asg = to.subgraphs.entries().filter(entry_not_in(from.subgraphs@.dom()));
    let kn = seq_keys(from.nodes.entries()).filter(key_not_in(to.nodes@.dom()));
    let kl = seq_keys(from.links.entries()).filter(key_not_in(to.links@.dom()));
    let kg = seq_keys(from.groups.entries()).filter(key_not_in(to.groups@.dom()));
    let ks = seq_keys(from.subgraphs.entries()).filter(key_not_in(to.subgraphs@.dom()));
    let on = an.map_values(|e: (u128, GraphNode)| GraphPatchOp::AddNode(e.1));
    let ol = al.map_values(|e: (u128, Link)| GraphPatchOp::AddLink(e.1));
    let og = ag.map_values(|e: (u128, Group)| GraphPatchOp::AddGroup(e.1));
    let os = asg.map_values(|e: (u128, Subgraph)| GraphPatchOp::AddSubgraph(e.1));
    let rn = kn.map_values(|k: u128| removal_op(DiffTarget::Node, k));
    let rl = kl.map_values(|k: u128| removal_op(DiffTarget::Link, k));
    let rg = kg.map_values(|k: u128| removal_op(DiffTarget::Group, k));
    let rs = ks.map_values(|k: u128| removal_op(DiffTarget::Subgraph, k));
    assert(diff_ops(from, to) == rl + on + rn + ol + og + rg + os + rs);
    lemma_apply_concat(m0, rl + on + rn + ol + og + rg + os, rs);
    lemma_apply_concat(m0, rl + on + rn + ol + og + rg, os);
    lemma_apply_concat(m0, rl + on + rn + ol + og, rg);
    lemma_apply_concat(m0, rl + on + rn + ol, og);
    lemma_apply_concat(m0, rl + on + rn, ol);
    lemma_apply_concat(m0, rl + on, rn);
    lemma_apply_concat(m0, rl, on);
    lemma_keys_filter(from.nodes.entries(), key_not_in(to.nodes@.dom()));
    lemma_keys_filter(from.links.entries(), key_not_in(to.links@.dom()));
    lemma_keys_filter(from.groups.entries(), key_not_in(to.groups@.dom()));
    lemma_keys_filter(from.subgraphs.entries(), key_not_in(to.subgraphs@.dom()));

    // links removed
    assert forall|i: int| 0 <= i < kl.len() implies m0.1.contains_key(#[trigger] kl[i]) by {
        assert(kl.contains(kl[i]));
    }
    lemma_apply_link_removals(m0, kl);
    let m1 = apply_ops_model(m0, rl)->0;

    // nodes added
    lemma_filter_sorted(to.nodes.entries(), entry_not_in::<GraphNode>(from.nodes@.dom()));
    lemma_entries_keyed(to.nodes.entries(), |n: GraphNode| n.id, an, entry_not_in::<GraphNode>(from.nodes@.dom()));
    assert forall|i: int| 0 <= i < an.len() implies !m1.0.contains_key(#[trigger] an[i].0) by {
        to.nodes.entries().lemma_filter_pred(entry_not_in::<GraphNode>(from.nodes@.dom()), i);
    }
    lemma_apply_node_adds(m1, an);
    let m2 = apply_ops_model(m1, on)->0;
    assert(m0.0.dom() =~= from.nodes@.dom());

    // nodes removed
    assert forall|i: int| 0 <= i < kn.len() implies m2.0.contains_key(#[trigger] kn[i]) by {
        assert(kn.contains(kn[i]));
    }
    assert forall|i: int, l: u128| #![trigger kn[i], m2.1.contains_key(l)]
        0 <= i < kn.len() && m2.1.contains_key(l) implies !link_touches(m2.1[l], kn[i]) by {
        assert(kn.contains(kn[i]));
        assert(from.nodes@.contains_key(kn[i]));
        assert(from.links@.contains_key(l));
        assert(!kl.to_set().contains(l));
        if !to.links@.contains_key(l) {
            assert(kl.contains(l));
        }
    }
    lemma_apply_node_removals(m2, kn);
    let m3 = apply_ops_model(m2, rn)->0;

    // links added
    lemma_filter_sorted(to.links.entries(), entry_not_in::<Link>(from.links@.dom()));
    lemma_entries_keyed(to.links.entries(), |l: Link| l.id, al, entry_not_in::<Link>(from.links@.dom()));
    assert forall|i: int| 0 <= i < al.len() implies !m3.1.contains_key(#[trigger] al[i].0) by {
        to.links.entries().lemma_filter_pred(entry_not_in::<Link>(from.links@.dom()), i);
    }
    lemma_apply_link_adds(m3, al);
    let m4 = apply_ops_model(m3, ol)->0;

    // groups added
    lemma_filter_sorted(to.groups.entries(), entry_not_in::<Group>(from.groups@.dom()));
    lemma_entries_keyed(to.groups.entries(), |g: Group| g.id, ag, entry_not_in::<Group>(from.groups@.dom()));
    assert(m4.2.dom() =~= from.groups@.dom());
    assert forall|i: int| 0 <= i < ag.len() implies !m4.2.contains_key(#[trigger] ag[i].0) by {
        to.groups.entries().lemma_filter_pred(entry_not_in::<Group>(from.groups@.dom()), i);
    }
    lemma_apply_group_adds(m4, ag);
    let m5 = apply_ops_model(m4, og)->0;

    // groups removed
    assert forall|i: int| 0 <= i < kg.len() implies m5.2.contains_key(#[trigger] kg[i]) by {
        assert(kg.contains(kg[i]));
    }
    lemma_apply_group_removals(m5, kg);
    let m6 = apply_ops_model(m5, rg)->0;

    // subgraphs added
    lemma_filter_sorted(to.subgraphs.entries(), entry_not_in::<Subgraph>(from.subgraphs@.dom()));
    lemma_entries_keyed(to.subgraphs.entries(), |g: Subgraph| g.id, asg, entry_not_in::<Subgraph>(from.subgraphs@.dom()));
    assert forall|i: int| 0 <= i < asg.len() implies !m6.3.contains_key(#[trigger] asg[i].0) by {
        to.subgraphs.entries().lemma_filter_pred(entry_not_in::<Subgraph>(from.subgraphs@.dom()), i);
    }
    lemma_apply_subgraph_adds(m6, asg);
    let m7 = apply_ops_model(m6, os)->0;

    // subgraphs removed
    assert forall|i: int| 0 <= i < ks.len() implies m7.3.contains_key(#[trigger] ks[i]) by {
        assert(ks.contains(ks[i]));
    }
    lemma_apply_subgraph_removals(m7, ks);
    let m8 = apply_ops_model(m7, rs)->0;

    // the result, collection by collection
    lemma_diff_is_target(m1.0, to.nodes.entries(), m2.0, |n: GraphNode| node_model(n), kn.to_set());
    assert(m0.1.dom() =~= from.links@.dom());
    lemma_trim_extend_is_target(m0.1, to.links.entries(), m4.1, |l: Link| l, kl.to_set());
    assert(seq_to_map(to.links.entries()).map_values(|l: Link| l) =~= to.links@);
    assert forall|k: u128| #[trigger] m4.2.contains_key(k) && seq_to_map(to.groups.entries()).contains_key(k)
        implies group_model(seq_to_map(to.groups.entries())[k]) == m4.2[k] by {
        let g0 = group_model(from.groups@[k]);
        assert(m4.2[k].2 =~= g0.2) by {
            assert forall|x: u128| kn.to_set().contains(x) implies !g0.2.contains(x) by {
                assert(kn.contains(x));
                assert(from.nodes@.contains_key(x));
                assert(from.groups@.contains_key(k));
            }
        }
    }
    lemma_diff_is_target(m4.2, to.groups.entries(), m5.2, |g: Group| group_model(g), kg.to_set());
    lemma_diff_is_target(m6.3, to.subgraphs.entries(), m7.3, |g: Subgraph| g, ks.to_set());
    assert(seq_to_map(to.subgraphs.entries()).map_values(|g: Subgraph| g) =~= to.subgraphs@);
}

/// The ids that the diff leaves: the ids of `old` that are not `gone`, and
/// the ids of the entries of `to` that `old` lacks, are the ids of `to`,
/// when `gone` is the ids of `old` that `to` lacks.
proof fn lemma_diff_keys<V>(old: Set<u128>, to: Seq<(u128, V)>, gone: Set<u128>)
    requires
        forall|k: u128| #[trigger] gone.contains(k) <==> (old.contains(k) && !seq_to_map(to).contains_key(k)),
    ensures
        forall|k: u128| #[trigger] seq_to_map(to).contains_key(k)
            <==> ((old.contains(k) || has_key(to.filter(entry_not_in(old)), k)) && !gone.contains(k)),
        forall|k: u128| #[trigger] has_key(to.filter(entry_not_in(old)), k) ==> !old.contains(k),
{
    let f = to.filter(entry_not_in::<V>(old));
    assert forall|k: u128| #[trigger] has_key(f, k) implies has_key(to, k) && !old.contains(k) by {
        let i = choose|i: int| 0 <= i < f.len() && f[i].0 == k;
        assert(f.contains(f[i]));
        to.lemma_filter_contains_rev(entry_not_in::<V>(old), f[i]);
        let j = choose|j: int| 0 <= j < to.len() && to[j] == f[i];
        assert(has_key(to, k));
        to.lemma_filter_pred(entry_not_in::<V>(old), i);
    }
    assert forall|k: u128| #[trigger] seq_to_map(to).contains_key(k)
        <==> ((old.contains(k) || has_key(f, k)) && !gone.contains(k)) by {
        if has_key(to, k) && !old.contains(k) {
            let j = choose|j: int| 0 <= j < to.len() && to[j].0 == k;
            to.lemma_filter_contains(entry_not_in::<V>(old), j);
            let i = choose|i: int| 0 <= i < f.len() && f[i] == to[j];
            assert(has_key(f, k));
        }
    }
}

/// Applying the diff from `from` to `to` to `from` succeeds and leaves
/// exactly the node, link, group and subgraph ids of `to`, whenever every
/// entry of `to` is stored under its own id and no link that both keep
/// touches, as `from` has it, a node that `to` drops.
pub proof fn lemma_diff_applies_keys(from: FlowGraphSchema, to: FlowGraphSchema)
    requires
        keys_sorted(from.nodes.entries()),
        keys_sorted(from.links.entries()),
        keys_sorted(from.groups.entries()),
        keys_sorted(from.subgraphs.entries()),
        keys_sorted(to.nodes.entries()),
        keys_sorted(to.links.entries()),
        keys_sorted(to.groups.entries()),
        keys_sorted(to.subgraphs.entries()),
        schema_keyed_by_id(to),
        kept_links_detached(from, to),
    ensures
        apply_ops_model(schema_model(from), diff_ops(from, to)) matches Some(m)
            && m.0.dom() == to.nodes@.dom()
            && m.1.dom() == to.links@.dom()
            && m.2.dom() == to.groups@.dom()
            && m.3.dom() == to.subgraphs@.dom(),
{
    let m0 = schema_model(from);
    let an = to.nodes.entries().filter(entry_not_in(from.nodes@.dom()));
    let al = to.links.entries().filter(entry_not_in(from.links@.dom()));
    let ag = to.groups.entries().filter(entry_not_in(from.groups@.dom()));
    let asg = to.subgraphs.entries().filter(entry_not_in(from.subgraphs@.dom()));
    let kn = seq_keys(from.nodes.entries()).filter(key_not_in(to.nodes@.dom()));
    let kl = seq_keys(from.links.entries()).filter(key_not_in(to.links@.dom()));
    let kg = seq_keys(from.groups.entries()).filter(key_not_in(to.groups@.dom()));
    let ks = seq_keys(from.subgraphs.entries()).filter(key_not_in(to.subgraphs@.dom()));
    let on = an.map_values(|e: (u128, GraphNode)| GraphPatchOp::AddNode(e.1));
    let ol = al.map_values(|e: (u128, Link)| GraphPatchOp::AddLink(e.1));
    let og = ag.map_values(|e: (u128, Group)| GraphPatchOp::AddGroup(e.1));
    let os = asg.map_values(|e: (u128, Subgraph)| GraphPatchOp::AddSubgraph(e.1));
    let rn = kn.map_values(|k: u128| removal_op(DiffTarget::Node, k));
    let rl = kl.map_values(|k: u128| removal_op(DiffTarget::Link, k));
    let rg = kg.map_values(|k: u128| removal_op(DiffTarget::Group, k));
    let rs = ks.map_values(|k: u128| removal_op(DiffTarget::Subgraph, k));
    assert(diff_ops(from, to) == rl + on + rn + ol + og + rg + os + rs);
    lemma_apply_concat(m0, rl + on + rn + ol + og + rg + os, rs);
    lemma_apply_concat(m0, rl + on + rn + ol + og + rg, os);
    lemma_apply_concat(m0, rl + on + rn + ol + og, rg);
    lemma_apply_concat(m0, rl + on + rn + ol, og);
    lemma_apply_concat(m0, rl + on + rn, ol);
    lemma_apply_concat(m0, rl + on, rn);
    lemma_apply_concat(m0, rl, on);
    lemma_keys_filter(from.nodes.entries(), key_not_in(to.nodes@.dom()));
    lemma_keys_filter(from.links.entries(), key_not_in(to.links@.dom()));
    lemma_keys_filter(from.groups.entries(), key_not_in(to.groups@.dom()));
    lemma_keys_filter(from.subgraphs.entries(), key_not_in(to.subgraphs@.dom()));

    // links removed
    assert forall|i: int| 0 <= i < kl.len() implies m0.1.contains_key(#[trigger] kl[i]) by {
        assert(kl.contains(kl[i]));
    }
    lemma_apply_link_removals(m0, kl);
    let m1 = apply_ops_model(m0, rl)->0;

    // nodes added
    lemma_filter_sorted(to.nodes.entries(), entry_not_in::<GraphNode>(from.nodes@.dom()));
    lemma_entries_keyed(to.nodes.entries(), |n: GraphNode| n.id, an, entry_not_in::<GraphNode>(from.nodes@.dom()));
    assert forall|i: int| 0 <= i < an.len() implies !m1.0.contains_key(#[trigger] an[i].0) by {
        to.nodes.entries().lemma_filter_pred(entry_not_in::<GraphNode>(from.nodes@.dom()), i);
    }
    lemma_apply_node_adds(m1, an);
    let m2 = apply_ops_model(m1, on)->0;
    assert(m0.0.dom() =~= from.nodes@.dom());

    // nodes removed
    assert forall|i: int| 0 <= i < kn.len() implies m2.0.contains_key(#[trigger] kn[i]) by {
        assert(kn.contains(kn[i]));
    }
    assert forall|i: int, l: u128| #![trigger kn[i], m2.1.contains_key(l)]
        0 <= i < kn.len() && m2.1.contains_key(l) implies !link_touches(m2.1[l], kn[i]) by {
        assert(kn.contains(kn[i]));
        assert(from.nodes@.contains_key(kn[i]));
        assert(from.links@.contains_key(l));
        assert(!kl.to_set().contains(l));
        if !to.links@.contains_key(l) {
            assert(kl.contains(l));
        }
    }
    lemma_apply_node_removals(m2, kn);
    let m3 = apply_ops_model(m2, rn)->0;

    // links added
    lemma_filter_sorted(to.links.entries(), entry_not_in::<Link>(from.links@.dom()));
    lemma_entries_keyed(to.links.entries(), |l: Link| l.id, al, entry_not_in::<Link>(from.links@.dom()));
    assert forall|i: int| 0 <= i < al.len() implies !m3.1.contains_key(#[trigger] al[i].0) by {
        to.links.entries().lemma_filter_pred(entry_not_in::<Link>(from.links@.dom()), i);
    }
    lemma_apply_link_adds(m3, al);
    let m4 = apply_ops_model(m3, ol)->0;

    // groups added
    lemma_filter_sorted(to.groups.entries(), entry_not_in::<Group>(from.groups@.dom()));
    lemma_entries_keyed(to.groups.entries(), |g: Group| g.id, ag, entry_not_in::<Group>(from.groups@.dom()));
    assert(m4.2.dom() =~= from.groups@.dom());
    assert forall|i: int| 0 <= i < ag.len() implies !m4.2.contains_key(#[trigger] ag[i].0) by {
        to.groups.entries().lemma_filter_pred(entry_not_in::<Group>(from.groups@.dom()), i);
    }
    lemma_apply_group_adds(m4, ag);
    let m5 = apply_ops_model(m4, og)->0;

    // groups removed
    assert forall|i: int| 0 <= i < kg.len() implies m5.2.contains_key(#[trigger] kg[i]) by {
        assert(kg.contains(kg[i]));
    }
    lemma_apply_group_removals(m5, kg);
    let m6 = apply_ops_model(m5, rg)->0;

    // subgraphs added
    lemma_filter_sorted(to.subgraphs.entries(), entry_not_in::<Subgraph>(from.subgraphs@.dom()));
    lemma_entries_keyed(to.subgraphs.entries(), |g: Subgraph| g.id, asg, entry_not_in::<Subgraph>(from.subgraphs@.dom()));
    assert forall|i: int| 0 <= i < asg.len() implies !m6.3.contains_key(#[trigger] asg[i].0) by {
        to.subgraphs.entries().lemma_filter_pred(entry_not_in::<Subgraph>(from.subgraphs@.dom()), i);
    }
    lemma_apply_subgraph_adds(m6, asg);
    let m7 = apply_ops_model(m6, os)->0;

    // subgraphs removed
    assert forall|i: int| 0 <= i < ks.len() implies m7.3.contains_key(#[trigger] ks[i]) by {
        assert(ks.contains(ks[i]));
    }
    lemma_apply_subgraph_removals(m7, ks);
    let m8 = apply_ops_model(m7, rs)->0;

    // the ids, collection by collection
    lemma_diff_keys(from.nodes@.dom(), to.nodes.entries(), kn.to_set());
    assert(m8.0.dom() =~= to.nodes@.dom());
    lemma_diff_keys(from.links@.dom(), to.links.entries(), kl.to_set());
    assert(m8.1.dom() =~= to.links@.dom());
    lemma_diff_keys(from.groups@.dom(), to.groups.entries(), kg.to_set());
    assert(m8.2.dom() =~= to.groups@.dom());
    lemma_diff_keys(from.subgraphs@.dom(), to.subgraphs.entries(), ks.to_set());
    assert(m8.3.dom() =~= to.subgraphs@.dom());
}

/// When `to`'s links join `to`'s nodes and the links both keep are the
/// same in both, no link both keep touches a node that `to` drops.
pub proof fn lemma_links_within_detached(from: FlowGraphSchema, to: FlowGraphSchema)
    requires
        links_within(to),
        forall|l: u128| #[trigger] from.links@.contains_key(l) && to.links@.contains_key(l)
            ==> from.links@[l] == to.links@[l],
    ensures
        kept_links_detached(from, to),
{
}

/// The entries of `to` whose key is not in `from`, in order.
fn added_entries<T>(to: Vec<(u128, T)>, from: &Vec<u128>) -> (r: Vec<(u128, T)>)
    ensures
        r@ == to@.filter(entry_not_in(from@.to_set())),
{
    let ghost orig = to@;
    let ghost p = entry_not_in::<T>(from@.to_set());
    let mut rest = to;
    let mut out: Vec<(u128, T)> = Vec::new();
    let n = rest.len();
    let mut i: usize = 0;
    while i < n
        invariant
            n == orig.len(),
            i <= n,
            rest@ == orig.skip(i as int),
            p == entry_not_in::<T>(from@.to_set()),
            out@ == orig.take(i as int).filter(p),
        decreases n - i,
    {
        proof {
            assert(orig.take(i + 1) == orig.take(i as int).push(orig[i as int]));
            orig.take(i as int).lemma_filter_push(orig[i as int], p);
            assert(rest@[0] == orig[i as int]);
        }
        let e = rest.remove(0);
        proof {
            assert(rest@ =~= orig.skip(i + 1));
        }
        if !contains_id(from, e.0) {
            out.push(e);
        }
        i = i + 1;
    }
    proof {
        assert(orig.take(n as int) == orig);
    }
    out
}

/// The keys of `from` not in `to`, in order.
fn removed_keys(from: &Vec<u128>, to: &Vec<u128>) -> (r: Vec<u128>)
    ensures
        r@ == from@.filter(key_not_in(to@.to_set())),
{
    let ghost p = key_not_in(to@.to_set());
    let mut out: Vec<u128> = Vec::new();
    let n = from.len();
    for i in 0..n
        invariant
            n == from@.len(),
            p == key_not_in(to@.to_set()),
            out@ == from@.take(i as int).filter(p),
    {
        proof {
            assert(from@.take(i + 1) == from@.take(i as int).push(from@[i as int]));
            from@.take(i as int).lemma_filter_push(from@[i as int], p);
        }
        if !contains_id(to, from[i]) {
            out.push(from[i]);
        }
    }
    proof {
        assert(from@.take(n as int) == from@);
    }
    out
}

/// The removal operations of `what` for `keys`, in order.
fn removal_ops(keys: &Vec<u128>, what: DiffTarget) -> (r: Vec<GraphPatchOp>)
    ensures
        r@ == keys@.map_values(|k: u128| removal_op(what, k)),
{
    let mut out: Vec<GraphPatchOp> = Vec::new();
    let n = keys.len();
    for i in 0..n
        invariant
            n == keys@.len(),
            out@ == keys@.take(i as int).map_values(|k: u128| removal_op(what, k)),
    {
        let k = keys[i];
        let op = match what {
            DiffTarget::Node => GraphPatchOp::RemoveNode { id: k },
            DiffTarget::Link => GraphPatchOp::RemoveLink { id: k },
            DiffTarget::Group => GraphPatchOp::RemoveGroup { id: k },
            DiffTarget::Subgraph => GraphPatchOp::RemoveSubgraph { id: k },
        };
        proof {
            assert(keys@.take(i + 1).map_values(|k: u128| removal_op(what, k))
                =~= keys@.take(i as int).map_values(|k: u128| removal_op(what, k)).push(op));
        }
        out.push(op);
    }
    proof {
        assert(keys@.take(n as int) == keys@);
    }
    out
}

/// `AddNode` for each entry, in order.
fn node_adds(v: Vec<(u128, GraphNode)>) -> (r: Vec<GraphPatchOp>)
    ensures
        r@ == v@.map_values(|e: (u128, GraphNode)| GraphPatchOp::AddNode(e.1)),
{
    let ghost orig = v@;
    let mut rest = v;
    let mut out: Vec<GraphPatchOp> = Vec::new();
    let n = rest.len();
    let mut i: usize = 0;
    while i < n
        invariant
            n == orig.len(),
            i <= n,
            rest@ == orig.skip(i as int),
            out@ == orig.take(i as int).map_values(|e: (u128, GraphNode)| GraphPatchOp::AddNode(e.1)),
        decreases n - i,
    {
        proof { assert(rest@[0] == orig[i as int]); }
        let e = rest.remove(0);
        proof {
            assert(rest@ =~= orig.skip(i + 1));
            assert(orig.take(i + 1).map_values(|e: (u128, GraphNode)| GraphPatchOp::AddNode(e.1))
                =~= orig.take(i as int).map_values(|e: (u128, GraphNode)| GraphPatchOp::AddNode(e.1)).push(GraphPatchOp::AddNode(e.1)));
        }
        out.push(GraphPatchOp::AddNode(e.1));
        i = i + 1;
    }
    proof { assert(orig.take(n as int) == orig); }
    out
}

/// `AddLink` for each entry, in order.
fn link_adds(v: Vec<(u128, Link)>) -> (r: Vec<GraphPatchOp>)
    ensures
        r@ == v@.map_values(|e: (u128, Link)| GraphPatchOp::AddLink(e.1)),
{
    let ghost orig = v@;
    let mut rest = v;
    let mut out: Vec<GraphPatchOp> = Vec::new();
    let n = rest.len();
    let mut i: usize = 0;
    while i < n
        invariant
            n == orig.len(),
            i <= n,
            rest@ == orig.skip(i as int),
            out@ == orig.take(i as int).map_values(|e: (u128, Link)| GraphPatchOp::AddLink(e.1)),
        decreases n - i,
    {
        proof { assert(rest@[0] == orig[i as int]); }
        let e = rest.remove(0);
        proof {
            assert(rest@ =~= orig.skip(i + 1));
            assert(orig.take(i + 1).map_values(|e: (u128, Link)| GraphPatchOp::AddLink(e.1))
                =~= orig.take(i as int).map_values(|e: (u128, Link)| GraphPatchOp::AddLink(e.1)).push(GraphPatchOp::AddLink(e.1)));
        }
        out.push(GraphPatchOp::AddLink(e.1));
        i = i + 1;
    }
    proof { assert(orig.take(n as int) == orig); }
    out
}

/// `AddGroup` for each entry, in order.
fn group_adds(v: Vec<(u128, Group)>) -> (r: Vec<GraphPatchOp>)
    ensures
        r@ == v@.map_values(|e: (u128, Group)| GraphPatchOp::AddGroup(e.1)),
{
    let ghost orig = v@;
    let mut rest = v;
    let mut out: Vec<GraphPatchOp> = Vec::new();
    let n = rest.len();
    let mut i: usize = 0;
    while i < n
        invariant
            n == orig.len(),
            i <= n,
            rest@ == orig.skip(i as int),
            out@ == orig.take(i as int).map_values(|e: (u128, Group)| GraphPatchOp::AddGroup(e.1)),
        decreases n - i,
    {
        proof { assert(rest@[0] == orig[i as int]); }
        let e = rest.remove(0);
        proof {
            assert(rest@ =~= orig.skip(i + 1));
            assert(orig.take(i + 1).map_values(|e: (u128, Group)| GraphPatchOp::AddGroup(e.1))
                =~= orig.take(i as int).map_values(|e: (u128, Group)| GraphPatchOp::AddGroup(e.1)).push(GraphPatchOp::AddGroup(e.1)));
        }
        out.push(GraphPatchOp::AddGroup(e.1));
        i = i + 1;
    }
    proof { assert(orig.take(n as int) == orig); }
    out
}

/// `AddSubgraph` for each entry, in order.
fn subgraph_adds(v: Vec<(u128, Subgraph)>) -> (r: Vec<GraphPatchOp>)
    ensures
        r@ == v@.map_values(|e: (u128, Subgraph)| GraphPatchOp::AddSubgraph(e.1)),
{
    let ghost orig = v@;
    let mut rest = v;
    let mut out: Vec<GraphPatchOp> = Vec::new();
    let n = rest.len();
    let mut i: usize = 0;
    while i < n
        invariant
            n == orig.len(),
            i <= n,
            rest@ == orig.skip(i as int),
            out@ == orig.take(i as int).map_values(|e: (u128, Subgraph)| GraphPatchOp::AddSubgraph(e.1)),
        decreases n - i,
    {
        proof { assert(rest@[0] == orig[i as int]); }
        let e = rest.remove(0);
        proof {
            assert(rest@ =~= orig.skip(i + 1));
            assert(orig.take(i + 1).map_values(|e: (u128, Subgraph)| GraphPatchOp::AddSubgraph(e.1))
                =~= orig.take(i as int).map_values(|e: (u128, Subgraph)| GraphPatchOp::AddSubgraph(e.1)).push(GraphPatchOp::AddSubgraph(e.1)));
        }
        out.push(GraphPatchOp::AddSubgraph(e.1));
        i = i + 1;
    }
    proof { assert(orig.take(n as int) == orig); }
    out
}

impl SubgraphMap {
    /// Take the entries out, in ascending key order.
    pub fn into_entries(self) -> (r: Vec<(u128, Subgraph)>)
        ensures
            r@ == self.entries(),
    {
        self.entries
    }

    /// The ids in ascending order.
    fn key_list(&self) -> (r: Vec<u128>)
        ensures
            r@ == seq_keys(self.entries()),
            r@.to_set() == self@.dom(),
    {
        proof {
            use_type_invariant(self);
        }
        let r = entries_keys(&self.entries);
        proof {
            lemma_seq_keys(self.entries@);
            assert(r@.to_set() =~= self@.dom());
        }
        r
    }
}

/// The keys of an identifier map, with their set.
fn key_list<T>(m: &IdMap<T>) -> (r: Vec<u128>)
    ensures
        r@ == seq_keys(m.entries()),
        r@.to_set() == m@.dom(),
{
    let r = m.keys();
    proof {
        assert(r@.to_set() =~= m@.dom());
    }
    r
}

impl FlowGraph {
    /// The patch that turns `from` into `to` (consumed: the added items move
    /// into the patch), as `diff_ops` lists it.
    pub fn compute_diff(from: &FlowGraphSchema, to: FlowGraphSchema, author: &str) -> (r: GraphPatch)
        ensures
            r.ops@ == diff_ops(*from, to),
            r.author@ == author@,
    {
        let ghost to0 = to;
        let fk_nodes = key_list(&from.nodes);
        let tk_nodes = key_list(&to.nodes);
        let fk_links = key_list(&from.links);
        let tk_links = key_list(&to.links);
        let fk_groups = key_list(&from.groups);
        let tk_groups = key_list(&to.groups);
        let fk_subs = from.subgraphs.key_list();
        let tk_subs = to.subgraphs.key_list();
        let FlowGraphSchema { nodes, links, groups, subgraphs, .. } = to;
        let mut ops = removal_ops(&removed_keys(&fk_links, &tk_links), DiffTarget::Link);
        let mut part = node_adds(added_entries(nodes.into_entries(), &fk_nodes));
        ops.append(&mut part);
        let mut part = removal_ops(&removed_keys(&fk_nodes, &tk_nodes), DiffTarget::Node);
        ops.append(&mut part);
        let mut part = link_adds(added_entries(links.into_entries(), &fk_links));
        ops.append(&mut part);
        let mut part = group_adds(added_entries(groups.into_entries(), &fk_groups));
        ops.append(&mut part);
        let mut part = removal_ops(&removed_keys(&fk_groups, &tk_groups), DiffTarget::Group);
        ops.append(&mut part);
        let mut part = subgraph_adds(added_entries(subgraphs.into_entries(), &fk_subs));
        ops.append(&mut part);
        let mut part = removal_ops(&removed_keys(&fk_subs, &tk_subs), DiffTarget::Subgraph);
        ops.append(&mut part);
        proof {
            assert(ops@ =~= diff_ops(*from, to0));
        }
        GraphPatch::new(author, ops)
    }
}

/// Copies of port maps keep every entry.
proof fn lemma_port_clone(a: IdMap<PortDef>, b: IdMap<PortDef>)
    requires
        b.entries().len() == a.entries().len(),
        forall|i: int| 0 <= i < a.entries().len() ==> (#[trigger] b.entries()[i]).0 == a.entries()[i].0
            && cloned::<PortDef>(a.entries()[i].1, b.entries()[i].1),
    ensures
        b.entries() == a.entries(),
        b@ == a@,
{
    assert forall|i: int| 0 <= i < a.entries().len() implies b.entries()[i] == a.entries()[i] by {
        assert(b.entries()[i].0 == a.entries()[i].0);
    }
    assert(b.entries() =~= a.entries());
}

/// Copies of member maps keep every entry.
proof fn lemma_unit_clone(a: IdMap<()>, b: IdMap<()>)
    requires
        b.entries().len() == a.entries().len(),
        forall|i: int| 0 <= i < a.entries().len() ==> (#[trigger] b.entries()[i]).0 == a.entries()[i].0,
    ensures
        b.entries() == a.entries(),
        b@ == a@,
{
    assert forall|i: int| 0 <= i < a.entries().len() implies b.entries()[i] == a.entries()[i] by {
        assert(b.entries()[i].0 == a.entries()[i].0);
    }
    assert(b.entries() =~= a.entries());
}

impl Clone for GraphNode {
    fn clone(&self) -> (r: Self)
        ensures
            node_model(r) == node_model(*self),
            r.ports.entries() == self.ports.entries(),
            r.parameters.entries() == self.parameters.entries(),
    {
        let ports = self.ports.clone();
        proof {
            lemma_port_clone(self.ports, ports);
        }
        GraphNode {
            id: self.id,
            kind: self.kind.clone(),
            label: self.label.clone(),
            ports,
            parameters: self.parameters.clone(),
            position: self.position,
            subgraph_ref: self.subgraph_ref,
            provenance: self.provenance.clone(),
        }
    }
}

impl Clone for Group {
    fn clone(&self) -> (r: Self)
        ensures
            group_model(r) == group_model(*self),
            r.node_ids.entries() == self.node_ids.entries(),
    {
        let node_ids = self.node_ids.clone();
        proof {
            lemma_unit_clone(self.node_ids, node_ids);
        }
        Group { id: self.id, name: self.name.clone(), node_ids }
    }
}


impl Clone for RelationKind {
    fn clone(&self) -> (r: Self)
        ensures
            r == *self,
    {
        match self {
            RelationKind::DependsOn => RelationKind::DependsOn,
            RelationKind::Triggers => RelationKind::Triggers,
            RelationKind::ObservedBy => RelationKind::ObservedBy,
            RelationKind::ProvidesDataTo => RelationKind::ProvidesDataTo,
            RelationKind::Custom(t) => RelationKind::Custom(t.clone()),
        }
    }
}

impl Clone for NodeRelation {
    fn clone(&self) -> (r: Self)
        ensures
            r.id == self.id && r.from_node == self.from_node && r.to_node == self.to_node && r.kind == self.kind
                && r.label == self.label && r.metadata@ == self.metadata@,
    {
        NodeRelation {
            id: self.id,
            from_node: self.from_node,
            to_node: self.to_node,
            kind: self.kind.clone(),
            label: match &self.label {
                Some(l) => Some(l.clone()),
                None => None,
            },
            metadata: self.metadata.clone(),
        }
    }
}

impl Subgraph {
    /// A deep copy, nested subgraphs included.
    pub fn duplicate(&self) -> (r: Subgraph)
        ensures
            r.id == self.id,
            r.version == self.version,
            r.name == self.name,
            r.description == self.description,
            r.exposed_inputs@ == self.exposed_inputs@,
            r.exposed_outputs@ == self.exposed_outputs@,
            schema_model(r.inner).0 == schema_model(self.inner).0,
            r.inner.graph_id == self.inner.graph_id,
        decreases self,
    {
        let ins = self.exposed_inputs.clone();
        let outs = self.exposed_outputs.clone();
        proof {
            lemma_port_clone(self.exposed_inputs, ins);
            lemma_port_clone(self.exposed_outputs, outs);
        }
        Subgraph {
            id: self.id,
            version: self.version,
            name: self.name.clone(),
            description: self.description.clone(),
            exposed_inputs: ins,
            exposed_outputs: outs,
            inner: self.inner.duplicate(),
        }
    }
}

impl SubgraphMap {
    /// A deep copy of every subgraph, under the same ids.
    pub fn duplicate(&self) -> (r: SubgraphMap)
        ensures
            r@.dom() == self@.dom(),
        decreases self,
    {
        proof {
            use_type_invariant(self);
        }
        let mut out: Vec<(u128, Subgraph)> = Vec::new();
        let n = self.entries.len();
        for i in 0..n
            invariant
                n == self.entries@.len(),
                out@.len() == i,
                forall|j: int| 0 <= j < i ==> (#[trigger] out@[j]).0 == self.entries@[j].0,
        {
            proof {
                assert(decreases_to!(self => self.entries));
                assert(decreases_to!(self.entries => self.entries@));
                assert(decreases_to!(self.entries@ => self.entries@[i as int]));
                assert(decreases_to!(self.entries@[i as int] => self.entries@[i as int].1));
            }
            let d = self.entries[i].1.duplicate();
            out.push((self.entries[i].0, d));
        }
        proof {
            lemma_same_keys_sorted(self.entries@, out@);
            let r = SubgraphMap { entries: out };
            assert forall|k: u128| r@.dom().contains(k) == self@.dom().contains(k) by {
                if has_key(out@, k) {
                    let j = key_index(out@, k);
                    assert(self.entries@[j].0 == k);
                }
                if has_key(self.entries@, k) {
                    let j = key_index(self.entries@, k);
                    assert(out@[j].0 == k);
                }
            }
        }
        let r = SubgraphMap { entries: out };
        proof {
            assert(r@.dom() =~= self@.dom());
        }
        r
    }
}

impl FlowGraphSchema {
    /// A deep copy: the same version, ids, nodes, links, groups, relations
    /// and (copied) subgraphs.
    pub fn duplicate(&self) -> (r: FlowGraphSchema)
        ensures
            r.schema_version == self.schema_version,
            r.graph_id == self.graph_id,
            r.dimension_id == self.dimension_id,
            schema_model(r).0 == schema_model(*self).0,
            r.nodes.entries().len() == self.nodes.entries().len(),
            forall|i: int| 0 <= i < self.nodes.entries().len() ==> (#[trigger] r.nodes.entries()[i]).0 == self.nodes.entries()[i].0
                && node_model(r.nodes.entries()[i].1) == node_model(self.nodes.entries()[i].1),
            r.links@ == self.links@,
            schema_model(r).2 == schema_model(*self).2,
            r.subgraphs@.dom() == self.subgraphs@.dom(),
            r.relations@.dom() == self.relations@.dom(),
        decreases self,
    {
        let _ = self.nodes.len();
        let _ = self.links.len();
        let _ = self.groups.len();
        let _ = self.relations.len();
        let nodes = self.nodes.clone();
        let links = self.links.clone();
        let groups = self.groups.clone();
        let relations = self.relations.clone();
        proof {
            lemma_node_clone(self.nodes, nodes);
            lemma_link_clone(self.links, links);
            lemma_group_clone(self.groups, groups);
            lemma_relation_clone(self.relations, relations);
            assert(decreases_to!(self => self.subgraphs));
        }
        FlowGraphSchema {
            schema_version: self.schema_version,
            graph_id: self.graph_id,
            dimension_id: self.dimension_id,
            nodes,
            links,
            groups,
            subgraphs: self.subgraphs.duplicate(),
            relations,
        }
    }
}


/// Two entry maps with the same keys at the same positions have the same
/// keys, and a key sits at the same position in both.
proof fn lemma_same_keys_maps<T, U>(a: IdMap<T>, b: IdMap<U>)
    requires
        keys_sorted(a.entries()),
        a.entries().len() == b.entries().len(),
        forall|i: int| 0 <= i < a.entries().len() ==> (#[trigger] b.entries()[i]).0 == a.entries()[i].0,
    ensures
        a@.dom() == b@.dom(),
        forall|k: u128| #[trigger] a@.contains_key(k) ==> {
            let j = key_index(a.entries(), k);
            &&& 0 <= j < a.entries().len()
            &&& a@[k] == a.entries()[j].1
            &&& b@[k] == b.entries()[j].1
        },
{
    lemma_same_keys_sorted(a.entries(), b.entries());
    assert forall|k: u128| a@.dom().contains(k) == b@.dom().contains(k) by {
        if has_key(a.entries(), k) {
            let j = key_index(a.entries(), k);
            assert(b.entries()[j].0 == k);
        }
        if has_key(b.entries(), k) {
            let j = key_index(b.entries(), k);
            assert(a.entries()[j].0 == k);
        }
    }
    assert(a@.dom() =~= b@.dom());
    assert forall|k: u128| #[trigger] a@.contains_key(k) implies ({
        let j = key_index(a.entries(), k);
        &&& 0 <= j < a.entries().len()
        &&& a@[k] == a.entries()[j].1
        &&& b@[k] == b.entries()[j].1
    }) by {
        let j = key_index(a.entries(), k);
        lemma_key_index(a.entries(), j);
        assert(b.entries()[j].0 == k);
        lemma_key_index(b.entries(), j);
    }
}

/// Copies of the nodes have the same models.
proof fn lemma_node_clone(a: IdMap<GraphNode>, b: IdMap<GraphNode>)
    requires
        keys_sorted(a.entries()),
        b.entries().len() == a.entries().len(),
        forall|i: int| 0 <= i < a.entries().len() ==> (#[trigger] b.entries()[i]).0 == a.entries()[i].0
            && cloned::<GraphNode>(a.entries()[i].1, b.entries()[i].1),
    ensures
        b@.map_values(|n: GraphNode| node_model(n)) == a@.map_values(|n: GraphNode| node_model(n)),
        forall|i: int| 0 <= i < a.entries().len() ==> node_model((#[trigger] b.entries()[i]).1) == node_model(a.entries()[i].1),
{
    lemma_same_keys_maps(a, b);
    assert forall|i: int| 0 <= i < a.entries().len() implies node_model((#[trigger] b.entries()[i]).1) == node_model(a.entries()[i].1) by {
        assert(cloned::<GraphNode>(a.entries()[i].1, b.entries()[i].1));
    }
    assert(b@.map_values(|n: GraphNode| node_model(n)) =~= a@.map_values(|n: GraphNode| node_model(n)));
}

/// Copies of the links are the links.
proof fn lemma_link_clone(a: IdMap<Link>, b: IdMap<Link>)
    requires
        keys_sorted(a.entries()),
        b.entries().len() == a.entries().len(),
        forall|i: int| 0 <= i < a.entries().len() ==> (#[trigger] b.entries()[i]).0 == a.entries()[i].0
            && cloned::<Link>(a.entries()[i].1, b.entries()[i].1),
    ensures
        b@ == a@,
{
    lemma_same_keys_maps(a, b);
    assert(b@ =~= a@);
}

/// Copies of the groups have the same models.
proof fn lemma_group_clone(a: IdMap<Group>, b: IdMap<Group>)
    requires
        keys_sorted(a.entries()),
        b.entries().len() == a.entries().len(),
        forall|i: int| 0 <= i < a.entries().len() ==> (#[trigger] b.entries()[i]).0 == a.entries()[i].0
            && cloned::<Group>(a.entries()[i].1, b.entries()[i].1),
    ensures
        b@.map_values(|g: Group| group_model(g)) == a@.map_values(|g: Group| group_model(g)),
{
    lemma_same_keys_maps(a, b);
    assert(b@.map_values(|g: Group| group_model(g)) =~= a@.map_values(|g: Group| group_model(g)));
}

/// Copies of the relations are under the same ids.
proof fn lemma_relation_clone(a: IdMap<NodeRelation>, b: IdMap<NodeRelation>)
    requires
        keys_sorted(a.entries()),
        b.entries().len() == a.entries().len(),
        forall|i: int| 0 <= i < a.entries().len() ==> (#[trigger] b.entries()[i]).0 == a.entries()[i].0,
    ensures
        b@.dom() == a@.dom(),
{
    lemma_same_keys_maps(a, b);
}

} // verus!
