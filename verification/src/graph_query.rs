//! Node selection, sampling and inter-node messaging.
//!
//! A [`NodeSelector`] holds typed conditions; applied to a schema it gives a
//! [`NodeSample`], the matching nodes in id order, which can be counted,
//! sliced, grouped by kind and sorted.  A [`NodeCommunicator`] keeps an inbox
//! of messages per node.

use vstd::prelude::*;
use vstd::std_specs::iter::IteratorSpec;
use crate::action_log::{ActionLog, EventType, appended_one, now_ms};
use crate::graph::{FlowGraphSchema, GraphNode, PortDataType, PortDef, PortDirection};
use crate::ids::{DimensionId, TaskId, new_uuid_v7};
use crate::idmap::IdMap;
use crate::json::{JsonModel, JsonValue, json_eq, lemma_members_models, uuid_text};
use crate::text::{is_substring, str_contains, str_eq, seq_lt, str_lt, lemma_seq_lt_transitive, lemma_seq_lt_total,
    lemma_seq_lt_irreflexive};

verus! {

// ---------------------------------------------------------------------------
// Conditions
// ---------------------------------------------------------------------------

/// A typed predicate over a node of a schema; `Not`, `And` and `Or` combine
/// conditions.
#[derive(Debug)]
pub enum NodeCondition {
    /// The kind equals the text.
    KindEq(String),
    /// The label contains the text.
    LabelContains(String),
    /// The label equals the text.
    LabelEq(String),
    /// The parameter `key` holds `value`.
    ParamEq { key: String, value: JsonValue },
    /// The parameter is set.
    ParamExists(String),
    /// The node belongs to the group.
    InGroup(u128),
    /// Some port is an input.
    HasInputPort,
    /// Some port is an output.
    HasOutputPort,
    /// Some port carries the type.
    HasPortOfType(PortDataType),
    /// Some port has both the direction and the type.
    HasPortMatching { direction: PortDirection, data_type: PortDataType },
    /// The node stands for a subgraph.
    IsSubgraphRef,
    /// The inner condition fails.
    Not(Box<NodeCondition>),
    /// Every inner condition holds.
    And(Vec<NodeCondition>),
    /// Some inner condition holds.
    Or(Vec<NodeCondition>),
}

/// The port has the direction (if given) and the type (if given).
pub open spec fn port_fits(p: PortDef, dir: Option<PortDirection>, dt: Option<PortDataType>) -> bool {
    &&& (dir matches Some(d) ==> p.direction == d)
    &&& (dt matches Some(t) ==> p.data_type == t)
}

/// Some port of `ports` has the direction (if given) and the type (if given).
pub open spec fn has_port_where(ports: Map<u128, PortDef>, dir: Option<PortDirection>, dt: Option<PortDataType>) -> bool {
    exists|k: u128| ports.contains_key(k) && port_fits(#[trigger] ports[k], dir, dt)
}

/// Whether `c` holds of the node `n` in `schema`.
pub open spec fn holds(c: NodeCondition, n: GraphNode, schema: FlowGraphSchema) -> bool
    decreases c,
{
    match c {
        NodeCondition::KindEq(k) => n.kind@ == k@,
        NodeCondition::LabelContains(s) => is_substring(s@, n.label@),
        NodeCondition::LabelEq(s) => n.label@ == s@,
        NodeCondition::ParamEq { key, value } => n.parameters@.contains_key(key@)
            && n.parameters@[key@].model() == value.model(),
        NodeCondition::ParamExists(key) => n.parameters@.contains_key(key@),
        NodeCondition::InGroup(g) => schema.groups@.contains_key(g) && schema.groups@[g].node_ids@.contains_key(n.id),
        NodeCondition::HasInputPort => has_port_where(n.ports@, Some(PortDirection::In), None),
        NodeCondition::HasOutputPort => has_port_where(n.ports@, Some(PortDirection::Out), None),
        NodeCondition::HasPortOfType(t) => has_port_where(n.ports@, None, Some(t)),
        NodeCondition::HasPortMatching { direction, data_type } => has_port_where(n.ports@, Some(direction), Some(data_type)),
        NodeCondition::IsSubgraphRef => n.subgraph_ref is Some,
        NodeCondition::Not(inner) => !holds(*inner, n, schema),
        NodeCondition::And(cs) => all_hold(cs@, n, schema),
        NodeCondition::Or(cs) => any_holds(cs@, n, schema),
    }
}

/// Whether every condition of `cs` holds of `n`.
pub open spec fn all_hold(cs: Seq<NodeCondition>, n: GraphNode, schema: FlowGraphSchema) -> bool
    decreases cs,
{
    if cs.len() == 0 {
        true
    } else {
        holds(cs[0], n, schema) && all_hold(cs.subrange(1, cs.len() as int), n, schema)
    }
}

/// Whether some condition of `cs` holds of `n`.
pub open spec fn any_holds(cs: Seq<NodeCondition>, n: GraphNode, schema: FlowGraphSchema) -> bool
    decreases cs,
{
    if cs.len() == 0 {
        false
    } else {
        holds(cs[0], n, schema) || any_holds(cs.subrange(1, cs.len() as int), n, schema)
    }
}

/// `all_hold` is "each condition holds".
pub proof fn lemma_all_hold(cs: Seq<NodeCondition>, n: GraphNode, schema: FlowGraphSchema)
    ensures
        all_hold(cs, n, schema) <==> forall|i: int| 0 <= i < cs.len() ==> holds(#[trigger] cs[i], n, schema),
    decreases cs.len(),
{
    if cs.len() > 0 {
        let rest = cs.subrange(1, cs.len() as int);
        lemma_all_hold(rest, n, schema);
        if forall|i: int| 0 <= i < cs.len() ==> holds(#[trigger] cs[i], n, schema) {
            assert forall|i: int| 0 <= i < rest.len() implies holds(#[trigger] rest[i], n, schema) by {
                assert(rest[i] == cs[i + 1]);
            }
        }
        if all_hold(cs, n, schema) {
            assert forall|i: int| 0 <= i < cs.len() implies holds(#[trigger] cs[i], n, schema) by {
                if i > 0 {
                    assert(cs[i] == rest[i - 1]);
                }
            }
        }
    }
}

/// `any_holds` is "some condition holds".
pub proof fn lemma_any_holds(cs: Seq<NodeCondition>, n: GraphNode, schema: FlowGraphSchema)
    ensures
        any_holds(cs, n, schema) <==> exists|i: int| 0 <= i < cs.len() && holds(#[trigger] cs[i], n, schema),
    decreases cs.len(),
{
    if cs.len() > 0 {
        let rest = cs.subrange(1, cs.len() as int);
        lemma_any_holds(rest, n, schema);
        if exists|i: int| 0 <= i < rest.len() && holds(#[trigger] rest[i], n, schema) {
            let i = choose|i: int| 0 <= i < rest.len() && holds(#[trigger] rest[i], n, schema);
            assert(rest[i] == cs[i + 1]);
        }
        if exists|i: int| 0 <= i < cs.len() && holds(#[trigger] cs[i], n, schema) {
            let i = choose|i: int| 0 <= i < cs.len() && holds(#[trigger] cs[i], n, schema);
            if i > 0 {
                assert(cs[i] == rest[i - 1]);
            }
        }
    }
}

/// Whether some port has the direction (if given) and the type (if given).
fn has_port(ports: &IdMap<PortDef>, dir: Option<PortDirection>, dt: Option<PortDataType>) -> (r: bool)
    ensures
        r == has_port_where(ports@, dir, dt),
{
    let n = ports.len();
    for i in 0..n
        invariant
            n == ports.entries().len(),
            crate::idmap::keys_sorted(ports.entries()),
            forall|j: int| 0 <= j < i ==> !port_fits(#[trigger] ports.entries()[j].1, dir, dt),
    {
        let e = ports.entry_at(i);
        let dir_ok = match dir {
            Some(d) => e.1.direction == d,
            None => true,
        };
        let dt_ok = match dt {
            Some(t) => e.1.data_type == t,
            None => true,
        };
        if dir_ok && dt_ok {
            proof {
                assert(ports@.contains_key(e.0));
            }
            return true;
        }
    }
    proof {
        assert forall|k: u128| ports@.contains_key(k) implies !port_fits(#[trigger] ports@[k], dir, dt) by {
            let j = crate::idmap::key_index(ports.entries(), k);
            crate::idmap::lemma_key_index(ports.entries(), j);
        }
    }
    false
}

impl NodeCondition {
    /// Whether the condition holds of the node in the schema.
    pub fn matches(&self, node: &GraphNode, schema: &FlowGraphSchema) -> (r: bool)
        ensures
            r == holds(*self, *node, *schema),
        decreases self,
    {
        match self {
            NodeCondition::KindEq(k) => str_eq(node.kind.as_str(), k.as_str()),
            NodeCondition::LabelContains(s) => str_contains(node.label.as_str(), s.as_str()),
            NodeCondition::LabelEq(s) => str_eq(node.label.as_str(), s.as_str()),
            NodeCondition::ParamEq { key, value } => match node.parameters.get(key.as_str()) {
                Some(v) => json_eq(v, value),
                None => false,
            },
            NodeCondition::ParamExists(key) => node.parameters.contains_key(key.as_str()),
            NodeCondition::InGroup(g) => match schema.groups.get(*g) {
                Some(group) => group.node_ids.contains_key(node.id),
                None => false,
            },
            NodeCondition::HasInputPort => has_port(&node.ports, Some(PortDirection::In), None),
            NodeCondition::HasOutputPort => has_port(&node.ports, Some(PortDirection::Out), None),
            NodeCondition::HasPortOfType(t) => has_port(&node.ports, None, Some(*t)),
            NodeCondition::HasPortMatching { direction, data_type } => has_port(&node.ports, Some(*direction), Some(*data_type)),
            NodeCondition::IsSubgraphRef => node.is_subgraph_ref(),
            NodeCondition::Not(inner) => !(**inner).matches(node, schema),
            NodeCondition::And(cs) => all_match(cs, node, schema),
            NodeCondition::Or(cs) => any_match(cs, node, schema),
        }
    }
}

/// Whether every condition holds.
pub fn all_match(cs: &Vec<NodeCondition>, node: &GraphNode, schema: &FlowGraphSchema) -> (r: bool)
    ensures
        r == all_hold(cs@, *node, *schema),
    decreases cs@,
{
    proof {
        lemma_all_hold(cs@, *node, *schema);
    }
    let n = cs.len();
    for i in 0..n
        invariant
            n == cs@.len(),
            all_hold(cs@, *node, *schema) <==> forall|j: int| 0 <= j < cs@.len() ==> holds(#[trigger] cs@[j], *node, *schema),
            forall|j: int| 0 <= j < i ==> holds(#[trigger] cs@[j], *node, *schema),
    {
        if !cs[i].matches(node, schema) {
            return false;
        }
    }
    true
}

/// Whether some condition holds.
pub fn any_match(cs: &Vec<NodeCondition>, node: &GraphNode, schema: &FlowGraphSchema) -> (r: bool)
    ensures
        r == any_holds(cs@, *node, *schema),
    decreases cs@,
{
    proof {
        lemma_any_holds(cs@, *node, *schema);
    }
    let n = cs.len();
    for i in 0..n
        invariant
            n == cs@.len(),
            any_holds(cs@, *node, *schema) <==> exists|j: int| 0 <= j < cs@.len() && holds(#[trigger] cs@[j], *node, *schema),
            forall|j: int| 0 <= j < i ==> !holds(#[trigger] cs@[j], *node, *schema),
    {
        if cs[i].matches(node, schema) {
            return true;
        }
    }
    false
}

// ---------------------------------------------------------------------------
// Selector
// ---------------------------------------------------------------------------

/// A query: every condition must hold.
#[derive(Debug)]
pub struct NodeSelector {
    conditions: Vec<NodeCondition>,
}

/// The nodes of a schema, by ascending id.
pub open spec fn schema_nodes(schema: FlowGraphSchema) -> Seq<GraphNode> {
    schema.nodes.entries().map_values(|e: (u128, GraphNode)| e.1)
}

/// Whether every condition of `cs` holds of a node of `schema`.
pub open spec fn selected(cs: Seq<NodeCondition>, schema: FlowGraphSchema) -> spec_fn(GraphNode) -> bool {
    |n: GraphNode| all_hold(cs, n, schema)
}

impl Default for NodeSelector {
    /// A selector without conditions (it selects every node).
    fn default() -> (r: Self)
        ensures
            r.spec_conditions() == Seq::<NodeCondition>::empty(),
    {
        NodeSelector { conditions: Vec::new() }
    }
}

impl NodeSelector {
    /// The conditions, in the order they were added.
    pub closed spec fn spec_conditions(&self) -> Seq<NodeCondition> {
        self.conditions@
    }

    /// A selector without conditions (it selects every node).
    pub fn new() -> (r: Self)
        ensures
            r.spec_conditions() == Seq::<NodeCondition>::empty(),
    {
        NodeSelector { conditions: Vec::new() }
    }

    /// Add a condition.
    pub fn with_condition(self, cond: NodeCondition) -> (r: Self)
        ensures
            r.spec_conditions() == self.spec_conditions().push(cond),
    {
        let mut s = self;
        s.conditions.push(cond);
        s
    }

    /// Nodes of the kind.
    pub fn with_kind(self, kind: &str) -> (r: Self)
        ensures
            r.spec_conditions().len() == self.spec_conditions().len() + 1,
            r.spec_conditions().drop_last() == self.spec_conditions(),
            r.spec_conditions().last() matches NodeCondition::KindEq(k) && k@ == kind@,
    {
        let r = self.with_condition(NodeCondition::KindEq(kind.to_owned()));
        proof {
            assert(r.spec_conditions().drop_last() == self.spec_conditions());
        }
        r
    }

    /// Nodes whose label contains the text.
    pub fn with_label_containing(self, substr: &str) -> (r: Self)
        ensures
            r.spec_conditions().len() == self.spec_conditions().len() + 1,
            r.spec_conditions().drop_last() == self.spec_conditions(),
            r.spec_conditions().last() matches NodeCondition::LabelContains(k) && k@ == substr@,
    {
        let r = self.with_condition(NodeCondition::LabelContains(substr.to_owned()));
        proof {
            assert(r.spec_conditions().drop_last() == self.spec_conditions());
        }
        r
    }

    /// Nodes with exactly the label.
    pub fn with_label(self, label: &str) -> (r: Self)
        ensures
            r.spec_conditions().len() == self.spec_conditions().len() + 1,
            r.spec_conditions().drop_last() == self.spec_conditions(),
            r.spec_conditions().last() matches NodeCondition::LabelEq(k) && k@ == label@,
    {
        let r = self.with_condition(NodeCondition::LabelEq(label.to_owned()));
        proof {
            assert(r.spec_conditions().drop_last() == self.spec_conditions());
        }
        r
    }

    /// Nodes whose parameter `key` holds `value`.
    pub fn with_param_eq(self, key: &str, value: JsonValue) -> (r: Self)
        ensures
            r.spec_conditions().len() == self.spec_conditions().len() + 1,
            r.spec_conditions().drop_last() == self.spec_conditions(),
            r.spec_conditions().last() matches NodeCondition::ParamEq { key: k, value: v } && k@ == key@ && v == value,
    {
        let r = self.with_condition(NodeCondition::ParamEq { key: key.to_owned(), value });
        proof {
            assert(r.spec_conditions().drop_last() == self.spec_conditions());
        }
        r
    }

    /// Nodes with the parameter set.
    pub fn with_param_exists(self, key: &str) -> (r: Self)
        ensures
            r.spec_conditions().len() == self.spec_conditions().len() + 1,
            r.spec_conditions().drop_last() == self.spec_conditions(),
            r.spec_conditions().last() matches NodeCondition::ParamExists(k) && k@ == key@,
    {
        let r = self.with_condition(NodeCondition::ParamExists(key.to_owned()));
        proof {
            assert(r.spec_conditions().drop_last() == self.spec_conditions());
        }
        r
    }

    /// Nodes of the group.
    pub fn in_group(self, group_id: u128) -> (r: Self)
        ensures
            r.spec_conditions() == self.spec_conditions().push(NodeCondition::InGroup(group_id)),
    {
        self.with_condition(NodeCondition::InGroup(group_id))
    }

    /// Nodes with an input port.
    pub fn having_input_port(self) -> (r: Self)
        ensures
            r.spec_conditions() == self.spec_conditions().push(NodeCondition::HasInputPort),
    {
        self.with_condition(NodeCondition::HasInputPort)
    }

    /// Nodes with an output port.
    pub fn having_output_port(self) -> (r: Self)
        ensures
            r.spec_conditions() == self.spec_conditions().push(NodeCondition::HasOutputPort),
    {
        self.with_condition(NodeCondition::HasOutputPort)
    }

    /// Nodes with a port of the type.
    pub fn having_port_of_type(self, data_type: PortDataType) -> (r: Self)
        ensures
            r.spec_conditions() == self.spec_conditions().push(NodeCondition::HasPortOfType(data_type)),
    {
        self.with_condition(NodeCondition::HasPortOfType(data_type))
    }

    /// Nodes with a port of the direction and type.
    pub fn having_port_matching(self, direction: PortDirection, data_type: PortDataType) -> (r: Self)
        ensures
            r.spec_conditions() == self.spec_conditions().push(NodeCondition::HasPortMatching { direction, data_type }),
    {
        self.with_condition(NodeCondition::HasPortMatching { direction, data_type })
    }

    /// Subgraph references only.
    pub fn subgraph_refs_only(self) -> (r: Self)
        ensures
            r.spec_conditions() == self.spec_conditions().push(NodeCondition::IsSubgraphRef),
    {
        self.with_condition(NodeCondition::IsSubgraphRef)
    }

    /// The nodes of the schema, by ascending id, for which every condition
    /// holds.
    pub fn apply<'s>(&self, schema: &'s FlowGraphSchema) -> (r: NodeSample<'s>)
        ensures
            r.spec_nodes() == schema_nodes(*schema).filter(selected(self.spec_conditions(), *schema)),
    {
        let n = schema.nodes.len();
        let ghost list = schema_nodes(*schema);
        let ghost sel = selected(self.conditions@, *schema);
        let mut out: Vec<&'s GraphNode> = Vec::new();
        for i in 0..n
            invariant
                n == schema.nodes.entries().len(),
                list == schema_nodes(*schema),
                sel == selected(self.conditions@, *schema),
                out@.map_values(|x: &GraphNode| *x) == list.take(i as int).filter(sel),
        {
            proof {
                assert(list.take(i + 1) == list.take(i as int).push(list[i as int]));
                list.take(i as int).lemma_filter_push(list[i as int], sel);
            }
            let node = &schema.nodes.entry_at(i).1;
            if all_match(&self.conditions, node, schema) {
                out.push(node);
                proof {
                    assert(out@.map_values(|x: &GraphNode| *x) == list.take(i as int).filter(sel).push(list[i as int]));
                }
            }
        }
        proof {
            assert(list.take(n as int) == list);
        }
        NodeSample { nodes: out }
    }
}

/// A selector without conditions selects every node of the schema.
pub proof fn lemma_no_condition_selects_all(schema: FlowGraphSchema)
    ensures
        schema_nodes(schema).filter(selected(Seq::<NodeCondition>::empty(), schema)) == schema_nodes(schema),
{
    let s = schema_nodes(schema);
    let f = selected(Seq::<NodeCondition>::empty(), schema);
    assert forall|k: int| 0 <= k <= s.len() implies #[trigger] s.take(k).filter(f) == s.take(k) by {
        lemma_filter_all_selected(s, f, k);
    }
    assert(s.take(s.len() as int) == s);
}

/// Filtering a prefix by a predicate that holds of every node keeps it.
proof fn lemma_filter_all_selected(s: Seq<GraphNode>, f: spec_fn(GraphNode) -> bool, k: int)
    requires
        0 <= k <= s.len(),
        forall|n: GraphNode| #[trigger] f(n),
    ensures
        s.take(k).filter(f) == s.take(k),
    decreases k,
{
    if k > 0 {
        lemma_filter_all_selected(s, f, k - 1);
        assert(s.take(k) == s.take(k - 1).push(s[k - 1]));
        s.take(k - 1).lemma_filter_push(s[k - 1], f);
    }
}

/// Conditions combine by "and": adding one selects exactly the nodes that
/// the others select and it holds of.
pub proof fn lemma_added_condition_narrows(cs: Seq<NodeCondition>, c: NodeCondition, n: GraphNode, schema: FlowGraphSchema)
    ensures
        selected(cs.push(c), schema)(n) == (selected(cs, schema)(n) && holds(c, n, schema)),
{
    lemma_all_hold(cs.push(c), n, schema);
    lemma_all_hold(cs, n, schema);
    if selected(cs, schema)(n) && holds(c, n, schema) {
        assert forall|i: int| 0 <= i < cs.push(c).len() implies holds(#[trigger] cs.push(c)[i], n, schema) by {
            if i < cs.len() {
                assert(cs.push(c)[i] == cs[i]);
            }
        }
    }
    if selected(cs.push(c), schema)(n) {
        assert forall|i: int| 0 <= i < cs.len() implies holds(#[trigger] cs[i], n, schema) by {
            assert(cs.push(c)[i] == cs[i]);
        }
        assert(cs.push(c)[cs.len() as int] == c);
    }
}

// ---------------------------------------------------------------------------
// Samples
// ---------------------------------------------------------------------------

/// An ordered set of nodes chosen from a schema.
#[derive(Debug)]
pub struct NodeSample<'s> {
    nodes: Vec<&'s GraphNode>,
}

/// The distinct kinds of `s`, in the order they first occur.
pub open spec fn kinds_in_order(s: Seq<GraphNode>) -> Seq<Seq<char>>
    decreases s.len(),
{
    if s.len() == 0 {
        Seq::empty()
    } else {
        let p = kinds_in_order(s.drop_last());
        if p.contains(s.last().kind@) { p } else { p.push(s.last().kind@) }
    }
}

/// Whether a node has the kind `k`.
pub open spec fn of_kind(k: Seq<char>) -> spec_fn(GraphNode) -> bool {
    |n: GraphNode| n.kind@ == k
}

/// No node of `s` has a label before that of an earlier node.
pub open spec fn sorted_by_label(s: Seq<GraphNode>) -> bool {
    forall|i: int, j: int| 0 <= i < j < s.len() ==> !seq_lt(#[trigger] s[j].label@, #[trigger] s[i].label@)
}

/// No node of `s` has an id below that of an earlier node.
pub open spec fn sorted_by_id(s: Seq<GraphNode>) -> bool {
    forall|i: int, j: int| 0 <= i < j < s.len() ==> (#[trigger] s[i]).id <= (#[trigger] s[j]).id
}

/// Nodes labelled `l`.
pub open spec fn labelled(l: Seq<char>) -> spec_fn(GraphNode) -> bool {
    |n: GraphNode| n.label@ == l
}

/// Nodes with id `k`.
pub open spec fn with_id(k: u128) -> spec_fn(GraphNode) -> bool {
    |n: GraphNode| n.id == k
}

/// Inserting `x` at `p`, where nothing from `p` on passes the filter when
/// `x` does, adds `x` at the end of what passes, if it passes.
proof fn lemma_filter_insert<A>(s: Seq<A>, p: int, x: A, pred: spec_fn(A) -> bool)
    requires
        0 <= p <= s.len(),
        pred(x) ==> forall|q: int| p <= q < s.len() ==> !pred(#[trigger] s[q]),
    ensures
        s.insert(p, x).filter(pred) == if pred(x) { s.filter(pred).push(x) } else { s.filter(pred) },
{
    let a = s.take(p);
    let b = s.skip(p);
    assert(s == a + b);
    assert(s.insert(p, x) == a + (seq![x] + b));
    Seq::filter_distributes_over_add(a, b, pred);
    Seq::filter_distributes_over_add(a, seq![x] + b, pred);
    b.lemma_filter_prepend(x, pred);
    if pred(x) {
        assert(b.all(|y: A| !pred(y))) by {
            assert forall|q: int| 0 <= q < b.len() implies !pred(#[trigger] b[q]) by {
                assert(b[q] == s[p + q]);
            }
        }
        b.lemma_all_neg_filter_empty(pred);
        assert(b.filter(pred) =~= Seq::<A>::empty());
        assert(a.filter(pred) + (seq![x] + b.filter(pred)) =~= (a.filter(pred) + b.filter(pred)).push(x));
    } else {
        assert(a.filter(pred) + (Seq::<A>::empty() + b.filter(pred)) =~= a.filter(pred) + b.filter(pred));
    }
}

impl<'s> NodeSample<'s> {
    /// The nodes, in order.
    pub closed spec fn spec_nodes(&self) -> Seq<GraphNode> {
        self.nodes@.map_values(|x: &GraphNode| *x)
    }

    /// A sample of the given nodes, in order.
    pub fn from_nodes(nodes: Vec<&'s GraphNode>) -> (r: Self)
        ensures
            r.spec_nodes() == nodes@.map_values(|x: &GraphNode| *x),
    {
        NodeSample { nodes }
    }

    /// The number of nodes.
    pub fn count(&self) -> (r: usize)
        ensures
            r == self.spec_nodes().len(),
    {
        self.nodes.len()
    }

    /// Whether there is no node.
    pub fn is_empty(&self) -> (r: bool)
        ensures
            r == (self.spec_nodes().len() == 0),
    {
        self.nodes.len() == 0
    }

    /// The nodes at positions `start..end`, both clamped to the count.
    pub fn range(&self, start: usize, end: usize) -> (r: NodeSample<'s>)
        requires
            (if start < self.spec_nodes().len() { start as int } else { self.spec_nodes().len() as int })
                <= (if end < self.spec_nodes().len() { end as int } else { self.spec_nodes().len() as int }),
        ensures
            ({
                let len = self.spec_nodes().len() as int;
                let lo = if start < len { start as int } else { len };
                let hi = if end < len { end as int } else { len };
                r.spec_nodes() == self.spec_nodes().subrange(lo, hi)
            }),
    {
        let len = self.nodes.len();
        let lo = if start < len { start } else { len };
        let hi = if end < len { end } else { len };
        let mut out: Vec<&'s GraphNode> = Vec::new();
        let mut i = lo;
        while i < hi
            invariant
                len == self.nodes@.len(),
                lo <= i <= hi <= len,
                out@.map_values(|x: &GraphNode| *x) == self.spec_nodes().subrange(lo as int, i as int),
            decreases hi - i,
        {
            let ghost before = out@;
            out.push(self.nodes[i]);
            proof {
                assert(self.spec_nodes().subrange(lo as int, i + 1)
                    =~= self.spec_nodes().subrange(lo as int, i as int).push(self.spec_nodes()[i as int]));
                assert(out@ == before.push(self.nodes@[i as int]));
                assert(out@.map_values(|x: &GraphNode| *x) =~= before.map_values(|x: &GraphNode| *x).push(*self.nodes@[i as int]));
            }
            i = i + 1;
        }
        NodeSample { nodes: out }
    }

    /// The first node, if any.
    pub fn first(&self) -> (r: Option<&'s GraphNode>)
        ensures
            r is Some <==> self.spec_nodes().len() > 0,
            r matches Some(n) ==> *n == self.spec_nodes()[0],
    {
        if self.nodes.len() == 0 {
            None
        } else {
            Some(self.nodes[0])
        }
    }

    /// The last node, if any.
    pub fn last(&self) -> (r: Option<&'s GraphNode>)
        ensures
            r is Some <==> self.spec_nodes().len() > 0,
            r matches Some(n) ==> *n == self.spec_nodes().last(),
    {
        let n = self.nodes.len();
        if n == 0 {
            None
        } else {
            Some(self.nodes[n - 1])
        }
    }

    /// The node ids, in order.
    pub fn ids(&self) -> (r: Vec<u128>)
        ensures
            r@ == self.spec_nodes().map_values(|n: GraphNode| n.id),
    {
        let n = self.nodes.len();
        let mut out: Vec<u128> = Vec::new();
        for i in 0..n
            invariant
                n == self.nodes@.len(),
                out@ == self.spec_nodes().take(i as int).map_values(|n: GraphNode| n.id),
        {
            out.push(self.nodes[i].id);
            proof {
                assert(out@ == self.spec_nodes().take(i + 1).map_values(|n: GraphNode| n.id));
            }
        }
        proof {
            assert(self.spec_nodes().take(n as int) == self.spec_nodes());
        }
        out
    }

    /// An iterator over the nodes, in order.
    pub fn iter(&self) -> (r: std::slice::Iter<'_, &'s GraphNode>)
        ensures
            r.remaining().map_values(|x: &&GraphNode| **x) == self.spec_nodes(),
    {
        let r = self.nodes.as_slice().iter();
        proof {
            broadcast use vstd::std_specs::slice::axiom_spec_slice_iter;
            assert(r.remaining().map_values(|x: &&GraphNode| **x) =~= self.spec_nodes());
        }
        r
    }

    /// The nodes as a vector.
    pub fn into_vec(self) -> (r: Vec<&'s GraphNode>)
        ensures
            r@.map_values(|x: &GraphNode| *x) == self.spec_nodes(),
    {
        self.nodes
    }

    /// The nodes grouped by kind: one group per kind, in the order the
    /// kinds first occur, each with its nodes in order.
    pub fn group_by_kind(&self) -> (r: Vec<(String, Vec<&'s GraphNode>)>)
        ensures
            r@.len() == kinds_in_order(self.spec_nodes()).len(),
            forall|i: int| 0 <= i < r@.len() ==> (#[trigger] r@[i]).0@ == kinds_in_order(self.spec_nodes())[i]
                && r@[i].1@.map_values(|x: &GraphNode| *x) == self.spec_nodes().filter(of_kind(r@[i].0@)),
    {
        let n = self.nodes.len();
        let ghost all = self.spec_nodes();
        let mut kinds: Vec<String> = Vec::new();
        for i in 0..n
            invariant
                n == self.nodes@.len(),
                all == self.spec_nodes(),
                kinds@.map_values(|k: String| k@) == kinds_in_order(all.take(i as int)),
        {
            proof {
                assert(all.take(i + 1).drop_last() == all.take(i as int));
                assert(all.take(i + 1).last() == all[i as int]);
            }
            let k = self.nodes[i].kind.as_str();
            let ghost km = kinds@.map_values(|k: String| k@);
            let present = crate::text::contains_str(&kinds, k);
            proof {
                if present {
                    let j = choose|j: int| 0 <= j < kinds@.len() && kinds@[j]@ == k@;
                    assert(km[j] == k@);
                } else {
                    assert forall|j: int| 0 <= j < km.len() implies km[j] != k@ by {
                        assert(km[j] == kinds@[j]@);
                    }
                }
            }
            if !present {
                kinds.push(k.to_owned());
                proof {
                    assert(kinds@.map_values(|k: String| k@) =~= km.push(k@));
                }
            }
        }
        proof {
            assert(all.take(n as int) == all);
        }
        let ghost ks = kinds_in_order(all);
        let m = kinds.len();
        let mut out: Vec<(String, Vec<&'s GraphNode>)> = Vec::new();
        for g in 0..m
            invariant
                n == self.nodes@.len(),
                all == self.spec_nodes(),
                m == kinds@.len(),
                ks == kinds_in_order(all),
                kinds@.map_values(|k: String| k@) == ks,
                out@.len() == g,
                forall|i: int| 0 <= i < g ==> (#[trigger] out@[i]).0@ == ks[i]
                    && out@[i].1@.map_values(|x: &GraphNode| *x) == all.filter(of_kind(out@[i].0@)),
        {
            let kind = kinds[g].as_str();
            let ghost pred = of_kind(kind@);
            let mut members: Vec<&'s GraphNode> = Vec::new();
            for i in 0..n
                invariant
                    n == self.nodes@.len(),
                    all == self.spec_nodes(),
                    pred == of_kind(kind@),
                    members@.map_values(|x: &GraphNode| *x) == all.take(i as int).filter(pred),
            {
                proof {
                    assert(all.take(i + 1) == all.take(i as int).push(all[i as int]));
                    all.take(i as int).lemma_filter_push(all[i as int], pred);
                }
                let node = self.nodes[i];
                if str_eq(node.kind.as_str(), kind) {
                    let ghost before = members@;
                    members.push(node);
                    proof {
                        assert(members@.map_values(|x: &GraphNode| *x) =~= before.map_values(|x: &GraphNode| *x).push(*node));
                    }
                }
            }
            proof {
                assert(all.take(n as int) == all);
                assert(ks[g as int] == kinds@[g as int]@);
            }
            out.push((kinds[g].clone(), members));
        }
        out
    }

    /// The nodes sorted by label; nodes with equal labels keep their order.
    pub fn sort_by_label(self) -> (r: Self)
        ensures
            r.spec_nodes().to_multiset() == self.spec_nodes().to_multiset(),
            sorted_by_label(r.spec_nodes()),
            forall|l: Seq<char>| #![trigger labelled(l)]
                r.spec_nodes().filter(labelled(l)) == self.spec_nodes().filter(labelled(l)),
    {
        let n = self.nodes.len();
        let ghost all = self.spec_nodes();
        let mut out: Vec<&'s GraphNode> = Vec::new();
        proof {
            assert(out@.map_values(|x: &GraphNode| *x) =~= all.take(0));
        }
        for i in 0..n
            invariant
                n == self.nodes@.len(),
                all == self.spec_nodes(),
                out@.map_values(|x: &GraphNode| *x).to_multiset() == all.take(i as int).to_multiset(),
                sorted_by_label(out@.map_values(|x: &GraphNode| *x)),
                forall|l: Seq<char>| #![trigger labelled(l)]
                    out@.map_values(|x: &GraphNode| *x).filter(labelled(l)) == all.take(i as int).filter(labelled(l)),
        {
            let x = self.nodes[i];
            let ghost cur = out@.map_values(|x: &GraphNode| *x);
            let mut p: usize = 0;
            while p < out.len() && !str_lt(x.label.as_str(), out[p].label.as_str())
                invariant
                    p <= out@.len(),
                    cur == out@.map_values(|x: &GraphNode| *x),
                    forall|q: int| 0 <= q < p ==> !seq_lt(x.label@, (#[trigger] cur[q]).label@),
                decreases out@.len() - p,
            {
                p = p + 1;
            }
            proof {
                assert(cur.len() == out@.len());
            }
            out.insert(p, x);
            proof {
                let t = out@.map_values(|x: &GraphNode| *x);
                assert(t =~= cur.insert(p as int, *x));
                assert(all.take(i + 1) =~= all.take(i as int).push(all[i as int]));
                assert(all[i as int] == *x);
                vstd::seq_lib::to_multiset_insert(cur, p as int, *x);
                vstd::seq_lib::to_multiset_build(all.take(i as int), *x);
                assert forall|l: Seq<char>| #![trigger labelled(l)]
                    t.filter(labelled(l)) == all.take(i + 1).filter(labelled(l)) by {
                    assert forall|q: int| p <= q < cur.len() implies (#[trigger] cur[q]).label@ != x.label@ by {
                        assert(seq_lt(x.label@, cur[p as int].label@));
                        lemma_seq_lt_irreflexive(x.label@);
                        if q > p && cur[q].label@ == x.label@ {
                            assert(!seq_lt(cur[q].label@, cur[p as int].label@));
                        }
                    }
                    lemma_filter_insert(cur, p as int, *x, labelled(l));
                    all.take(i as int).lemma_filter_push(*x, labelled(l));
                }
                assert forall|a: int, b: int| 0 <= a < b < t.len() implies !seq_lt(#[trigger] t[b].label@, #[trigger] t[a].label@) by {
                    if b < p {
                        assert(t[a] == cur[a] && t[b] == cur[b]);
                    } else if b == p {
                        assert(t[a] == cur[a]);
                    } else if a == p {
                        assert(t[b] == cur[b - 1]);
                        assert(seq_lt(x.label@, cur[p as int].label@));
                        if seq_lt(cur[b - 1].label@, x.label@) {
                            lemma_seq_lt_transitive(cur[b - 1].label@, x.label@, cur[p as int].label@);
                            if b - 1 == p {
                                lemma_seq_lt_irreflexive(cur[p as int].label@);
                            }
                        }
                    } else if a < p {
                        assert(t[a] == cur[a] && t[b] == cur[b - 1]);
                    } else {
                        assert(t[a] == cur[a - 1] && t[b] == cur[b - 1]);
                    }
                }
            }
        }
        proof {
            assert(all.take(n as int) == all);
        }
        NodeSample { nodes: out }
    }

    /// The nodes sorted by id; nodes with equal ids keep their order.
    pub fn sort_by_id(self) -> (r: Self)
        ensures
            r.spec_nodes().to_multiset() == self.spec_nodes().to_multiset(),
            sorted_by_id(r.spec_nodes()),
            forall|k: u128| #![trigger with_id(k)]
                r.spec_nodes().filter(with_id(k)) == self.spec_nodes().filter(with_id(k)),
    {
        let n = self.nodes.len();
        let ghost all = self.spec_nodes();
        let mut out: Vec<&'s GraphNode> = Vec::new();
        proof {
            assert(out@.map_values(|x: &GraphNode| *x) =~= all.take(0));
        }
        for i in 0..n
            invariant
                n == self.nodes@.len(),
                all == self.spec_nodes(),
                out@.map_values(|x: &GraphNode| *x).to_multiset() == all.take(i as int).to_multiset(),
                sorted_by_id(out@.map_values(|x: &GraphNode| *x)),
                forall|k: u128| #![trigger with_id(k)]
                    out@.map_values(|x: &GraphNode| *x).filter(with_id(k)) == all.take(i as int).filter(with_id(k)),
        {
            let x = self.nodes[i];
            let ghost cur = out@.map_values(|x: &GraphNode| *x);
            let mut p: usize = 0;
            while p < out.len() && out[p].id <= x.id
                invariant
                    p <= out@.len(),
                    cur == out@.map_values(|x: &GraphNode| *x),
                    forall|q: int| 0 <= q < p ==> (#[trigger] cur[q]).id <= x.id,
                decreases out@.len() - p,
            {
                p = p + 1;
            }
            proof {
                assert(cur.len() == out@.len());
            }
            out.insert(p, x);
            proof {
                let t = out@.map_values(|x: &GraphNode| *x);
                assert(t =~= cur.insert(p as int, *x));
                assert(all.take(i + 1) =~= all.take(i as int).push(all[i as int]));
                assert(all[i as int] == *x);
                vstd::seq_lib::to_multiset_insert(cur, p as int, *x);
                vstd::seq_lib::to_multiset_build(all.take(i as int), *x);
                assert forall|k: u128| #![trigger with_id(k)]
                    t.filter(with_id(k)) == all.take(i + 1).filter(with_id(k)) by {
                    assert forall|q: int| p <= q < cur.len() implies (#[trigger] cur[q]).id != x.id by {
                        assert(cur[p as int].id > x.id);
                        assert(cur[p as int].id <= cur[q].id);
                    }
                    lemma_filter_insert(cur, p as int, *x, with_id(k));
                    all.take(i as int).lemma_filter_push(*x, with_id(k));
                }
                assert forall|a: int, b: int| 0 <= a < b < t.len() implies (#[trigger] t[a]).id <= (#[trigger] t[b]).id by {
                    if b < p {
                        assert(t[a] == cur[a] && t[b] == cur[b]);
                    } else if b == p {
                        assert(t[a] == cur[a]);
                    } else if a == p {
                        assert(t[b] == cur[b - 1]);
                        assert(cur[p as int].id > x.id);
                    } else if a < p {
                        assert(t[a] == cur[a] && t[b] == cur[b - 1]);
                    } else {
                        assert(t[a] == cur[a - 1] && t[b] == cur[b - 1]);
                    }
                }
            }
        }
        proof {
            assert(all.take(n as int) == all);
        }
        NodeSample { nodes: out }
    }
}

// ---------------------------------------------------------------------------
// Messages
// ---------------------------------------------------------------------------

/// A message from one node to another, or to every node.
#[derive(Debug)]
pub struct NodeMessage {
    /// Message id.
    pub id: u128,
    /// Sender.
    pub from_node: u128,
    /// Recipient; `None` for a broadcast.
    pub to_node: Option<u128>,
    /// Channel name.
    pub channel: String,
    /// Payload.
    pub payload: JsonValue,
    /// Send time, Unix epoch milliseconds.
    pub sent_at_ms: u64,
}

impl Clone for NodeMessage {
    fn clone(&self) -> (r: Self)
        ensures
            r == *self,
    {
        NodeMessage {
            id: self.id,
            from_node: self.from_node,
            to_node: self.to_node,
            channel: self.channel.clone(),
            payload: self.payload.clone(),
            sent_at_ms: self.sent_at_ms,
        }
    }
}

impl NodeMessage {
    /// A message from `from_node` to `to_node` on `channel`, sent now.
    pub fn to(from_node: u128, to_node: u128, channel: &str, payload: JsonValue) -> (r: Self)
        ensures
            r.from_node == from_node,
            r.to_node == Some(to_node),
            r.channel@ == channel@,
            r.payload == payload,
    {
        NodeMessage { id: new_uuid_v7(), from_node, to_node: Some(to_node), channel: channel.to_owned(), payload,
            sent_at_ms: now_ms() }
    }

    /// A message from `from_node` to no one in particular, sent now.
    pub fn broadcast(from_node: u128, channel: &str, payload: JsonValue) -> (r: Self)
        ensures
            r.from_node == from_node,
            r.to_node is None,
            r.channel@ == channel@,
            r.payload == payload,
    {
        NodeMessage { id: new_uuid_v7(), from_node, to_node: None, channel: channel.to_owned(), payload,
            sent_at_ms: now_ms() }
    }
}

/// Whether a message is on the channel `c`.
pub open spec fn on_channel(c: Seq<char>) -> spec_fn(NodeMessage) -> bool {
    |m: NodeMessage| m.channel@ == c
}

/// Whether a message is not on the channel `c`.
pub open spec fn off_channel(c: Seq<char>) -> spec_fn(NodeMessage) -> bool {
    |m: NodeMessage| m.channel@ != c
}

/// `m` is a copy of a broadcast from `from` on `channel` delivered to `to`.
pub open spec fn delivered_copy(m: NodeMessage, from: u128, to: u128, channel: Seq<char>, payload: JsonValue) -> bool {
    &&& m.from_node == from
    &&& m.to_node == Some(to)
    &&& m.channel@ == channel
    &&& m.payload == payload
}

/// Whether an id equals `n`.
pub open spec fn is_id(n: u128) -> spec_fn(u128) -> bool {
    |x: u128| x == n
}

/// The number of messages in the inboxes of the entries `s`.
pub open spec fn total_len(s: Seq<(u128, Vec<NodeMessage>)>) -> nat
    decreases s.len(),
{
    if s.len() == 0 { 0 } else { total_len(s.drop_last()) + s.last().1@.len() }
}

/// An inbox of messages per node.
#[derive(Debug)]
pub struct NodeCommunicator {
    inbox: IdMap<Vec<NodeMessage>>,
    dimension_id: DimensionId,
    task_id: TaskId,
}

impl NodeCommunicator {
    /// The messages waiting for `node`, oldest first.
    pub closed spec fn spec_pending(&self, node: u128) -> Seq<NodeMessage> {
        if self.inbox@.contains_key(node) { self.inbox@[node]@ } else { Seq::empty() }
    }

    /// The number of waiting messages over all inboxes.
    pub closed spec fn spec_total(&self) -> nat {
        total_len(self.inbox.entries())
    }

    /// The dimension events are scoped to.
    pub closed spec fn spec_dimension(&self) -> DimensionId {
        self.dimension_id
    }

    /// The task events are scoped to.
    pub closed spec fn spec_task(&self) -> TaskId {
        self.task_id
    }

    /// Empty inboxes; events are scoped to the dimension and task.
    pub fn new(dimension_id: DimensionId, task_id: TaskId) -> (r: Self)
        ensures
            forall|n: u128| (#[trigger] r.spec_pending(n)).len() == 0,
            r.spec_total() == 0,
            r.spec_dimension() == dimension_id,
            r.spec_task() == task_id,
    {
        NodeCommunicator { inbox: IdMap::new(), dimension_id, task_id }
    }

    /// Append a message to an inbox.
    fn deliver(&mut self, to: u128, msg: NodeMessage)
        ensures
            final(self).spec_pending(to) == old(self).spec_pending(to).push(msg),
            forall|n: u128| n != to ==> #[trigger] final(self).spec_pending(n) == old(self).spec_pending(n),
            final(self).spec_dimension() == old(self).spec_dimension(),
            final(self).spec_task() == old(self).spec_task(),
    {
        let mut v = match self.inbox.remove(to) {
            Some(v) => v,
            None => Vec::new(),
        };
        v.push(msg);
        let _ = self.inbox.insert(to, v);
    }

    /// Deliver a message to its recipient and record `node.message.sent`; a
    /// message without a recipient is dropped.
    pub fn send(&mut self, msg: NodeMessage, log: &mut ActionLog)
        ensures
            match msg.to_node {
                Some(to) => {
                    &&& final(self).spec_pending(to) == old(self).spec_pending(to).push(msg)
                    &&& forall|n: u128| n != to ==> #[trigger] final(self).spec_pending(n) == old(self).spec_pending(n)
                    &&& appended_one(old(log)@, final(log)@, EventType::NodeMessageSent,
                        Some(old(self).spec_dimension()), Some(old(self).spec_task()))
                    &&& final(log)@.last().payload.model() == JsonModel::Object(seq![
                        ("msg_id"@, JsonModel::Str(uuid_text(msg.id))),
                        ("from"@, JsonModel::Str(uuid_text(msg.from_node))),
                        ("to"@, JsonModel::Str(uuid_text(to))),
                        ("channel"@, JsonModel::Str(msg.channel@)),
                    ])
                },
                None => final(self).spec_pending_all_same(*old(self)) && final(log)@ == old(log)@,
            },
            final(self).spec_dimension() == old(self).spec_dimension(),
            final(self).spec_task() == old(self).spec_task(),
    {
        let to = match msg.to_node {
            Some(t) => t,
            None => {
                return;
            },
        };
        let members = vec![
            ("msg_id".to_owned(), JsonValue::from_uuid(msg.id)),
            ("from".to_owned(), JsonValue::from_uuid(msg.from_node)),
            ("to".to_owned(), JsonValue::from_uuid(to)),
            ("channel".to_owned(), JsonValue::string(msg.channel.as_str())),
        ];
        proof {
            lemma_members_models(members@);
            assert(members@.map_values(|m: (String, JsonValue)| (m.0@, m.1.model())) =~= seq![
                ("msg_id"@, JsonModel::Str(uuid_text(msg.id))),
                ("from"@, JsonModel::Str(uuid_text(msg.from_node))),
                ("to"@, JsonModel::Str(uuid_text(to))),
                ("channel"@, JsonModel::Str(msg.channel@)),
            ]);
        }
        let payload = JsonValue::object(members);
        log.record(EventType::NodeMessageSent, Some(self.dimension_id), Some(self.task_id), payload);
        self.deliver(to, msg);
    }

    /// Every inbox holds what it held in `other`.
    pub open spec fn spec_pending_all_same(&self, other: NodeCommunicator) -> bool {
        forall|n: u128| #[trigger] self.spec_pending(n) == other.spec_pending(n)
    }

    /// Deliver a copy of a message to each recipient (one per occurrence),
    /// record `node.message.broadcast` once, and return the number of
    /// recipients.
    pub fn broadcast(&mut self, from_node: u128, channel: &str, payload: JsonValue, recipients: Vec<u128>,
        log: &mut ActionLog) -> (r: usize)
        ensures
            r == recipients@.len(),
            forall|n: u128| {
                let before = old(self).spec_pending(n);
                let after = #[trigger] final(self).spec_pending(n);
                &&& after.len() == before.len() + recipients@.filter(is_id(n)).len()
                &&& after.subrange(0, before.len() as int) == before
                &&& forall|j: int| before.len() <= j < after.len() ==> delivered_copy(#[trigger] after[j], from_node, n,
                    channel@, payload)
            },
            appended_one(old(log)@, final(log)@, EventType::NodeMessageBroadcast, Some(old(self).spec_dimension()),
                Some(old(self).spec_task())),
            final(log)@.last().payload.model() == JsonModel::Object(seq![
                ("from"@, JsonModel::Str(uuid_text(from_node))),
                ("channel"@, JsonModel::Str(channel@)),
                ("recipient_count"@, JsonModel::Int(recipients@.len() as int)),
            ]),
            final(self).spec_dimension() == old(self).spec_dimension(),
            final(self).spec_task() == old(self).spec_task(),
    {
        let count = recipients.len();
        let members = vec![
            ("from".to_owned(), JsonValue::from_uuid(from_node)),
            ("channel".to_owned(), JsonValue::string(channel)),
            ("recipient_count".to_owned(), JsonValue::from_u64(count as u64)),
        ];
        proof {
            lemma_members_models(members@);
            assert(members@.map_values(|m: (String, JsonValue)| (m.0@, m.1.model())) =~= seq![
                ("from"@, JsonModel::Str(uuid_text(from_node))),
                ("channel"@, JsonModel::Str(channel@)),
                ("recipient_count"@, JsonModel::Int(count as int)),
            ]);
        }
        let body = JsonValue::object(members);
        log.record(EventType::NodeMessageBroadcast, Some(self.dimension_id), Some(self.task_id), body);
        let ghost start = *self;
        for i in 0..count
            invariant
                count == recipients@.len(),
                self.spec_dimension() == start.spec_dimension(),
                self.spec_task() == start.spec_task(),
                forall|n: u128| {
                    let before = start.spec_pending(n);
                    let after = #[trigger] self.spec_pending(n);
                    &&& after.len() == before.len() + recipients@.take(i as int).filter(is_id(n)).len()
                    &&& after.subrange(0, before.len() as int) == before
                    &&& forall|j: int| before.len() <= j < after.len() ==> delivered_copy(#[trigger] after[j], from_node, n,
                        channel@, payload)
                },
        {
            let to = recipients[i];
            let msg = NodeMessage {
                id: new_uuid_v7(),
                from_node,
                to_node: Some(to),
                channel: channel.to_owned(),
                payload: payload.clone(),
                sent_at_ms: now_ms(),
            };
            let ghost mid = *self;
            self.deliver(to, msg);
            proof {
                assert(recipients@.take(i + 1) == recipients@.take(i as int).push(to));
                assert forall|n: u128| #[trigger] recipients@.take(i + 1).filter(is_id(n)).len()
                    == recipients@.take(i as int).filter(is_id(n)).len() + if n == to { 1int } else { 0int } by {
                    recipients@.take(i as int).lemma_filter_push(to, is_id(n));
                }
                assert forall|n: u128| {
                    let before = start.spec_pending(n);
                    let after = #[trigger] self.spec_pending(n);
                    &&& after.len() == before.len() + recipients@.take(i + 1).filter(is_id(n)).len()
                    &&& after.subrange(0, before.len() as int) == before
                    &&& forall|j: int| before.len() <= j < after.len() ==> delivered_copy(#[trigger] after[j], from_node, n,
                        channel@, payload)
                } by {
                    let before = start.spec_pending(n);
                    let m = mid.spec_pending(n);
                    if n == to {
                        let after = self.spec_pending(n);
                        assert(after == m.push(msg));
                        assert(recipients@.take(i + 1).filter(is_id(n)).len() == recipients@.take(i as int).filter(is_id(n)).len() + 1);
                        assert(after.subrange(0, before.len() as int) =~= m.subrange(0, before.len() as int));
                    } else {
                        assert(recipients@.take(i + 1).filter(is_id(n)).len() == recipients@.take(i as int).filter(is_id(n)).len() + 0);
                    }
                }
            }
        }
        proof {
            assert(recipients@.take(count as int) == recipients@);
        }
        count
    }

    /// The messages waiting for a node, oldest first.
    pub fn inbox_for(&self, node_id: u128) -> (r: &[NodeMessage])
        ensures
            r@ == self.spec_pending(node_id),
    {
        match self.inbox.get(node_id) {
            Some(v) => v.as_slice(),
            None => &[],
        }
    }

    /// The messages waiting for a node on a channel, oldest first.
    pub fn inbox_for_channel(&self, node_id: u128, channel: &str) -> (r: Vec<&NodeMessage>)
        ensures
            r@.map_values(|m: &NodeMessage| *m) == self.spec_pending(node_id).filter(on_channel(channel@)),
    {
        let msgs = self.inbox_for(node_id);
        let n = msgs.len();
        let ghost all = self.spec_pending(node_id);
        let ghost pred = on_channel(channel@);
        let mut out: Vec<&NodeMessage> = Vec::new();
        for i in 0..n
            invariant
                n == msgs@.len(),
                msgs@ == all,
                pred == on_channel(channel@),
                out@.map_values(|m: &NodeMessage| *m) == all.take(i as int).filter(pred),
        {
            proof {
                assert(all.take(i + 1) == all.take(i as int).push(all[i as int]));
                all.take(i as int).lemma_filter_push(all[i as int], pred);
            }
            let m = &msgs[i];
            if str_eq(m.channel.as_str(), channel) {
                let ghost before = out@;
                out.push(m);
                proof {
                    assert(out@.map_values(|m: &NodeMessage| *m) =~= before.map_values(|m: &NodeMessage| *m).push(*m));
                }
            }
        }
        proof {
            assert(all.take(n as int) == all);
        }
        out
    }

    /// Take every message waiting for a node.
    pub fn drain_inbox(&mut self, node_id: u128) -> (r: Vec<NodeMessage>)
        ensures
            r@ == old(self).spec_pending(node_id),
            final(self).spec_pending(node_id).len() == 0,
            forall|n: u128| n != node_id ==> #[trigger] final(self).spec_pending(n) == old(self).spec_pending(n),
            final(self).spec_dimension() == old(self).spec_dimension(),
            final(self).spec_task() == old(self).spec_task(),
    {
        match self.inbox.remove(node_id) {
            Some(v) => v,
            None => Vec::new(),
        }
    }

    /// Take the messages waiting for a node on a channel; the others stay,
    /// in order.
    pub fn drain_channel(&mut self, node_id: u128, channel: &str) -> (r: Vec<NodeMessage>)
        ensures
            r@ == old(self).spec_pending(node_id).filter(on_channel(channel@)),
            final(self).spec_pending(node_id) == old(self).spec_pending(node_id).filter(off_channel(channel@)),
            forall|n: u128| n != node_id ==> #[trigger] final(self).spec_pending(n) == old(self).spec_pending(n),
            final(self).spec_dimension() == old(self).spec_dimension(),
            final(self).spec_task() == old(self).spec_task(),
    {
        let all_msgs = match self.inbox.remove(node_id) {
            Some(v) => v,
            None => Vec::new(),
        };
        let ghost all = all_msgs@;
        let n = all_msgs.len();
        let mut drained: Vec<NodeMessage> = Vec::new();
        let mut remaining: Vec<NodeMessage> = Vec::new();
        for i in 0..n
            invariant
                n == all_msgs@.len(),
                all == all_msgs@,
                drained@ == all.take(i as int).filter(on_channel(channel@)),
                remaining@ == all.take(i as int).filter(off_channel(channel@)),
        {
            proof {
                assert(all.take(i + 1) == all.take(i as int).push(all[i as int]));
                all.take(i as int).lemma_filter_push(all[i as int], on_channel(channel@));
                all.take(i as int).lemma_filter_push(all[i as int], off_channel(channel@));
            }
            let m = all_msgs[i].clone();
            if str_eq(m.channel.as_str(), channel) {
                drained.push(m);
            } else {
                remaining.push(m);
            }
        }
        proof {
            assert(all.take(n as int) == all);
        }
        let _ = self.inbox.insert(node_id, remaining);
        drained
    }

    /// The number of messages waiting for a node.
    pub fn pending_count(&self, node_id: u128) -> (r: usize)
        ensures
            r == self.spec_pending(node_id).len(),
    {
        self.inbox_for(node_id).len()
    }

    /// The number of messages waiting over all inboxes.
    pub fn total_pending(&self) -> (r: usize)
        requires
            self.spec_total() <= usize::MAX,
        ensures
            r == self.spec_total(),
    {
        let n = self.inbox.len();
        let mut sum: usize = 0;
        for i in 0..n
            invariant
                n == self.inbox.entries().len(),
                sum == total_len(self.inbox.entries().take(i as int)),
                total_len(self.inbox.entries()) <= usize::MAX,
        {
            proof {
                assert(self.inbox.entries().take(i + 1).drop_last() == self.inbox.entries().take(i as int));
                lemma_total_len_prefix(self.inbox.entries(), i + 1);
            }
            sum = sum + self.inbox.entry_at(i).1.len();
        }
        proof {
            assert(self.inbox.entries().take(n as int) == self.inbox.entries());
        }
        sum
    }

    /// Whether no message waits for a node.
    pub fn inbox_is_empty(&self, node_id: u128) -> (r: bool)
        ensures
            r == (self.spec_pending(node_id).len() == 0),
    {
        self.inbox_for(node_id).len() == 0
    }
}

/// A prefix holds no more messages than the whole.
proof fn lemma_total_len_prefix(s: Seq<(u128, Vec<NodeMessage>)>, k: int)
    requires
        0 <= k <= s.len(),
    ensures
        total_len(s.take(k)) <= total_len(s),
    decreases s.len() - k,
{
    if k < s.len() {
        lemma_total_len_prefix(s, k + 1);
        assert(s.take(k + 1).drop_last() == s.take(k));
    } else {
        assert(s.take(k) == s);
    }
}

} // verus!
