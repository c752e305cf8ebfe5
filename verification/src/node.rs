//! Canvas nodes with undo and redo, and the node customizer with templates
//! and presets.
//!
//! Every change of a [`NodeGraph`] is a command: the command is run, its
//! inverse goes on the undo stack and the redo stack is cleared.  Undo runs
//! the top of the undo stack and puts that command's inverse on the redo
//! stack; redo does the converse.  Running a command and then its inverse
//! gives back the nodes as they were, and inverting twice gives the command
//! back (see [`lemma_inverse_restores`] and [`lemma_invert_involutive`]).

use vstd::prelude::*;
use crate::action_log::{ActionLog, EventType, appended_one};
use crate::ids::{DimensionId, TaskId, new_uuid};
use crate::idmap::IdMap;
use crate::json::{JsonModel, JsonValue, lemma_members_models, uuid_text};
use crate::params::ParamMap;
use crate::text::str_eq;

verus! {

// ---------------------------------------------------------------------------
// Errors
// ---------------------------------------------------------------------------

/// Errors of node operations.
#[derive(Debug)]
pub enum NodeError {
    /// No node has the id.
    NotFound(u128),
    /// No template has the id.
    TemplateNotFound(u128),
    /// The template has no preset of that name.
    PresetNotFound { template_id: u128, name: String },
    /// A required parameter is not set.
    MissingRequiredParameter { node_id: u128, param: String },
    /// The undo stack is empty.
    NothingToUndo,
    /// The redo stack is empty.
    NothingToRedo,
}

// ---------------------------------------------------------------------------
// Templates and presets
// ---------------------------------------------------------------------------

/// A parameter declared by a template.
#[derive(Debug)]
pub struct NodeParameter {
    /// Name (a key of the node's parameters).
    pub name: String,
    /// Type hint (`"string"`, `"number"`, ...).
    pub type_hint: String,
    /// Default value, if any.
    pub default: Option<JsonValue>,
    /// Whether it must be set.
    pub required: bool,
    /// Description.
    pub description: String,
}

/// Named parameter values for quick configuration.
#[derive(Debug)]
pub struct NodePreset {
    /// Name, unique within its template.
    pub name: String,
    /// Values it supplies.
    pub values: ParamMap,
}

/// A reusable node blueprint.
#[derive(Debug)]
pub struct NodeTemplate {
    /// Template id.
    pub id: u128,
    /// Name.
    pub name: String,
    /// Description.
    pub description: String,
    /// Declared parameters.
    pub parameters: Vec<NodeParameter>,
    /// Tools nodes of this template may use.
    pub tools: Vec<String>,
    /// Memory configuration.
    pub memory_config: JsonValue,
    /// Task-flow wiring.
    pub task_flow: JsonValue,
    /// Presets.
    pub presets: Vec<NodePreset>,
}

/// The position of the first preset named `name`, if any.
pub open spec fn preset_index(presets: Seq<NodePreset>, name: Seq<char>) -> Option<int> {
    if exists|i: int| 0 <= i < presets.len() && presets[i].name@ == name {
        Some(choose|i: int| 0 <= i < presets.len() && presets[i].name@ == name && forall|j: int| 0 <= j < i ==> presets[j].name@ != name)
    } else {
        None
    }
}

impl NodeTemplate {
    /// A template with a fresh id and nothing declared.
    pub fn new(name: &str, description: &str) -> (r: Self)
        ensures
            r.name@ == name@,
            r.description@ == description@,
            r.parameters@.len() == 0,
            r.tools@.len() == 0,
            r.memory_config == JsonValue::Null,
            r.task_flow == JsonValue::Null,
            r.presets@.len() == 0,
    {
        NodeTemplate {
            id: new_uuid(),
            name: name.to_owned(),
            description: description.to_owned(),
            parameters: Vec::new(),
            tools: Vec::new(),
            memory_config: JsonValue::Null,
            task_flow: JsonValue::Null,
            presets: Vec::new(),
        }
    }

    /// The first preset with a name.
    pub fn preset(&self, name: &str) -> (r: Option<&NodePreset>)
        ensures
            match preset_index(self.presets@, name@) {
                Some(i) => r == Some(&self.presets@[i]),
                None => r is None,
            },
    {
        let n = self.presets.len();
        for i in 0..n
            invariant
                n == self.presets@.len(),
                forall|j: int| 0 <= j < i ==> self.presets@[j].name@ != name@,
        {
            if str_eq(self.presets[i].name.as_str(), name) {
                proof {
                    let s = self.presets@;
                    let c = choose|c: int| 0 <= c < s.len() && s[c].name@ == name@ && forall|j: int| 0 <= j < c ==> s[j].name@ != name@;
                    assert(c == i) by {
                        if c > i {
                            assert(s[i as int].name@ != name@);
                        }
                    }
                }
                return Some(&self.presets[i]);
            }
        }
        None
    }
}

/// The parameters the template's defaults give, later declarations winning.
pub open spec fn template_defaults(params: Seq<NodeParameter>) -> Map<Seq<char>, JsonValue>
    decreases params.len(),
{
    if params.len() == 0 {
        Map::empty()
    } else {
        let prev = template_defaults(params.drop_last());
        match params.last().default {
            Some(v) => prev.insert(params.last().name@, v),
            None => prev,
        }
    }
}

/// The first required parameter that `values` lacks, among the first `n`.
pub open spec fn first_missing(params: Seq<NodeParameter>, values: Map<Seq<char>, JsonValue>, n: int) -> Option<int>
    decreases n,
{
    if n <= 0 {
        None
    } else {
        match first_missing(params, values, n - 1) {
            Some(i) => Some(i),
            None => if params[n - 1].required && !values.contains_key(params[n - 1].name@) { Some(n - 1) } else { None },
        }
    }
}

/// A missing parameter stays the first missing one.
proof fn lemma_first_missing_sticks(params: Seq<NodeParameter>, values: Map<Seq<char>, JsonValue>, i: int, n: int)
    requires
        0 <= i <= n,
        first_missing(params, values, i) is Some,
    ensures
        first_missing(params, values, n) == first_missing(params, values, i),
    decreases n - i,
{
    if n > i {
        lemma_first_missing_sticks(params, values, i, n - 1);
    }
}

/// The first missing parameter is one of the first `n`.
proof fn lemma_first_missing_range(params: Seq<NodeParameter>, values: Map<Seq<char>, JsonValue>, n: int)
    ensures
        first_missing(params, values, n) matches Some(i) ==> 0 <= i < n,
    decreases n,
{
    if n > 0 {
        lemma_first_missing_range(params, values, n - 1);
    }
}

/// Find the first required parameter missing from `values`.
fn find_missing(params: &Vec<NodeParameter>, values: &ParamMap) -> (r: Option<usize>)
    ensures
        match first_missing(params@, values@, params@.len() as int) {
            Some(i) => r == Some(i as usize),
            None => r is None,
        },
        r matches Some(i) ==> i < params@.len() && first_missing(params@, values@, params@.len() as int) == Some(i as int),
{
    let n = params.len();
    for i in 0..n
        invariant
            n == params@.len(),
            first_missing(params@, values@, i as int) is None,
    {
        if params[i].required && !values.contains_key(params[i].name.as_str()) {
            proof {
                lemma_first_missing_sticks(params@, values@, i + 1, n as int);
                lemma_first_missing_range(params@, values@, n as int);
            }
            return Some(i);
        }
    }
    None
}

// ---------------------------------------------------------------------------
// Nodes and commands
// ---------------------------------------------------------------------------

/// A canvas node.
#[derive(Debug)]
pub struct Node {
    /// Node id.
    pub id: u128,
    /// Dimension.
    pub dimension_id: DimensionId,
    /// Template it was made from.
    pub template_id: u128,
    /// Name.
    pub name: String,
    /// Parameter values.
    pub parameters: ParamMap,
    /// Canvas position `(x, y)` in whole canvas units.
    pub position: (i64, i64),
}

/// The value of a node: name and parameters by their contents.
pub struct NodeModel {
    pub id: u128,
    pub dimension_id: DimensionId,
    pub template_id: u128,
    pub name: Seq<char>,
    pub parameters: Map<Seq<char>, JsonValue>,
    pub position: (i64, i64),
}

impl Node {
    /// The node's value.
    pub open spec fn model(self) -> NodeModel {
        NodeModel {
            id: self.id,
            dimension_id: self.dimension_id,
            template_id: self.template_id,
            name: self.name@,
            parameters: self.parameters@,
            position: self.position,
        }
    }
}

impl Clone for Node {
    fn clone(&self) -> (r: Self)
        ensures
            r.model() == self.model(),
    {
        Node {
            id: self.id,
            dimension_id: self.dimension_id,
            template_id: self.template_id,
            name: self.name.clone(),
            parameters: self.parameters.clone(),
            position: self.position,
        }
    }
}

/// A reversible change of the node graph.
#[derive(Debug)]
enum NodeCommand {
    Add { node: Node },
    Remove { node: Node },
    Update { node_id: u128, old: ParamMap, new: ParamMap },
    Move { node_id: u128, old_pos: (i64, i64), new_pos: (i64, i64) },
}

/// The value of a command.
pub enum CommandModel {
    /// Add a node.
    Add(NodeModel),
    /// Remove a node.
    Remove(NodeModel),
    /// Replace a node's parameters `old` by `new`.
    Update(u128, Map<Seq<char>, JsonValue>, Map<Seq<char>, JsonValue>),
    /// Move a node from the first position to the second.
    Move(u128, (i64, i64), (i64, i64)),
}

impl NodeCommand {
    spec fn model(self) -> CommandModel {
        match self {
            NodeCommand::Add { node } => CommandModel::Add(node.model()),
            NodeCommand::Remove { node } => CommandModel::Remove(node.model()),
            NodeCommand::Update { node_id, old, new } => CommandModel::Update(node_id, old@, new@),
            NodeCommand::Move { node_id, old_pos, new_pos } => CommandModel::Move(node_id, old_pos, new_pos),
        }
    }

    /// The command that undoes this one.
    fn inverse(&self) -> (r: NodeCommand)
        ensures
            r.model() == invert(self.model()),
    {
        match self {
            NodeCommand::Add { node } => NodeCommand::Remove { node: node.clone() },
            NodeCommand::Remove { node } => NodeCommand::Add { node: node.clone() },
            NodeCommand::Update { node_id, old, new } => NodeCommand::Update { node_id: *node_id, old: new.clone(), new: old.clone() },
            NodeCommand::Move { node_id, old_pos, new_pos } => NodeCommand::Move { node_id: *node_id, old_pos: *new_pos, new_pos: *old_pos },
        }
    }
}

/// The command that undoes `c`.
pub open spec fn invert(c: CommandModel) -> CommandModel {
    match c {
        CommandModel::Add(n) => CommandModel::Remove(n),
        CommandModel::Remove(n) => CommandModel::Add(n),
        CommandModel::Update(id, old, new) => CommandModel::Update(id, new, old),
        CommandModel::Move(id, old, new) => CommandModel::Move(id, new, old),
    }
}

/// The nodes after running `c`: an update or move of a missing node does
/// nothing.
pub open spec fn run(g: Map<u128, NodeModel>, c: CommandModel) -> Map<u128, NodeModel> {
    match c {
        CommandModel::Add(n) => g.insert(n.id, n),
        CommandModel::Remove(n) => g.remove(n.id),
        CommandModel::Update(id, _old, new) => if g.contains_key(id) {
            g.insert(id, NodeModel { parameters: new, ..g[id] })
        } else {
            g
        },
        CommandModel::Move(id, _old, new) => if g.contains_key(id) {
            g.insert(id, NodeModel { position: new, ..g[id] })
        } else {
            g
        },
    }
}

/// `c` describes a change of `g` as it is: an added node is new, a removed
/// node is there as recorded, an updated or moved node has the recorded
/// old parameters or position.
pub open spec fn applicable(g: Map<u128, NodeModel>, c: CommandModel) -> bool {
    match c {
        CommandModel::Add(n) => !g.contains_key(n.id),
        CommandModel::Remove(n) => g.contains_key(n.id) && g[n.id] == n,
        CommandModel::Update(id, old, _new) => g.contains_key(id) && g[id].parameters == old,
        CommandModel::Move(id, old, _new) => g.contains_key(id) && g[id].position == old,
    }
}

/// Undo law: running an applicable command and then its inverse gives the
/// nodes back, and the inverse is applicable to the changed nodes.
pub proof fn lemma_inverse_restores(g: Map<u128, NodeModel>, c: CommandModel)
    requires
        applicable(g, c),
    ensures
        applicable(run(g, c), invert(c)),
        run(run(g, c), invert(c)) == g,
{
    match c {
        CommandModel::Add(n) => {
            assert(run(run(g, c), invert(c)) =~= g);
        },
        CommandModel::Remove(n) => {
            assert(run(run(g, c), invert(c)) =~= g);
        },
        CommandModel::Update(id, old, new) => {
            assert(run(run(g, c), invert(c)) =~= g);
        },
        CommandModel::Move(id, old, new) => {
            assert(run(run(g, c), invert(c)) =~= g);
        },
    }
}

/// Redo law: inverting twice gives the command back, so redoing an undone
/// command runs the command again.
pub proof fn lemma_invert_involutive(c: CommandModel)
    ensures
        invert(invert(c)) == c,
{
}


/// Replaying an undone command: after running an applicable command, its
/// inverse, and the inverse of that, the nodes are as after the command.
pub proof fn lemma_undo_then_redo(g: Map<u128, NodeModel>, c: CommandModel)
    requires
        applicable(g, c),
    ensures
        run(run(run(g, c), invert(c)), invert(invert(c))) == run(g, c),
{
    lemma_inverse_restores(g, c);
    lemma_invert_involutive(c);
}

/// Undoing an added node: when `n.id` is new to `before`, adding `n` and
/// then running the entry that adding pushes on the undo stack (`Remove(n)`)
/// gives `before` back, with `n` gone and as many nodes as before; the entry
/// that undoing pushes on the redo stack (`Add(n)`) then gives the nodes
/// with `n` again.
pub proof fn lemma_undo_add_node(before: Map<u128, NodeModel>, n: NodeModel)
    requires
        before.dom().finite(),
        !before.contains_key(n.id),
    ensures
        run(run(before, CommandModel::Add(n)), CommandModel::Remove(n)) == before,
        !run(run(before, CommandModel::Add(n)), CommandModel::Remove(n)).contains_key(n.id),
        run(run(before, CommandModel::Add(n)), CommandModel::Remove(n)).len() == before.len(),
        run(before, CommandModel::Add(n)).len() == before.len() + 1,
        invert(CommandModel::Remove(n)) == CommandModel::Add(n),
        run(run(run(before, CommandModel::Add(n)), CommandModel::Remove(n)), invert(CommandModel::Remove(n)))
            == run(before, CommandModel::Add(n)),
{
    lemma_inverse_restores(before, CommandModel::Add(n));
    lemma_undo_then_redo(before, CommandModel::Add(n));
}

// ---------------------------------------------------------------------------
// The node graph
// ---------------------------------------------------------------------------

/// The values of a list of commands.
spec fn command_models(s: Seq<NodeCommand>) -> Seq<CommandModel> {
    s.map_values(|c: NodeCommand| c.model())
}

/// Canvas nodes with undo and redo stacks.
#[derive(Debug)]
pub struct NodeGraph {
    nodes: IdMap<Node>,
    undo_stack: Vec<NodeCommand>,
    redo_stack: Vec<NodeCommand>,
    dimension_id: DimensionId,
    task_id: TaskId,
}

impl NodeGraph {
    /// The nodes by id.
    pub closed spec fn spec_nodes(&self) -> Map<u128, NodeModel> {
        self.nodes@.map_values(|n: Node| n.model())
    }

    /// The undo stack, oldest first (the top is last).
    pub closed spec fn spec_undo(&self) -> Seq<CommandModel> {
        command_models(self.undo_stack@)
    }

    /// The redo stack, oldest first (the top is last).
    pub closed spec fn spec_redo(&self) -> Seq<CommandModel> {
        command_models(self.redo_stack@)
    }

    /// The graph's dimension.
    pub closed spec fn spec_dimension(&self) -> DimensionId {
        self.dimension_id
    }

    /// The graph's task.
    pub closed spec fn spec_task(&self) -> TaskId {
        self.task_id
    }

    /// An empty graph with empty stacks.
    pub fn new(dimension_id: DimensionId, task_id: TaskId) -> (r: Self)
        ensures
            r.spec_nodes() == Map::<u128, NodeModel>::empty(),
            r.spec_undo().len() == 0,
            r.spec_redo().len() == 0,
            r.spec_dimension() == dimension_id,
            r.spec_task() == task_id,
    {
        let r = NodeGraph { nodes: IdMap::new(), undo_stack: Vec::new(), redo_stack: Vec::new(), dimension_id, task_id };
        proof {
            assert(r.spec_nodes() =~= Map::<u128, NodeModel>::empty());
        }
        r
    }

    /// Run a command on the nodes.
    fn execute_command(&mut self, cmd: &NodeCommand)
        ensures
            final(self).spec_nodes() == run(old(self).spec_nodes(), cmd.model()),
            final(self).undo_stack@ == old(self).undo_stack@,
            final(self).redo_stack@ == old(self).redo_stack@,
            final(self).dimension_id == old(self).dimension_id,
            final(self).task_id == old(self).task_id,
    {
        let ghost g = self.spec_nodes();
        match cmd {
            NodeCommand::Add { node } => {
                let c = node.clone();
                self.nodes.insert(node.id, c);
                proof {
                    assert(self.spec_nodes() =~= run(g, cmd.model()));
                }
            },
            NodeCommand::Remove { node } => {
                let _ = self.nodes.remove(node.id);
                proof {
                    assert(self.spec_nodes() =~= run(g, cmd.model()));
                }
            },
            NodeCommand::Update { node_id, new, .. } => {
                let found = match self.nodes.get(*node_id) {
                    Some(n) => {
                        let mut c = n.clone();
                        c.parameters = new.clone();
                        Some(c)
                    },
                    None => None,
                };
                if let Some(c) = found {
                    self.nodes.insert(*node_id, c);
                }
                proof {
                    assert(self.spec_nodes() =~= run(g, cmd.model()));
                }
            },
            NodeCommand::Move { node_id, new_pos, .. } => {
                let found = match self.nodes.get(*node_id) {
                    Some(n) => {
                        let mut c = n.clone();
                        c.position = *new_pos;
                        Some(c)
                    },
                    None => None,
                };
                if let Some(c) = found {
                    self.nodes.insert(*node_id, c);
                }
                proof {
                    assert(self.spec_nodes() =~= run(g, cmd.model()));
                }
            },
        }
    }

    /// Run a command, push its inverse on the undo stack, clear the redo
    /// stack.
    fn apply_command(&mut self, cmd: NodeCommand)
        ensures
            final(self).spec_nodes() == run(old(self).spec_nodes(), cmd.model()),
            final(self).spec_undo() == old(self).spec_undo().push(invert(cmd.model())),
            final(self).spec_redo().len() == 0,
            final(self).dimension_id == old(self).dimension_id,
            final(self).task_id == old(self).task_id,
    {
        let inv = cmd.inverse();
        self.execute_command(&cmd);
        self.undo_stack.push(inv);
        self.redo_stack.clear();
        proof {
            assert(self.spec_undo() =~= old(self).spec_undo().push(invert(cmd.model())));
        }
    }

    /// Add a node made from a template: the template's defaults, then
    /// `params`, give its parameters; every required parameter must be set.
    pub fn add_node(&mut self, template: &NodeTemplate, name: &str, position: (i64, i64), params: ParamMap, log: &mut ActionLog)
        -> (r: Result<u128, NodeError>)
        ensures
            ({
                let values = template_defaults(template.parameters@).union_prefer_right(params@);
                let missing = first_missing(template.parameters@, values, template.parameters@.len() as int);
                &&& (r is Ok) <==> missing is None
                &&& r matches Err(e) ==> (e matches NodeError::MissingRequiredParameter { node_id, param }
                    && node_id == 0 && param@ == template.parameters@[missing->0].name@)
                    && final(self).spec_nodes() == old(self).spec_nodes()
                    && final(self).spec_undo() == old(self).spec_undo()
                    && final(self).spec_redo() == old(self).spec_redo()
                    && final(log)@ == old(log)@
                &&& r matches Ok(id) ==> {
                    let n = NodeModel { id, dimension_id: old(self).spec_dimension(), template_id: template.id,
                        name: name@, parameters: values, position };
                    &&& final(self).spec_nodes() == run(old(self).spec_nodes(), CommandModel::Add(n))
                    &&& final(self).spec_undo() == old(self).spec_undo().push(CommandModel::Remove(n))
                    &&& final(self).spec_redo().len() == 0
                    &&& appended_one(old(log)@, final(log)@, EventType::NodeCreated, Some(old(self).spec_dimension()), Some(old(self).spec_task()))
                    &&& final(log)@.last().payload.model() == JsonModel::Object(seq![
                        ("node_id"@, JsonModel::Str(uuid_text(id))),
                        ("node_kind"@, JsonModel::Str(template.name@)),
                        ("template_id"@, JsonModel::Str(uuid_text(template.id))),
                    ])
                }
            }),
            final(self).spec_dimension() == old(self).spec_dimension(),
            final(self).spec_task() == old(self).spec_task(),
    {
        let mut values = ParamMap::new();
        let n = template.parameters.len();
        for i in 0..n
            invariant
                n == template.parameters@.len(),
                values@ == template_defaults(template.parameters@.take(i as int)),
        {
            proof {
                assert(template.parameters@.take(i + 1).drop_last() =~= template.parameters@.take(i as int));
                assert(template.parameters@.take(i + 1).last() == template.parameters@[i as int]);
            }
            match &template.parameters[i].default {
                Some(d) => {
                    let _ = values.insert(template.parameters[i].name.clone(), d.clone());
                },
                None => {},
            }
        }
        proof {
            assert(template.parameters@.take(n as int) =~= template.parameters@);
        }
        values.merge(&params);
        proof {
            assert(values@ == template_defaults(template.parameters@).union_prefer_right(params@));
        }
        if let Some(i) = find_missing(&template.parameters, &values) {
            let param = template.parameters[i].name.clone();
            proof {
                lemma_first_missing_range(template.parameters@, values@, n as int);
                assert(first_missing(template.parameters@, values@, n as int) == Some(i as int));
                assert(param@ == template.parameters@[i as int].name@);
            }
            return Err(NodeError::MissingRequiredParameter { node_id: 0, param });
        }
        let node = Node {
            id: new_uuid(),
            dimension_id: self.dimension_id,
            template_id: template.id,
            name: name.to_owned(),
            parameters: values,
            position,
        };
        let id = node.id;
        self.apply_command(NodeCommand::Add { node });
        let members = vec![
            ("node_id".to_owned(), JsonValue::from_uuid(id)),
            ("node_kind".to_owned(), JsonValue::string(template.name.as_str())),
            ("template_id".to_owned(), JsonValue::from_uuid(template.id)),
        ];
        proof {
            lemma_members_models(members@);
            assert(members@.map_values(|m: (String, JsonValue)| (m.0@, m.1.model())) =~= seq![
                ("node_id"@, JsonModel::Str(uuid_text(id))),
                ("node_kind"@, JsonModel::Str(template.name@)),
                ("template_id"@, JsonModel::Str(uuid_text(template.id))),
            ]);
        }
        let payload = JsonValue::object(members);
        log.record(EventType::NodeCreated, Some(self.dimension_id), Some(self.task_id), payload);
        Ok(id)
    }

    /// Remove a node.
    pub fn remove_node(&mut self, node_id: u128, log: &mut ActionLog) -> (r: Result<(), NodeError>)
        ensures
            (r is Ok) <==> old(self).spec_nodes().contains_key(node_id),
            r matches Err(e) ==> e == NodeError::NotFound(node_id)
                && final(self).spec_nodes() == old(self).spec_nodes()
                && final(self).spec_undo() == old(self).spec_undo()
                && final(self).spec_redo() == old(self).spec_redo()
                && final(log)@ == old(log)@,
            r is Ok ==> {
                let n = old(self).spec_nodes()[node_id];
                &&& final(self).spec_nodes() == run(old(self).spec_nodes(), CommandModel::Remove(n))
                &&& final(self).spec_undo() == old(self).spec_undo().push(CommandModel::Add(n))
                &&& final(self).spec_redo().len() == 0
                &&& appended_one(old(log)@, final(log)@, EventType::NodeDeleted, Some(old(self).spec_dimension()), Some(old(self).spec_task()))
                &&& final(log)@.last().payload.model() == JsonModel::Object(seq![("node_id"@, JsonModel::Str(uuid_text(node_id)))])
            },
            final(self).spec_dimension() == old(self).spec_dimension(),
            final(self).spec_task() == old(self).spec_task(),
    {
        let node = match self.nodes.get(node_id) {
            Some(n) => n.clone(),
            None => {
                return Err(NodeError::NotFound(node_id));
            },
        };
        self.apply_command(NodeCommand::Remove { node });
        let members = vec![("node_id".to_owned(), JsonValue::from_uuid(node_id))];
        proof {
            lemma_members_models(members@);
            assert(members@.map_values(|m: (String, JsonValue)| (m.0@, m.1.model()))
                =~= seq![("node_id"@, JsonModel::Str(uuid_text(node_id)))]);
        }
        let payload = JsonValue::object(members);
        log.record(EventType::NodeDeleted, Some(self.dimension_id), Some(self.task_id), payload);
        Ok(())
    }

    /// Merge `updates` into a node's parameters.
    pub fn update_node(&mut self, node_id: u128, updates: ParamMap, log: &mut ActionLog) -> (r: Result<(), NodeError>)
        ensures
            (r is Ok) <==> old(self).spec_nodes().contains_key(node_id),
            r matches Err(e) ==> e == NodeError::NotFound(node_id)
                && final(self).spec_nodes() == old(self).spec_nodes()
                && final(self).spec_undo() == old(self).spec_undo()
                && final(self).spec_redo() == old(self).spec_redo()
                && final(log)@ == old(log)@,
            r is Ok ==> {
                let before = old(self).spec_nodes()[node_id].parameters;
                let c = CommandModel::Update(node_id, before, before.union_prefer_right(updates@));
                &&& final(self).spec_nodes() == run(old(self).spec_nodes(), c)
                &&& final(self).spec_undo() == old(self).spec_undo().push(invert(c))
                &&& final(self).spec_redo().len() == 0
                &&& appended_one(old(log)@, final(log)@, EventType::NodeUpdated, Some(old(self).spec_dimension()), Some(old(self).spec_task()))
            },
            final(self).spec_dimension() == old(self).spec_dimension(),
            final(self).spec_task() == old(self).spec_task(),
    {
        let old_params = match self.nodes.get(node_id) {
            Some(n) => n.parameters.clone(),
            None => {
                return Err(NodeError::NotFound(node_id));
            },
        };
        let mut new_params = old_params.clone();
        new_params.merge(&updates);
        let changed = updates.keys();
        self.apply_command(NodeCommand::Update { node_id, old: old_params, new: new_params });
        let mut fields: Vec<JsonValue> = Vec::new();
        let m = changed.len();
        for i in 0..m
            invariant
                m == changed@.len(),
        {
            fields.push(JsonValue::string(changed[i].as_str()));
        }
        let payload = JsonValue::object(vec![
            ("node_id".to_owned(), JsonValue::from_uuid(node_id)),
            ("changed_fields".to_owned(), JsonValue::array(fields)),
        ]);
        log.record(EventType::NodeUpdated, Some(self.dimension_id), Some(self.task_id), payload);
        Ok(())
    }

    /// Move a node.
    pub fn move_node(&mut self, node_id: u128, new_position: (i64, i64)) -> (r: Result<(), NodeError>)
        ensures
            (r is Ok) <==> old(self).spec_nodes().contains_key(node_id),
            r matches Err(e) ==> e == NodeError::NotFound(node_id)
                && final(self).spec_nodes() == old(self).spec_nodes()
                && final(self).spec_undo() == old(self).spec_undo()
                && final(self).spec_redo() == old(self).spec_redo(),
            r is Ok ==> {
                let c = CommandModel::Move(node_id, old(self).spec_nodes()[node_id].position, new_position);
                &&& final(self).spec_nodes() == run(old(self).spec_nodes(), c)
                &&& final(self).spec_undo() == old(self).spec_undo().push(invert(c))
                &&& final(self).spec_redo().len() == 0
            },
            final(self).spec_dimension() == old(self).spec_dimension(),
            final(self).spec_task() == old(self).spec_task(),
    {
        let old_pos = match self.nodes.get(node_id) {
            Some(n) => n.position,
            None => {
                return Err(NodeError::NotFound(node_id));
            },
        };
        self.apply_command(NodeCommand::Move { node_id, old_pos, new_pos: new_position });
        Ok(())
    }

    /// Undo the last change: run the top of the undo stack and put its
    /// inverse on the redo stack.
    pub fn undo(&mut self, log: &mut ActionLog) -> (r: Result<(), NodeError>)
        ensures
            (r is Ok) <==> old(self).spec_undo().len() > 0,
            r matches Err(e) ==> e is NothingToUndo
                && final(self).spec_nodes() == old(self).spec_nodes()
                && final(self).spec_undo() == old(self).spec_undo()
                && final(self).spec_redo() == old(self).spec_redo()
                && final(log)@ == old(log)@,
            r is Ok ==> {
                let c = old(self).spec_undo().last();
                &&& final(self).spec_nodes() == run(old(self).spec_nodes(), c)
                &&& final(self).spec_undo() == old(self).spec_undo().drop_last()
                &&& final(self).spec_redo() == old(self).spec_redo().push(invert(c))
                &&& appended_one(old(log)@, final(log)@, EventType::NodeUndo, Some(old(self).spec_dimension()), Some(old(self).spec_task()))
                &&& final(log)@.last().payload.model() == JsonModel::Object(seq![
                    ("undo_stack_remaining"@, JsonModel::Int(final(self).spec_undo().len() as int)),
                ])
            },
            final(self).spec_dimension() == old(self).spec_dimension(),
            final(self).spec_task() == old(self).spec_task(),
    {
        let cmd = match self.undo_stack.pop() {
            Some(c) => c,
            None => {
                return Err(NodeError::NothingToUndo);
            },
        };
        proof {
            assert(self.spec_undo() =~= old(self).spec_undo().drop_last());
        }
        let redo_cmd = cmd.inverse();
        self.execute_command(&cmd);
        self.redo_stack.push(redo_cmd);
        proof {
            assert(self.spec_redo() =~= old(self).spec_redo().push(invert(cmd.model())));
        }
        let remaining = self.undo_stack.len();
        let members = vec![("undo_stack_remaining".to_owned(), JsonValue::from_u64(remaining as u64))];
        proof {
            lemma_members_models(members@);
            assert(self.spec_undo().len() == remaining);
            assert(members@.map_values(|m: (String, JsonValue)| (m.0@, m.1.model()))
                =~= seq![("undo_stack_remaining"@, JsonModel::Int(remaining as int))]);
        }
        let payload = JsonValue::object(members);
        log.record(EventType::NodeUndo, Some(self.dimension_id), Some(self.task_id), payload);
        Ok(())
    }

    /// Redo the last undone change: run the top of the redo stack and put
    /// its inverse on the undo stack.
    pub fn redo(&mut self, log: &mut ActionLog) -> (r: Result<(), NodeError>)
        ensures
            (r is Ok) <==> old(self).spec_redo().len() > 0,
            r matches Err(e) ==> e is NothingToRedo
                && final(self).spec_nodes() == old(self).spec_nodes()
                && final(self).spec_undo() == old(self).spec_undo()
                && final(self).spec_redo() == old(self).spec_redo()
                && final(log)@ == old(log)@,
            r is Ok ==> {
                let c = old(self).spec_redo().last();
                &&& final(self).spec_nodes() == run(old(self).spec_nodes(), c)
                &&& final(self).spec_redo() == old(self).spec_redo().drop_last()
                &&& final(self).spec_undo() == old(self).spec_undo().push(invert(c))
                &&& appended_one(old(log)@, final(log)@, EventType::NodeRedo, Some(old(self).spec_dimension()), Some(old(self).spec_task()))
                &&& final(log)@.last().payload.model() == JsonModel::Object(seq![
                    ("redo_stack_remaining"@, JsonModel::Int(final(self).spec_redo().len() as int)),
                ])
            },
            final(self).spec_dimension() == old(self).spec_dimension(),
            final(self).spec_task() == old(self).spec_task(),
    {
        let cmd = match self.redo_stack.pop() {
            Some(c) => c,
            None => {
                return Err(NodeError::NothingToRedo);
            },
        };
        proof {
            assert(self.spec_redo() =~= old(self).spec_redo().drop_last());
        }
        let undo_cmd = cmd.inverse();
        self.execute_command(&cmd);
        self.undo_stack.push(undo_cmd);
        proof {
            assert(self.spec_undo() =~= old(self).spec_undo().push(invert(cmd.model())));
        }
        let remaining = self.redo_stack.len();
        let members = vec![("redo_stack_remaining".to_owned(), JsonValue::from_u64(remaining as u64))];
        proof {
            lemma_members_models(members@);
            assert(self.spec_redo().len() == remaining);
            assert(members@.map_values(|m: (String, JsonValue)| (m.0@, m.1.model()))
                =~= seq![("redo_stack_remaining"@, JsonModel::Int(remaining as int))]);
        }
        let payload = JsonValue::object(members);
        log.record(EventType::NodeRedo, Some(self.dimension_id), Some(self.task_id), payload);
        Ok(())
    }

    /// The node with an id.
    pub fn get(&self, id: u128) -> (r: Option<&Node>)
        ensures
            r is Some <==> self.spec_nodes().contains_key(id),
            r matches Some(n) ==> n.model() == self.spec_nodes()[id],
    {
        self.nodes.get(id)
    }

    /// The nodes by ascending id.
    pub closed spec fn spec_node_list(&self) -> Seq<NodeModel> {
        self.nodes.entries().map_values(|e: (u128, Node)| e.1.model())
    }

    /// Every node, by ascending id.
    pub fn nodes(&self) -> (r: Vec<&Node>)
        ensures
            r@.len() == self.spec_nodes().len(),
            r@.len() == self.spec_node_list().len(),
            forall|i: int| 0 <= i < r@.len() ==> (*r@[i]).model() == self.spec_node_list()[i],
    {
        let vals = self.nodes.values();
        let n = self.nodes.len();
        proof {
            assert(self.spec_nodes().dom() =~= self.nodes@.dom());
        }
        vals
    }

    /// Number of nodes.
    pub fn len(&self) -> (r: usize)
        ensures
            r == self.spec_nodes().len(),
    {
        let n = self.nodes.len();
        proof {
            assert(self.spec_nodes().dom() =~= self.nodes@.dom());
        }
        n
    }

    /// Whether there is no node.
    pub fn is_empty(&self) -> (r: bool)
        ensures
            r == (self.spec_nodes().len() == 0),
    {
        self.len() == 0
    }

    /// Changes that can be undone.
    pub fn undo_depth(&self) -> (r: usize)
        ensures
            r == self.spec_undo().len(),
    {
        self.undo_stack.len()
    }

    /// Changes that can be redone.
    pub fn redo_depth(&self) -> (r: usize)
        ensures
            r == self.spec_redo().len(),
    {
        self.redo_stack.len()
    }

    /// Every node names a template (a non-nil id).
    pub fn validate(&self) -> (r: Result<(), NodeError>)
        ensures
            (r is Ok) <==> forall|k: u128| #[trigger] self.spec_nodes().contains_key(k) ==> self.spec_nodes()[k].template_id != 0,
            r matches Err(e) ==> e == NodeError::TemplateNotFound(0),
    {
        let n = self.nodes.len();
        for i in 0..n
            invariant
                n == self.nodes.entries().len(),
                forall|j: int| 0 <= j < i ==> (#[trigger] self.nodes.entries()[j]).1.template_id != 0,
        {
            let e = self.nodes.entry_at(i);
            if e.1.template_id == 0 {
                proof {
                    assert(self.nodes@.contains_key(e.0));
                    assert(self.spec_nodes().contains_key(e.0));
                    assert(self.spec_nodes()[e.0].template_id == 0);
                }
                return Err(NodeError::TemplateNotFound(0));
            }
        }
        proof {
            assert forall|k: u128| #[trigger] self.spec_nodes().contains_key(k) implies self.spec_nodes()[k].template_id != 0 by {
                let j = crate::idmap::key_index(self.nodes.entries(), k);
                crate::idmap::lemma_key_index(self.nodes.entries(), j);
                assert(self.nodes.entries()[j].1.template_id != 0);
            }
        }
        Ok(())
    }
}


// ---------------------------------------------------------------------------
// The customizer
// ---------------------------------------------------------------------------

/// Templates by id; applies presets and parameter overrides to nodes.
#[derive(Debug)]
pub struct NodeCustomizer {
    templates: IdMap<NodeTemplate>,
}

impl NodeCustomizer {
    /// The templates by id.
    pub closed spec fn spec_templates(&self) -> Map<u128, NodeTemplate> {
        self.templates@
    }

    /// No template yet.
    pub fn new() -> (r: Self)
        ensures
            r.spec_templates() == Map::<u128, NodeTemplate>::empty(),
    {
        NodeCustomizer { templates: IdMap::new() }
    }

    /// Register a template under its id, replacing one with the same id.
    pub fn register_template(&mut self, template: NodeTemplate)
        ensures
            final(self).spec_templates() == old(self).spec_templates().insert(template.id, template),
    {
        let k = template.id;
        self.templates.insert(k, template);
    }

    /// The template with an id.
    pub fn get_template(&self, id: u128) -> (r: Option<&NodeTemplate>)
        ensures
            r is Some <==> self.spec_templates().contains_key(id),
            r matches Some(t) ==> *t == self.spec_templates()[id],
    {
        self.templates.get(id)
    }

    /// Overwrite a node's parameters with the values of a template's
    /// preset, and log it.
    pub fn apply_preset(&self, node: &mut Node, template_id: u128, preset_name: &str, log: &mut ActionLog) -> (r: Result<(), NodeError>)
        ensures
            !self.spec_templates().contains_key(template_id) ==> (r matches Err(e) && e == NodeError::TemplateNotFound(template_id)),
            self.spec_templates().contains_key(template_id) && preset_index(self.spec_templates()[template_id].presets@, preset_name@) is None
                ==> (r matches Err(e) && e matches NodeError::PresetNotFound { template_id: t, name } && t == template_id && name@ == preset_name@),
            r is Err ==> final(node).model() == old(node).model() && final(log)@ == old(log)@,
            (self.spec_templates().contains_key(template_id)
                && preset_index(self.spec_templates()[template_id].presets@, preset_name@) is Some) ==> {
                let t = self.spec_templates()[template_id];
                let p = t.presets@[preset_index(t.presets@, preset_name@)->0];
                &&& r is Ok
                &&& final(node).model() == (NodeModel { parameters: old(node).parameters@.union_prefer_right(p.values@), ..old(node).model() })
                &&& appended_one(old(log)@, final(log)@, EventType::NodeUpdated, Some(old(node).dimension_id), None)
            },
    {
        let template = match self.templates.get(template_id) {
            Some(t) => t,
            None => {
                return Err(NodeError::TemplateNotFound(template_id));
            },
        };
        let preset = match template.preset(preset_name) {
            Some(p) => p,
            None => {
                return Err(NodeError::PresetNotFound { template_id, name: preset_name.to_owned() });
            },
        };
        node.parameters.merge(&preset.values);
        let payload = JsonValue::object(vec![
            ("node_id".to_owned(), JsonValue::from_uuid(node.id)),
            ("preset_applied".to_owned(), JsonValue::string(preset_name)),
            ("template_id".to_owned(), JsonValue::from_uuid(template_id)),
        ]);
        log.record(EventType::NodeUpdated, Some(node.dimension_id), None, payload);
        Ok(())
    }

    /// Merge `updates` into a node's parameters and log it; then, when the
    /// node's template is registered, every required parameter must be set
    /// (the updates stay applied either way).
    pub fn customize(&self, node: &mut Node, task_id: TaskId, updates: ParamMap, log: &mut ActionLog) -> (r: Result<(), NodeError>)
        ensures
            final(node).model() == (NodeModel { parameters: old(node).parameters@.union_prefer_right(updates@), ..old(node).model() }),
            appended_one(old(log)@, final(log)@, EventType::NodeUpdated, Some(old(node).dimension_id), Some(task_id)),
            ({
                let values = old(node).parameters@.union_prefer_right(updates@);
                if self.spec_templates().contains_key(old(node).template_id) {
                    let ps = self.spec_templates()[old(node).template_id].parameters@;
                    &&& (r is Ok) <==> first_missing(ps, values, ps.len() as int) is None
                    &&& r matches Err(e) ==> (e matches NodeError::MissingRequiredParameter { node_id, param }
                        && node_id == old(node).id && param@ == ps[first_missing(ps, values, ps.len() as int)->0].name@)
                } else {
                    r is Ok
                }
            }),
    {
        node.parameters.merge(&updates);
        let changed = updates.keys();
        let mut fields: Vec<JsonValue> = Vec::new();
        let m = changed.len();
        for i in 0..m
            invariant
                m == changed@.len(),
        {
            fields.push(JsonValue::string(changed[i].as_str()));
        }
        let payload = JsonValue::object(vec![
            ("node_id".to_owned(), JsonValue::from_uuid(node.id)),
            ("changed_fields".to_owned(), JsonValue::array(fields)),
        ]);
        log.record(EventType::NodeUpdated, Some(node.dimension_id), Some(task_id), payload);
        self.validate_params(node)
    }

    /// Check a node against its registered template: every required
    /// parameter must be set.  A node of an unregistered template passes.
    pub fn validate_params(&self, node: &Node) -> (r: Result<(), NodeError>)
        ensures
            if self.spec_templates().contains_key(node.template_id) {
                let ps = self.spec_templates()[node.template_id].parameters@;
                &&& (r is Ok) <==> first_missing(ps, node.parameters@, ps.len() as int) is None
                &&& r matches Err(e) ==> (e matches NodeError::MissingRequiredParameter { node_id, param }
                    && node_id == node.id && param@ == ps[first_missing(ps, node.parameters@, ps.len() as int)->0].name@)
            } else {
                r is Ok
            },
    {
        let template = match self.templates.get(node.template_id) {
            Some(t) => t,
            None => {
                return Ok(());
            },
        };
        let found = find_missing(&template.parameters, &node.parameters);
        proof {
            lemma_first_missing_range(template.parameters@, node.parameters@, template.parameters@.len() as int);
        }
        match found {
            Some(i) => {
                let param = template.parameters[i].name.clone();
                proof {
                    lemma_first_missing_range(template.parameters@, node.parameters@, template.parameters@.len() as int);
                    assert(first_missing(template.parameters@, node.parameters@, template.parameters@.len() as int) == Some(i as int));
                    assert(param@ == template.parameters@[i as int].name@);
                }
                Err(NodeError::MissingRequiredParameter { node_id: node.id, param })
            },
            None => Ok(()),
        }
    }
}

} // verus!
