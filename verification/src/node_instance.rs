//! Node instance grouping: versioned templates made from a group of nodes,
//! parameter inheritance rules, expansion of templates into live instances,
//! cloning and forking, and marketplace publishing hooks.

use vstd::prelude::*;
use vstd::string::*;
use crate::action_log::{ActionLog, EventType, appended_one, now_ms};
use crate::graph::{FlowGraphSchema, GraphNode, NodeProvenance, node_model};
use crate::ids::{DimensionId, TaskId, new_uuid_v7};
use crate::idmap::IdMap;
use crate::json::{JsonModel, JsonValue, id_event_model, id_object, id_pair_model, id_pair_object, lemma_members_models, uuid_to_string, uuid_text};
use crate::params::ParamMap;
use crate::text::{str_eq, str_lt, seq_lt, contains_str, decimal, decimal_string};

verus! {

// ---------------------------------------------------------------------------
// Errors
// ---------------------------------------------------------------------------

/// Errors of the instance registry.
#[derive(Debug)]
pub enum InstanceError {
    /// No template has the id.
    TemplateNotFound(u128),
    /// No instance has the id.
    InstanceNotFound(u128),
    /// The template is read-only and takes no overrides.
    TemplateReadOnly(u128),
    /// The parameter is frozen by the template.
    FrozenParam { template_id: u128, param: String },
    /// Exported or imported text is malformed.
    Serialisation(String),
    /// Parameters cannot be migrated between the versions.
    MigrationFailed { from: u32, to: u32, reason: String },
}

// ---------------------------------------------------------------------------
// Parameter schema
// ---------------------------------------------------------------------------

/// How an instance inherits a template parameter.
#[derive(Clone, Copy, Debug, PartialEq, Eq, Structural)]
pub enum ParamInheritance {
    /// Inherited and never overridden.
    Frozen,
    /// The template value is a default that may be overridden.
    Overridable,
    /// Not given by the template; the instance supplies it.
    InstanceOnly,
}

/// A parameter a template exposes.
#[derive(Debug)]
pub struct ParamSchema {
    /// Name (the key in parameter maps).
    pub name: String,
    /// Description.
    pub description: String,
    /// Inheritance rule.
    pub inheritance: ParamInheritance,
    /// Default value.
    pub default_value: Option<JsonValue>,
    /// Whether an instance must supply it.
    pub required: bool,
}

impl Clone for ParamSchema {
    fn clone(&self) -> (r: Self)
        ensures
            r == *self,
    {
        ParamSchema {
            name: self.name.clone(),
            description: self.description.clone(),
            inheritance: self.inheritance,
            default_value: match &self.default_value {
                Some(v) => Some(v.clone()),
                None => None,
            },
            required: self.required,
        }
    }
}

impl ParamSchema {
    /// An overridable parameter with a default.
    pub fn overridable(name: &str, default: JsonValue) -> (r: Self)
        ensures
            r.name@ == name@,
            r.description@.len() == 0,
            r.inheritance == ParamInheritance::Overridable,
            r.default_value == Some(default),
            !r.required,
    {
        ParamSchema { name: name.to_owned(), description: String::new(), inheritance: ParamInheritance::Overridable,
            default_value: Some(default), required: false }
    }

    /// A frozen parameter with its value.
    pub fn frozen(name: &str, value: JsonValue) -> (r: Self)
        ensures
            r.name@ == name@,
            r.description@.len() == 0,
            r.inheritance == ParamInheritance::Frozen,
            r.default_value == Some(value),
            !r.required,
    {
        ParamSchema { name: name.to_owned(), description: String::new(), inheritance: ParamInheritance::Frozen,
            default_value: Some(value), required: false }
    }

    /// A required parameter the instance supplies.
    pub fn instance_only(name: &str) -> (r: Self)
        ensures
            r.name@ == name@,
            r.description@.len() == 0,
            r.inheritance == ParamInheritance::InstanceOnly,
            r.default_value is None,
            r.required,
    {
        ParamSchema { name: name.to_owned(), description: String::new(), inheritance: ParamInheritance::InstanceOnly,
            default_value: None, required: true }
    }
}

/// Whether a template can be changed.
#[derive(Clone, Copy, Debug, PartialEq, Eq, Structural)]
pub enum LockPolicy {
    /// Editable, clonable and forkable.
    Editable,
    /// No instance configuration edits; clones start editable.
    ReadOnly,
}

impl Default for LockPolicy {
    /// Editable.
    fn default() -> (r: Self)
        ensures
            r == LockPolicy::Editable,
    {
        LockPolicy::Editable
    }
}

/// Who made a template and where it came from.
#[derive(Debug)]
pub struct TemplateProvenance {
    /// Creator.
    pub created_by: String,
    /// Creation time, Unix epoch milliseconds.
    pub created_at_ms: u64,
    /// The template it was cloned or forked from.
    pub forked_from: Option<u128>,
    /// That template's version then.
    pub forked_from_version: Option<u32>,
    /// Why it was made.
    pub reason: Option<String>,
    /// Task that made it.
    pub task_id: Option<String>,
}

/// A copy of an optional string.
fn copy_opt(s: &Option<String>) -> (r: Option<String>)
    ensures
        r == *s,
{
    match s {
        Some(t) => Some(t.clone()),
        None => None,
    }
}

impl Clone for TemplateProvenance {
    fn clone(&self) -> (r: Self)
        ensures
            r == *self,
    {
        TemplateProvenance {
            created_by: self.created_by.clone(),
            created_at_ms: self.created_at_ms,
            forked_from: self.forked_from,
            forked_from_version: self.forked_from_version,
            reason: copy_opt(&self.reason),
            task_id: copy_opt(&self.task_id),
        }
    }
}

impl TemplateProvenance {
    /// A record attributed to `actor`, made now.
    pub fn for_actor(actor: &str) -> (r: Self)
        ensures
            r.created_by@ == actor@,
            r.forked_from is None,
            r.forked_from_version is None,
            r.reason is None,
            r.task_id is None,
    {
        TemplateProvenance { created_by: actor.to_owned(), created_at_ms: now_ms(), forked_from: None,
            forked_from_version: None, reason: None, task_id: None }
    }
}

// ---------------------------------------------------------------------------
// Templates
// ---------------------------------------------------------------------------

/// The position of the first schema named `name`, if any.
pub open spec fn schema_index(v: Seq<ParamSchema>, name: Seq<char>) -> Option<int> {
    if exists|i: int| 0 <= i < v.len() && v[i].name@ == name {
        Some(choose|i: int| 0 <= i < v.len() && v[i].name@ == name && forall|j: int| 0 <= j < i ==> v[j].name@ != name)
    } else {
        None
    }
}

/// A schema named `name` at `w` gives a first such schema.
proof fn lemma_first_schema(v: Seq<ParamSchema>, name: Seq<char>, w: int)
    requires
        0 <= w < v.len(),
        v[w].name@ == name,
    ensures
        exists|i: int| 0 <= i < v.len() && v[i].name@ == name && forall|j: int| 0 <= j < i ==> v[j].name@ != name,
    decreases w,
{
    if exists|j: int| 0 <= j < w && v[j].name@ == name {
        let j = choose|j: int| 0 <= j < w && v[j].name@ == name;
        lemma_first_schema(v, name, j);
    }
}

/// What `schema_index` gives.
pub proof fn lemma_schema_index(v: Seq<ParamSchema>, name: Seq<char>)
    ensures
        schema_index(v, name) matches Some(i) ==> 0 <= i < v.len() && v[i].name@ == name
            && forall|j: int| 0 <= j < i ==> v[j].name@ != name,
        schema_index(v, name) is None ==> forall|j: int| 0 <= j < v.len() ==> v[j].name@ != name,
{
    if exists|i: int| 0 <= i < v.len() && v[i].name@ == name {
        let w = choose|i: int| 0 <= i < v.len() && v[i].name@ == name;
        lemma_first_schema(v, name, w);
    }
}

/// Where a parameter named `name` goes among `v`: before the first one whose
/// name comes after it.
pub open spec fn schema_slot(v: Seq<ParamSchema>, name: Seq<char>) -> int
    decreases v.len(),
{
    if v.len() == 0 {
        0
    } else if seq_lt(name, v[0].name@) {
        0
    } else {
        1 + schema_slot(v.drop_first(), name)
    }
}

/// The slot is the first position whose name comes after `name`.
proof fn lemma_schema_slot(v: Seq<ParamSchema>, name: Seq<char>, i: int)
    requires
        0 <= i <= v.len(),
        forall|j: int| 0 <= j < i ==> !seq_lt(name, #[trigger] v[j].name@),
        i == v.len() || seq_lt(name, v[i].name@),
    ensures
        schema_slot(v, name) == i,
    decreases i,
{
    if i > 0 {
        let q = v.drop_first();
        assert(!seq_lt(name, v[0].name@));
        assert forall|j: int| 0 <= j < i - 1 implies !seq_lt(name, #[trigger] q[j].name@) by {
            assert(q[j] == v[j + 1]);
        }
        if i < v.len() {
            assert(q[i - 1] == v[i]);
        }
        lemma_schema_slot(q, name, i - 1);
    }
}

/// The first schema named `k` freezes it.
pub open spec fn is_frozen(v: Seq<ParamSchema>, k: Seq<char>) -> bool {
    schema_index(v, k) matches Some(i) && v[i].inheritance == ParamInheritance::Frozen
}

/// The defaults a template gives: for each name, the default of the first
/// schema of that name that has one.
pub open spec fn schema_defaults(v: Seq<ParamSchema>) -> Map<Seq<char>, JsonValue>
    decreases v.len(),
{
    if v.len() == 0 {
        Map::empty()
    } else {
        let rest = schema_defaults(v.drop_first());
        match v[0].default_value {
            Some(d) => rest.insert(v[0].name@, d),
            None => rest,
        }
    }
}

/// A versioned, shareable template made from a group of nodes.
#[derive(Debug)]
pub struct InstanceTemplate {
    /// Template id.
    pub id: u128,
    /// Version, raised by structural changes.
    pub version: u32,
    /// Name.
    pub name: String,
    /// Description.
    pub description: String,
    /// The source group's node ids.
    pub source_group_ids: Vec<u128>,
    /// The node graph when the template was made.
    pub graph_snapshot: FlowGraphSchema,
    /// Exposed parameters (a name counts once, by its first schema).
    pub param_schema: Vec<ParamSchema>,
    /// Locking.
    pub lock_policy: LockPolicy,
    /// Provenance.
    pub provenance: TemplateProvenance,
    /// Marketplace tags.
    pub tags: Vec<String>,
}

/// Copies of a list of schemas.
fn copy_schemas(v: &Vec<ParamSchema>) -> (r: Vec<ParamSchema>)
    ensures
        r@ == v@,
{
    let mut out: Vec<ParamSchema> = Vec::new();
    let n = v.len();
    for i in 0..n
        invariant
            n == v@.len(),
            out@ == v@.take(i as int),
    {
        proof {
            assert(v@.take(i + 1) == v@.take(i as int).push(v@[i as int]));
        }
        out.push(v[i].clone());
    }
    proof {
        assert(v@.take(n as int) == v@);
    }
    out
}

/// Copies of a list of strings.
fn copy_texts(v: &Vec<String>) -> (r: Vec<String>)
    ensures
        r@ == v@,
{
    let mut out: Vec<String> = Vec::new();
    let n = v.len();
    for i in 0..n
        invariant
            n == v@.len(),
            out@ == v@.take(i as int),
    {
        proof {
            assert(v@.take(i + 1) == v@.take(i as int).push(v@[i as int]));
        }
        out.push(v[i].clone());
    }
    proof {
        assert(v@.take(n as int) == v@);
    }
    out
}

/// `b` copies `a`: every field, the snapshot by its id and node models.
pub open spec fn copies_template(a: InstanceTemplate, b: InstanceTemplate) -> bool {
    &&& b.id == a.id
    &&& b.version == a.version
    &&& b.name == a.name
    &&& b.description == a.description
    &&& b.source_group_ids@ == a.source_group_ids@
    &&& b.graph_snapshot.graph_id == a.graph_snapshot.graph_id
    &&& b.graph_snapshot.nodes@.map_values(|n: GraphNode| node_model(n)) == a.graph_snapshot.nodes@.map_values(|n: GraphNode| node_model(n))
    &&& b.param_schema@ == a.param_schema@
    &&& b.lock_policy == a.lock_policy
    &&& b.provenance == a.provenance
    &&& b.tags@ == a.tags@
}

/// Whether a template takes overrides with the entries `keys`: a read-only
/// template takes none, and no template takes one for a frozen parameter.
pub open spec fn takes_overrides(t: InstanceTemplate, keys: Seq<(String, JsonValue)>) -> bool {
    &&& !(t.lock_policy == LockPolicy::ReadOnly && keys.len() > 0)
    &&& forall|i: int| 0 <= i < keys.len() ==> !is_frozen(t.param_schema@, #[trigger] keys[i].0@)
}

/// The error a template reports for overrides it does not take: read-only
/// first, else the first override of a frozen parameter.
pub open spec fn override_error(t: InstanceTemplate, keys: Seq<(String, JsonValue)>, e: InstanceError) -> bool {
    if t.lock_policy == LockPolicy::ReadOnly && keys.len() > 0 {
        e == InstanceError::TemplateReadOnly(t.id)
    } else {
        exists|i: int| 0 <= i < keys.len() && is_frozen(t.param_schema@, #[trigger] keys[i].0@)
            && (forall|j: int| 0 <= j < i ==> !is_frozen(t.param_schema@, #[trigger] keys[j].0@))
            && (e matches InstanceError::FrozenParam { template_id, param }
                && template_id == t.id && param@ == keys[i].0@)
    }
}

/// The parameters a template resolves: its defaults, then the overrides.
pub open spec fn resolved_params(t: InstanceTemplate, overrides: Map<Seq<char>, JsonValue>) -> Map<Seq<char>, JsonValue> {
    schema_defaults(t.param_schema@).union_prefer_right(overrides)
}

impl InstanceTemplate {
    /// A version-1 editable template with a fresh time-ordered id,
    /// attributed to `actor`.
    pub fn new(name: &str, source_group_ids: Vec<u128>, graph_snapshot: FlowGraphSchema, actor: &str) -> (r: Self)
        ensures
            r.version == 1,
            r.name@ == name@,
            r.description@.len() == 0,
            r.source_group_ids == source_group_ids,
            r.graph_snapshot == graph_snapshot,
            r.param_schema@.len() == 0,
            r.lock_policy == LockPolicy::Editable,
            r.provenance.created_by@ == actor@ && r.provenance.forked_from is None,
            r.tags@.len() == 0,
    {
        InstanceTemplate {
            id: new_uuid_v7(),
            version: 1,
            name: name.to_owned(),
            description: String::new(),
            source_group_ids,
            graph_snapshot,
            param_schema: Vec::new(),
            lock_policy: LockPolicy::Editable,
            provenance: TemplateProvenance::for_actor(actor),
            tags: Vec::new(),
        }
    }

    /// A copy: the same fields, the snapshot copied deeply.
    pub fn duplicate(&self) -> (r: Self)
        ensures
            copies_template(*self, r),
    {
        let snap = self.graph_snapshot.duplicate();
        InstanceTemplate {
            id: self.id,
            version: self.version,
            name: self.name.clone(),
            description: self.description.clone(),
            source_group_ids: self.source_group_ids.clone(),
            graph_snapshot: snap,
            param_schema: copy_schemas(&self.param_schema),
            lock_policy: self.lock_policy,
            provenance: self.provenance.clone(),
            tags: copy_texts(&self.tags),
        }
    }

    /// Add a parameter, replacing the first one with the same name; a new
    /// name takes its place in name order.
    pub fn with_param(self, schema: ParamSchema) -> (r: Self)
        ensures
            match schema_index(self.param_schema@, schema.name@) {
                Some(i) => r.param_schema@ == self.param_schema@.update(i, schema),
                None => r.param_schema@ == self.param_schema@.insert(schema_slot(self.param_schema@, schema.name@), schema),
            },
            r == (InstanceTemplate { param_schema: r.param_schema, ..self }),
    {
        let mut t = self;
        let n = t.param_schema.len();
        let mut i: usize = 0;
        while i < n
            invariant
                n == t.param_schema@.len(),
                t.param_schema@ == self.param_schema@,
                t == self,
                i <= n,
                forall|j: int| 0 <= j < i ==> t.param_schema@[j].name@ != schema.name@,
            decreases n - i,
        {
            if str_eq(t.param_schema[i].name.as_str(), schema.name.as_str()) {
                proof {
                    lemma_schema_index(self.param_schema@, schema.name@);
                }
                t.param_schema.set(i, schema);
                return t;
            }
            i = i + 1;
        }
        proof {
            lemma_schema_index(self.param_schema@, schema.name@);
        }
        let mut p: usize = 0;
        while p < n
            invariant
                n == t.param_schema@.len(),
                t == self,
                p <= n,
                forall|j: int| 0 <= j < p ==> !seq_lt(schema.name@, #[trigger] t.param_schema@[j].name@),
            ensures
                p <= n,
                forall|j: int| 0 <= j < p ==> !seq_lt(schema.name@, #[trigger] t.param_schema@[j].name@),
                p == n || seq_lt(schema.name@, t.param_schema@[p as int].name@),
            decreases n - p,
        {
            if str_lt(schema.name.as_str(), t.param_schema[p].name.as_str()) {
                break;
            }
            p = p + 1;
        }
        proof {
            lemma_schema_slot(self.param_schema@, schema.name@, p as int);
        }
        t.param_schema.insert(p, schema);
        t
    }

    /// Raise the version by one.
    pub fn bump_version(&mut self)
        requires
            old(self).version < u32::MAX,
        ensures
            *final(self) == (InstanceTemplate { version: (old(self).version + 1) as u32, ..*old(self) }),
    {
        self.version = self.version + 1;
    }

    /// The parameters of a new instance: the template's defaults, then the
    /// overrides.  A read-only template takes no overrides, and a frozen
    /// parameter cannot be overridden (the first such override, in key
    /// order, is reported).
    pub fn resolve_params(&self, overrides: &ParamMap) -> (r: Result<ParamMap, InstanceError>)
        ensures
            (r is Ok) <==> takes_overrides(*self, overrides.entries()),
            r matches Err(e) ==> override_error(*self, overrides.entries(), e),
            r matches Ok(m) ==> m@ == resolved_params(*self, overrides@),
    {
        if self.lock_policy == LockPolicy::ReadOnly && !overrides.is_empty() {
            return Err(InstanceError::TemplateReadOnly(self.id));
        }
        let keys = overrides.keys();
        match self.first_frozen(&keys) {
            Some(i) => {
                proof {
                    assert(keys@[i as int]@ == overrides.entries()[i as int].0@);
                    assert forall|j: int| 0 <= j < i implies !is_frozen(self.param_schema@, #[trigger] overrides.entries()[j].0@) by {
                        assert(keys@[j]@ == overrides.entries()[j].0@);
                    }
                }
                return Err(InstanceError::FrozenParam { template_id: self.id, param: keys[i].clone() });
            },
            None => {
                proof {
                    assert forall|j: int| 0 <= j < keys@.len() implies !is_frozen(self.param_schema@, #[trigger] overrides.entries()[j].0@) by {
                        assert(keys@[j]@ == overrides.entries()[j].0@);
                    }
                }
            },
        }
        let mut resolved = ParamMap::new();
        let m = self.param_schema.len();
        let mut i: usize = m;
        proof {
            assert(self.param_schema@.skip(m as int) =~= Seq::<ParamSchema>::empty());
        }
        while i > 0
            invariant
                m == self.param_schema@.len(),
                i <= m,
                resolved@ == schema_defaults(self.param_schema@.skip(i as int)),
            decreases i,
        {
            i = i - 1;
            proof {
                assert(self.param_schema@.skip(i as int).drop_first() =~= self.param_schema@.skip(i + 1));
                assert(self.param_schema@.skip(i as int)[0] == self.param_schema@[i as int]);
            }
            let s = &self.param_schema[i];
            match &s.default_value {
                Some(d) => {
                    let _ = resolved.insert(s.name.clone(), d.clone());
                },
                None => {},
            }
        }
        proof {
            assert(self.param_schema@.skip(0) =~= self.param_schema@);
        }
        resolved.merge(overrides);
        Ok(resolved)
    }

    /// The position of the first key the template freezes.
    fn first_frozen(&self, keys: &Vec<String>) -> (r: Option<usize>)
        ensures
            r matches Some(i) ==> i < keys@.len() && is_frozen(self.param_schema@, keys@[i as int]@)
                && forall|j: int| 0 <= j < i ==> !is_frozen(self.param_schema@, #[trigger] keys@[j]@),
            r is None ==> forall|j: int| 0 <= j < keys@.len() ==> !is_frozen(self.param_schema@, #[trigger] keys@[j]@),
    {
        let n = keys.len();
        for i in 0..n
            invariant
                n == keys@.len(),
                forall|j: int| 0 <= j < i ==> !is_frozen(self.param_schema@, #[trigger] keys@[j]@),
        {
            let found = self.find_schema(keys[i].as_str());
            proof {
                lemma_schema_index(self.param_schema@, keys@[i as int]@);
            }
            match found {
                Some(q) => {
                    if self.param_schema[q].inheritance == ParamInheritance::Frozen {
                        return Some(i);
                    }
                },
                None => {},
            }
        }
        None
    }

    /// The position of the first schema with a name.
    fn find_schema(&self, name: &str) -> (r: Option<usize>)
        ensures
            r matches Some(q) ==> schema_index(self.param_schema@, name@) == Some(q as int),
            r is None ==> schema_index(self.param_schema@, name@) is None,
    {
        proof {
            lemma_schema_index(self.param_schema@, name@);
        }
        let n = self.param_schema.len();
        for i in 0..n
            invariant
                n == self.param_schema@.len(),
                forall|j: int| 0 <= j < i ==> self.param_schema@[j].name@ != name@,
        {
            if str_eq(self.param_schema[i].name.as_str(), name) {
                proof {
                    lemma_schema_index(self.param_schema@, name@);
                    let q = schema_index(self.param_schema@, name@)->0;
                    assert(q == i) by {
                        if q < i {
                        } else if q > i {
                            assert(self.param_schema@[i as int].name@ == name@);
                        }
                    }
                }
                return Some(i);
            }
        }
        None
    }

    /// Carry parameters from an older version to this one (they pass
    /// unchanged); a newer version cannot be migrated down.
    pub fn migrate_params(&self, params: ParamMap, from_version: u32) -> (r: Result<ParamMap, InstanceError>)
        ensures
            (r is Ok) <==> from_version <= self.version,
            r matches Ok(p) ==> p == params,
            r matches Err(e) ==> e matches InstanceError::MigrationFailed { from, to, reason }
                && from == from_version && to == self.version && reason@ == "cannot downgrade parameter schema"@,
    {
        if from_version > self.version {
            proof {
                reveal_strlit("cannot downgrade parameter schema");
            }
            return Err(InstanceError::MigrationFailed {
                from: from_version,
                to: self.version,
                reason: "cannot downgrade parameter schema".to_owned(),
            });
        }
        Ok(params)
    }
}

// ---------------------------------------------------------------------------
// Instance configuration and expansion
// ---------------------------------------------------------------------------

/// The configuration an instance lays over its template's defaults.
#[derive(Debug)]
pub struct InstanceConfig {
    /// Parameter overrides.
    pub params: ParamMap,
    /// Canvas position of the instance's top-left node.
    pub position: (i64, i64),
    /// Label that prefixes the labels of the instance's nodes.
    pub label: Option<String>,
}

impl InstanceConfig {
    /// No overrides, at the origin, without a label.
    pub fn empty() -> (r: Self)
        ensures
            r.params@ == Map::<Seq<char>, JsonValue>::empty(),
            r.params.entries().len() == 0,
            r.position == (0i64, 0i64),
            r.label is None,
    {
        InstanceConfig { params: ParamMap::new(), position: (0, 0), label: None }
    }
}

impl Default for InstanceConfig {
    /// The empty configuration.
    fn default() -> (r: Self)
        ensures
            r.params@ == Map::<Seq<char>, JsonValue>::empty(),
            r.params.entries().len() == 0,
            r.position == (0i64, 0i64),
            r.label is None,
    {
        InstanceConfig::empty()
    }
}

/// A live instance of a template in a dimension.
#[derive(Debug)]
pub struct NodeInstance {
    /// Instance id.
    pub id: u128,
    /// The template it was expanded from.
    pub template_id: u128,
    /// That template's version then.
    pub template_version: u32,
    /// The dimension it lives in.
    pub dimension_id: DimensionId,
    /// The template's defaults merged with the overrides.
    pub resolved_params: ParamMap,
    /// The configuration it was made with.
    pub config: InstanceConfig,
    /// The expanded nodes.
    pub nodes: Vec<GraphNode>,
    /// Who made it, when and why.
    pub provenance: NodeProvenance,
}

/// The label an instance labelled `label` gives a node labelled `node_label`.
pub open spec fn instance_label(label: Option<String>, node_label: Seq<char>) -> Seq<char> {
    match label {
        Some(l) => l@ + "/"@ + node_label,
        None => node_label,
    }
}

/// `n` is the template node `t` expanded by `actor` with the resolved
/// parameters `resolved` (the node's own values win) under `label`.
pub open spec fn expanded_node(
    t: GraphNode,
    n: GraphNode,
    resolved: Map<Seq<char>, JsonValue>,
    label: Option<String>,
    actor: Seq<char>,
) -> bool {
    &&& n.kind@ == t.kind@
    &&& n.label@ == instance_label(label, t.label@)
    &&& n.ports@ == t.ports@
    &&& n.parameters@ == resolved.union_prefer_right(t.parameters@)
    &&& n.position == t.position
    &&& n.subgraph_ref == t.subgraph_ref
    &&& n.provenance.created_by@ == actor
    &&& n.provenance.modified_by is None
    &&& n.provenance.modified_at_ms is None
    &&& n.provenance.reason is None
    &&& n.provenance.task_id is None
}

/// The reason an instance records for its expansion.
pub open spec fn expansion_reason(t: InstanceTemplate) -> Seq<char> {
    "expanded from template '"@ + t.name@ + "' v"@ + decimal(t.version as nat)
}

/// `inst` expands `t` in `dim` with `config`, by `actor`: one node per
/// snapshot node, in id order.
pub open spec fn expansion_of(t: InstanceTemplate, dim: DimensionId, config: InstanceConfig, actor: Seq<char>, inst: NodeInstance) -> bool {
    &&& inst.template_id == t.id
    &&& inst.template_version == t.version
    &&& inst.dimension_id == dim
    &&& inst.resolved_params@ == resolved_params(t, config.params@)
    &&& inst.config == config
    &&& inst.nodes@.len() == t.graph_snapshot.nodes.entries().len()
    &&& forall|i: int| 0 <= i < inst.nodes@.len() ==> expanded_node(t.graph_snapshot.nodes.entries()[i].1,
        #[trigger] inst.nodes@[i], inst.resolved_params@, config.label, actor)
    &&& inst.provenance.created_by@ == actor
    &&& inst.provenance.modified_by is None
    &&& inst.provenance.reason matches Some(why) && why@ == expansion_reason(t)
    &&& inst.provenance.task_id is None
}

/// A template node expanded into an instance, with a fresh id.
fn expand_node(src: &GraphNode, resolved: &ParamMap, label: &Option<String>, actor: &str) -> (n: GraphNode)
    ensures
        expanded_node(*src, n, resolved@, *label, actor@),
{
    let mut node = src.clone();
    let mut parameters = resolved.clone();
    parameters.merge(&src.parameters);
    node.parameters = parameters;
    node.id = new_uuid_v7();
    match label {
        Some(l) => {
            let mut t = l.clone();
            t.append("/");
            t.append(src.label.as_str());
            node.label = t;
        },
        None => {},
    }
    node.provenance = NodeProvenance::for_actor(actor);
    node
}

impl NodeInstance {
    /// Expand a template into an instance: every snapshot node is copied
    /// with a fresh id, the resolved parameters it lacks, the label prefix
    /// and `actor` as its creator.  Fails as `resolve_params` does.
    pub fn expand(template: &InstanceTemplate, dimension_id: DimensionId, config: InstanceConfig, actor: &str)
        -> (r: Result<NodeInstance, InstanceError>)
        ensures
            (r is Ok) <==> takes_overrides(*template, config.params.entries()),
            r matches Err(e) ==> override_error(*template, config.params.entries(), e),
            r matches Ok(inst) ==> expansion_of(*template, dimension_id, config, actor@, inst),
    {
        let resolved = match template.resolve_params(&config.params) {
            Ok(m) => m,
            Err(e) => {
                return Err(e);
            },
        };
        let n = template.graph_snapshot.nodes.len();
        let mut nodes: Vec<GraphNode> = Vec::new();
        for i in 0..n
            invariant
                n == template.graph_snapshot.nodes.entries().len(),
                nodes@.len() == i,
                forall|j: int| 0 <= j < i ==> expanded_node(template.graph_snapshot.nodes.entries()[j].1,
                    #[trigger] nodes@[j], resolved@, config.label, actor@),
        {
            let src = &template.graph_snapshot.nodes.entry_at(i).1;
            let node = expand_node(src, &resolved, &config.label, actor);
            nodes.push(node);
        }
        let mut why = "expanded from template '".to_owned();
        why.append(template.name.as_str());
        why.append("' v");
        let v = decimal_string(template.version);
        why.append(v.as_str());
        let mut provenance = NodeProvenance::for_actor(actor);
        provenance.reason = Some(why);
        Ok(NodeInstance {
            id: new_uuid_v7(),
            template_id: template.id,
            template_version: template.version,
            dimension_id,
            resolved_params: resolved,
            config,
            nodes,
            provenance,
        })
    }
}

// ---------------------------------------------------------------------------
// Marketplace hooks
// ---------------------------------------------------------------------------

/// What a marketplace is sent to publish a template.
#[derive(Debug)]
pub struct PublishRequest {
    /// The template.
    pub template_id: u128,
    /// Semantic version, such as `1.0.0`.
    pub semver: String,
    /// Release notes.
    pub changelog: String,
    /// Catalogue tags.
    pub tags: Vec<String>,
    /// Publisher.
    pub publisher: String,
}

/// What a marketplace answers a publication with.
#[derive(Debug)]
pub struct PublishReceipt {
    /// Publication id.
    pub publication_id: u128,
    /// The template.
    pub template_id: u128,
    /// Semantic version published.
    pub semver: String,
    /// Publication time, Unix epoch milliseconds.
    pub published_at_ms: u64,
    /// Where the template can be browsed.
    pub url: String,
}

/// The address of a locally published template.
pub open spec fn local_url(template_id: u128) -> Seq<char> {
    "local://marketplace/templates/"@ + uuid_text(template_id)
}

impl PublishReceipt {
    /// A receipt for a local, simulated publication made now.
    pub fn local(template_id: u128, semver: &str) -> (r: Self)
        ensures
            r.template_id == template_id,
            r.semver@ == semver@,
            r.url@ == local_url(template_id),
    {
        let mut url = "local://marketplace/templates/".to_owned();
        let id_text = uuid_to_string(template_id);
        url.append(id_text.as_str());
        PublishReceipt {
            publication_id: new_uuid_v7(),
            template_id,
            semver: semver.to_owned(),
            published_at_ms: now_ms(),
            url,
        }
    }
}

// ---------------------------------------------------------------------------
// Registry
// ---------------------------------------------------------------------------

/// Templates and their live instances, with cloning, forking, export,
/// import and publishing.
#[derive(Debug)]
pub struct InstanceRegistry {
    templates: IdMap<InstanceTemplate>,
    instances: IdMap<NodeInstance>,
    dimension_id: DimensionId,
    task_id: TaskId,
}

/// `t` is `src` copied under a new id and name, editable, made by `actor`
/// from `src` for `reason`; its version is `version`.
pub open spec fn derived_template(src: InstanceTemplate, t: InstanceTemplate, name: Seq<char>, actor: Seq<char>,
    version: u32, reason: Seq<char>) -> bool {
    &&& t.name@ == name
    &&& t.version == version
    &&& t.lock_policy == LockPolicy::Editable
    &&& t.description == src.description
    &&& t.source_group_ids@ == src.source_group_ids@
    &&& t.graph_snapshot.graph_id == src.graph_snapshot.graph_id
    &&& t.graph_snapshot.nodes@.map_values(|n: GraphNode| node_model(n)) == src.graph_snapshot.nodes@.map_values(|n: GraphNode| node_model(n))
    &&& t.param_schema@ == src.param_schema@
    &&& t.tags@ == src.tags@
    &&& t.provenance.created_by@ == actor
    &&& t.provenance.forked_from == Some(src.id)
    &&& t.provenance.forked_from_version == Some(src.version)
    &&& t.provenance.reason matches Some(why) && why@ == reason
    &&& t.provenance.task_id is None
}

/// Whether a template carries the tag `tag`.
pub open spec fn has_tag(t: InstanceTemplate, tag: Seq<char>) -> bool {
    exists|i: int| 0 <= i < t.tags@.len() && t.tags@[i]@ == tag
}

/// Whether an instance was expanded from the template `template_id`.
pub open spec fn instance_of(template_id: u128) -> spec_fn(NodeInstance) -> bool {
    |n: NodeInstance| n.template_id == template_id
}

/// Whether a template carries the tag `tag`.
pub open spec fn tagged(tag: Seq<char>) -> spec_fn(InstanceTemplate) -> bool {
    |t: InstanceTemplate| has_tag(t, tag)
}

impl InstanceRegistry {
    /// The templates by id.
    pub closed spec fn spec_templates(&self) -> Map<u128, InstanceTemplate> {
        self.templates@
    }

    /// The templates by ascending id.
    pub closed spec fn spec_template_list(&self) -> Seq<InstanceTemplate> {
        self.templates.entries().map_values(|e: (u128, InstanceTemplate)| e.1)
    }

    /// The instances by id.
    pub closed spec fn spec_instances(&self) -> Map<u128, NodeInstance> {
        self.instances@
    }

    /// The instances by ascending id.
    pub closed spec fn spec_instance_list(&self) -> Seq<NodeInstance> {
        self.instances.entries().map_values(|e: (u128, NodeInstance)| e.1)
    }

    /// The dimension events are scoped to.
    pub closed spec fn spec_dimension(&self) -> DimensionId {
        self.dimension_id
    }

    /// The task events are scoped to.
    pub closed spec fn spec_task(&self) -> TaskId {
        self.task_id
    }

    /// An empty registry whose events are scoped to the dimension and task.
    pub fn new(dimension_id: DimensionId, task_id: TaskId) -> (r: Self)
        ensures
            r.spec_templates() == Map::<u128, InstanceTemplate>::empty(),
            r.spec_instances() == Map::<u128, NodeInstance>::empty(),
            r.spec_dimension() == dimension_id,
            r.spec_task() == task_id,
    {
        InstanceRegistry { templates: IdMap::new(), instances: IdMap::new(), dimension_id, task_id }
    }

    /// Register a template under its id (replacing one with that id) and
    /// record `template.created`.
    pub fn register_template(&mut self, template: InstanceTemplate, log: &mut ActionLog) -> (r: u128)
        ensures
            r == template.id,
            final(self).spec_templates() == old(self).spec_templates().insert(template.id, template),
            final(self).spec_instances() == old(self).spec_instances(),
            final(self).spec_dimension() == old(self).spec_dimension(),
            final(self).spec_task() == old(self).spec_task(),
            appended_one(old(log)@, final(log)@, EventType::TemplateCreated, Some(old(self).spec_dimension()),
                Some(old(self).spec_task())),
            final(log)@.last().payload.model() == id_event_model("template_id"@, template.id),
    {
        let id = template.id;
        let _ = self.templates.insert(id, template);
        let payload = id_object("template_id", id);
        log.record(EventType::TemplateCreated, Some(self.dimension_id), Some(self.task_id), payload);
        id
    }

    /// The template with the id.
    pub fn get_template(&self, id: u128) -> (r: Option<&InstanceTemplate>)
        ensures
            r is Some <==> self.spec_templates().contains_key(id),
            r matches Some(t) ==> *t == self.spec_templates()[id],
    {
        self.templates.get(id)
    }

    /// Remove a template; its instances stay.
    pub fn remove_template(&mut self, id: u128) -> (r: Result<InstanceTemplate, InstanceError>)
        ensures
            (r is Ok) <==> old(self).spec_templates().contains_key(id),
            r matches Ok(t) ==> t == old(self).spec_templates()[id],
            r matches Err(e) ==> e == InstanceError::TemplateNotFound(id),
            final(self).spec_templates() == old(self).spec_templates().remove(id),
            final(self).spec_instances() == old(self).spec_instances(),
            final(self).spec_dimension() == old(self).spec_dimension(),
            final(self).spec_task() == old(self).spec_task(),
    {
        match self.templates.remove(id) {
            Some(t) => Ok(t),
            None => Err(InstanceError::TemplateNotFound(id)),
        }
    }

    /// Expand a registered template into a new instance, register it and
    /// record `instance.created`.
    pub fn instantiate(&mut self, template_id: u128, config: InstanceConfig, actor: &str, log: &mut ActionLog)
        -> (r: Result<u128, InstanceError>)
        ensures
            !old(self).spec_templates().contains_key(template_id) ==> (r matches Err(e)
                && e == InstanceError::TemplateNotFound(template_id)),
            old(self).spec_templates().contains_key(template_id) ==> {
                let t = old(self).spec_templates()[template_id];
                &&& (r is Ok) <==> takes_overrides(t, config.params.entries())
                &&& r matches Err(e) ==> override_error(t, config.params.entries(), e)
                &&& r matches Ok(id) ==> {
                    &&& final(self).spec_instances().contains_key(id)
                    &&& final(self).spec_instances() == old(self).spec_instances().insert(id, final(self).spec_instances()[id])
                    &&& final(self).spec_instances()[id].id == id
                    &&& expansion_of(t, old(self).spec_dimension(), config, actor@, final(self).spec_instances()[id])
                    &&& appended_one(old(log)@, final(log)@, EventType::InstanceCreated, Some(old(self).spec_dimension()),
                        Some(old(self).spec_task()))
                    &&& final(log)@.last().payload.model() == id_pair_model("instance_id"@, id, "template_id"@, template_id)
                }
            },
            r is Err ==> final(self).spec_instances() == old(self).spec_instances() && final(log)@ == old(log)@,
            final(self).spec_templates() == old(self).spec_templates(),
            final(self).spec_dimension() == old(self).spec_dimension(),
            final(self).spec_task() == old(self).spec_task(),
    {
        let inst = match self.templates.get(template_id) {
            None => {
                return Err(InstanceError::TemplateNotFound(template_id));
            },
            Some(t) => match NodeInstance::expand(t, self.dimension_id, config, actor) {
                Ok(i) => i,
                Err(e) => {
                    return Err(e);
                },
            },
        };
        let id = inst.id;
        let ghost stored = inst;
        let _ = self.instances.insert(id, inst);
        let payload = id_pair_object("instance_id", id, "template_id", template_id);
        log.record(EventType::InstanceCreated, Some(self.dimension_id), Some(self.task_id), payload);
        proof {
            assert(self.instances@[id] == stored);
            assert(self.instances@ == old(self).instances@.insert(id, self.instances@[id]));
        }
        Ok(id)
    }

    /// The instance with the id.
    pub fn get_instance(&self, id: u128) -> (r: Option<&NodeInstance>)
        ensures
            r is Some <==> self.spec_instances().contains_key(id),
            r matches Some(n) ==> *n == self.spec_instances()[id],
    {
        self.instances.get(id)
    }

    /// Remove an instance.
    pub fn remove_instance(&mut self, id: u128) -> (r: Result<NodeInstance, InstanceError>)
        ensures
            (r is Ok) <==> old(self).spec_instances().contains_key(id),
            r matches Ok(n) ==> n == old(self).spec_instances()[id],
            r matches Err(e) ==> e == InstanceError::InstanceNotFound(id),
            final(self).spec_instances() == old(self).spec_instances().remove(id),
            final(self).spec_templates() == old(self).spec_templates(),
            final(self).spec_dimension() == old(self).spec_dimension(),
            final(self).spec_task() == old(self).spec_task(),
    {
        match self.instances.remove(id) {
            Some(n) => Ok(n),
            None => Err(InstanceError::InstanceNotFound(id)),
        }
    }

    /// A copy of `src` under a fresh id and the new name, editable, made by
    /// `actor` now from `src` for `reason`, at version `version`.
    fn derive_template(src: &InstanceTemplate, new_name: &str, actor: &str, version: u32, reason: &str)
        -> (t: InstanceTemplate)
        ensures
            derived_template(*src, t, new_name@, actor@, version, reason@),
    {
        let mut t = src.duplicate();
        t.id = new_uuid_v7();
        t.name = new_name.to_owned();
        t.version = version;
        t.lock_policy = LockPolicy::Editable;
        t.provenance = TemplateProvenance {
            created_by: actor.to_owned(),
            created_at_ms: now_ms(),
            forked_from: Some(src.id),
            forked_from_version: Some(src.version),
            reason: Some(reason.to_owned()),
            task_id: None,
        };
        t
    }

    /// Clone a template: a fresh id, the new name, version 1, editable
    /// whatever the source's policy; records `template.cloned`.
    pub fn clone_template(&mut self, source_id: u128, new_name: &str, actor: &str, log: &mut ActionLog)
        -> (r: Result<u128, InstanceError>)
        ensures
            (r is Ok) <==> old(self).spec_templates().contains_key(source_id),
            r matches Err(e) ==> e == InstanceError::TemplateNotFound(source_id)
                && final(self).spec_templates() == old(self).spec_templates() && final(log)@ == old(log)@,
            r matches Ok(id) ==> {
                &&& final(self).spec_templates().contains_key(id)
                &&& final(self).spec_templates() == old(self).spec_templates().insert(id, final(self).spec_templates()[id])
                &&& final(self).spec_templates()[id].id == id
                &&& derived_template(old(self).spec_templates()[source_id], final(self).spec_templates()[id], new_name@,
                    actor@, 1, "cloned"@)
                &&& appended_one(old(log)@, final(log)@, EventType::TemplateCloned, Some(old(self).spec_dimension()),
                    Some(old(self).spec_task()))
                &&& final(log)@.last().payload.model() == id_pair_model("source_id"@, source_id, "clone_id"@, id)
            },
            final(self).spec_instances() == old(self).spec_instances(),
            final(self).spec_dimension() == old(self).spec_dimension(),
            final(self).spec_task() == old(self).spec_task(),
    {
        let t = match self.templates.get(source_id) {
            None => {
                return Err(InstanceError::TemplateNotFound(source_id));
            },
            Some(src) => Self::derive_template(src, new_name, actor, 1, "cloned"),
        };
        let id = t.id;
        let ghost stored = t;
        let _ = self.templates.insert(id, t);
        let payload = id_pair_object("source_id", source_id, "clone_id", id);
        log.record(EventType::TemplateCloned, Some(self.dimension_id), Some(self.task_id), payload);
        proof {
            assert(self.templates@[id] == stored);
            assert(self.templates@ == old(self).templates@.insert(id, self.templates@[id]));
        }
        Ok(id)
    }

    /// Fork a template: like a clone, but the fork keeps the source's
    /// version as its baseline; records `template.forked`.
    pub fn fork_template(&mut self, source_id: u128, new_name: &str, actor: &str, log: &mut ActionLog)
        -> (r: Result<u128, InstanceError>)
        ensures
            (r is Ok) <==> old(self).spec_templates().contains_key(source_id),
            r matches Err(e) ==> e == InstanceError::TemplateNotFound(source_id)
                && final(self).spec_templates() == old(self).spec_templates() && final(log)@ == old(log)@,
            r matches Ok(id) ==> {
                &&& final(self).spec_templates().contains_key(id)
                &&& final(self).spec_templates() == old(self).spec_templates().insert(id, final(self).spec_templates()[id])
                &&& final(self).spec_templates()[id].id == id
                &&& derived_template(old(self).spec_templates()[source_id], final(self).spec_templates()[id], new_name@,
                    actor@, old(self).spec_templates()[source_id].version, "forked"@)
                &&& appended_one(old(log)@, final(log)@, EventType::TemplateForked, Some(old(self).spec_dimension()),
                    Some(old(self).spec_task()))
                &&& final(log)@.last().payload.model() == id_pair_model("source_id"@, source_id, "fork_id"@, id)
            },
            final(self).spec_instances() == old(self).spec_instances(),
            final(self).spec_dimension() == old(self).spec_dimension(),
            final(self).spec_task() == old(self).spec_task(),
    {
        let t = match self.templates.get(source_id) {
            None => {
                return Err(InstanceError::TemplateNotFound(source_id));
            },
            Some(src) => Self::derive_template(src, new_name, actor, src.version, "forked"),
        };
        let id = t.id;
        let ghost stored = t;
        let _ = self.templates.insert(id, t);
        let payload = id_pair_object("source_id", source_id, "fork_id", id);
        log.record(EventType::TemplateForked, Some(self.dimension_id), Some(self.task_id), payload);
        proof {
            assert(self.templates@[id] == stored);
            assert(self.templates@ == old(self).templates@.insert(id, self.templates@[id]));
        }
        Ok(id)
    }

    /// A copy of a template for export (its text form is made by the caller).
    pub fn export_template(&self, id: u128) -> (r: Result<InstanceTemplate, InstanceError>)
        ensures
            (r is Ok) <==> self.spec_templates().contains_key(id),
            r matches Ok(t) ==> copies_template(self.spec_templates()[id], t),
            r matches Err(e) ==> e == InstanceError::TemplateNotFound(id),
    {
        match self.templates.get(id) {
            Some(t) => Ok(t.duplicate()),
            None => Err(InstanceError::TemplateNotFound(id)),
        }
    }

    /// Register an imported template under its id, replacing one with that
    /// id, and record `template.created`.
    pub fn import_template(&mut self, template: InstanceTemplate, log: &mut ActionLog) -> (r: u128)
        ensures
            r == template.id,
            final(self).spec_templates() == old(self).spec_templates().insert(template.id, template),
            final(self).spec_instances() == old(self).spec_instances(),
            final(self).spec_dimension() == old(self).spec_dimension(),
            final(self).spec_task() == old(self).spec_task(),
            appended_one(old(log)@, final(log)@, EventType::TemplateCreated, Some(old(self).spec_dimension()),
                Some(old(self).spec_task())),
            final(log)@.last().payload.model() == JsonModel::Object(seq![
                ("template_id"@, JsonModel::Str(uuid_text(template.id))),
                ("source"@, JsonModel::Str("import"@)),
            ]),
    {
        let id = template.id;
        let _ = self.templates.insert(id, template);
        let members = vec![
            ("template_id".to_owned(), JsonValue::from_uuid(id)),
            ("source".to_owned(), JsonValue::string("import")),
        ];
        proof {
            lemma_members_models(members@);
            assert(members@.map_values(|m: (String, JsonValue)| (m.0@, m.1.model())) =~= seq![
                ("template_id"@, JsonModel::Str(uuid_text(id))),
                ("source"@, JsonModel::Str("import"@)),
            ]);
        }
        let payload = JsonValue::object(members);
        log.record(EventType::TemplateCreated, Some(self.dimension_id), Some(self.task_id), payload);
        id
    }

    /// A publication request for a registered template, with its tags.
    pub fn prepare_publish(&self, template_id: u128, semver: &str, changelog: &str, publisher: &str)
        -> (r: Result<PublishRequest, InstanceError>)
        ensures
            (r is Ok) <==> self.spec_templates().contains_key(template_id),
            r matches Ok(q) ==> q.template_id == template_id && q.semver@ == semver@ && q.changelog@ == changelog@
                && q.publisher@ == publisher@ && q.tags@ == self.spec_templates()[template_id].tags@,
            r matches Err(e) ==> e == InstanceError::TemplateNotFound(template_id),
    {
        match self.templates.get(template_id) {
            Some(t) => Ok(PublishRequest {
                template_id,
                semver: semver.to_owned(),
                changelog: changelog.to_owned(),
                tags: copy_texts(&t.tags),
                publisher: publisher.to_owned(),
            }),
            None => Err(InstanceError::TemplateNotFound(template_id)),
        }
    }

    /// Publish a registered template locally.
    pub fn publish_local(&self, template_id: u128, semver: &str) -> (r: Result<PublishReceipt, InstanceError>)
        ensures
            (r is Ok) <==> self.spec_templates().contains_key(template_id),
            r matches Ok(q) ==> q.template_id == template_id && q.semver@ == semver@ && q.url@ == local_url(template_id),
            r matches Err(e) ==> e == InstanceError::TemplateNotFound(template_id),
    {
        if !self.templates.contains_key(template_id) {
            return Err(InstanceError::TemplateNotFound(template_id));
        }
        Ok(PublishReceipt::local(template_id, semver))
    }

    /// Every template, by ascending id.
    pub fn all_templates(&self) -> (r: Vec<&InstanceTemplate>)
        ensures
            r@.map_values(|t: &InstanceTemplate| *t) == self.spec_template_list(),
    {
        let n = self.templates.len();
        let mut out: Vec<&InstanceTemplate> = Vec::new();
        for i in 0..n
            invariant
                n == self.templates.entries().len(),
                out@.map_values(|t: &InstanceTemplate| *t) == self.spec_template_list().take(i as int),
        {
            proof {
                assert(self.spec_template_list().take(i + 1) == self.spec_template_list().take(i as int).push(self.spec_template_list()[i as int]));
            }
            out.push(&self.templates.entry_at(i).1);
            proof {
                assert(out@.map_values(|t: &InstanceTemplate| *t) == self.spec_template_list().take(i + 1));
            }
        }
        proof {
            assert(self.spec_template_list().take(n as int) == self.spec_template_list());
        }
        out
    }

    /// Every instance, by ascending id.
    pub fn all_instances(&self) -> (r: Vec<&NodeInstance>)
        ensures
            r@.map_values(|t: &NodeInstance| *t) == self.spec_instance_list(),
    {
        let n = self.instances.len();
        let mut out: Vec<&NodeInstance> = Vec::new();
        for i in 0..n
            invariant
                n == self.instances.entries().len(),
                out@.map_values(|t: &NodeInstance| *t) == self.spec_instance_list().take(i as int),
        {
            proof {
                assert(self.spec_instance_list().take(i + 1) == self.spec_instance_list().take(i as int).push(self.spec_instance_list()[i as int]));
            }
            out.push(&self.instances.entry_at(i).1);
            proof {
                assert(out@.map_values(|t: &NodeInstance| *t) == self.spec_instance_list().take(i + 1));
            }
        }
        proof {
            assert(self.spec_instance_list().take(n as int) == self.spec_instance_list());
        }
        out
    }

    /// The instances of a template, by ascending id.
    pub fn instances_of(&self, template_id: u128) -> (r: Vec<&NodeInstance>)
        ensures
            r@.map_values(|t: &NodeInstance| *t) == self.spec_instance_list().filter(instance_of(template_id)),
    {
        let n = self.instances.len();
        let ghost list = self.spec_instance_list();
        let mut out: Vec<&NodeInstance> = Vec::new();
        for i in 0..n
            invariant
                n == self.instances.entries().len(),
                list == self.spec_instance_list(),
                out@.map_values(|t: &NodeInstance| *t) == list.take(i as int).filter(instance_of(template_id)),
        {
            proof {
                assert(list.take(i + 1) == list.take(i as int).push(list[i as int]));
                list.take(i as int).lemma_filter_push(list[i as int], instance_of(template_id));
            }
            let e = self.instances.entry_at(i);
            if e.1.template_id == template_id {
                out.push(&e.1);
                proof {
                    assert(out@.map_values(|t: &NodeInstance| *t)
                        == list.take(i as int).filter(instance_of(template_id)).push(list[i as int]));
                }
            }
        }
        proof {
            assert(list.take(n as int) == list);
        }
        out
    }

    /// The templates carrying a tag, by ascending id.
    pub fn templates_with_tag(&self, tag: &str) -> (r: Vec<&InstanceTemplate>)
        ensures
            r@.map_values(|t: &InstanceTemplate| *t) == self.spec_template_list().filter(tagged(tag@)),
    {
        let n = self.templates.len();
        let ghost list = self.spec_template_list();
        let mut out: Vec<&InstanceTemplate> = Vec::new();
        for i in 0..n
            invariant
                n == self.templates.entries().len(),
                list == self.spec_template_list(),
                out@.map_values(|t: &InstanceTemplate| *t) == list.take(i as int).filter(tagged(tag@)),
        {
            proof {
                assert(list.take(i + 1) == list.take(i as int).push(list[i as int]));
                list.take(i as int).lemma_filter_push(list[i as int], tagged(tag@));
            }
            let e = self.templates.entry_at(i);
            if contains_str(&e.1.tags, tag) {
                out.push(&e.1);
                proof {
                    assert(out@.map_values(|t: &InstanceTemplate| *t)
                        == list.take(i as int).filter(tagged(tag@)).push(list[i as int]));
                }
            }
        }
        proof {
            assert(list.take(n as int) == list);
        }
        out
    }
}

} // verus!
