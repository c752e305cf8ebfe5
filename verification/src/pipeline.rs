//! Processing and transformation pipelines: steps, transform versions and
//! replay, dead letters, schema inference and validation, streaming
//! watermarks, checkpoints, lineage, batch tuning, builder node templates
//! and storage connectors, tied together by a pipeline registry.

use vstd::prelude::*;
use vstd::string::*;
use crate::action_log::{ActionLog, EventType, appended_one, now_ms};
use crate::ids::{ArtifactId, DimensionId, TaskId, new_uuid};
use crate::idmap::IdMap;
use crate::json::{JsonModel, JsonValue, JsonMembers, lemma_items_models, lemma_members_models, uuid_text};

verus! {

// ---------------------------------------------------------------------------
// Errors
// ---------------------------------------------------------------------------

/// Errors of the pipeline subsystem.
#[derive(Debug)]
pub enum PipelineError {
    /// The pipeline does not exist.
    PipelineNotFound(u128),
    /// The transform version does not exist.
    VersionNotFound { pipeline_id: u128, version: u32 },
    /// The schema does not exist.
    SchemaNotFound(u128),
    /// No checkpoint exists for the pipeline.
    CheckpointNotFound(u128),
    /// The storage connector does not exist.
    ConnectorNotFound(u128),
    /// A record does not satisfy its schema.
    SchemaValidationFailed(String),
    /// A step failed.
    StepFailed { step_name: String, reason: String },
}

// ---------------------------------------------------------------------------
// Steps and pipelines
// ---------------------------------------------------------------------------

/// The transformation a step applies.
#[derive(Clone, Copy, Debug, PartialEq, Eq, Structural, Hash)]
pub enum StepKind {
    /// Apply a function to every record.
    Mapping,
    /// Keep the records that satisfy a predicate.
    Filter,
    /// Fold all records into one value.
    Reduce,
    /// Group records by key with per-group statistics.
    Aggregate,
    /// Collect records in a time or count window.
    Window,
}

impl StepKind {
    /// The canonical lower-case name.
    pub open spec fn spec_str(self) -> Seq<char> {
        match self {
            StepKind::Mapping => "map"@,
            StepKind::Filter => "filter"@,
            StepKind::Reduce => "reduce"@,
            StepKind::Aggregate => "aggregate"@,
            StepKind::Window => "window"@,
        }
    }

    /// The canonical lower-case name.
    pub fn as_str(self) -> (r: &'static str)
        ensures
            r@ == self.spec_str(),
    {
        match self {
            StepKind::Mapping => "map",
            StepKind::Filter => "filter",
            StepKind::Reduce => "reduce",
            StepKind::Aggregate => "aggregate",
            StepKind::Window => "window",
        }
    }
}

/// One transformation step of a pipeline.
#[derive(Debug)]
pub struct PipelineStep {
    /// Step id.
    pub id: u128,
    /// Name.
    pub name: String,
    /// Transformation.
    pub kind: StepKind,
    /// Step configuration.
    pub params: JsonValue,
    /// Schema the step's output must satisfy, if any.
    pub output_schema_id: Option<u128>,
}

impl Clone for PipelineStep {
    fn clone(&self) -> (r: Self)
        ensures
            r == *self,
    {
        PipelineStep {
            id: self.id,
            name: self.name.clone(),
            kind: self.kind,
            params: self.params.clone(),
            output_schema_id: self.output_schema_id,
        }
    }
}

impl PipelineStep {
    /// A step with a fresh id, empty parameters and no output schema.
    pub fn new(name: &str, kind: StepKind) -> (r: Self)
        ensures
            r.name@ == name@,
            r.kind == kind,
            r.params == JsonValue::Object(JsonMembers::Nil),
            r.output_schema_id is None,
    {
        PipelineStep { id: new_uuid(), name: name.to_owned(), kind, params: JsonValue::empty_object(), output_schema_id: None }
    }

    /// Set the parameters.
    pub fn with_params(self, params: JsonValue) -> (r: Self)
        ensures
            r == (PipelineStep { params, ..self }),
    {
        let mut s = self;
        s.params = params;
        s
    }

    /// Bind an output schema.
    pub fn with_output_schema(self, schema_id: u128) -> (r: Self)
        ensures
            r == (PipelineStep { output_schema_id: Some(schema_id), ..self }),
    {
        let mut s = self;
        s.output_schema_id = Some(schema_id);
        s
    }
}

/// A copy of a list of steps.
fn copy_steps(v: &Vec<PipelineStep>) -> (r: Vec<PipelineStep>)
    ensures
        r@ == v@,
{
    let mut out: Vec<PipelineStep> = Vec::new();
    let n = v.len();
    for i in 0..n
        invariant
            n == v@.len(),
            out@ == v@.take(i as int),
    {
        proof {
            assert(v@.take(i + 1) == v@.take(i as int).push(v@[i as int]));
        }
        out.push(v[i].clone());
    }
    proof {
        assert(v@.take(n as int) == v@);
    }
    out
}

/// An ordered sequence of steps.
#[derive(Debug)]
pub struct Pipeline {
    /// Pipeline id.
    pub id: u128,
    /// Name.
    pub name: String,
    /// Dimension it runs in.
    pub dimension_id: DimensionId,
    /// Steps, in order.
    pub steps: Vec<PipelineStep>,
    /// Definition version, raised by every change of the steps.
    pub version: u32,
    /// Creation time, Unix epoch milliseconds.
    pub created_at_ms: u64,
    /// Last change, Unix epoch milliseconds.
    pub updated_at_ms: u64,
}

impl Clone for Pipeline {
    fn clone(&self) -> (r: Self)
        ensures
            r.id == self.id && r.name == self.name && r.dimension_id == self.dimension_id
                && r.steps@ == self.steps@ && r.version == self.version
                && r.created_at_ms == self.created_at_ms && r.updated_at_ms == self.updated_at_ms,
    {
        Pipeline {
            id: self.id,
            name: self.name.clone(),
            dimension_id: self.dimension_id,
            steps: copy_steps(&self.steps),
            version: self.version,
            created_at_ms: self.created_at_ms,
            updated_at_ms: self.updated_at_ms,
        }
    }
}

/// Steps other than `id`.
pub open spec fn step_is_not(id: u128) -> spec_fn(PipelineStep) -> bool {
    |s: PipelineStep| s.id != id
}

impl Pipeline {
    /// An empty pipeline at version 1 with a fresh id.
    pub fn new(name: &str, dimension_id: DimensionId) -> (r: Self)
        ensures
            r.name@ == name@,
            r.dimension_id == dimension_id,
            r.steps@.len() == 0,
            r.version == 1,
            r.created_at_ms == r.updated_at_ms,
    {
        let now = now_ms();
        Pipeline { id: new_uuid(), name: name.to_owned(), dimension_id, steps: Vec::new(), version: 1, created_at_ms: now, updated_at_ms: now }
    }

    /// Append a step; the version goes up by one.
    pub fn add_step(&mut self, step: PipelineStep)
        requires
            old(self).version < u32::MAX,
        ensures
            final(self).steps@ == old(self).steps@.push(step),
            final(self).version == old(self).version + 1,
            final(self).id == old(self).id,
            final(self).name == old(self).name,
            final(self).dimension_id == old(self).dimension_id,
            final(self).created_at_ms == old(self).created_at_ms,
    {
        self.steps.push(step);
        self.version = self.version + 1;
        self.updated_at_ms = now_ms();
    }

    /// Remove every step with id `step_id`; whether one was removed.  The
    /// version goes up by one when a step was removed.
    pub fn remove_step(&mut self, step_id: u128) -> (r: bool)
        requires
            (exists|i: int| 0 <= i < old(self).steps@.len() && old(self).steps@[i].id == step_id) ==> old(self).version < u32::MAX,
        ensures
            r == exists|i: int| 0 <= i < old(self).steps@.len() && old(self).steps@[i].id == step_id,
            final(self).steps@ == old(self).steps@.filter(step_is_not(step_id)),
            final(self).version == if r { old(self).version + 1 } else { old(self).version as int },
            final(self).id == old(self).id,
            final(self).name == old(self).name,
            final(self).dimension_id == old(self).dimension_id,
            final(self).created_at_ms == old(self).created_at_ms,
    {
        let ghost orig = self.steps@;
        let mut rest: Vec<PipelineStep> = Vec::new();
        std::mem::swap(&mut rest, &mut self.steps);
        let mut kept: Vec<PipelineStep> = Vec::new();
        let mut found = false;
        let n = rest.len();
        let mut i: usize = 0;
        while i < n
            invariant
                n == orig.len(),
                i <= n,
                rest@ == orig.skip(i as int),
                kept@ == orig.take(i as int).filter(step_is_not(step_id)),
                found == exists|j: int| 0 <= j < i && orig[j].id == step_id,
            decreases n - i,
        {
            proof {
                assert(rest@[0] == orig[i as int]);
            }
            let s = rest.remove(0);
            proof {
                assert(rest@ =~= orig.skip(i + 1));
                assert(orig.take(i + 1) =~= orig.take(i as int).push(s));
                orig.take(i as int).lemma_filter_push(s, step_is_not(step_id));
            }
            if s.id == step_id {
                found = true;
            } else {
                kept.push(s);
            }
            i = i + 1;
        }
        proof {
            assert(orig.take(n as int) =~= orig);
        }
        self.steps = kept;
        if found {
            self.version = self.version + 1;
            self.updated_at_ms = now_ms();
        }
        found
    }
}

// ---------------------------------------------------------------------------
// Transform versions
// ---------------------------------------------------------------------------

/// A snapshot of a pipeline's steps at one version.
#[derive(Debug)]
pub struct TransformVersion {
    /// Record id.
    pub id: u128,
    /// Pipeline.
    pub pipeline_id: u128,
    /// The pipeline's version.
    pub version: u32,
    /// The steps at that version.
    pub steps_snapshot: Vec<PipelineStep>,
    /// Capture time, Unix epoch milliseconds.
    pub saved_at_ms: u64,
    /// Who saved it.
    pub author: String,
    /// What changed.
    pub description: String,
}

impl Clone for TransformVersion {
    fn clone(&self) -> (r: Self)
        ensures
            r.id == self.id && r.pipeline_id == self.pipeline_id && r.version == self.version
                && r.steps_snapshot@ == self.steps_snapshot@ && r.saved_at_ms == self.saved_at_ms
                && r.author == self.author && r.description == self.description,
    {
        TransformVersion {
            id: self.id,
            pipeline_id: self.pipeline_id,
            version: self.version,
            steps_snapshot: copy_steps(&self.steps_snapshot),
            saved_at_ms: self.saved_at_ms,
            author: self.author.clone(),
            description: self.description.clone(),
        }
    }
}

impl TransformVersion {
    /// Capture a pipeline's current steps and version.
    pub fn capture(pipeline: &Pipeline, author: &str, description: &str) -> (r: Self)
        ensures
            r.pipeline_id == pipeline.id,
            r.version == pipeline.version,
            r.steps_snapshot@ == pipeline.steps@,
            r.author@ == author@,
            r.description@ == description@,
    {
        TransformVersion {
            id: new_uuid(),
            pipeline_id: pipeline.id,
            version: pipeline.version,
            steps_snapshot: copy_steps(&pipeline.steps),
            saved_at_ms: now_ms(),
            author: author.to_owned(),
            description: description.to_owned(),
        }
    }
}

/// A request to replay a transform version over input records.
#[derive(Debug)]
pub struct TransformReplayRequest {
    /// Pipeline.
    pub pipeline_id: u128,
    /// Version to replay.
    pub version: u32,
    /// Input records.
    pub input_records: Vec<JsonValue>,
    /// Requesting task.
    pub task_id: TaskId,
}

// ---------------------------------------------------------------------------
// Dead letters
// ---------------------------------------------------------------------------

/// Why a record went to the dead-letter queue.
#[derive(Clone, Copy, Debug, PartialEq, Eq, Structural)]
pub enum DeadLetterReason {
    /// The step failed.
    StepError,
    /// The output broke the step's schema.
    SchemaValidationFailed,
    /// Too many retries.
    MaxRetriesExceeded,
    /// A filter rejected it.
    FilterRejected,
}

/// A record that a step could not process.
#[derive(Debug)]
pub struct DeadLetterEntry {
    /// Entry id.
    pub id: u128,
    /// Pipeline.
    pub pipeline_id: u128,
    /// Failing step.
    pub step_id: u128,
    /// The input record.
    pub input_record: JsonValue,
    /// What went wrong.
    pub error_message: String,
    /// Classification.
    pub reason: DeadLetterReason,
    /// Failure time, Unix epoch milliseconds.
    pub failed_at_ms: u64,
    /// Earlier attempts.
    pub retry_count: u32,
}

impl Clone for DeadLetterEntry {
    fn clone(&self) -> (r: Self)
        ensures
            r == *self,
    {
        DeadLetterEntry {
            id: self.id,
            pipeline_id: self.pipeline_id,
            step_id: self.step_id,
            input_record: self.input_record.clone(),
            error_message: self.error_message.clone(),
            reason: self.reason,
            failed_at_ms: self.failed_at_ms,
            retry_count: self.retry_count,
        }
    }
}

impl DeadLetterEntry {
    /// A new entry with a fresh id, stamped now, not yet retried.
    pub fn new(pipeline_id: u128, step_id: u128, input_record: JsonValue, error_message: &str, reason: DeadLetterReason) -> (r: Self)
        ensures
            r.pipeline_id == pipeline_id,
            r.step_id == step_id,
            r.input_record == input_record,
            r.error_message@ == error_message@,
            r.reason == reason,
            r.retry_count == 0,
    {
        DeadLetterEntry {
            id: new_uuid(),
            pipeline_id,
            step_id,
            input_record,
            error_message: error_message.to_owned(),
            reason,
            failed_at_ms: now_ms(),
            retry_count: 0,
        }
    }
}

/// Entries of pipeline `p`.
pub open spec fn entry_of_pipeline(p: u128) -> spec_fn(DeadLetterEntry) -> bool {
    |e: DeadLetterEntry| e.pipeline_id == p
}

/// Records that failed, oldest first.
#[derive(Debug)]
pub struct DeadLetterQueue {
    entries: Vec<DeadLetterEntry>,
}

impl View for DeadLetterQueue {
    type V = Seq<DeadLetterEntry>;

    closed spec fn view(&self) -> Seq<DeadLetterEntry> {
        self.entries@
    }
}

impl DeadLetterQueue {
    /// An empty queue.
    pub fn new() -> (r: Self)
        ensures
            r@.len() == 0,
    {
        DeadLetterQueue { entries: Vec::new() }
    }

    /// Add an entry at the back.
    pub fn enqueue(&mut self, entry: DeadLetterEntry)
        ensures
            final(self)@ == old(self)@.push(entry),
    {
        self.entries.push(entry);
    }

    /// Copies of the entries of one pipeline, oldest first.
    pub fn entries_for_pipeline(&self, pipeline_id: u128) -> (r: Vec<DeadLetterEntry>)
        ensures
            r@ == self@.filter(entry_of_pipeline(pipeline_id)),
    {
        let mut out: Vec<DeadLetterEntry> = Vec::new();
        let n = self.entries.len();
        for i in 0..n
            invariant
                n == self.entries@.len(),
                out@ == self.entries@.take(i as int).filter(entry_of_pipeline(pipeline_id)),
        {
            proof {
                assert(self.entries@.take(i + 1) =~= self.entries@.take(i as int).push(self.entries@[i as int]));
                self.entries@.take(i as int).lemma_filter_push(self.entries@[i as int], entry_of_pipeline(pipeline_id));
            }
            if self.entries[i].pipeline_id == pipeline_id {
                out.push(self.entries[i].clone());
            }
        }
        proof {
            assert(self.entries@.take(n as int) =~= self.entries@);
        }
        out
    }

    /// Take every entry out, oldest first.
    pub fn drain(&mut self) -> (r: Vec<DeadLetterEntry>)
        ensures
            r@ == old(self)@,
            final(self)@.len() == 0,
    {
        let mut out: Vec<DeadLetterEntry> = Vec::new();
        std::mem::swap(&mut out, &mut self.entries);
        out
    }

    /// Number of entries.
    pub fn len(&self) -> (r: usize)
        ensures
            r == self@.len(),
    {
        self.entries.len()
    }

    /// Whether the queue is empty.
    pub fn is_empty(&self) -> (r: bool)
        ensures
            r == (self@.len() == 0),
    {
        self.entries.len() == 0
    }
}

// ---------------------------------------------------------------------------
// Schemas
// ---------------------------------------------------------------------------

/// The type of a dataset field.
#[derive(Clone, Copy, Debug, PartialEq, Eq, Structural)]
pub enum FieldType {
    /// A string.
    String,
    /// An integer.
    Integer,
    /// A non-integral number.
    Float,
    /// A boolean.
    Boolean,
    /// An array.
    Array,
    /// An object.
    Object,
    /// `null`.
    Null,
    /// Not determined.
    Unknown,
}

/// The type of a JSON value.
pub open spec fn type_of(v: JsonValue) -> FieldType {
    match v {
        JsonValue::Str(_) => FieldType::String,
        JsonValue::Int(_) => FieldType::Integer,
        JsonValue::Float(_) => FieldType::Float,
        JsonValue::Bool(_) => FieldType::Boolean,
        JsonValue::Array(_) => FieldType::Array,
        JsonValue::Object(_) => FieldType::Object,
        JsonValue::Null => FieldType::Null,
    }
}

/// Inference law: each kind of JSON value has a type of its own, and only
/// that kind has it: strings are `String`, integers `Integer`, other numbers
/// `Float`, booleans `Boolean`, arrays `Array`, objects `Object`, `null`
/// `Null`; no value is `Unknown`.
pub proof fn lemma_type_of_json(v: JsonValue)
    ensures
        (type_of(v) == FieldType::String) <==> v is Str,
        (type_of(v) == FieldType::Integer) <==> v is Int,
        (type_of(v) == FieldType::Float) <==> v is Float,
        (type_of(v) == FieldType::Boolean) <==> v is Bool,
        (type_of(v) == FieldType::Array) <==> v is Array,
        (type_of(v) == FieldType::Object) <==> v is Object,
        (type_of(v) == FieldType::Null) <==> v is Null,
        type_of(v) != FieldType::Unknown,
{
}

impl FieldType {
    /// The type of a JSON value.
    pub fn from_json(v: &JsonValue) -> (r: FieldType)
        ensures
            r == type_of(*v),
    {
        match v {
            JsonValue::Str(_) => FieldType::String,
            JsonValue::Int(_) => FieldType::Integer,
            JsonValue::Float(_) => FieldType::Float,
            JsonValue::Bool(_) => FieldType::Boolean,
            JsonValue::Array(_) => FieldType::Array,
            JsonValue::Object(_) => FieldType::Object,
            JsonValue::Null => FieldType::Null,
        }
    }

    /// The variant's name.
    pub open spec fn spec_name(self) -> Seq<char> {
        match self {
            FieldType::String => "String"@,
            FieldType::Integer => "Integer"@,
            FieldType::Float => "Float"@,
            FieldType::Boolean => "Boolean"@,
            FieldType::Array => "Array"@,
            FieldType::Object => "Object"@,
            FieldType::Null => "Null"@,
            FieldType::Unknown => "Unknown"@,
        }
    }

    /// The variant's name.
    pub fn name(self) -> (r: &'static str)
        ensures
            r@ == self.spec_name(),
    {
        match self {
            FieldType::String => "String",
            FieldType::Integer => "Integer",
            FieldType::Float => "Float",
            FieldType::Boolean => "Boolean",
            FieldType::Array => "Array",
            FieldType::Object => "Object",
            FieldType::Null => "Null",
            FieldType::Unknown => "Unknown",
        }
    }
}

/// One field of a schema.
#[derive(Debug)]
pub struct FieldSchema {
    /// Key in the JSON object.
    pub name: String,
    /// Type.
    pub field_type: FieldType,
    /// Whether `null` (or absence) is accepted.
    pub nullable: bool,
    /// Description.
    pub description: Option<String>,
}

impl Clone for FieldSchema {
    fn clone(&self) -> (r: Self)
        ensures
            r == *self,
    {
        FieldSchema {
            name: self.name.clone(),
            field_type: self.field_type,
            nullable: self.nullable,
            description: match &self.description {
                Some(d) => Some(d.clone()),
                None => None,
            },
        }
    }
}

/// A schema for a dataset or a step's output.
#[derive(Debug)]
pub struct DataSchema {
    /// Schema id.
    pub id: u128,
    /// Name.
    pub name: String,
    /// Version, raised by every added field.
    pub version: u32,
    /// Fields, in order.
    pub fields: Vec<FieldSchema>,
    /// Registration time, Unix epoch milliseconds.
    pub created_at_ms: u64,
}

/// A copy of a list of fields.
fn copy_fields(v: &Vec<FieldSchema>) -> (r: Vec<FieldSchema>)
    ensures
        r@ == v@,
{
    let mut out: Vec<FieldSchema> = Vec::new();
    let n = v.len();
    for i in 0..n
        invariant
            n == v@.len(),
            out@ == v@.take(i as int),
    {
        proof {
            assert(v@.take(i + 1) == v@.take(i as int).push(v@[i as int]));
        }
        out.push(v[i].clone());
    }
    proof {
        assert(v@.take(n as int) == v@);
    }
    out
}

impl Clone for DataSchema {
    fn clone(&self) -> (r: Self)
        ensures
            r.id == self.id && r.name == self.name && r.version == self.version
                && r.fields@ == self.fields@ && r.created_at_ms == self.created_at_ms,
    {
        DataSchema {
            id: self.id,
            name: self.name.clone(),
            version: self.version,
            fields: copy_fields(&self.fields),
            created_at_ms: self.created_at_ms,
        }
    }
}

impl DataSchema {
    /// An empty schema at version 1 with a fresh id.
    pub fn new(name: &str) -> (r: Self)
        ensures
            r.name@ == name@,
            r.version == 1,
            r.fields@.len() == 0,
    {
        DataSchema { id: new_uuid(), name: name.to_owned(), version: 1, fields: Vec::new(), created_at_ms: now_ms() }
    }

    /// Add a field; the version goes up by one.
    pub fn add_field(&mut self, field: FieldSchema)
        requires
            old(self).version < u32::MAX,
        ensures
            final(self).fields@ == old(self).fields@.push(field),
            final(self).version == old(self).version + 1,
            final(self).id == old(self).id,
            final(self).name == old(self).name,
    {
        self.fields.push(field);
        self.version = self.version + 1;
    }
}

/// The field that inference derives from a value under a key.
pub open spec fn inferred_field(f: FieldSchema, key: Seq<char>, v: JsonValue) -> bool {
    &&& f.name@ == key
    &&& f.field_type == type_of(v)
    &&& f.nullable == (v is Null)
    &&& f.description is None
}

/// Derives a schema from a sample record.
#[derive(Debug)]
pub struct SchemaInferrer;

impl SchemaInferrer {
    /// Infer a schema at version 1: an object gives one field per member,
    /// in order; any other value gives a single field named `value`.
    pub fn infer(name: &str, sample: &JsonValue) -> (r: DataSchema)
        ensures
            r.name@ == name@,
            r.version == 1,
            match *sample {
                JsonValue::Object(m) => r.fields@.len() == m.models().len()
                    && forall|i: int| 0 <= i < r.fields@.len() ==> inferred_field(#[trigger] r.fields@[i], m.models()[i].0, member_value(m, i)),
                _ => r.fields@.len() == 1 && inferred_field(r.fields@[0], "value"@, *sample),
            },
    {
        let fields = match sample {
            JsonValue::Object(m) => infer_members(m),
            other => {
                let f = FieldSchema {
                    name: "value".to_owned(),
                    field_type: FieldType::from_json(other),
                    nullable: other.is_null(),
                    description: None,
                };
                vec![f]
            },
        };
        DataSchema { id: new_uuid(), name: name.to_owned(), version: 1, fields, created_at_ms: now_ms() }
    }
}

/// The value of the `i`-th member of an object.
pub open spec fn member_value(m: JsonMembers, i: int) -> JsonValue
    decreases m,
{
    match m {
        JsonMembers::Nil => JsonValue::Null,
        JsonMembers::Cons(_, v, rest) => if i <= 0 { *v } else { member_value(*rest, i - 1) },
    }
}

/// One inferred field per member, in order.
fn infer_members(m: &JsonMembers) -> (r: Vec<FieldSchema>)
    ensures
        r@.len() == m.models().len(),
        forall|i: int| 0 <= i < r@.len() ==> inferred_field(#[trigger] r@[i], m.models()[i].0, member_value(*m, i)),
    decreases m,
{
    match m {
        JsonMembers::Nil => Vec::new(),
        JsonMembers::Cons(k, v, rest) => {
            let f = FieldSchema {
                name: k.clone(),
                field_type: FieldType::from_json(v),
                nullable: v.is_null(),
                description: None,
            };
            let mut tail = infer_members(rest);
            let ghost tv = tail@;
            let mut out = vec![f];
            out.append(&mut tail);
            proof {
                assert(out@ =~= seq![f] + tv);
                assert forall|i: int| 0 <= i < out@.len() implies inferred_field(#[trigger] out@[i], m.models()[i].0, member_value(*m, i)) by {
                    if i > 0 {
                        assert(out@[i] == tv[i - 1]);
                        assert(m.models()[i] == rest.models()[i - 1]);
                        assert(inferred_field(tv[i - 1], rest.models()[i - 1].0, member_value(**rest, i - 1)));
                    }
                }
            }
            out
        },
    }
}

// ---------------------------------------------------------------------------
// Validation
// ---------------------------------------------------------------------------

/// What is wrong with a record's value for one field, if anything.
pub open spec fn field_violation(f: FieldSchema, m: JsonMembers) -> Option<Seq<char>> {
    match m.spec_get(f.name@) {
        None => if !f.nullable {
            Some("required field '"@ + f.name@ + "' is missing"@)
        } else {
            None
        },
        Some(v) => if (v is Null) && !f.nullable {
            Some("field '"@ + f.name@ + "' is null but the schema marks it as non-nullable"@)
        } else if type_of(v) != FieldType::Null && type_of(v) != f.field_type {
            Some("field '"@ + f.name@ + "' has type "@ + type_of(v).spec_name() + " but schema expects "@ + f.field_type.spec_name())
        } else {
            None
        },
    }
}

/// The first violation among the first `n` fields.
pub open spec fn first_violation(fields: Seq<FieldSchema>, m: JsonMembers, n: int) -> Option<Seq<char>>
    decreases n,
{
    if n <= 0 {
        None
    } else {
        match first_violation(fields, m, n - 1) {
            Some(x) => Some(x),
            None => field_violation(fields[n - 1], m),
        }
    }
}

/// Once a violation is found, more fields do not change it.
proof fn lemma_first_violation_sticks(fields: Seq<FieldSchema>, m: JsonMembers, i: int, n: int)
    requires
        0 <= i <= n,
        first_violation(fields, m, i) is Some,
    ensures
        first_violation(fields, m, n) == first_violation(fields, m, i),
    decreases n - i,
{
    if n > i {
        lemma_first_violation_sticks(fields, m, i, n - 1);
    }
}

/// The message describing a field's violation.
fn violation_of(f: &FieldSchema, m: &JsonMembers) -> (r: Option<String>)
    ensures
        match r {
            Some(t) => field_violation(*f, *m) == Some(t@),
            None => field_violation(*f, *m) is None,
        },
{
    match m.get(f.name.as_str()) {
        None => {
            if !f.nullable {
                let mut t = "required field '".to_owned();
                t.append(f.name.as_str());
                t.append("' is missing");
                Some(t)
            } else {
                None
            }
        },
        Some(v) => {
            let actual = FieldType::from_json(v);
            if v.is_null() && !f.nullable {
                let mut t = "field '".to_owned();
                t.append(f.name.as_str());
                t.append("' is null but the schema marks it as non-nullable");
                Some(t)
            } else if actual != FieldType::Null && actual != f.field_type {
                let mut t = "field '".to_owned();
                t.append(f.name.as_str());
                t.append("' has type ");
                t.append(actual.name());
                t.append(" but schema expects ");
                t.append(f.field_type.name());
                Some(t)
            } else {
                None
            }
        },
    }
}

/// Checks records against a schema.
#[derive(Debug)]
pub struct SchemaValidator;

impl SchemaValidator {
    /// Accept a record that is an object in which every field of the schema
    /// is present (unless nullable), not `null` (unless nullable) and of the
    /// schema's type (or `null`); otherwise describe the first violation.
    pub fn validate(record: &JsonValue, schema: &DataSchema) -> (r: Result<(), PipelineError>)
        ensures
            match *record {
                JsonValue::Object(m) => {
                    &&& (r is Ok) <==> first_violation(schema.fields@, m, schema.fields@.len() as int) is None
                    &&& r matches Err(e) ==> (e matches PipelineError::SchemaValidationFailed(t)
                        && first_violation(schema.fields@, m, schema.fields@.len() as int) == Some(t@))
                },
                _ => r matches Err(e) && e matches PipelineError::SchemaValidationFailed(t) && t@ == "record is not a JSON object"@,
            },
    {
        let m = match record {
            JsonValue::Object(m) => m,
            _ => {
                return Err(PipelineError::SchemaValidationFailed("record is not a JSON object".to_owned()));
            },
        };
        let n = schema.fields.len();
        for i in 0..n
            invariant
                n == schema.fields@.len(),
                *record == JsonValue::Object(*m),
                first_violation(schema.fields@, *m, i as int) is None,
        {
            match violation_of(&schema.fields[i], m) {
                Some(t) => {
                    proof {
                        lemma_first_violation_sticks(schema.fields@, *m, i + 1, n as int);
                    }
                    return Err(PipelineError::SchemaValidationFailed(t));
                },
                None => {},
            }
        }
        Ok(())
    }
}

/// Schemas by id.
#[derive(Debug)]
pub struct SchemaRegistry {
    schemas: IdMap<DataSchema>,
}

impl SchemaRegistry {
    /// The registered schemas.
    pub closed spec fn spec_schemas(&self) -> Map<u128, DataSchema> {
        self.schemas@
    }

    /// The registered schemas by ascending id.
    pub closed spec fn spec_schema_list(&self) -> Seq<DataSchema> {
        self.schemas.entries().map_values(|e: (u128, DataSchema)| e.1)
    }

    /// An empty registry.
    pub fn new() -> (r: Self)
        ensures
            r.spec_schemas() == Map::<u128, DataSchema>::empty(),
    {
        SchemaRegistry { schemas: IdMap::new() }
    }

    /// Register a schema under its id, replacing one with the same id.
    pub fn register(&mut self, schema: DataSchema) -> (r: u128)
        ensures
            r == schema.id,
            final(self).spec_schemas() == old(self).spec_schemas().insert(schema.id, schema),
    {
        let id = schema.id;
        self.schemas.insert(id, schema);
        id
    }

    /// A copy of a schema.
    pub fn get(&self, id: u128) -> (r: Option<DataSchema>)
        ensures
            r is Some <==> self.spec_schemas().contains_key(id),
            r matches Some(d) ==> d.id == self.spec_schemas()[id].id && d.fields@ == self.spec_schemas()[id].fields@
                && d.name == self.spec_schemas()[id].name && d.version == self.spec_schemas()[id].version,
    {
        match self.schemas.get(id) {
            Some(d) => Some(d.clone()),
            None => None,
        }
    }

    /// Copies of every schema, by ascending id.
    pub fn all(&self) -> (r: Vec<DataSchema>)
        ensures
            r@.len() == self.spec_schemas().len(),
            r@.len() == self.spec_schema_list().len(),
            forall|i: int| 0 <= i < r@.len() ==> (#[trigger] r@[i]).id == self.spec_schema_list()[i].id
                && r@[i].fields@ == self.spec_schema_list()[i].fields@,
    {
        let n = self.schemas.len();
        let mut out: Vec<DataSchema> = Vec::new();
        for i in 0..n
            invariant
                n == self.schemas.entries().len(),
                out@.len() == i,
                forall|j: int| 0 <= j < i ==> (#[trigger] out@[j]).id == self.schemas.entries()[j].1.id
                    && out@[j].fields@ == self.schemas.entries()[j].1.fields@,
        {
            out.push(self.schemas.entry_at(i).1.clone());
        }
        out
    }
}

// ---------------------------------------------------------------------------
// Streaming
// ---------------------------------------------------------------------------

/// The event time of a record and the time it arrived.
#[derive(Clone, Copy, Debug, PartialEq, Eq, Structural)]
pub struct EventWatermark {
    /// Event time in the record, Unix epoch milliseconds.
    pub event_time_ms: u64,
    /// Arrival time, Unix epoch milliseconds.
    pub processing_time_ms: u64,
}

impl EventWatermark {
    /// A watermark for an event arriving now.
    pub fn new(event_time_ms: u64) -> (r: Self)
        ensures
            r.event_time_ms == event_time_ms,
    {
        EventWatermark { event_time_ms, processing_time_ms: now_ms() }
    }

    /// Arrival time minus event time, both read as signed 64-bit values.
    pub fn lag_ms(&self) -> (r: i64)
        requires
            i64::MIN <= (self.processing_time_ms as i64) - (self.event_time_ms as i64) <= i64::MAX,
        ensures
            r == (self.processing_time_ms as i64) - (self.event_time_ms as i64),
    {
        let p = self.processing_time_ms as i64;
        let e = self.event_time_ms as i64;
        p - e
    }
}

/// A record flowing through a stream.
#[derive(Debug)]
pub struct StreamRecord {
    /// Record id.
    pub id: u128,
    /// Payload.
    pub payload: JsonValue,
    /// Its watermark.
    pub watermark: EventWatermark,
}

impl StreamRecord {
    /// A record of an event arriving now.
    pub fn new(payload: JsonValue, event_time_ms: u64) -> (r: Self)
        ensures
            r.payload == payload,
            r.watermark.event_time_ms == event_time_ms,
    {
        StreamRecord { id: new_uuid(), payload, watermark: EventWatermark::new(event_time_ms) }
    }
}

/// A pipeline run over a stream, tracking the latest event time seen.
#[derive(Debug)]
pub struct StreamPipeline {
    /// The pipeline.
    pub pipeline: Pipeline,
    /// Greatest event time seen so far.
    pub low_watermark_ms: u64,
    /// Records processed.
    pub records_processed: u64,
    /// Records that failed.
    pub records_failed: u64,
}

impl StreamPipeline {
    /// A stream over `pipeline` with nothing seen.
    pub fn new(pipeline: Pipeline) -> (r: Self)
        ensures
            r.pipeline == pipeline,
            r.low_watermark_ms == 0,
            r.records_processed == 0,
            r.records_failed == 0,
    {
        StreamPipeline { pipeline, low_watermark_ms: 0, records_processed: 0, records_failed: 0 }
    }

    /// Count a record as processed, raising the watermark to its event time
    /// when that is later.
    pub fn advance(&mut self, record: &StreamRecord)
        requires
            old(self).records_processed < u64::MAX,
        ensures
            final(self).low_watermark_ms == if record.watermark.event_time_ms > old(self).low_watermark_ms {
                record.watermark.event_time_ms
            } else {
                old(self).low_watermark_ms
            },
            final(self).records_processed == old(self).records_processed + 1,
            final(self).records_failed == old(self).records_failed,
            final(self).pipeline == old(self).pipeline,
    {
        if record.watermark.event_time_ms > self.low_watermark_ms {
            self.low_watermark_ms = record.watermark.event_time_ms;
        }
        self.records_processed = self.records_processed + 1;
    }

    /// Count a failure.
    pub fn mark_failed(&mut self)
        requires
            old(self).records_failed < u64::MAX,
        ensures
            final(self).records_failed == old(self).records_failed + 1,
            final(self).records_processed == old(self).records_processed,
            final(self).low_watermark_ms == old(self).low_watermark_ms,
            final(self).pipeline == old(self).pipeline,
    {
        self.records_failed = self.records_failed + 1;
    }
}

// ---------------------------------------------------------------------------
// Checkpoints
// ---------------------------------------------------------------------------

/// Where a pipeline run stood.
#[derive(Debug)]
pub struct PipelineCheckpoint {
    /// Checkpoint id.
    pub id: u128,
    /// Pipeline.
    pub pipeline_id: u128,
    /// Steps completed (0: none).
    pub completed_step_index: usize,
    /// Records processed so far.
    pub processed_count: u64,
    /// Saved state.
    pub state_snapshot: JsonValue,
    /// Save time, Unix epoch milliseconds.
    pub saved_at_ms: u64,
}

impl Clone for PipelineCheckpoint {
    fn clone(&self) -> (r: Self)
        ensures
            r == *self,
    {
        PipelineCheckpoint {
            id: self.id,
            pipeline_id: self.pipeline_id,
            completed_step_index: self.completed_step_index,
            processed_count: self.processed_count,
            state_snapshot: self.state_snapshot.clone(),
            saved_at_ms: self.saved_at_ms,
        }
    }
}

impl PipelineCheckpoint {
    /// A checkpoint with a fresh id, stamped now.
    pub fn new(pipeline_id: u128, completed_step_index: usize, processed_count: u64, state_snapshot: JsonValue) -> (r: Self)
        ensures
            r.pipeline_id == pipeline_id,
            r.completed_step_index == completed_step_index,
            r.processed_count == processed_count,
            r.state_snapshot == state_snapshot,
    {
        PipelineCheckpoint { id: new_uuid(), pipeline_id, completed_step_index, processed_count, state_snapshot, saved_at_ms: now_ms() }
    }
}

/// The latest checkpoint of each pipeline.
#[derive(Debug)]
pub struct CheckpointStore {
    checkpoints: IdMap<PipelineCheckpoint>,
}

impl CheckpointStore {
    /// The latest checkpoint by pipeline.
    pub closed spec fn spec_checkpoints(&self) -> Map<u128, PipelineCheckpoint> {
        self.checkpoints@
    }

    /// An empty store.
    pub fn new() -> (r: Self)
        ensures
            r.spec_checkpoints() == Map::<u128, PipelineCheckpoint>::empty(),
    {
        CheckpointStore { checkpoints: IdMap::new() }
    }

    /// Save a checkpoint as its pipeline's latest.
    pub fn save(&mut self, checkpoint: PipelineCheckpoint)
        ensures
            final(self).spec_checkpoints() == old(self).spec_checkpoints().insert(checkpoint.pipeline_id, checkpoint),
    {
        let k = checkpoint.pipeline_id;
        self.checkpoints.insert(k, checkpoint);
    }

    /// A copy of a pipeline's latest checkpoint.
    pub fn get(&self, pipeline_id: u128) -> (r: Option<PipelineCheckpoint>)
        ensures
            r == if self.spec_checkpoints().contains_key(pipeline_id) {
                Some(self.spec_checkpoints()[pipeline_id])
            } else {
                None
            },
    {
        match self.checkpoints.get(pipeline_id) {
            Some(c) => Some(c.clone()),
            None => None,
        }
    }

    /// Drop a pipeline's checkpoint; whether there was one.
    pub fn clear(&mut self, pipeline_id: u128) -> (r: bool)
        ensures
            r == old(self).spec_checkpoints().contains_key(pipeline_id),
            final(self).spec_checkpoints() == old(self).spec_checkpoints().remove(pipeline_id),
    {
        self.checkpoints.remove(pipeline_id).is_some()
    }
}

// ---------------------------------------------------------------------------
// Lineage
// ---------------------------------------------------------------------------

/// Links a step's inputs to its output.
#[derive(Debug)]
pub struct LineageRecord {
    /// Record id.
    pub id: u128,
    /// Pipeline.
    pub pipeline_id: u128,
    /// Step.
    pub step_id: u128,
    /// Step name.
    pub step_name: String,
    /// Inputs consumed.
    pub input_artifact_ids: Vec<ArtifactId>,
    /// Output produced.
    pub output_artifact_id: ArtifactId,
    /// Transform version in force.
    pub transform_version: u32,
    /// Task.
    pub task_id: TaskId,
    /// Dimension.
    pub dimension_id: DimensionId,
    /// Record time, Unix epoch milliseconds.
    pub recorded_at_ms: u64,
}

impl Clone for LineageRecord {
    fn clone(&self) -> (r: Self)
        ensures
            r.id == self.id && r.pipeline_id == self.pipeline_id && r.step_id == self.step_id
                && r.step_name == self.step_name && r.input_artifact_ids@ == self.input_artifact_ids@
                && r.output_artifact_id == self.output_artifact_id && r.transform_version == self.transform_version
                && r.task_id == self.task_id && r.dimension_id == self.dimension_id && r.recorded_at_ms == self.recorded_at_ms,
    {
        LineageRecord {
            id: self.id,
            pipeline_id: self.pipeline_id,
            step_id: self.step_id,
            step_name: self.step_name.clone(),
            input_artifact_ids: self.input_artifact_ids.clone(),
            output_artifact_id: self.output_artifact_id,
            transform_version: self.transform_version,
            task_id: self.task_id,
            dimension_id: self.dimension_id,
            recorded_at_ms: self.recorded_at_ms,
        }
    }
}

impl LineageRecord {
    /// A record with a fresh id, stamped now.
    pub fn new(
        pipeline_id: u128,
        step_id: u128,
        step_name: &str,
        input_artifact_ids: Vec<ArtifactId>,
        output_artifact_id: ArtifactId,
        transform_version: u32,
        task_id: TaskId,
        dimension_id: DimensionId,
    ) -> (r: Self)
        ensures
            r.pipeline_id == pipeline_id && r.step_id == step_id && r.step_name@ == step_name@
                && r.input_artifact_ids == input_artifact_ids && r.output_artifact_id == output_artifact_id
                && r.transform_version == transform_version && r.task_id == task_id && r.dimension_id == dimension_id,
    {
        LineageRecord {
            id: new_uuid(),
            pipeline_id,
            step_id,
            step_name: step_name.to_owned(),
            input_artifact_ids,
            output_artifact_id,
            transform_version,
            task_id,
            dimension_id,
            recorded_at_ms: now_ms(),
        }
    }
}

/// Records of pipeline `p`.
pub open spec fn lineage_of_pipeline(p: u128) -> spec_fn(LineageRecord) -> bool {
    |r: LineageRecord| r.pipeline_id == p
}

/// Records whose output is `a`.
pub open spec fn lineage_of_output(a: ArtifactId) -> spec_fn(LineageRecord) -> bool {
    |r: LineageRecord| r.output_artifact_id == a
}

/// The lineage ids of a list of records.
pub open spec fn lineage_ids(s: Seq<LineageRecord>) -> Seq<u128> {
    s.map_values(|r: LineageRecord| r.id)
}

/// Append-only lineage records, oldest first.
#[derive(Debug)]
pub struct LineageTracker {
    records: Vec<LineageRecord>,
}

impl View for LineageTracker {
    type V = Seq<LineageRecord>;

    closed spec fn view(&self) -> Seq<LineageRecord> {
        self.records@
    }
}

impl LineageTracker {
    /// An empty tracker.
    pub fn new() -> (r: Self)
        ensures
            r@.len() == 0,
    {
        LineageTracker { records: Vec::new() }
    }

    /// Store a record and log it.
    pub fn record(&mut self, entry: LineageRecord, log: &mut ActionLog)
        ensures
            final(self)@ == old(self)@.push(entry),
            appended_one(old(log)@, final(log)@, EventType::PipelineLineageRecorded, Some(entry.dimension_id), Some(entry.task_id)),
            final(log)@.last().payload.model() == JsonModel::Object(seq![
                ("pipeline_id"@, JsonModel::Str(uuid_text(entry.pipeline_id))),
                ("step_id"@, JsonModel::Str(uuid_text(entry.step_id))),
                ("step_name"@, JsonModel::Str(entry.step_name@)),
                ("output_artifact_id"@, JsonModel::Str(uuid_text(entry.output_artifact_id.0))),
                ("transform_version"@, JsonModel::Int(entry.transform_version as int)),
            ]),
    {
        let members = vec![
            ("pipeline_id".to_owned(), JsonValue::from_uuid(entry.pipeline_id)),
            ("step_id".to_owned(), JsonValue::from_uuid(entry.step_id)),
            ("step_name".to_owned(), JsonValue::string(entry.step_name.as_str())),
            ("output_artifact_id".to_owned(), JsonValue::from_uuid(entry.output_artifact_id.0)),
            ("transform_version".to_owned(), JsonValue::from_u64(entry.transform_version as u64)),
        ];
        proof {
            lemma_members_models(members@);
            assert(members@.map_values(|m: (String, JsonValue)| (m.0@, m.1.model())) =~= seq![
                ("pipeline_id"@, JsonModel::Str(uuid_text(entry.pipeline_id))),
                ("step_id"@, JsonModel::Str(uuid_text(entry.step_id))),
                ("step_name"@, JsonModel::Str(entry.step_name@)),
                ("output_artifact_id"@, JsonModel::Str(uuid_text(entry.output_artifact_id.0))),
                ("transform_version"@, JsonModel::Int(entry.transform_version as int)),
            ]);
        }
        let payload = JsonValue::object(members);
        log.record(EventType::PipelineLineageRecorded, Some(entry.dimension_id), Some(entry.task_id), payload);
        self.records.push(entry);
    }

    /// Copies of the records of one pipeline, oldest first.
    pub fn records_for_pipeline(&self, pipeline_id: u128) -> (r: Vec<LineageRecord>)
        ensures
            lineage_ids(r@) == lineage_ids(self@.filter(lineage_of_pipeline(pipeline_id))),
            r@.len() == self@.filter(lineage_of_pipeline(pipeline_id)).len(),
            forall|i: int| 0 <= i < r@.len() ==> (#[trigger] r@[i]).output_artifact_id
                == self@.filter(lineage_of_pipeline(pipeline_id))[i].output_artifact_id,
    {
        let mut out: Vec<LineageRecord> = Vec::new();
        let n = self.records.len();
        let ghost f = lineage_of_pipeline(pipeline_id);
        for i in 0..n
            invariant
                n == self.records@.len(),
                f == lineage_of_pipeline(pipeline_id),
                out@.len() == self.records@.take(i as int).filter(f).len(),
                forall|j: int| 0 <= j < out@.len() ==> (#[trigger] out@[j]).id == self.records@.take(i as int).filter(f)[j].id
                    && out@[j].output_artifact_id == self.records@.take(i as int).filter(f)[j].output_artifact_id,
        {
            proof {
                assert(self.records@.take(i + 1) =~= self.records@.take(i as int).push(self.records@[i as int]));
                self.records@.take(i as int).lemma_filter_push(self.records@[i as int], f);
            }
            if self.records[i].pipeline_id == pipeline_id {
                out.push(self.records[i].clone());
            }
        }
        proof {
            assert(self.records@.take(n as int) =~= self.records@);
            assert(lineage_ids(out@) =~= lineage_ids(self.records@.filter(f)));
        }
        out
    }

    /// Copies of the records whose output is `artifact_id`, oldest first.
    pub fn records_for_artifact(&self, artifact_id: ArtifactId) -> (r: Vec<LineageRecord>)
        ensures
            lineage_ids(r@) == lineage_ids(self@.filter(lineage_of_output(artifact_id))),
            r@.len() == self@.filter(lineage_of_output(artifact_id)).len(),
    {
        let mut out: Vec<LineageRecord> = Vec::new();
        let n = self.records.len();
        let ghost f = lineage_of_output(artifact_id);
        for i in 0..n
            invariant
                n == self.records@.len(),
                f == lineage_of_output(artifact_id),
                lineage_ids(out@) == lineage_ids(self.records@.take(i as int).filter(f)),
        {
            proof {
                assert(self.records@.take(i + 1) =~= self.records@.take(i as int).push(self.records@[i as int]));
                self.records@.take(i as int).lemma_filter_push(self.records@[i as int], f);
            }
            if self.records[i].output_artifact_id.0 == artifact_id.0 {
                let ghost before = out@;
                out.push(self.records[i].clone());
                proof {
                    assert(lineage_ids(out@) =~= lineage_ids(before).push(self.records@[i as int].id));
                    assert(lineage_ids(self.records@.take(i as int).filter(f).push(self.records@[i as int]))
                        =~= lineage_ids(self.records@.take(i as int).filter(f)).push(self.records@[i as int].id));
                }
            }
        }
        proof {
            assert(self.records@.take(n as int) =~= self.records@);
        }
        out
    }

    /// Number of records.
    pub fn len(&self) -> (r: usize)
        ensures
            r == self@.len(),
    {
        self.records.len()
    }

    /// Whether no record is stored.
    pub fn is_empty(&self) -> (r: bool)
        ensures
            r == (self@.len() == 0),
    {
        self.records.len() == 0
    }
}

// ---------------------------------------------------------------------------
// Batch tuning
// ---------------------------------------------------------------------------

/// How records are batched.
#[derive(Clone, Copy, Debug, PartialEq, Eq, Structural)]
pub struct BatchConfig {
    /// Largest batch.
    pub max_batch_size: usize,
    /// Longest wait before an incomplete batch is flushed, in milliseconds.
    pub flush_interval_ms: u64,
    /// Parallel workers.
    pub parallelism: usize,
}

impl Default for BatchConfig {
    /// Batches of 1000, flushed after 500 ms, on 4 workers.
    fn default() -> (r: Self)
        ensures
            r == (BatchConfig { max_batch_size: 1000, flush_interval_ms: 500, parallelism: 4 }),
    {
        BatchConfig { max_batch_size: 1000, flush_interval_ms: 500, parallelism: 4 }
    }
}

/// A suggested change of the batch configuration.
#[derive(Debug)]
pub struct OptimizationAdvice {
    /// Change of the batch size (negative: smaller).
    pub batch_size_delta: i64,
    /// Change of the parallelism.
    pub parallelism_delta: i64,
    /// Why.
    pub rationale: String,
}



// ---------------------------------------------------------------------------
// Builder node templates
// ---------------------------------------------------------------------------

/// The role of a node in the visual pipeline builder.
#[derive(Clone, Copy, Debug, PartialEq, Eq, Structural, Hash)]
pub enum PipelineNodeKind {
    /// Data source.
    Source,
    /// Map transformation.
    Mapping,
    /// Filter.
    Filter,
    /// Reduce.
    Reduce,
    /// Aggregate.
    Aggregate,
    /// Window.
    Window,
    /// Schema validation.
    Validate,
    /// Dead-letter router.
    DeadLetterRouter,
    /// Data sink.
    Sink,
}

impl PipelineNodeKind {
    /// The canonical node kind text used in the graph model.
    pub open spec fn spec_kind_str(self) -> Seq<char> {
        match self {
            PipelineNodeKind::Source => "pipeline.source"@,
            PipelineNodeKind::Mapping => "pipeline.map"@,
            PipelineNodeKind::Filter => "pipeline.filter"@,
            PipelineNodeKind::Reduce => "pipeline.reduce"@,
            PipelineNodeKind::Aggregate => "pipeline.aggregate"@,
            PipelineNodeKind::Window => "pipeline.window"@,
            PipelineNodeKind::Validate => "pipeline.validate"@,
            PipelineNodeKind::DeadLetterRouter => "pipeline.dead_letter_router"@,
            PipelineNodeKind::Sink => "pipeline.sink"@,
        }
    }

    /// The display name.
    pub open spec fn spec_display_name(self) -> Seq<char> {
        match self {
            PipelineNodeKind::Source => "Data Source"@,
            PipelineNodeKind::Mapping => "Map"@,
            PipelineNodeKind::Filter => "Filter"@,
            PipelineNodeKind::Reduce => "Reduce"@,
            PipelineNodeKind::Aggregate => "Aggregate"@,
            PipelineNodeKind::Window => "Window"@,
            PipelineNodeKind::Validate => "Schema Validate"@,
            PipelineNodeKind::DeadLetterRouter => "Dead-Letter Router"@,
            PipelineNodeKind::Sink => "Data Sink"@,
        }
    }

    /// The short description.
    pub open spec fn spec_description(self) -> Seq<char> {
        match self {
            PipelineNodeKind::Source => "Ingests records from a storage connector or stream."@,
            PipelineNodeKind::Mapping => "Applies a function to every record."@,
            PipelineNodeKind::Filter => "Retains records that satisfy a predicate."@,
            PipelineNodeKind::Reduce => "Folds all records into a single accumulator."@,
            PipelineNodeKind::Aggregate => "Groups records by key and computes per-group statistics."@,
            PipelineNodeKind::Window => "Collects records in a time or count window before emitting."@,
            PipelineNodeKind::Validate => "Validates records against a registered schema."@,
            PipelineNodeKind::DeadLetterRouter => "Routes failed records to the dead-letter queue."@,
            PipelineNodeKind::Sink => "Writes records to a storage connector."@,
        }
    }

    /// The names of the input and output ports of the kind's template.
    pub open spec fn spec_ports(self) -> (Seq<Seq<char>>, Seq<Seq<char>>) {
        match self {
            PipelineNodeKind::Source => (seq![], seq!["records"@]),
            PipelineNodeKind::Mapping => (seq!["in"@], seq!["out"@]),
            PipelineNodeKind::Filter => (seq!["in"@], seq!["passed"@, "rejected"@]),
            PipelineNodeKind::Reduce => (seq!["in"@], seq!["result"@]),
            PipelineNodeKind::Aggregate => (seq!["in"@], seq!["groups"@]),
            PipelineNodeKind::Window => (seq!["in"@], seq!["window"@]),
            PipelineNodeKind::Validate => (seq!["in"@], seq!["valid"@, "invalid"@]),
            PipelineNodeKind::DeadLetterRouter => (seq!["failed"@], seq!["dlq"@]),
            PipelineNodeKind::Sink => (seq!["in"@], seq![]),
        }
    }

    /// The canonical node kind text used in the graph model.
    pub fn node_kind_str(self) -> (r: &'static str)
        ensures
            r@ == self.spec_kind_str(),
    {
        match self {
            PipelineNodeKind::Source => "pipeline.source",
            PipelineNodeKind::Mapping => "pipeline.map",
            PipelineNodeKind::Filter => "pipeline.filter",
            PipelineNodeKind::Reduce => "pipeline.reduce",
            PipelineNodeKind::Aggregate => "pipeline.aggregate",
            PipelineNodeKind::Window => "pipeline.window",
            PipelineNodeKind::Validate => "pipeline.validate",
            PipelineNodeKind::DeadLetterRouter => "pipeline.dead_letter_router",
            PipelineNodeKind::Sink => "pipeline.sink",
        }
    }

    /// The display name.
    pub fn display_name(self) -> (r: &'static str)
        ensures
            r@ == self.spec_display_name(),
    {
        match self {
            PipelineNodeKind::Source => "Data Source",
            PipelineNodeKind::Mapping => "Map",
            PipelineNodeKind::Filter => "Filter",
            PipelineNodeKind::Reduce => "Reduce",
            PipelineNodeKind::Aggregate => "Aggregate",
            PipelineNodeKind::Window => "Window",
            PipelineNodeKind::Validate => "Schema Validate",
            PipelineNodeKind::DeadLetterRouter => "Dead-Letter Router",
            PipelineNodeKind::Sink => "Data Sink",
        }
    }

    /// The short description.
    pub fn description(self) -> (r: &'static str)
        ensures
            r@ == self.spec_description(),
    {
        match self {
            PipelineNodeKind::Source => "Ingests records from a storage connector or stream.",
            PipelineNodeKind::Mapping => "Applies a function to every record.",
            PipelineNodeKind::Filter => "Retains records that satisfy a predicate.",
            PipelineNodeKind::Reduce => "Folds all records into a single accumulator.",
            PipelineNodeKind::Aggregate => "Groups records by key and computes per-group statistics.",
            PipelineNodeKind::Window => "Collects records in a time or count window before emitting.",
            PipelineNodeKind::Validate => "Validates records against a registered schema.",
            PipelineNodeKind::DeadLetterRouter => "Routes failed records to the dead-letter queue.",
            PipelineNodeKind::Sink => "Writes records to a storage connector.",
        }
    }
}

/// A node template of the pipeline builder palette.
#[derive(Debug)]
pub struct PipelineBuilderNode {
    /// Template id.
    pub id: u128,
    /// Role.
    pub kind: PipelineNodeKind,
    /// Node kind text.
    pub node_kind_str: String,
    /// Display name.
    pub display_name: String,
    /// Description.
    pub description: String,
    /// Default parameters.
    pub default_params: JsonValue,
    /// Input port names.
    pub input_ports: Vec<String>,
    /// Output port names.
    pub output_ports: Vec<String>,
}

/// The views of a list of strings.
pub open spec fn names_of(s: Seq<String>) -> Seq<Seq<char>> {
    s.map_values(|t: String| t@)
}

/// Owned strings for a list of literals.
fn owned_names(v: &[&str]) -> (r: Vec<String>)
    ensures
        r@.len() == v@.len(),
        forall|i: int| 0 <= i < v@.len() ==> (#[trigger] r@[i])@ == v@[i]@,
{
    let mut out: Vec<String> = Vec::new();
    let n = v.len();
    for i in 0..n
        invariant
            n == v@.len(),
            out@.len() == i,
            forall|j: int| 0 <= j < i ==> (#[trigger] out@[j])@ == v@[j]@,
    {
        out.push(v[i].to_owned());
    }
    out
}

/// A member of a JSON object.
fn member(key: &str, value: JsonValue) -> (r: (String, JsonValue))
    ensures
        r.0@ == key@,
        r.1 == value,
{
    (key.to_owned(), value)
}

impl PipelineNodeKind {
    /// The default parameters of the kind's template.
    pub open spec fn spec_defaults(self) -> JsonModel {
        match self {
            PipelineNodeKind::Source => JsonModel::Object(seq![("connector_id"@, JsonModel::Null), ("query"@, JsonModel::Str("SELECT * FROM your_table LIMIT 1000"@))]),
            PipelineNodeKind::Mapping => JsonModel::Object(seq![("expression"@, JsonModel::Str("record"@))]),
            PipelineNodeKind::Filter => JsonModel::Object(seq![("predicate"@, JsonModel::Str("true"@))]),
            PipelineNodeKind::Reduce => JsonModel::Object(seq![("initial_value"@, JsonModel::Null), ("accumulator"@, JsonModel::Str("acc"@))]),
            PipelineNodeKind::Aggregate => JsonModel::Object(seq![("group_by"@, JsonModel::Array(Seq::empty())), ("metrics"@, JsonModel::Array(seq![JsonModel::Str("count"@), JsonModel::Str("sum"@), JsonModel::Str("avg"@)]))]),
            PipelineNodeKind::Window => JsonModel::Object(seq![("window_type"@, JsonModel::Str("tumbling"@)), ("size_ms"@, JsonModel::Int(60000))]),
            PipelineNodeKind::Validate => JsonModel::Object(seq![("schema_id"@, JsonModel::Null)]),
            PipelineNodeKind::DeadLetterRouter => JsonModel::Object(seq![("max_retries"@, JsonModel::Int(3))]),
            PipelineNodeKind::Sink => JsonModel::Object(seq![("connector_id"@, JsonModel::Null), ("table"@, JsonModel::Str("output"@))]),
        }
    }
}

/// The default parameters of a kind's template.
fn default_params(kind: PipelineNodeKind) -> (r: JsonValue)
    ensures
        r.model() == kind.spec_defaults(),
{
    match kind {
        PipelineNodeKind::Source => {
            let m = vec![
                member("connector_id", JsonValue::Null),
                member("query", JsonValue::string("SELECT * FROM your_table LIMIT 1000")),
            ];
            proof {
                lemma_members_models(m@);
                assert(m@.map_values(|x: (String, JsonValue)| (x.0@, x.1.model())) =~= seq![("connector_id"@, JsonModel::Null), ("query"@, JsonModel::Str("SELECT * FROM your_table LIMIT 1000"@))]);
            }
            JsonValue::object(m)
        },
        PipelineNodeKind::Mapping => {
            let m = vec![
                member("expression", JsonValue::string("record")),
            ];
            proof {
                lemma_members_models(m@);
                assert(m@.map_values(|x: (String, JsonValue)| (x.0@, x.1.model())) =~= seq![("expression"@, JsonModel::Str("record"@))]);
            }
            JsonValue::object(m)
        },
        PipelineNodeKind::Filter => {
            let m = vec![
                member("predicate", JsonValue::string("true")),
            ];
            proof {
                lemma_members_models(m@);
                assert(m@.map_values(|x: (String, JsonValue)| (x.0@, x.1.model())) =~= seq![("predicate"@, JsonModel::Str("true"@))]);
            }
            JsonValue::object(m)
        },
        PipelineNodeKind::Reduce => {
            let m = vec![
                member("initial_value", JsonValue::Null),
                member("accumulator", JsonValue::string("acc")),
            ];
            proof {
                lemma_members_models(m@);
                assert(m@.map_values(|x: (String, JsonValue)| (x.0@, x.1.model())) =~= seq![("initial_value"@, JsonModel::Null), ("accumulator"@, JsonModel::Str("acc"@))]);
            }
            JsonValue::object(m)
        },
        PipelineNodeKind::Aggregate => {
            let none: Vec<JsonValue> = Vec::new();
            let names = vec![JsonValue::string("count"), JsonValue::string("sum"), JsonValue::string("avg")];
            proof {
                lemma_items_models(none@);
                lemma_items_models(names@);
                assert(none@.map_values(|v: JsonValue| v.model()) =~= Seq::<JsonModel>::empty());
                assert(names@.map_values(|v: JsonValue| v.model())
                    =~= seq![JsonModel::Str("count"@), JsonModel::Str("sum"@), JsonModel::Str("avg"@)]);
            }
            let m = vec![
                member("group_by", JsonValue::array(none)),
                member("metrics", JsonValue::array(names)),
            ];
            proof {
                lemma_members_models(m@);
                assert(m@.map_values(|x: (String, JsonValue)| (x.0@, x.1.model())) =~= seq![("group_by"@, JsonModel::Array(Seq::empty())), ("metrics"@, JsonModel::Array(seq![JsonModel::Str("count"@), JsonModel::Str("sum"@), JsonModel::Str("avg"@)]))]);
            }
            JsonValue::object(m)
        },
        PipelineNodeKind::Window => {
            let m = vec![
                member("window_type", JsonValue::string("tumbling")),
                member("size_ms", JsonValue::from_u64(60000)),
            ];
            proof {
                lemma_members_models(m@);
                assert(m@.map_values(|x: (String, JsonValue)| (x.0@, x.1.model())) =~= seq![("window_type"@, JsonModel::Str("tumbling"@)), ("size_ms"@, JsonModel::Int(60000))]);
            }
            JsonValue::object(m)
        },
        PipelineNodeKind::Validate => {
            let m = vec![
                member("schema_id", JsonValue::Null),
            ];
            proof {
                lemma_members_models(m@);
                assert(m@.map_values(|x: (String, JsonValue)| (x.0@, x.1.model())) =~= seq![("schema_id"@, JsonModel::Null)]);
            }
            JsonValue::object(m)
        },
        PipelineNodeKind::DeadLetterRouter => {
            let m = vec![
                member("max_retries", JsonValue::from_u64(3)),
            ];
            proof {
                lemma_members_models(m@);
                assert(m@.map_values(|x: (String, JsonValue)| (x.0@, x.1.model())) =~= seq![("max_retries"@, JsonModel::Int(3))]);
            }
            JsonValue::object(m)
        },
        PipelineNodeKind::Sink => {
            let m = vec![
                member("connector_id", JsonValue::Null),
                member("table", JsonValue::string("output")),
            ];
            proof {
                lemma_members_models(m@);
                assert(m@.map_values(|x: (String, JsonValue)| (x.0@, x.1.model())) =~= seq![("connector_id"@, JsonModel::Null), ("table"@, JsonModel::Str("output"@))]);
            }
            JsonValue::object(m)
        },
    }
}

impl PipelineBuilderNode {
    /// The template of a kind: its names, ports and default parameters.
    pub fn for_kind(kind: PipelineNodeKind) -> (r: Self)
        ensures
            r.kind == kind,
            r.node_kind_str@ == kind.spec_kind_str(),
            r.display_name@ == kind.spec_display_name(),
            r.description@ == kind.spec_description(),
            names_of(r.input_ports@) == kind.spec_ports().0,
            names_of(r.output_ports@) == kind.spec_ports().1,
            r.default_params is Object,
            r.default_params.model() == kind.spec_defaults(),
    {
        let (ins, outs): (Vec<String>, Vec<String>) = match kind {
            PipelineNodeKind::Source => (owned_names(&[]), owned_names(&["records"])),
            PipelineNodeKind::Mapping => (owned_names(&["in"]), owned_names(&["out"])),
            PipelineNodeKind::Filter => (owned_names(&["in"]), owned_names(&["passed", "rejected"])),
            PipelineNodeKind::Reduce => (owned_names(&["in"]), owned_names(&["result"])),
            PipelineNodeKind::Aggregate => (owned_names(&["in"]), owned_names(&["groups"])),
            PipelineNodeKind::Window => (owned_names(&["in"]), owned_names(&["window"])),
            PipelineNodeKind::Validate => (owned_names(&["in"]), owned_names(&["valid", "invalid"])),
            PipelineNodeKind::DeadLetterRouter => (owned_names(&["failed"]), owned_names(&["dlq"])),
            PipelineNodeKind::Sink => (owned_names(&["in"]), owned_names(&[])),
        };
        let params = default_params(kind);
        proof {
            assert(names_of(ins@) =~= kind.spec_ports().0);
            assert(names_of(outs@) =~= kind.spec_ports().1);
        }
        PipelineBuilderNode {
            id: new_uuid(),
            kind,
            node_kind_str: kind.node_kind_str().to_owned(),
            display_name: kind.display_name().to_owned(),
            description: kind.description().to_owned(),
            default_params: params,
            input_ports: ins,
            output_ports: outs,
        }
    }
}

impl Clone for PipelineBuilderNode {
    fn clone(&self) -> (r: Self)
        ensures
            r.id == self.id && r.kind == self.kind && r.node_kind_str == self.node_kind_str
                && r.display_name == self.display_name && r.description == self.description
                && r.default_params == self.default_params
                && r.input_ports@ == self.input_ports@ && r.output_ports@ == self.output_ports@,
    {
        PipelineBuilderNode {
            id: self.id,
            kind: self.kind,
            node_kind_str: self.node_kind_str.clone(),
            display_name: self.display_name.clone(),
            description: self.description.clone(),
            default_params: self.default_params.clone(),
            input_ports: self.input_ports.clone(),
            output_ports: self.output_ports.clone(),
        }
    }
}

/// Every builder node kind, in palette order.
pub open spec fn all_node_kinds() -> Seq<PipelineNodeKind> {
    seq![
        PipelineNodeKind::Source, PipelineNodeKind::Mapping, PipelineNodeKind::Filter,
        PipelineNodeKind::Reduce, PipelineNodeKind::Aggregate, PipelineNodeKind::Window,
        PipelineNodeKind::Validate, PipelineNodeKind::DeadLetterRouter, PipelineNodeKind::Sink,
    ]
}

/// `t` is the template of `kind`, as `PipelineBuilderNode::for_kind` makes it.
pub open spec fn builder_fits(t: PipelineBuilderNode, kind: PipelineNodeKind) -> bool {
    &&& t.kind == kind
    &&& t.node_kind_str@ == kind.spec_kind_str()
    &&& t.display_name@ == kind.spec_display_name()
    &&& t.description@ == kind.spec_description()
    &&& names_of(t.input_ports@) == kind.spec_ports().0
    &&& names_of(t.output_ports@) == kind.spec_ports().1
    &&& t.default_params is Object
}

/// `a` is a copy of `b`, field by field.
pub open spec fn builder_copy(a: PipelineBuilderNode, b: PipelineBuilderNode) -> bool {
    a.id == b.id && a.kind == b.kind && a.node_kind_str == b.node_kind_str
        && a.display_name == b.display_name && a.description == b.description
        && a.default_params == b.default_params
        && a.input_ports@ == b.input_ports@ && a.output_ports@ == b.output_ports@
}

/// `m` holds the templates of the first `ids.len()` kinds of the palette,
/// the `i`-th registered under `ids[i]`: its keys are those ids, and the
/// template of a kind is under its id unless a later kind took that id.
pub open spec fn defaults_registered(m: Map<u128, PipelineBuilderNode>, ids: Seq<u128>) -> bool {
    &&& ids.len() <= all_node_kinds().len()
    &&& forall|k: u128| #[trigger] m.contains_key(k) <==> ids.contains(k)
    &&& forall|i: int| 0 <= i < ids.len() && (forall|j: int| i < j < ids.len() ==> ids[j] != ids[i])
        ==> m[#[trigger] ids[i]].id == ids[i] && builder_fits(m[ids[i]], all_node_kinds()[i])
}

/// Builder node templates by id.
#[derive(Debug)]
pub struct PipelineBuilderRegistry {
    templates: IdMap<PipelineBuilderNode>,
}

impl PipelineBuilderRegistry {
    /// The templates by id.
    pub closed spec fn spec_templates(&self) -> Map<u128, PipelineBuilderNode> {
        self.templates@
    }

    /// An empty registry.
    pub fn new() -> (r: Self)
        ensures
            r.spec_templates() == Map::<u128, PipelineBuilderNode>::empty(),
    {
        PipelineBuilderRegistry { templates: IdMap::new() }
    }

    /// A registry with the template of every kind, each under its fresh id.
    /// Ids are random, so the count is nine unless two of them collide.
    pub fn with_defaults() -> (r: Self)
        ensures
            r.spec_templates().len() <= 9,
            forall|k: u128| #[trigger] r.spec_templates().contains_key(k) ==> all_node_kinds().contains(r.spec_templates()[k].kind),
            exists|ids: Seq<u128>| ids.len() == all_node_kinds().len() && #[trigger] defaults_registered(r.spec_templates(), ids),
    {
        let mut reg = PipelineBuilderRegistry::new();
        let kinds = [
            PipelineNodeKind::Source, PipelineNodeKind::Mapping, PipelineNodeKind::Filter,
            PipelineNodeKind::Reduce, PipelineNodeKind::Aggregate, PipelineNodeKind::Window,
            PipelineNodeKind::Validate, PipelineNodeKind::DeadLetterRouter, PipelineNodeKind::Sink,
        ];
        let ghost mut ids: Seq<u128> = Seq::empty();
        proof {
            assert(kinds@ =~= all_node_kinds());
        }
        for i in 0..9
            invariant
                kinds@ == all_node_kinds(),
                reg.spec_templates().len() <= i,
                reg.spec_templates().dom().finite(),
                forall|k: u128| #[trigger] reg.spec_templates().contains_key(k) ==> all_node_kinds().contains(reg.spec_templates()[k].kind),
                ids.len() == i,
                defaults_registered(reg.spec_templates(), ids),
        {
            let node = PipelineBuilderNode::for_kind(kinds[i]);
            let ghost m0 = reg.spec_templates();
            let ghost x = node.id;
            let ghost nd = node;
            proof {
                assert(all_node_kinds()[i as int] == kinds[i as int]);
            }
            reg.register(node);
            proof {
                let ids2 = ids.push(x);
                let m = reg.spec_templates();
                assert forall|k: u128| #[trigger] m.contains_key(k) <==> ids2.contains(k) by {
                    if ids.contains(k) {
                        let j = choose|j: int| 0 <= j < ids.len() && ids[j] == k;
                        assert(ids2[j] == k);
                    }
                    if ids2.contains(k) && k != x {
                        let j = choose|j: int| 0 <= j < ids2.len() && ids2[j] == k;
                        assert(ids[j] == k);
                    }
                    if k == x {
                        assert(ids2[i as int] == x);
                    }
                }
                assert forall|a: int| 0 <= a < ids2.len() && (forall|j: int| a < j < ids2.len() ==> ids2[j] != ids2[a])
                    implies m[#[trigger] ids2[a]].id == ids2[a] && builder_fits(m[ids2[a]], all_node_kinds()[a]) by {
                    if a < i {
                        assert(ids2[a] == ids[a]);
                        assert(ids2[i as int] == x);
                        assert forall|j: int| a < j < ids.len() implies ids[j] != ids[a] by {
                            assert(ids2[j] == ids[j]);
                        }
                        assert(m[ids[a]] == m0[ids[a]]);
                    } else {
                        assert(ids2[a] == x);
                        assert(m[x] == nd);
                    }
                }
                ids = ids2;
            }
        }
        reg
    }

    /// Register a template under its id, replacing one with the same id.
    pub fn register(&mut self, node: PipelineBuilderNode)
        ensures
            final(self).spec_templates() == old(self).spec_templates().insert(node.id, node),
            final(self).spec_templates().dom().finite(),
            final(self).spec_templates().len() <= old(self).spec_templates().len() + 1,
    {
        let before = self.templates.len();
        let k = node.id;
        self.templates.insert(k, node);
        let after = self.templates.len();
        proof {
            assert(after <= before + 1);
        }
    }

    /// A copy of a template.
    pub fn get(&self, id: u128) -> (r: Option<PipelineBuilderNode>)
        ensures
            r is Some <==> self.spec_templates().contains_key(id),
            r matches Some(t) ==> t.id == self.spec_templates()[id].id && t.kind == self.spec_templates()[id].kind,
    {
        match self.templates.get(id) {
            Some(t) => Some(t.clone()),
            None => None,
        }
    }

    /// The templates with their ids, by ascending id.
    pub closed spec fn spec_entries(&self) -> Seq<(u128, PipelineBuilderNode)> {
        self.templates.entries()
    }

    /// Copies of every template, by ascending id.
    pub fn all(&self) -> (r: Vec<PipelineBuilderNode>)
        ensures
            r@.len() == self.spec_templates().len(),
            r@.len() == self.spec_entries().len(),
            forall|i: int| 0 <= i < r@.len() ==> builder_copy(#[trigger] r@[i], self.spec_entries()[i].1),
    {
        let n = self.templates.len();
        let mut out: Vec<PipelineBuilderNode> = Vec::new();
        for i in 0..n
            invariant
                n == self.templates.entries().len(),
                out@.len() == i,
                forall|j: int| 0 <= j < i ==> builder_copy(#[trigger] out@[j], self.templates.entries()[j].1),
        {
            let e = self.templates.entry_at(i);
            out.push(e.1.clone());
        }
        out
    }

    /// Number of templates.
    pub fn len(&self) -> (r: usize)
        ensures
            r == self.spec_templates().len(),
    {
        self.templates.len()
    }

    /// Whether no template is registered.
    pub fn is_empty(&self) -> (r: bool)
        ensures
            r == (self.spec_templates().len() == 0),
    {
        self.templates.is_empty()
    }
}

// ---------------------------------------------------------------------------
// Storage connectors
// ---------------------------------------------------------------------------

/// The backend of a storage connector.
#[derive(Clone, Copy, Debug, PartialEq, Eq, Structural, Hash)]
pub enum StorageConnectorKind {
    /// PostgreSQL.
    Postgresql,
    /// MySQL / MariaDB.
    Mysql,
    /// MongoDB.
    Mongodb,
    /// Redis.
    Redis,
    /// S3-compatible object storage.
    S3Compatible,
    /// Local filesystem.
    LocalFilesystem,
    /// IPFS.
    Ipfs,
}

impl StorageConnectorKind {
    /// The canonical kind text.
    pub open spec fn spec_str(self) -> Seq<char> {
        match self {
            StorageConnectorKind::Postgresql => "postgresql"@,
            StorageConnectorKind::Mysql => "mysql"@,
            StorageConnectorKind::Mongodb => "mongodb"@,
            StorageConnectorKind::Redis => "redis"@,
            StorageConnectorKind::S3Compatible => "s3_compatible"@,
            StorageConnectorKind::LocalFilesystem => "local_filesystem"@,
            StorageConnectorKind::Ipfs => "ipfs"@,
        }
    }

    /// The display name.
    pub open spec fn spec_display_name(self) -> Seq<char> {
        match self {
            StorageConnectorKind::Postgresql => "PostgreSQL"@,
            StorageConnectorKind::Mysql => "MySQL / MariaDB"@,
            StorageConnectorKind::Mongodb => "MongoDB"@,
            StorageConnectorKind::Redis => "Redis"@,
            StorageConnectorKind::S3Compatible => "S3-Compatible Object Storage"@,
            StorageConnectorKind::LocalFilesystem => "Local Filesystem"@,
            StorageConnectorKind::Ipfs => "IPFS"@,
        }
    }

    /// The canonical kind text.
    pub fn as_str(self) -> (r: &'static str)
        ensures
            r@ == self.spec_str(),
    {
        match self {
            StorageConnectorKind::Postgresql => "postgresql",
            StorageConnectorKind::Mysql => "mysql",
            StorageConnectorKind::Mongodb => "mongodb",
            StorageConnectorKind::Redis => "redis",
            StorageConnectorKind::S3Compatible => "s3_compatible",
            StorageConnectorKind::LocalFilesystem => "local_filesystem",
            StorageConnectorKind::Ipfs => "ipfs",
        }
    }

    /// The display name.
    pub fn display_name(self) -> (r: &'static str)
        ensures
            r@ == self.spec_display_name(),
    {
        match self {
            StorageConnectorKind::Postgresql => "PostgreSQL",
            StorageConnectorKind::Mysql => "MySQL / MariaDB",
            StorageConnectorKind::Mongodb => "MongoDB",
            StorageConnectorKind::Redis => "Redis",
            StorageConnectorKind::S3Compatible => "S3-Compatible Object Storage",
            StorageConnectorKind::LocalFilesystem => "Local Filesystem",
            StorageConnectorKind::Ipfs => "IPFS",
        }
    }
}

/// A database or object-store connector.
#[derive(Debug)]
pub struct StorageConnector {
    /// Connector id.
    pub id: u128,
    /// Name.
    pub name: String,
    /// Backend.
    pub kind: StorageConnectorKind,
    /// Connection parameters (never secrets).
    pub params: JsonValue,
    /// Registration time, Unix epoch milliseconds.
    pub registered_at_ms: u64,
}

impl Clone for StorageConnector {
    fn clone(&self) -> (r: Self)
        ensures
            r == *self,
    {
        StorageConnector {
            id: self.id,
            name: self.name.clone(),
            kind: self.kind,
            params: self.params.clone(),
            registered_at_ms: self.registered_at_ms,
        }
    }
}

impl StorageConnector {
    /// A connector with a fresh id, stamped now.
    pub fn new(name: &str, kind: StorageConnectorKind, params: JsonValue) -> (r: Self)
        ensures
            r.name@ == name@,
            r.kind == kind,
            r.params == params,
    {
        StorageConnector { id: new_uuid(), name: name.to_owned(), kind, params, registered_at_ms: now_ms() }
    }
}

/// Storage connectors by id; registrations are logged when the registry
/// was made with a log.
#[derive(Debug)]
pub struct StorageConnectorRegistry {
    connectors: IdMap<StorageConnector>,
    logged: bool,
}

impl StorageConnectorRegistry {
    /// The connectors by id.
    pub closed spec fn spec_connectors(&self) -> Map<u128, StorageConnector> {
        self.connectors@
    }

    /// Whether registrations are logged.
    pub closed spec fn spec_logged(&self) -> bool {
        self.logged
    }

    /// An empty registry that logs nothing.
    pub fn new() -> (r: Self)
        ensures
            r.spec_connectors() == Map::<u128, StorageConnector>::empty(),
            !r.spec_logged(),
    {
        StorageConnectorRegistry { connectors: IdMap::new(), logged: false }
    }

    /// An empty registry that logs registrations.
    pub fn with_log() -> (r: Self)
        ensures
            r.spec_connectors() == Map::<u128, StorageConnector>::empty(),
            r.spec_logged(),
    {
        StorageConnectorRegistry { connectors: IdMap::new(), logged: true }
    }

    /// Register a connector under its id; logged when the registry logs.
    pub fn register(&mut self, connector: StorageConnector, log: &mut ActionLog) -> (r: u128)
        ensures
            r == connector.id,
            final(self).spec_connectors() == old(self).spec_connectors().insert(connector.id, connector),
            final(self).spec_logged() == old(self).spec_logged(),
            if old(self).spec_logged() {
                appended_one(old(log)@, final(log)@, EventType::StorageConnectorRegistered, None, None)
            } else {
                final(log)@ == old(log)@
            },
    {
        let id = connector.id;
        if self.logged {
            let payload = JsonValue::object(vec![
                member("connector_id", JsonValue::from_uuid(id)),
                member("name", JsonValue::string(connector.name.as_str())),
                member("kind", JsonValue::string(connector.kind.as_str())),
            ]);
            log.record(EventType::StorageConnectorRegistered, None, None, payload);
        }
        self.connectors.insert(id, connector);
        id
    }

    /// A copy of a connector.
    pub fn get(&self, id: u128) -> (r: Option<StorageConnector>)
        ensures
            r == if self.spec_connectors().contains_key(id) { Some(self.spec_connectors()[id]) } else { None },
    {
        match self.connectors.get(id) {
            Some(c) => Some(c.clone()),
            None => None,
        }
    }

    /// The connectors by ascending id.
    pub closed spec fn spec_connector_list(&self) -> Seq<StorageConnector> {
        self.connectors.entries().map_values(|e: (u128, StorageConnector)| e.1)
    }

    /// Copies of every connector, by ascending id.
    pub fn all(&self) -> (r: Vec<StorageConnector>)
        ensures
            r@ == self.spec_connector_list(),
            r@.len() == self.spec_connectors().len(),
    {
        let n = self.connectors.len();
        let mut out: Vec<StorageConnector> = Vec::new();
        for i in 0..n
            invariant
                n == self.connectors.entries().len(),
                out@ == self.connectors.entries().take(i as int).map_values(|e: (u128, StorageConnector)| e.1),
        {
            let e = self.connectors.entry_at(i);
            proof {
                assert(self.connectors.entries().take(i + 1).map_values(|e: (u128, StorageConnector)| e.1)
                    =~= self.connectors.entries().take(i as int).map_values(|e: (u128, StorageConnector)| e.1).push(e.1));
            }
            out.push(e.1.clone());
        }
        proof {
            assert(self.connectors.entries().take(n as int) =~= self.connectors.entries());
        }
        out
    }

    /// Remove a connector; whether it was there.
    pub fn remove(&mut self, id: u128) -> (r: bool)
        ensures
            r == old(self).spec_connectors().contains_key(id),
            final(self).spec_connectors() == old(self).spec_connectors().remove(id),
            final(self).spec_logged() == old(self).spec_logged(),
    {
        self.connectors.remove(id).is_some()
    }

    /// Number of connectors.
    pub fn len(&self) -> (r: usize)
        ensures
            r == self.spec_connectors().len(),
    {
        self.connectors.len()
    }

    /// Whether no connector is registered.
    pub fn is_empty(&self) -> (r: bool)
        ensures
            r == (self.spec_connectors().len() == 0),
    {
        self.connectors.is_empty()
    }
}


// ---------------------------------------------------------------------------
// Pipeline registry
// ---------------------------------------------------------------------------

/// `a` and `b` record the same version (steps by their contents).
pub open spec fn same_version(a: TransformVersion, b: TransformVersion) -> bool {
    &&& a.id == b.id
    &&& a.pipeline_id == b.pipeline_id
    &&& a.version == b.version
    &&& a.steps_snapshot@ == b.steps_snapshot@
    &&& a.saved_at_ms == b.saved_at_ms
    &&& a.author == b.author
    &&& a.description == b.description
}

/// `a` and `b` hold the same pipeline (steps by their contents).
pub open spec fn same_pipeline(a: Pipeline, b: Pipeline) -> bool {
    &&& a.id == b.id
    &&& a.name == b.name
    &&& a.dimension_id == b.dimension_id
    &&& a.steps@ == b.steps@
    &&& a.version == b.version
    &&& a.created_at_ms == b.created_at_ms
    &&& a.updated_at_ms == b.updated_at_ms
}

/// The position of the first version numbered `v`, if any.
pub open spec fn first_version_at(s: Seq<TransformVersion>, v: u32) -> Option<int> {
    if exists|i: int| 0 <= i < s.len() && s[i].version == v {
        Some(choose|i: int| 0 <= i < s.len() && s[i].version == v && forall|j: int| 0 <= j < i ==> s[j].version != v)
    } else {
        None
    }
}

/// Copies of a list of versions.
fn copy_versions(v: &Vec<TransformVersion>) -> (r: Vec<TransformVersion>)
    ensures
        r@.len() == v@.len(),
        forall|i: int| 0 <= i < v@.len() ==> same_version(#[trigger] r@[i], v@[i]),
{
    let mut out: Vec<TransformVersion> = Vec::new();
    let n = v.len();
    for i in 0..n
        invariant
            n == v@.len(),
            out@.len() == i,
            forall|j: int| 0 <= j < i ==> same_version(#[trigger] out@[j], v@[j]),
    {
        out.push(v[i].clone());
    }
    out
}

/// Pipelines, their saved versions, schemas, checkpoints, lineage, dead
/// letters, storage connectors and builder templates of one process.
#[derive(Debug)]
pub struct PipelineRegistry {
    /// Pipelines by id.
    pub pipelines: IdMap<Pipeline>,
    /// Saved transform versions of each pipeline, oldest first.
    pub versions: IdMap<Vec<TransformVersion>>,
    /// Dataset and step-output schemas.
    pub schemas: SchemaRegistry,
    /// Latest checkpoint per pipeline.
    pub checkpoints: CheckpointStore,
    /// Lineage of step outputs.
    pub lineage: LineageTracker,
    /// Records that failed a step.
    pub dlq: DeadLetterQueue,
    /// Storage connectors (registrations are logged).
    pub connectors: StorageConnectorRegistry,
    /// Builder node templates.
    pub builder: PipelineBuilderRegistry,
}

impl PipelineRegistry {
    /// The registered pipelines by id.
    pub open spec fn spec_pipelines(&self) -> Map<u128, Pipeline> {
        self.pipelines@
    }

    /// The saved versions of each pipeline, oldest first.
    pub open spec fn spec_versions(&self) -> Map<u128, Seq<TransformVersion>> {
        self.versions@.map_values(|v: Vec<TransformVersion>| v@)
    }

    /// An empty registry with a logging connector registry and the default
    /// builder templates.
    pub fn new() -> (r: Self)
        ensures
            r.spec_pipelines() == Map::<u128, Pipeline>::empty(),
            r.spec_versions() == Map::<u128, Seq<TransformVersion>>::empty(),
            r.schemas.spec_schemas() == Map::<u128, DataSchema>::empty(),
            r.checkpoints.spec_checkpoints() == Map::<u128, PipelineCheckpoint>::empty(),
            r.lineage@.len() == 0,
            r.dlq@.len() == 0,
            r.connectors.spec_connectors() == Map::<u128, StorageConnector>::empty(),
            r.connectors.spec_logged(),
            r.builder.spec_templates().len() <= 9,
    {
        let r = PipelineRegistry {
            pipelines: IdMap::new(),
            versions: IdMap::new(),
            schemas: SchemaRegistry::new(),
            checkpoints: CheckpointStore::new(),
            lineage: LineageTracker::new(),
            dlq: DeadLetterQueue::new(),
            connectors: StorageConnectorRegistry::with_log(),
            builder: PipelineBuilderRegistry::with_defaults(),
        };
        proof {
            assert(r.spec_versions() =~= Map::<u128, Seq<TransformVersion>>::empty());
        }
        r
    }

    /// Register a pipeline under its id and log it.
    pub fn register_pipeline(&mut self, pipeline: Pipeline, log: &mut ActionLog) -> (r: u128)
        ensures
            r == pipeline.id,
            final(self).spec_pipelines() == old(self).spec_pipelines().insert(pipeline.id, pipeline),
            final(self).spec_versions() == old(self).spec_versions(),
            final(self).checkpoints == old(self).checkpoints,
            appended_one(old(log)@, final(log)@, EventType::PipelineCreated, Some(pipeline.dimension_id), None),
            final(log)@.last().payload.model() == JsonModel::Object(seq![
                ("pipeline_id"@, JsonModel::Str(uuid_text(pipeline.id))),
                ("name"@, JsonModel::Str(pipeline.name@)),
                ("version"@, JsonModel::Int(pipeline.version as int)),
            ]),
    {
        let id = pipeline.id;
        let dim = pipeline.dimension_id;
        let members = vec![
            member("pipeline_id", JsonValue::from_uuid(id)),
            member("name", JsonValue::string(pipeline.name.as_str())),
            member("version", JsonValue::from_u64(pipeline.version as u64)),
        ];
        proof {
            lemma_members_models(members@);
            assert(members@.map_values(|m: (String, JsonValue)| (m.0@, m.1.model())) =~= seq![
                ("pipeline_id"@, JsonModel::Str(uuid_text(pipeline.id))),
                ("name"@, JsonModel::Str(pipeline.name@)),
                ("version"@, JsonModel::Int(pipeline.version as int)),
            ]);
        }
        let payload = JsonValue::object(members);
        log.record(EventType::PipelineCreated, Some(dim), None, payload);
        self.pipelines.insert(id, pipeline);
        id
    }

    /// A copy of a pipeline.
    pub fn get_pipeline(&self, id: u128) -> (r: Result<Pipeline, PipelineError>)
        ensures
            r is Ok <==> self.spec_pipelines().contains_key(id),
            r matches Ok(p) ==> same_pipeline(p, self.spec_pipelines()[id]),
            r matches Err(e) ==> e == PipelineError::PipelineNotFound(id),
    {
        match self.pipelines.get(id) {
            Some(p) => Ok(p.clone()),
            None => Err(PipelineError::PipelineNotFound(id)),
        }
    }

    /// Store a new definition of a pipeline, saving its steps as a new
    /// transform version (appended to the pipeline's versions) and logging
    /// it; the saved version is returned.
    pub fn update_pipeline(&mut self, pipeline: Pipeline, author: &str, description: &str, log: &mut ActionLog)
        -> (r: Result<TransformVersion, PipelineError>)
        ensures
            r matches Ok(v) && {
                let old_list = if old(self).spec_versions().contains_key(pipeline.id) {
                    old(self).spec_versions()[pipeline.id]
                } else {
                    Seq::empty()
                };
                &&& v.pipeline_id == pipeline.id
                &&& v.version == pipeline.version
                &&& v.steps_snapshot@ == pipeline.steps@
                &&& v.author@ == author@
                &&& v.description@ == description@
                &&& final(self).spec_versions().dom() == old(self).spec_versions().dom().insert(pipeline.id)
                &&& final(self).spec_versions()[pipeline.id].len() == old_list.len() + 1
                &&& final(self).spec_versions()[pipeline.id].drop_last() == old_list
                &&& same_version(final(self).spec_versions()[pipeline.id].last(), v)
                &&& forall|k: u128| k != pipeline.id && #[trigger] old(self).spec_versions().contains_key(k)
                    ==> final(self).spec_versions()[k] == old(self).spec_versions()[k]
            },
            final(self).spec_pipelines() == old(self).spec_pipelines().insert(pipeline.id, pipeline),
            final(self).checkpoints == old(self).checkpoints,
            appended_one(old(log)@, final(log)@, EventType::TransformVersionSaved, Some(pipeline.dimension_id), None),
    {
        let id = pipeline.id;
        let version = TransformVersion::capture(&pipeline, author, description);
        let payload = JsonValue::object(vec![
            member("pipeline_id", JsonValue::from_uuid(id)),
            member("version", JsonValue::from_u64(pipeline.version as u64)),
            member("version_record_id", JsonValue::from_uuid(version.id)),
        ]);
        log.record(EventType::TransformVersionSaved, Some(pipeline.dimension_id), None, payload);
        let mut list: Vec<TransformVersion> = match self.versions.remove(id) {
            Some(l) => l,
            None => Vec::new(),
        };
        let ghost old_list = list@;
        list.push(version.clone());
        self.versions.insert(id, list);
        proof {
            assert(self.spec_versions().dom() =~= old(self).spec_versions().dom().insert(id));
            assert(self.spec_versions()[id].drop_last() =~= old_list);
        }
        self.pipelines.insert(id, pipeline);
        Ok(version)
    }

    /// Copies of a pipeline's saved versions, oldest first (none when it
    /// has none).
    pub fn versions_for_pipeline(&self, pipeline_id: u128) -> (r: Vec<TransformVersion>)
        ensures
            if self.spec_versions().contains_key(pipeline_id) {
                r@.len() == self.spec_versions()[pipeline_id].len()
                    && forall|i: int| 0 <= i < r@.len() ==> same_version(#[trigger] r@[i], self.spec_versions()[pipeline_id][i])
            } else {
                r@.len() == 0
            },
    {
        match self.versions.get(pipeline_id) {
            Some(l) => copy_versions(l),
            None => Vec::new(),
        }
    }

    /// The saved version a replay asks for, with the input records handed
    /// back unchanged (the caller runs the steps); the request is logged.
    pub fn replay_version(&self, req: TransformReplayRequest, log: &mut ActionLog)
        -> (r: Result<(TransformVersion, Vec<JsonValue>), PipelineError>)
        ensures
            ({
                let vs = self.spec_versions();
                &&& !vs.contains_key(req.pipeline_id) ==> (r matches Err(e) && e == PipelineError::PipelineNotFound(req.pipeline_id))
                &&& vs.contains_key(req.pipeline_id) && first_version_at(vs[req.pipeline_id], req.version) is None
                    ==> (r matches Err(e) && e == (PipelineError::VersionNotFound { pipeline_id: req.pipeline_id, version: req.version }))
                &&& (vs.contains_key(req.pipeline_id) && first_version_at(vs[req.pipeline_id], req.version) is Some)
                    ==> (r matches Ok(out) && same_version(out.0, vs[req.pipeline_id][first_version_at(vs[req.pipeline_id], req.version)->0])
                        && out.1@ == req.input_records@)
                &&& r is Ok ==> appended_one(old(log)@, final(log)@, EventType::TransformReplayRequested, None, Some(req.task_id))
                &&& r is Err ==> final(log)@ == old(log)@
            }),
    {
        let list = match self.versions.get(req.pipeline_id) {
            Some(l) => l,
            None => {
                return Err(PipelineError::PipelineNotFound(req.pipeline_id));
            },
        };
        let n = list.len();
        let mut found: Option<usize> = None;
        let mut i: usize = 0;
        while i < n
            invariant_except_break
                found is None,
            invariant
                n == list@.len(),
                i <= n,
                forall|j: int| 0 <= j < i ==> list@[j].version != req.version,
            ensures
                found matches Some(k) ==> k == i && i < n && list@[k as int].version == req.version,
                found is None ==> i == n,
            decreases n - i,
        {
            if list[i].version == req.version {
                found = Some(i);
                break;
            }
            i = i + 1;
        }
        let idx = match found {
            Some(k) => k,
            None => {
                proof {
                    assert(!exists|j: int| 0 <= j < list@.len() && list@[j].version == req.version);
                }
                return Err(PipelineError::VersionNotFound { pipeline_id: req.pipeline_id, version: req.version });
            },
        };
        proof {
            let s = list@;
            assert(self.spec_versions()[req.pipeline_id] == s);
            assert(exists|j: int| 0 <= j < s.len() && s[j].version == req.version) by {
                assert(s[idx as int].version == req.version);
            }
            let c = choose|j: int| 0 <= j < s.len() && s[j].version == req.version && forall|m: int| 0 <= m < j ==> s[m].version != req.version;
            assert(c == idx) by {
                assert(s[idx as int].version == req.version);
                if c < idx {
                } else if c > idx {
                    assert(s[idx as int].version != req.version);
                }
            }
        }
        let v = list[idx].clone();
        let payload = JsonValue::object(vec![
            member("pipeline_id", JsonValue::from_uuid(req.pipeline_id)),
            member("version", JsonValue::from_u64(req.version as u64)),
            member("record_count", JsonValue::from_u64(req.input_records.len() as u64)),
        ]);
        log.record(EventType::TransformReplayRequested, None, Some(req.task_id), payload);
        Ok((v, req.input_records))
    }

    /// Save a checkpoint of a registered pipeline as its latest and log it.
    pub fn save_checkpoint(&mut self, pipeline_id: u128, completed_step_index: usize, processed_count: u64,
        state_snapshot: JsonValue, log: &mut ActionLog) -> (r: Result<PipelineCheckpoint, PipelineError>)
        ensures
            r is Ok <==> old(self).spec_pipelines().contains_key(pipeline_id),
            r matches Err(e) ==> e == PipelineError::PipelineNotFound(pipeline_id)
                && final(self).checkpoints == old(self).checkpoints && final(log)@ == old(log)@,
            r matches Ok(cp) ==> cp.pipeline_id == pipeline_id && cp.completed_step_index == completed_step_index
                && cp.processed_count == processed_count && cp.state_snapshot == state_snapshot
                && final(self).checkpoints.spec_checkpoints() == old(self).checkpoints.spec_checkpoints().insert(pipeline_id, cp)
                && appended_one(old(log)@, final(log)@, EventType::PipelineCheckpointed, None, None)
                && final(log)@.last().payload.model() == JsonModel::Object(seq![
                    ("pipeline_id"@, JsonModel::Str(uuid_text(pipeline_id))),
                    ("completed_step_index"@, JsonModel::Int(completed_step_index as int)),
                    ("processed_count"@, JsonModel::Int(processed_count as int)),
                ]),
            final(self).spec_pipelines() == old(self).spec_pipelines(),
            final(self).spec_versions() == old(self).spec_versions(),
    {
        if !self.pipelines.contains_key(pipeline_id) {
            return Err(PipelineError::PipelineNotFound(pipeline_id));
        }
        let cp = PipelineCheckpoint::new(pipeline_id, completed_step_index, processed_count, state_snapshot);
        let members = vec![
            member("pipeline_id", JsonValue::from_uuid(pipeline_id)),
            member("completed_step_index", JsonValue::from_u64(completed_step_index as u64)),
            member("processed_count", JsonValue::from_u64(processed_count)),
        ];
        proof {
            lemma_members_models(members@);
            assert(members@.map_values(|m: (String, JsonValue)| (m.0@, m.1.model())) =~= seq![
                ("pipeline_id"@, JsonModel::Str(uuid_text(pipeline_id))),
                ("completed_step_index"@, JsonModel::Int(completed_step_index as int)),
                ("processed_count"@, JsonModel::Int(processed_count as int)),
            ]);
        }
        let payload = JsonValue::object(members);
        log.record(EventType::PipelineCheckpointed, None, None, payload);
        self.checkpoints.save(cp.clone());
        Ok(cp)
    }

    /// The latest checkpoint of a pipeline, logged as a resume.
    pub fn resume_from_checkpoint(&self, pipeline_id: u128, log: &mut ActionLog) -> (r: Result<PipelineCheckpoint, PipelineError>)
        ensures
            ({
                let cps = self.checkpoints.spec_checkpoints();
                &&& !cps.contains_key(pipeline_id) ==> (r matches Err(e) && e == PipelineError::CheckpointNotFound(pipeline_id))
                &&& cps.contains_key(pipeline_id) && !self.spec_pipelines().contains_key(pipeline_id)
                    ==> (r matches Err(e) && e == PipelineError::PipelineNotFound(pipeline_id))
                &&& cps.contains_key(pipeline_id) && self.spec_pipelines().contains_key(pipeline_id)
                    ==> (r matches Ok(cp) && cp == cps[pipeline_id]
                        && appended_one(old(log)@, final(log)@, EventType::PipelineResumed,
                            Some(self.spec_pipelines()[pipeline_id].dimension_id), None))
                &&& r is Err ==> final(log)@ == old(log)@
            }),
    {
        let cp = match self.checkpoints.get(pipeline_id) {
            Some(c) => c,
            None => {
                return Err(PipelineError::CheckpointNotFound(pipeline_id));
            },
        };
        let dim = match self.pipelines.get(pipeline_id) {
            Some(p) => p.dimension_id,
            None => {
                return Err(PipelineError::PipelineNotFound(pipeline_id));
            },
        };
        let payload = JsonValue::object(vec![
            member("pipeline_id", JsonValue::from_uuid(pipeline_id)),
            member("resumed_from_step_index", JsonValue::from_u64(cp.completed_step_index as u64)),
            member("processed_count", JsonValue::from_u64(cp.processed_count)),
        ]);
        log.record(EventType::PipelineResumed, Some(dim), None, payload);
        Ok(cp)
    }
}

} // verus!
