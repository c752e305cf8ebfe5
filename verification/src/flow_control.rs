//! Flow control: flow graphs of task, decision and terminal steps with
//! guarded transitions, fallbacks and visit limits, and the builder of
//! agentic chat payloads.
//!
//! A flow graph is generic over its transition conditions: the graph's
//! structure and the step-to-step decisions are decided here, while the
//! conditions themselves (metric thresholds and model scores) are evaluated
//! by the caller, in transition order, between the two halves of an
//! advance.

use vstd::prelude::*;
use crate::action_log::{ActionLog, EventType, appended_one};
use crate::ids::new_uuid;
use crate::idmap::IdMap;
use crate::json::{JsonModel, JsonValue, lemma_members_models, uuid_text};
use crate::text::str_eq;

verus! {

// ---------------------------------------------------------------------------
// Errors and shared enums
// ---------------------------------------------------------------------------

/// Errors of flow control operations.
#[derive(Debug)]
pub enum FlowControlError {
    /// The step does not exist.
    StepNotFound(u128),
    /// A transition or fallback leads to a missing step.
    TransitionTargetNotFound { from: u128, target: u128 },
    /// A metric is missing from the context.
    MissingMetric(String),
    /// A model could not be evaluated.
    ModelEvaluationFailed { model: String, reason: String },
    /// The step was visited more often than allowed and has no fallback.
    MaxVisitsExceeded { step_id: u128, limit: u32 },
    /// The chat adapter failed.
    ChatAdapterFailed(String),
    /// An instruction names a source the dataset lacks.
    InstructionSourceMissing { instruction_id: u128, source_id: u128 },
    /// No transition matched and there is no fallback.
    NoMatchingTransition(u128),
}

/// How a metric is compared with a threshold.
#[derive(Clone, Copy, Debug, PartialEq, Eq, Structural)]
pub enum ComparisonOperator {
    /// At least the threshold.
    AtLeast,
    /// At most the threshold.
    AtMost,
    /// Equal to the threshold (within a relative tolerance).
    Equal,
}

/// How a flow ended.
#[derive(Clone, Copy, Debug, PartialEq, Eq, Structural)]
pub enum FlowTerminalStatus {
    /// Completed.
    Completed,
    /// Failed.
    Failed,
    /// Cancelled.
    Cancelled,
}

// ---------------------------------------------------------------------------
// Flow graphs
// ---------------------------------------------------------------------------

/// What a step does.
#[derive(Debug)]
pub enum FlowStepKind {
    /// Execute a node.
    Task { node_id: u128 },
    /// Choose among transitions.
    Decision { description: String },
    /// End the flow.
    Terminal { status: FlowTerminalStatus },
}

/// A guarded edge to another step.
#[derive(Debug)]
pub struct FlowTransition<C> {
    /// Label.
    pub label: String,
    /// Condition under which it is taken.
    pub condition: C,
    /// Target step.
    pub target: u128,
}

impl<C> FlowTransition<C> {
    /// A transition.
    pub fn new(label: &str, condition: C, target: u128) -> (r: Self)
        ensures
            r.label@ == label@,
            r.condition == condition,
            r.target == target,
    {
        FlowTransition { label: label.to_owned(), condition, target }
    }
}

/// A step of a flow graph.
#[derive(Debug)]
pub struct FlowStep<C> {
    /// Step id.
    pub id: u128,
    /// Name.
    pub name: String,
    /// What it does.
    pub kind: FlowStepKind,
    /// Transitions, tried in order.
    pub transitions: Vec<FlowTransition<C>>,
    /// Where to go when no transition is taken.
    pub fallback: Option<u128>,
    /// Most visits allowed.
    pub max_visits: Option<u32>,
}

impl<C> FlowStep<C> {
    /// A step with a fresh id, no transitions, no fallback, no visit limit.
    pub fn new(name: &str, kind: FlowStepKind) -> (r: Self)
        ensures
            r.name@ == name@,
            r.kind == kind,
            r.transitions@.len() == 0,
            r.fallback is None,
            r.max_visits is None,
    {
        FlowStep { id: new_uuid(), name: name.to_owned(), kind, transitions: Vec::new(), fallback: None, max_visits: None }
    }

    /// A task step for a node.
    pub fn task(name: &str, node_id: u128) -> (r: Self)
        ensures
            r.name@ == name@,
            r.kind == (FlowStepKind::Task { node_id }),
            r.transitions@.len() == 0,
            r.fallback is None,
            r.max_visits is None,
    {
        FlowStep::new(name, FlowStepKind::Task { node_id })
    }

    /// A decision step.
    pub fn decision(name: &str, description: &str) -> (r: Self)
        ensures
            r.name@ == name@,
            r.kind matches FlowStepKind::Decision { description: d } && d@ == description@,
            r.transitions@.len() == 0,
            r.fallback is None,
            r.max_visits is None,
    {
        FlowStep::new(name, FlowStepKind::Decision { description: description.to_owned() })
    }

    /// A terminal step.
    pub fn terminal(name: &str, status: FlowTerminalStatus) -> (r: Self)
        ensures
            r.name@ == name@,
            r.kind == (FlowStepKind::Terminal { status }),
            r.transitions@.len() == 0,
            r.fallback is None,
            r.max_visits is None,
    {
        FlowStep::new(name, FlowStepKind::Terminal { status })
    }

    /// Append a transition.
    pub fn add_transition(&mut self, transition: FlowTransition<C>)
        ensures
            final(self).transitions@ == old(self).transitions@.push(transition),
            final(self).id == old(self).id,
            final(self).kind == old(self).kind,
            final(self).fallback == old(self).fallback,
            final(self).max_visits == old(self).max_visits,
    {
        self.transitions.push(transition);
    }

    /// Set the fallback.
    pub fn with_fallback(self, fallback: u128) -> (r: Self)
        ensures
            r == (FlowStep { fallback: Some(fallback), ..self }),
    {
        let mut s = self;
        s.fallback = Some(fallback);
        s
    }

    /// Set the visit limit.
    pub fn with_max_visits(self, max_visits: u32) -> (r: Self)
        ensures
            r == (FlowStep { max_visits: Some(max_visits), ..self }),
    {
        let mut s = self;
        s.max_visits = Some(max_visits);
        s
    }
}

/// Every transition target and fallback of every step of `steps` is a step.
pub open spec fn flow_closed<C>(steps: Map<u128, FlowStep<C>>) -> bool {
    forall|k: u128| #[trigger] steps.contains_key(k) ==> step_targets_present(steps, steps[k])
}

/// The targets and fallback of step `s` are steps of `steps`.
pub open spec fn step_targets_present<C>(steps: Map<u128, FlowStep<C>>, s: FlowStep<C>) -> bool {
    &&& forall|i: int| 0 <= i < s.transitions@.len() ==> steps.contains_key(#[trigger] s.transitions@[i].target)
    &&& (s.fallback matches Some(f) ==> steps.contains_key(f))
}

/// `target` is a transition target or the fallback of `s`.
pub open spec fn leads_to<C>(s: FlowStep<C>, target: u128) -> bool {
    ||| exists|i: int| 0 <= i < s.transitions@.len() && #[trigger] s.transitions@[i].target == target
    ||| s.fallback == Some(target)
}

/// A flow graph: steps by id and an entry step.
#[derive(Debug)]
pub struct FlowGraph<C> {
    /// Flow id.
    pub id: u128,
    /// Name.
    pub name: String,
    /// Entry step.
    pub entrypoint: u128,
    /// Steps by id.
    pub steps: IdMap<FlowStep<C>>,
}

impl<C> FlowGraph<C> {
    /// A graph holding only its entry step.
    pub fn new(name: &str, entry: FlowStep<C>) -> (r: Self)
        ensures
            r.name@ == name@,
            r.entrypoint == entry.id,
            r.steps@ == Map::<u128, FlowStep<C>>::empty().insert(entry.id, entry),
    {
        let entry_id = entry.id;
        let mut steps: IdMap<FlowStep<C>> = IdMap::new();
        steps.insert(entry_id, entry);
        FlowGraph { id: new_uuid(), name: name.to_owned(), entrypoint: entry_id, steps }
    }

    /// Add a step under its id, replacing one with the same id.
    pub fn insert_step(&mut self, step: FlowStep<C>)
        ensures
            final(self).steps@ == old(self).steps@.insert(step.id, step),
            final(self).entrypoint == old(self).entrypoint,
            final(self).id == old(self).id,
    {
        let k = step.id;
        self.steps.insert(k, step);
    }

    /// The step with an id.
    pub fn step(&self, id: u128) -> (r: Option<&FlowStep<C>>)
        ensures
            r is Some <==> self.steps@.contains_key(id),
            r matches Some(s) ==> *s == self.steps@[id],
    {
        self.steps.get(id)
    }

    /// Check that every transition target and fallback is a step; otherwise
    /// report a step and a missing step it leads to.
    pub fn validate(&self) -> (r: Result<(), FlowControlError>)
        ensures
            r is Ok <==> flow_closed(self.steps@),
            r matches Err(e) ==> (e matches FlowControlError::TransitionTargetNotFound { from, target }
                && self.steps@.contains_key(from) && !self.steps@.contains_key(target)
                && leads_to(self.steps@[from], target)),
    {
        let n = self.steps.len();
        for i in 0..n
            invariant
                n == self.steps.entries().len(),
                forall|j: int| 0 <= j < i ==> step_targets_present(self.steps@, #[trigger] self.steps.entries()[j].1),
        {
            let e = self.steps.entry_at(i);
            let from = e.0;
            let step = &e.1;
            let m = step.transitions.len();
            for t in 0..m
                invariant
                    m == step.transitions@.len(),
                    self.steps@.contains_key(from),
                    self.steps@[from] == *step,
                    forall|u: int| 0 <= u < t ==> self.steps@.contains_key(#[trigger] step.transitions@[u].target),
            {
                let target = step.transitions[t].target;
                if !self.steps.contains_key(target) {
                    proof {
                        assert(leads_to(*step, target));
                    }
                    return Err(FlowControlError::TransitionTargetNotFound { from, target });
                }
            }
            if let Some(f) = step.fallback {
                if !self.steps.contains_key(f) {
                    return Err(FlowControlError::TransitionTargetNotFound { from, target: f });
                }
            }
        }
        proof {
            assert forall|k: u128| #[trigger] self.steps@.contains_key(k) implies step_targets_present(self.steps@, self.steps@[k]) by {
                let j = crate::idmap::key_index(self.steps.entries(), k);
                crate::idmap::lemma_key_index(self.steps.entries(), j);
                assert(step_targets_present(self.steps@, self.steps.entries()[j].1));
            }
        }
        Ok(())
    }
}

// ---------------------------------------------------------------------------
// Advancing a flow
// ---------------------------------------------------------------------------

/// How many times each step was visited in a running flow.
#[derive(Debug)]
pub struct FlowState {
    visits: IdMap<u32>,
}

impl FlowState {
    /// Visits by step (a missing step has none).
    pub closed spec fn spec_visits(&self) -> Map<u128, u32> {
        self.visits@
    }

    /// The visits of a step.
    pub open spec fn visits_of(&self, step: u128) -> u32 {
        if self.spec_visits().contains_key(step) { self.spec_visits()[step] } else { 0 }
    }

    /// No visits yet.
    pub fn new() -> (r: Self)
        ensures
            r.spec_visits() == Map::<u128, u32>::empty(),
    {
        FlowState { visits: IdMap::new() }
    }

    /// Count a visit and return the step's new count.
    pub fn record_visit(&mut self, step_id: u128) -> (r: u32)
        requires
            old(self).visits_of(step_id) < u32::MAX,
        ensures
            r == old(self).visits_of(step_id) + 1,
            final(self).spec_visits() == old(self).spec_visits().insert(step_id, r),
    {
        let c = match self.visits.get(step_id) {
            Some(v) => *v,
            None => 0,
        };
        let n = c + 1;
        self.visits.insert(step_id, n);
        n
    }

    /// The visits of a step.
    pub fn visits(&self, step_id: u128) -> (r: u32)
        ensures
            r == self.visits_of(step_id),
    {
        match self.visits.get(step_id) {
            Some(v) => *v,
            None => 0,
        }
    }
}

/// Where advancing a flow leads.
#[derive(Clone, Copy, Debug, PartialEq, Eq, Structural)]
pub enum FlowAdvance {
    /// On to the step.
    Next(u128),
    /// The flow ended.
    Terminal(FlowTerminalStatus),
}

/// The first half of an advance: either the outcome, or the step whose
/// transitions the caller must now evaluate in order.
#[derive(Debug, PartialEq, Eq, Structural)]
pub enum AdvancePlan {
    /// The outcome is decided: the visit limit sent the flow to the
    /// fallback, or the step is terminal.
    Decided(FlowAdvance),
    /// Evaluate the step's transitions, in order, up to the first that
    /// holds.
    EvaluateTransitions,
}

/// The decision of the first half of an advance from step `s` visited for
/// the `count`-th time.
pub open spec fn plan_for<C>(steps: Map<u128, FlowStep<C>>, step_id: u128, s: FlowStep<C>, count: int)
    -> Result<AdvancePlan, FlowControlError> {
    if s.max_visits matches Some(limit) && count > limit {
        match s.fallback {
            None => Err(FlowControlError::MaxVisitsExceeded { step_id, limit: s.max_visits->0 }),
            Some(f) => if steps.contains_key(f) {
                Ok(AdvancePlan::Decided(FlowAdvance::Next(f)))
            } else {
                Err(FlowControlError::TransitionTargetNotFound { from: step_id, target: f })
            },
        }
    } else {
        match s.kind {
            FlowStepKind::Terminal { status } => Ok(AdvancePlan::Decided(FlowAdvance::Terminal(status))),
            _ => Ok(AdvancePlan::EvaluateTransitions),
        }
    }
}

/// Advance law, first half: within its visit limit, a terminal step ends
/// the flow with exactly the status stored in it, and any other step hands
/// its transitions to the caller; over the limit the flow goes to the
/// fallback when that is a step, and fails otherwise.
pub proof fn lemma_plan<C>(steps: Map<u128, FlowStep<C>>, step_id: u128, s: FlowStep<C>, count: int)
    ensures
        !(s.max_visits matches Some(limit) && count > limit) ==> (s.kind matches FlowStepKind::Terminal { status }
            ==> plan_for(steps, step_id, s, count) == Ok::<AdvancePlan, FlowControlError>(AdvancePlan::Decided(FlowAdvance::Terminal(status)))),
        !(s.max_visits matches Some(limit) && count > limit) && !(s.kind is Terminal)
            ==> plan_for(steps, step_id, s, count) == Ok::<AdvancePlan, FlowControlError>(AdvancePlan::EvaluateTransitions),
        (s.max_visits matches Some(limit) && count > limit) ==> match s.fallback {
            Some(f) => plan_for(steps, step_id, s, count) == if steps.contains_key(f) {
                Ok::<AdvancePlan, FlowControlError>(AdvancePlan::Decided(FlowAdvance::Next(f)))
            } else {
                Err::<AdvancePlan, FlowControlError>(FlowControlError::TransitionTargetNotFound { from: step_id, target: f })
            },
            None => plan_for(steps, step_id, s, count)
                == Err::<AdvancePlan, FlowControlError>(FlowControlError::MaxVisitsExceeded { step_id, limit: s.max_visits->0 }),
        },
        plan_for(steps, step_id, s, count) matches Ok(AdvancePlan::Decided(FlowAdvance::Terminal(st)))
            ==> s.kind == (FlowStepKind::Terminal { status: st }),
{
}

/// The decision of the second half of an advance, given the index of the
/// first transition whose condition held, if any.
pub open spec fn finish_for<C>(steps: Map<u128, FlowStep<C>>, step_id: u128, s: FlowStep<C>, matched: Option<usize>)
    -> Result<FlowAdvance, FlowControlError> {
    let next = match matched {
        Some(i) => Some(s.transitions@[i as int].target),
        None => s.fallback,
    };
    match next {
        None => Err(FlowControlError::NoMatchingTransition(step_id)),
        Some(t) => if steps.contains_key(t) {
            Ok(FlowAdvance::Next(t))
        } else {
            Err(FlowControlError::TransitionTargetNotFound { from: step_id, target: t })
        },
    }
}

/// Advance law, second half: the flow goes to the target of the first
/// transition that held, or else to the fallback, provided that target is a
/// step; without a transition that held and without a fallback it fails
/// with `NoMatchingTransition`, and a target that is not a step fails with
/// `TransitionTargetNotFound`.
pub proof fn lemma_finish<C>(steps: Map<u128, FlowStep<C>>, step_id: u128, s: FlowStep<C>, matched: Option<usize>)
    ensures
        matched matches Some(i) ==> finish_for(steps, step_id, s, matched) == if steps.contains_key(s.transitions@[i as int].target) {
            Ok::<FlowAdvance, FlowControlError>(FlowAdvance::Next(s.transitions@[i as int].target))
        } else {
            Err::<FlowAdvance, FlowControlError>(FlowControlError::TransitionTargetNotFound { from: step_id, target: s.transitions@[i as int].target })
        },
        matched is None && s.fallback is None ==> finish_for(steps, step_id, s, matched)
            == Err::<FlowAdvance, FlowControlError>(FlowControlError::NoMatchingTransition(step_id)),
        matched is None ==> (s.fallback matches Some(f) ==> finish_for(steps, step_id, s, matched) == if steps.contains_key(f) {
            Ok::<FlowAdvance, FlowControlError>(FlowAdvance::Next(f))
        } else {
            Err::<FlowAdvance, FlowControlError>(FlowControlError::TransitionTargetNotFound { from: step_id, target: f })
        }),
        finish_for(steps, step_id, s, matched) matches Ok(FlowAdvance::Next(t)) ==> steps.contains_key(t),
        !(finish_for(steps, step_id, s, matched) matches Ok(FlowAdvance::Terminal(_))),
{
}

impl<C> FlowGraph<C> {
    /// Count a visit to a step and decide what no condition is needed for:
    /// over its visit limit the flow goes to the fallback (an error without
    /// one); a terminal step ends the flow; otherwise the caller evaluates
    /// the transitions.
    pub fn begin_advance(&self, step_id: u128, state: &mut FlowState) -> (r: Result<AdvancePlan, FlowControlError>)
        requires
            old(state).visits_of(step_id) < u32::MAX,
        ensures
            !self.steps@.contains_key(step_id) ==> (r matches Err(e) && e == FlowControlError::StepNotFound(step_id)
                && final(state).spec_visits() == old(state).spec_visits()),
            self.steps@.contains_key(step_id) ==> {
                let count = old(state).visits_of(step_id) + 1;
                &&& final(state).spec_visits() == old(state).spec_visits().insert(step_id, count as u32)
                &&& r == plan_for(self.steps@, step_id, self.steps@[step_id], count)
            },
    {
        let step = match self.steps.get(step_id) {
            Some(s) => s,
            None => {
                return Err(FlowControlError::StepNotFound(step_id));
            },
        };
        let count = state.record_visit(step_id);
        if let Some(limit) = step.max_visits {
            if count > limit {
                return match step.fallback {
                    None => Err(FlowControlError::MaxVisitsExceeded { step_id, limit }),
                    Some(f) => if self.steps.contains_key(f) {
                        Ok(AdvancePlan::Decided(FlowAdvance::Next(f)))
                    } else {
                        Err(FlowControlError::TransitionTargetNotFound { from: step_id, target: f })
                    },
                };
            }
        }
        match &step.kind {
            FlowStepKind::Terminal { status } => Ok(AdvancePlan::Decided(FlowAdvance::Terminal(*status))),
            _ => Ok(AdvancePlan::EvaluateTransitions),
        }
    }

    /// Finish an advance from a step: take the first transition whose
    /// condition held, or else the fallback; the target must be a step.
    pub fn finish_advance(&self, step_id: u128, matched: Option<usize>) -> (r: Result<FlowAdvance, FlowControlError>)
        requires
            self.steps@.contains_key(step_id),
            matched matches Some(i) ==> i < self.steps@[step_id].transitions@.len(),
        ensures
            r == finish_for(self.steps@, step_id, self.steps@[step_id], matched),
    {
        let step = match self.steps.get(step_id) {
            Some(s) => s,
            None => {
                return Err(FlowControlError::StepNotFound(step_id));
            },
        };
        let next = match matched {
            Some(i) => Some(step.transitions[i].target),
            None => step.fallback,
        };
        match next {
            None => Err(FlowControlError::NoMatchingTransition(step_id)),
            Some(t) => if self.steps.contains_key(t) {
                Ok(FlowAdvance::Next(t))
            } else {
                Err(FlowControlError::TransitionTargetNotFound { from: step_id, target: t })
            },
        }
    }
}


// ---------------------------------------------------------------------------
// Chat payloads
// ---------------------------------------------------------------------------

/// Where an instruction comes from.
#[derive(Debug)]
pub struct InstructionSource {
    /// Source id.
    pub id: u128,
    /// Kind (dataset, spec, policy, ...).
    pub kind: String,
    /// Location, if any.
    pub uri: Option<String>,
    /// Summary.
    pub summary: String,
}

impl Clone for InstructionSource {
    fn clone(&self) -> (r: Self)
        ensures
            r == *self,
    {
        InstructionSource {
            id: self.id,
            kind: self.kind.clone(),
            uri: match &self.uri {
                Some(u) => Some(u.clone()),
                None => None,
            },
            summary: self.summary.clone(),
        }
    }
}

impl InstructionSource {
    /// A source with a fresh id.
    pub fn new(kind: &str, uri: Option<String>, summary: &str) -> (r: Self)
        ensures
            r.kind@ == kind@,
            r.uri == uri,
            r.summary@ == summary@,
    {
        InstructionSource { id: new_uuid(), kind: kind.to_owned(), uri, summary: summary.to_owned() }
    }
}

/// An instruction of a dataset.
#[derive(Debug)]
pub struct InstructionEntry {
    /// Instruction id.
    pub id: u128,
    /// Text.
    pub content: String,
    /// Tags used for selection.
    pub tags: Vec<String>,
    /// Its source.
    pub source_id: u128,
}

/// `a` and `b` hold the same instruction (tags by their contents).
pub open spec fn same_entry(a: InstructionEntry, b: InstructionEntry) -> bool {
    a.id == b.id && a.content == b.content && a.tags@ == b.tags@ && a.source_id == b.source_id
}

impl Clone for InstructionEntry {
    fn clone(&self) -> (r: Self)
        ensures
            same_entry(r, *self),
    {
        InstructionEntry { id: self.id, content: self.content.clone(), tags: self.tags.clone(), source_id: self.source_id }
    }
}

impl InstructionEntry {
    /// An instruction with a fresh id.
    pub fn new(content: &str, tags: Vec<String>, source_id: u128) -> (r: Self)
        ensures
            r.content@ == content@,
            r.tags == tags,
            r.source_id == source_id,
    {
        InstructionEntry { id: new_uuid(), content: content.to_owned(), tags, source_id }
    }
}

/// A versioned set of instructions and their sources.
#[derive(Debug)]
pub struct InstructionDataset {
    /// Dataset id.
    pub id: u128,
    /// Name.
    pub name: String,
    /// Version.
    pub version: String,
    /// Instructions.
    pub instructions: Vec<InstructionEntry>,
    /// Sources.
    pub sources: Vec<InstructionSource>,
}

/// The position of the first source with id `id`, if any.
pub open spec fn source_index(sources: Seq<InstructionSource>, id: u128) -> Option<int> {
    if exists|i: int| 0 <= i < sources.len() && sources[i].id == id {
        Some(choose|i: int| 0 <= i < sources.len() && sources[i].id == id && forall|j: int| 0 <= j < i ==> sources[j].id != id)
    } else {
        None
    }
}

/// A source with id `id` at `w` gives a first such source.
proof fn lemma_first_source(sources: Seq<InstructionSource>, id: u128, w: int)
    requires
        0 <= w < sources.len(),
        sources[w].id == id,
    ensures
        exists|i: int| 0 <= i < sources.len() && sources[i].id == id && forall|j: int| 0 <= j < i ==> sources[j].id != id,
    decreases w,
{
    if exists|j: int| 0 <= j < w && sources[j].id == id {
        let j = choose|j: int| 0 <= j < w && sources[j].id == id;
        lemma_first_source(sources, id, j);
    }
}

/// What `source_index` gives.
pub proof fn lemma_source_index(sources: Seq<InstructionSource>, id: u128)
    ensures
        source_index(sources, id) matches Some(i) ==> 0 <= i < sources.len() && sources[i].id == id
            && forall|j: int| 0 <= j < i ==> sources[j].id != id,
        source_index(sources, id) is None ==> forall|j: int| 0 <= j < sources.len() ==> sources[j].id != id,
{
    if exists|i: int| 0 <= i < sources.len() && sources[i].id == id {
        let w = choose|i: int| 0 <= i < sources.len() && sources[i].id == id;
        lemma_first_source(sources, id, w);
    }
}

impl InstructionDataset {
    /// A dataset with a fresh id.
    pub fn new(name: &str, version: &str, sources: Vec<InstructionSource>, instructions: Vec<InstructionEntry>) -> (r: Self)
        ensures
            r.name@ == name@,
            r.version@ == version@,
            r.sources == sources,
            r.instructions == instructions,
    {
        InstructionDataset { id: new_uuid(), name: name.to_owned(), version: version.to_owned(), instructions, sources }
    }

    /// The first source with an id.
    fn source(&self, id: u128) -> (r: Option<&InstructionSource>)
        ensures
            match source_index(self.sources@, id) {
                Some(i) => r == Some(&self.sources@[i]),
                None => r is None,
            },
    {
        let n = self.sources.len();
        for i in 0..n
            invariant
                n == self.sources@.len(),
                forall|j: int| 0 <= j < i ==> self.sources@[j].id != id,
        {
            if self.sources[i].id == id {
                proof {
                    let s = self.sources@;
                    assert(s[i as int].id == id);
                    let c = choose|c: int| 0 <= c < s.len() && s[c].id == id && forall|j: int| 0 <= j < c ==> s[j].id != id;
                    assert(c == i) by {
                        if c > i {
                            assert(s[i as int].id != id);
                        }
                    }
                }
                return Some(&self.sources[i]);
            }
        }
        None
    }
}

/// A tool an agent may use.
#[derive(Debug)]
pub struct ChatTool {
    /// Name.
    pub name: String,
    /// Capability it requires.
    pub capability: String,
    /// Description.
    pub description: String,
}

impl Clone for ChatTool {
    fn clone(&self) -> (r: Self)
        ensures
            r == *self,
    {
        ChatTool { name: self.name.clone(), capability: self.capability.clone(), description: self.description.clone() }
    }
}

/// A skill module an agent may use.
#[derive(Debug)]
pub struct ChatSkillModule {
    /// Name.
    pub name: String,
    /// Version.
    pub version: String,
    /// Description.
    pub description: String,
}

impl Clone for ChatSkillModule {
    fn clone(&self) -> (r: Self)
        ensures
            r == *self,
    {
        ChatSkillModule { name: self.name.clone(), version: self.version.clone(), description: self.description.clone() }
    }
}

/// A chat message to turn into an operational payload.
#[derive(Debug)]
pub struct ChatRequest {
    /// Request id.
    pub request_id: u128,
    /// The message.
    pub message: String,
    /// Tools available.
    pub toolset: Vec<ChatTool>,
    /// Skill modules available.
    pub skill_modules: Vec<ChatSkillModule>,
    /// Instructions shaping the payload.
    pub instruction_dataset: InstructionDataset,
}

impl ChatRequest {
    /// A request with a fresh id.
    pub fn new(message: &str, toolset: Vec<ChatTool>, skill_modules: Vec<ChatSkillModule>,
        instruction_dataset: InstructionDataset) -> (r: Self)
        ensures
            r.message@ == message@,
            r.toolset == toolset,
            r.skill_modules == skill_modules,
            r.instruction_dataset == instruction_dataset,
    {
        ChatRequest { request_id: new_uuid(), message: message.to_owned(), toolset, skill_modules, instruction_dataset }
    }
}

/// Which instructions a payload uses: those carrying a listed tag or with
/// a listed id; all when nothing is listed.
#[derive(Debug)]
pub struct ChatInstructionSelection {
    /// Tags to select.
    pub tags: Vec<String>,
    /// Ids to select.
    pub instruction_ids: Vec<u128>,
}

impl Default for ChatInstructionSelection {
    /// Nothing listed.
    fn default() -> (r: Self)
        ensures
            r.tags@.len() == 0 && r.instruction_ids@.len() == 0,
    {
        ChatInstructionSelection { tags: Vec::new(), instruction_ids: Vec::new() }
    }
}

impl ChatInstructionSelection {
    /// Whether nothing is listed.
    pub fn is_empty(&self) -> (r: bool)
        ensures
            r == (self.tags@.len() == 0 && self.instruction_ids@.len() == 0),
    {
        self.tags.len() == 0 && self.instruction_ids.len() == 0
    }
}

/// Whether a selection that lists something selects an instruction.
pub open spec fn selects(sel: ChatInstructionSelection, e: InstructionEntry) -> bool {
    ||| sel.instruction_ids@.contains(e.id)
    ||| exists|i: int, j: int| 0 <= i < e.tags@.len() && 0 <= j < sel.tags@.len() && #[trigger] e.tags@[i]@ == #[trigger] sel.tags@[j]@
}

/// The instructions of the request's dataset that the selection picks, in
/// order: all of them when the selection lists nothing.
pub open spec fn selected_instructions(request: ChatRequest, selection: ChatInstructionSelection) -> Seq<InstructionEntry> {
    let all = request.instruction_dataset.instructions@;
    if selection.tags@.len() == 0 && selection.instruction_ids@.len() == 0 {
        all
    } else {
        all.filter(|e: InstructionEntry| selects(selection, e))
    }
}

/// `a` holds copies of the entries of `b`, in order.
pub open spec fn entries_match(a: Seq<InstructionEntry>, b: Seq<InstructionEntry>) -> bool {
    &&& a.len() == b.len()
    &&& forall|i: int| 0 <= i < a.len() ==> same_entry(#[trigger] a[i], b[i])
}

/// The ids of a list of instructions.
pub open spec fn entry_ids(s: Seq<InstructionEntry>) -> Seq<u128> {
    s.map_values(|e: InstructionEntry| e.id)
}

/// What an adapter makes of a request.
#[derive(Debug)]
pub struct ChatAdaptation {
    /// Intent label.
    pub intent: String,
    /// Parameters for execution.
    pub parameters: JsonValue,
}

/// A chat request turned into an operational payload.
#[derive(Debug)]
pub struct ChatPayload {
    /// Request id.
    pub request_id: u128,
    /// The message.
    pub message: String,
    /// Intent label.
    pub intent: String,
    /// Parameters.
    pub parameters: JsonValue,
    /// Tools.
    pub toolset: Vec<ChatTool>,
    /// Skill modules.
    pub skill_modules: Vec<ChatSkillModule>,
    /// Instructions applied.
    pub instructions: Vec<InstructionEntry>,
    /// Their sources.
    pub sources: Vec<InstructionSource>,
    /// Dataset id.
    pub dataset_id: u128,
    /// Dataset version.
    pub dataset_version: String,
}

/// Turns a request and the selected instructions into an intent and
/// parameters; implemented by the library's users.
pub trait ChatAdapter {
    /// Adapt a request.
    fn adapt(&self, request: &ChatRequest, instructions: &[InstructionEntry]) -> Result<ChatAdaptation, FlowControlError>;
}

/// Whether some tag of `tags` reads like some tag of `wanted`.
fn shares_tag(tags: &Vec<String>, wanted: &Vec<String>) -> (r: bool)
    ensures
        r == exists|i: int, j: int| 0 <= i < tags@.len() && 0 <= j < wanted@.len() && #[trigger] tags@[i]@ == #[trigger] wanted@[j]@,
{
    let n = tags.len();
    let m = wanted.len();
    for i in 0..n
        invariant
            n == tags@.len() && m == wanted@.len(),
            forall|a: int, b: int| 0 <= a < i && 0 <= b < m ==> tags@[a]@ != wanted@[b]@,
    {
        for j in 0..m
            invariant
                n == tags@.len() && m == wanted@.len(),
                i < n,
                forall|a: int, b: int| 0 <= a < i && 0 <= b < m ==> tags@[a]@ != wanted@[b]@,
                forall|b: int| 0 <= b < j ==> tags@[i as int]@ != wanted@[b]@,
        {
            if str_eq(tags[i].as_str(), wanted[j].as_str()) {
                return true;
            }
        }
    }
    false
}

/// Whether a list of ids holds `id`.
fn holds_id(ids: &Vec<u128>, id: u128) -> (r: bool)
    ensures
        r == ids@.contains(id),
{
    let n = ids.len();
    for i in 0..n
        invariant
            n == ids@.len(),
            forall|j: int| 0 <= j < i ==> ids@[j] != id,
    {
        if ids[i] == id {
            proof {
                assert(ids@[i as int] == id);
            }
            return true;
        }
    }
    false
}

/// The instructions a selection picks, in dataset order.
pub fn filter_instructions(request: &ChatRequest, selection: &ChatInstructionSelection) -> (r: Vec<InstructionEntry>)
    ensures
        entries_match(r@, selected_instructions(*request, *selection)),
{
    let all = &request.instruction_dataset.instructions;
    let n = all.len();
    let everything = selection.is_empty();
    let ghost f = |e: InstructionEntry| selects(*selection, e);
    let ghost always = |e: InstructionEntry| true;
    let ghost g = if everything { always } else { f };
    let mut out: Vec<InstructionEntry> = Vec::new();
    for i in 0..n
        invariant
            n == all@.len(),
            everything == (selection.tags@.len() == 0 && selection.instruction_ids@.len() == 0),
            f == (|e: InstructionEntry| selects(*selection, e)),
            always == (|e: InstructionEntry| true),
            g == if everything { always } else { f },
            out@.len() == all@.take(i as int).filter(g).len(),
            forall|j: int| 0 <= j < out@.len() ==> same_entry(#[trigger] out@[j], all@.take(i as int).filter(g)[j]),
    {
        let e = &all[i];
        proof {
            assert(all@.take(i + 1) =~= all@.take(i as int).push(*e));
            all@.take(i as int).lemma_filter_push(*e, g);
        }
        if everything || holds_id(&selection.instruction_ids, e.id) || shares_tag(&e.tags, &selection.tags) {
            out.push(e.clone());
        }
    }
    proof {
        assert(all@.take(n as int) =~= all@);
        if everything {
            crate::mesh::lemma_filter_all(all@, always);
        }
    }
    out
}

/// Some source of `out` has id `id`.
pub open spec fn has_source_id(out: Seq<InstructionSource>, id: u128) -> bool {
    exists|k: int| 0 <= k < out.len() && (#[trigger] out[k]).id == id
}

/// One of the first `n` instructions of `s` uses source `id`.
pub open spec fn used_by_first(s: Seq<InstructionEntry>, n: int, id: u128) -> bool {
    exists|j: int| 0 <= j < n && (#[trigger] s[j]).source_id == id
}

/// The dataset lacks the source of `e`.
pub open spec fn source_missing(sources: Seq<InstructionSource>, e: InstructionEntry) -> bool {
    source_index(sources, e.source_id) is None
}

/// `e` reports the first instruction of `s` whose source `src` lacks.
pub open spec fn first_missing_source(src: Seq<InstructionSource>, s: Seq<InstructionEntry>, e: FlowControlError) -> bool {
    exists|i: int| 0 <= i < s.len() && source_missing(src, #[trigger] s[i])
        && (forall|j: int| 0 <= j < i ==> !source_missing(src, #[trigger] s[j]))
        && e == (FlowControlError::InstructionSourceMissing { instruction_id: s[i].id, source_id: s[i].source_id })
}

/// `out` holds the sources that the instructions `s` use, each once, as the
/// dataset's sources `src` have them.
pub open spec fn sources_resolved(src: Seq<InstructionSource>, s: Seq<InstructionEntry>, out: Seq<InstructionSource>) -> bool {
    &&& forall|a: int, b: int| 0 <= a < b < out.len() ==> out[a].id != out[b].id
    &&& forall|i: int| 0 <= i < s.len() ==> has_source_id(out, (#[trigger] s[i]).source_id)
    &&& forall|k: int| 0 <= k < out.len() ==> used_by_first(s, s.len() as int, (#[trigger] out[k]).id)
        && out[k] == src[source_index(src, out[k].id)->0]
}

/// The sources of the instructions, each once, in order of first use; the
/// first instruction whose source the dataset lacks is an error.
pub fn resolve_sources(dataset: &InstructionDataset, instructions: &Vec<InstructionEntry>)
    -> (r: Result<Vec<InstructionSource>, FlowControlError>)
    ensures
        ({
            let s = instructions@;
            let src = dataset.sources@;
            &&& (r is Ok) <==> forall|i: int| 0 <= i < s.len() ==> !source_missing(src, #[trigger] s[i])
            &&& r matches Err(e) ==> first_missing_source(src, s, e)
            &&& r matches Ok(out) ==> sources_resolved(src, s, out@)
        }),
{
    let n = instructions.len();
    let ghost s = instructions@;
    let ghost src = dataset.sources@;
    let mut out: Vec<InstructionSource> = Vec::new();
    for i in 0..n
        invariant
            n == s.len(),
            s == instructions@,
            src == dataset.sources@,
            forall|j: int| 0 <= j < i ==> !source_missing(src, #[trigger] s[j]),
            forall|a: int, b: int| 0 <= a < b < out@.len() ==> out@[a].id != out@[b].id,
            forall|j: int| 0 <= j < i ==> has_source_id(out@, (#[trigger] s[j]).source_id),
            forall|k: int| 0 <= k < out@.len() ==> used_by_first(s, i as int, (#[trigger] out@[k]).id)
                && out@[k] == src[source_index(src, out@[k].id)->0],
    {
        let e = &instructions[i];
        let found = dataset.source(e.source_id);
        let sr = match found {
            Some(x) => x,
            None => {
                proof {
                    assert(source_missing(src, s[i as int]));
                }
                return Err(FlowControlError::InstructionSourceMissing { instruction_id: e.id, source_id: e.source_id });
            },
        };
        proof {
            lemma_source_index(src, e.source_id);
        }
        let m = out.len();
        let mut seen = false;
        for k in 0..m
            invariant
                m == out@.len(),
                seen ==> has_source_id(out@, sr.id),
                !seen ==> forall|q: int| 0 <= q < k ==> out@[q].id != sr.id,
        {
            if out[k].id == sr.id {
                seen = true;
            }
        }
        let ghost before = out@;
        if !seen {
            out.push(sr.clone());
            proof {
                assert forall|j: int| 0 <= j < i + 1 implies has_source_id(out@, (#[trigger] s[j]).source_id) by {
                    if j < i {
                        assert(has_source_id(before, s[j].source_id));
                        let k = choose|k: int| 0 <= k < before.len() && (#[trigger] before[k]).id == s[j].source_id;
                        assert(out@[k] == before[k]);
                    } else {
                        assert(out@[before.len() as int].id == s[j].source_id);
                    }
                }
                assert forall|k: int| 0 <= k < out@.len() implies used_by_first(s, i + 1, (#[trigger] out@[k]).id)
                    && out@[k] == src[source_index(src, out@[k].id)->0] by {
                    if k < before.len() {
                        assert(out@[k] == before[k]);
                        assert(used_by_first(s, i as int, before[k].id));
                        let j = choose|j: int| 0 <= j < i && (#[trigger] s[j]).source_id == before[k].id;
                        assert(s[j].source_id == out@[k].id);
                    } else {
                        assert(s[i as int].source_id == out@[k].id);
                    }
                }
            }
        } else {
            proof {
                assert forall|j: int| 0 <= j < i + 1 implies has_source_id(out@, (#[trigger] s[j]).source_id) by {
                    if j < i {
                        assert(has_source_id(out@, s[j].source_id));
                    } else {
                        assert(has_source_id(out@, sr.id));
                    }
                }
                assert forall|k: int| 0 <= k < out@.len() implies used_by_first(s, i + 1, (#[trigger] out@[k]).id)
                    && out@[k] == src[source_index(src, out@[k].id)->0] by {
                    assert(used_by_first(s, i as int, out@[k].id));
                    let j = choose|j: int| 0 <= j < i && (#[trigger] s[j]).source_id == out@[k].id;
                    assert(s[j].source_id == out@[k].id);
                }
            }
        }
    }
    Ok(out)
}

/// The payload made of a request, its selected instructions and their
/// sources, and the adapter's intent and parameters.
pub fn assemble_payload(request: &ChatRequest, instructions: Vec<InstructionEntry>, sources: Vec<InstructionSource>,
    adaptation: ChatAdaptation) -> (r: ChatPayload)
    ensures
        r.request_id == request.request_id,
        r.message == request.message,
        r.intent == adaptation.intent,
        r.parameters == adaptation.parameters,
        r.toolset@ == request.toolset@,
        r.skill_modules@ == request.skill_modules@,
        r.instructions == instructions,
        r.sources == sources,
        r.dataset_id == request.instruction_dataset.id,
        r.dataset_version == request.instruction_dataset.version,
{
    ChatPayload {
        request_id: request.request_id,
        message: request.message.clone(),
        intent: adaptation.intent,
        parameters: adaptation.parameters,
        toolset: copy_tools(&request.toolset),
        skill_modules: copy_skills(&request.skill_modules),
        instructions,
        sources,
        dataset_id: request.instruction_dataset.id,
        dataset_version: request.instruction_dataset.version.clone(),
    }
}

/// Copies of a list of tools.
fn copy_tools(v: &Vec<ChatTool>) -> (r: Vec<ChatTool>)
    ensures
        r@ == v@,
{
    let mut out: Vec<ChatTool> = Vec::new();
    let n = v.len();
    for i in 0..n
        invariant
            n == v@.len(),
            out@ == v@.take(i as int),
    {
        proof {
            assert(v@.take(i + 1) == v@.take(i as int).push(v@[i as int]));
        }
        out.push(v[i].clone());
    }
    proof {
        assert(v@.take(n as int) == v@);
    }
    out
}

/// Copies of a list of skill modules.
fn copy_skills(v: &Vec<ChatSkillModule>) -> (r: Vec<ChatSkillModule>)
    ensures
        r@ == v@,
{
    let mut out: Vec<ChatSkillModule> = Vec::new();
    let n = v.len();
    for i in 0..n
        invariant
            n == v@.len(),
            out@ == v@.take(i as int),
    {
        proof {
            assert(v@.take(i + 1) == v@.take(i as int).push(v@[i as int]));
        }
        out.push(v[i].clone());
    }
    proof {
        assert(v@.take(n as int) == v@);
    }
    out
}

/// The payload of `chat.request.received`: the request, its message and
/// the sizes of its toolset and skill modules, and its instruction dataset.
pub open spec fn request_received_model(request: ChatRequest) -> JsonModel {
    JsonModel::Object(seq![
        ("request_id"@, JsonModel::Str(uuid_text(request.request_id))),
        ("message"@, JsonModel::Str(request.message@)),
        ("tool_count"@, JsonModel::Int(request.toolset@.len() as int)),
        ("skill_count"@, JsonModel::Int(request.skill_modules@.len() as int)),
        ("dataset_id"@, JsonModel::Str(uuid_text(request.instruction_dataset.id))),
    ])
}

/// The payload of `chat.payload.generated`: the request, the intent, and
/// how many instructions, sources, tools and skill modules the payload holds.
pub open spec fn payload_generated_model(p: ChatPayload) -> JsonModel {
    JsonModel::Object(seq![
        ("request_id"@, JsonModel::Str(uuid_text(p.request_id))),
        ("intent"@, JsonModel::Str(p.intent@)),
        ("instruction_count"@, JsonModel::Int(p.instructions@.len() as int)),
        ("source_count"@, JsonModel::Int(p.sources@.len() as int)),
        ("tool_count"@, JsonModel::Int(p.toolset@.len() as int)),
        ("skill_count"@, JsonModel::Int(p.skill_modules@.len() as int)),
    ])
}

/// Builds chat payloads with an adapter and logs them.
#[derive(Debug)]
pub struct ChatPayloadBuilder<A> {
    adapter: A,
}

impl<A: ChatAdapter> ChatPayloadBuilder<A> {
    /// A builder around an adapter.
    pub fn new(adapter: A) -> (r: Self) {
        ChatPayloadBuilder { adapter }
    }

    /// Log the request, select its instructions, resolve their sources, let
    /// the adapter derive intent and parameters, and log the payload.  A
    /// missing source fails before the adapter is asked; the adapter's
    /// error is passed on.
    pub fn build(&self, request: &ChatRequest, selection: &ChatInstructionSelection, log: &mut ActionLog)
        -> (r: Result<ChatPayload, FlowControlError>)
        ensures
            final(log)@.len() == old(log)@.len() + if r is Ok { 2int } else { 1int },
            final(log)@[old(log)@.len() as int].event_type == EventType::ChatRequestReceived,
            final(log)@[old(log)@.len() as int].payload.model() == request_received_model(*request),
            r matches Ok(p) ==> final(log)@.last().payload.model() == payload_generated_model(p),
            final(log)@.take(old(log)@.len() as int) == old(log)@,
            r is Ok ==> final(log)@.last().event_type == EventType::ChatPayloadGenerated,
            r matches Ok(p) ==> p.request_id == request.request_id && p.message == request.message
                && p.dataset_id == request.instruction_dataset.id
                && p.toolset@ == request.toolset@ && p.skill_modules@ == request.skill_modules@,
            ({
                let sel = selected_instructions(*request, *selection);
                let src = request.instruction_dataset.sources@;
                &&& (exists|i: int| 0 <= i < sel.len() && source_missing(src, #[trigger] sel[i]))
                    ==> (r matches Err(e) && first_missing_source(src, sel, e) && final(log)@.len() == old(log)@.len() + 1)
                &&& r matches Ok(p) ==> entries_match(p.instructions@, sel)
                    && sources_resolved(src, p.instructions@, p.sources@)
                    && p.dataset_version == request.instruction_dataset.version
            }),
    {
        let members = vec![
            ("request_id".to_owned(), JsonValue::from_uuid(request.request_id)),
            ("message".to_owned(), JsonValue::string(request.message.as_str())),
            ("tool_count".to_owned(), JsonValue::from_u64(request.toolset.len() as u64)),
            ("skill_count".to_owned(), JsonValue::from_u64(request.skill_modules.len() as u64)),
            ("dataset_id".to_owned(), JsonValue::from_uuid(request.instruction_dataset.id)),
        ];
        proof {
            lemma_members_models(members@);
            assert(members@.map_values(|m: (String, JsonValue)| (m.0@, m.1.model())) =~= seq![
                ("request_id"@, JsonModel::Str(uuid_text(request.request_id))),
                ("message"@, JsonModel::Str(request.message@)),
                ("tool_count"@, JsonModel::Int(request.toolset@.len() as int)),
                ("skill_count"@, JsonModel::Int(request.skill_modules@.len() as int)),
                ("dataset_id"@, JsonModel::Str(uuid_text(request.instruction_dataset.id))),
            ]);
        }
        let payload = JsonValue::object(members);
        log.record(EventType::ChatRequestReceived, None, None, payload);
        let ghost mid = log@;
        let instructions = filter_instructions(request, selection);
        let ghost sel = selected_instructions(*request, *selection);
        let ghost src = request.instruction_dataset.sources@;
        proof {
            assert forall|i: int| 0 <= i < sel.len() implies
                source_missing(src, #[trigger] sel[i]) == source_missing(src, instructions@[i]) by {
                assert(same_entry(instructions@[i], sel[i]));
            }
        }
        let sources = match resolve_sources(&request.instruction_dataset, &instructions) {
            Ok(s) => s,
            Err(e) => {
                proof {
                    let i = choose|i: int| 0 <= i < instructions@.len() && source_missing(src, #[trigger] instructions@[i])
                        && (forall|j: int| 0 <= j < i ==> !source_missing(src, #[trigger] instructions@[j]))
                        && e == (FlowControlError::InstructionSourceMissing { instruction_id: instructions@[i].id, source_id: instructions@[i].source_id });
                    assert(same_entry(instructions@[i], sel[i]));
                    assert(source_missing(src, sel[i]));
                    assert forall|j: int| 0 <= j < i implies !source_missing(src, #[trigger] sel[j]) by {
                        assert(source_missing(src, sel[j]) == source_missing(src, instructions@[j]));
                    }
                    assert(first_missing_source(src, sel, e));
                }
                return Err(e);
            },
        };
        proof {
            assert forall|i: int| 0 <= i < sel.len() implies !source_missing(src, #[trigger] sel[i]) by {
                assert(source_missing(src, sel[i]) == source_missing(src, instructions@[i]));
            }
        }
        let adaptation = match self.adapter.adapt(request, instructions.as_slice()) {
            Ok(a) => a,
            Err(e) => {
                return Err(e);
            },
        };
        let ni = instructions.len() as u64;
        let ns = sources.len() as u64;
        let p = assemble_payload(request, instructions, sources, adaptation);
        let members = vec![
            ("request_id".to_owned(), JsonValue::from_uuid(p.request_id)),
            ("intent".to_owned(), JsonValue::string(p.intent.as_str())),
            ("instruction_count".to_owned(), JsonValue::from_u64(ni)),
            ("source_count".to_owned(), JsonValue::from_u64(ns)),
            ("tool_count".to_owned(), JsonValue::from_u64(p.toolset.len() as u64)),
            ("skill_count".to_owned(), JsonValue::from_u64(p.skill_modules.len() as u64)),
        ];
        proof {
            lemma_members_models(members@);
            assert(members@.map_values(|m: (String, JsonValue)| (m.0@, m.1.model())) =~= seq![
                ("request_id"@, JsonModel::Str(uuid_text(p.request_id))),
                ("intent"@, JsonModel::Str(p.intent@)),
                ("instruction_count"@, JsonModel::Int(p.instructions@.len() as int)),
                ("source_count"@, JsonModel::Int(p.sources@.len() as int)),
                ("tool_count"@, JsonModel::Int(p.toolset@.len() as int)),
                ("skill_count"@, JsonModel::Int(p.skill_modules@.len() as int)),
            ]);
        }
        let summary = JsonValue::object(members);
        log.record(EventType::ChatPayloadGenerated, None, None, summary);
        proof {
            assert(log@.take(old(log)@.len() as int) =~= old(log)@);
            assert(log@[old(log)@.len() as int] == mid[old(log)@.len() as int]);
        }
        Ok(p)
    }
}

} // verus!
