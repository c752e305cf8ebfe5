//! Dimension-scoped task dispatch: submit, progress, complete, fail, cancel
//! and replay.
//!
//! Each submitted task keeps the history of its events; once it has
//! completed, failed or been cancelled it takes no further event.  Pushing
//! the events to live subscribers is left to the caller, which can read them
//! back with `replay`.

use vstd::prelude::*;
use crate::action_log::{ActionLog, EventType, appended_one};
use crate::ids::{DimensionId, TaskId};
use crate::idmap::IdMap;
use crate::json::{JsonModel, JsonValue, lemma_members_models, uuid_text};
use crate::job_scheduler::{task_event_model, task_payload};

verus! {

/// Errors of the orchestrator.
#[derive(Debug)]
pub enum OrchestratorError {
    /// The task is unknown.
    TaskNotFound(TaskId),
    /// The task has already ended.
    AlreadyTerminal(TaskId),
    /// The dimension is not the orchestrator's.
    DimensionMismatch { expected: DimensionId, got: DimensionId },
}

/// An event of a task.
#[derive(Debug)]
pub enum OrchestratorEvent {
    /// The task was accepted.
    Submitted { task_id: TaskId },
    /// Progress, in percent, with a message.
    Progress { task_id: TaskId, percent: u8, message: String },
    /// The task completed.
    Completed { task_id: TaskId },
    /// The task failed with an error.
    Failed { task_id: TaskId, error: String },
    /// The task was cancelled.
    Cancelled { task_id: TaskId },
}

/// The task an event belongs to.
pub open spec fn event_task(e: OrchestratorEvent) -> TaskId {
    match e {
        OrchestratorEvent::Submitted { task_id } => task_id,
        OrchestratorEvent::Progress { task_id, .. } => task_id,
        OrchestratorEvent::Completed { task_id } => task_id,
        OrchestratorEvent::Failed { task_id, .. } => task_id,
        OrchestratorEvent::Cancelled { task_id } => task_id,
    }
}

/// Whether an event ends its task.
pub open spec fn ends_task(e: OrchestratorEvent) -> bool {
    e is Completed || e is Failed || e is Cancelled
}

impl Clone for OrchestratorEvent {
    fn clone(&self) -> (r: Self)
        ensures
            r == *self,
    {
        match self {
            OrchestratorEvent::Submitted { task_id } => OrchestratorEvent::Submitted { task_id: *task_id },
            OrchestratorEvent::Progress { task_id, percent, message } =>
                OrchestratorEvent::Progress { task_id: *task_id, percent: *percent, message: message.clone() },
            OrchestratorEvent::Completed { task_id } => OrchestratorEvent::Completed { task_id: *task_id },
            OrchestratorEvent::Failed { task_id, error } =>
                OrchestratorEvent::Failed { task_id: *task_id, error: error.clone() },
            OrchestratorEvent::Cancelled { task_id } => OrchestratorEvent::Cancelled { task_id: *task_id },
        }
    }
}

impl OrchestratorEvent {
    /// The task the event belongs to.
    pub fn task_id(&self) -> (r: TaskId)
        ensures
            r == event_task(*self),
    {
        match self {
            OrchestratorEvent::Submitted { task_id } => *task_id,
            OrchestratorEvent::Progress { task_id, .. } => *task_id,
            OrchestratorEvent::Completed { task_id } => *task_id,
            OrchestratorEvent::Failed { task_id, .. } => *task_id,
            OrchestratorEvent::Cancelled { task_id } => *task_id,
        }
    }

    /// Whether the event ends its task.
    pub fn is_terminal(&self) -> (r: bool)
        ensures
            r == ends_task(*self),
    {
        match self {
            OrchestratorEvent::Completed { .. } => true,
            OrchestratorEvent::Failed { .. } => true,
            OrchestratorEvent::Cancelled { .. } => true,
            _ => false,
        }
    }
}

/// A task by its history and whether it has ended.
pub type TaskModel = (Seq<OrchestratorEvent>, bool);

/// Why a task takes no event, if it does not: it is unknown or has ended.
pub open spec fn refusal(m: Map<u128, TaskModel>, t: TaskId) -> Option<OrchestratorError> {
    if !m.contains_key(t.0) {
        Some(OrchestratorError::TaskNotFound(t))
    } else if m[t.0].1 {
        Some(OrchestratorError::AlreadyTerminal(t))
    } else {
        None
    }
}

/// The tasks after recording `ev` for task `t`: refused as `refusal` says,
/// else the event is appended and ends the task if it is an ending event.
pub open spec fn record_step(m: Map<u128, TaskModel>, t: TaskId, ev: OrchestratorEvent)
    -> Result<Map<u128, TaskModel>, OrchestratorError> {
    match refusal(m, t) {
        Some(e) => Err(e),
        None => Ok(m.insert(t.0, (m[t.0].0.push(ev), ends_task(ev)))),
    }
}

/// `ev` is a progress event of `t` with the percentage and message.
pub open spec fn is_progress(ev: OrchestratorEvent, t: TaskId, percent: u8, message: Seq<char>) -> bool {
    ev matches OrchestratorEvent::Progress { task_id, percent: p, message: m } && task_id == t && p == percent
        && m@ == message
}

/// `ev` is a failure event of `t` with the error text.
pub open spec fn is_failure(ev: OrchestratorEvent, t: TaskId, error: Seq<char>) -> bool {
    ev matches OrchestratorEvent::Failed { task_id, error: e } && task_id == t && e@ == error
}

/// `new` is `old` with the event of task `t` that `new` ends its history
/// with recorded, as `record_step` does.
pub open spec fn recorded_last(old: Map<u128, TaskModel>, new: Map<u128, TaskModel>, t: TaskId) -> bool {
    &&& new.contains_key(t.0)
    &&& new[t.0].0.len() > 0
    &&& record_step(old, t, new[t.0].0.last()) == Ok::<Map<u128, TaskModel>, OrchestratorError>(new)
}

/// Every task's history starts with its submission, holds only its own
/// events, and ends it exactly when its last event is an ending one, which
/// no earlier event is.
pub open spec fn tasks_wf(m: Map<u128, TaskModel>) -> bool {
    forall|k: u128| #[trigger] m.contains_key(k) ==> {
        let h = m[k].0;
        &&& h.len() >= 1
        &&& h[0] == OrchestratorEvent::Submitted { task_id: TaskId(k) }
        &&& forall|i: int| 0 <= i < h.len() ==> event_task(#[trigger] h[i]) == TaskId(k)
        &&& forall|i: int| 0 <= i < h.len() - 1 ==> !ends_task(#[trigger] h[i])
        &&& m[k].1 == ends_task(h.last())
    }
}

/// Recording an event of a task keeps the histories well formed.
pub proof fn lemma_record_keeps_wf(m: Map<u128, TaskModel>, t: TaskId, ev: OrchestratorEvent)
    requires
        tasks_wf(m),
        event_task(ev) == t,
        !(ev is Submitted),
    ensures
        record_step(m, t, ev) matches Ok(m2) ==> tasks_wf(m2),
{
    if let Ok(m2) = record_step(m, t, ev) {
        assert forall|k: u128| #[trigger] m2.contains_key(k) implies {
            let h = m2[k].0;
            &&& h.len() >= 1
            &&& h[0] == OrchestratorEvent::Submitted { task_id: TaskId(k) }
            &&& forall|i: int| 0 <= i < h.len() ==> event_task(#[trigger] h[i]) == TaskId(k)
            &&& forall|i: int| 0 <= i < h.len() - 1 ==> !ends_task(#[trigger] h[i])
            &&& m2[k].1 == ends_task(h.last())
        } by {
            if k == t.0 {
                let h0 = m[k].0;
                let h = m2[k].0;
                assert(h == h0.push(ev));
                assert(h[0] == h0[0]);
                assert forall|i: int| 0 <= i < h.len() implies event_task(#[trigger] h[i]) == TaskId(k) by {
                    if i < h0.len() {
                        assert(h[i] == h0[i]);
                    }
                }
                assert forall|i: int| 0 <= i < h.len() - 1 implies !ends_task(#[trigger] h[i]) by {
                    assert(h[i] == h0[i]);
                    if i == h0.len() - 1 {
                        assert(h0[i] == h0.last());
                    }
                }
            }
        }
    }
}

/// Submitting a task keeps the histories well formed.
pub proof fn lemma_submit_keeps_wf(m: Map<u128, TaskModel>, t: TaskId)
    requires
        tasks_wf(m),
    ensures
        tasks_wf(m.insert(t.0, (seq![OrchestratorEvent::Submitted { task_id: t }], false))),
{
    let m2 = m.insert(t.0, (seq![OrchestratorEvent::Submitted { task_id: t }], false));
    assert forall|k: u128| #[trigger] m2.contains_key(k) implies {
        let h = m2[k].0;
        &&& h.len() >= 1
        &&& h[0] == OrchestratorEvent::Submitted { task_id: TaskId(k) }
        &&& forall|i: int| 0 <= i < h.len() ==> event_task(#[trigger] h[i]) == TaskId(k)
        &&& forall|i: int| 0 <= i < h.len() - 1 ==> !ends_task(#[trigger] h[i])
        &&& m2[k].1 == ends_task(h.last())
    } by {
        if k == t.0 {
            let h = m2[k].0;
            assert(h.len() == 1);
            assert(t == TaskId(k));
        }
    }
}

/// An ended task takes no further event: recording one is refused and
/// leaves the tasks as they were.
pub proof fn lemma_ended_task_is_final(m: Map<u128, TaskModel>, t: TaskId, ev: OrchestratorEvent)
    requires
        m.contains_key(t.0),
        m[t.0].1,
    ensures
        record_step(m, t, ev) == Err::<Map<u128, TaskModel>, OrchestratorError>(OrchestratorError::AlreadyTerminal(t)),
{
}

/// The history of a task and whether it has ended.
struct TaskRecord {
    history: Vec<OrchestratorEvent>,
    terminal: bool,
}

/// Dispatch of the tasks of one dimension.
pub struct LocalOrchestrator {
    dimension_id: DimensionId,
    tasks: IdMap<TaskRecord>,
    channel_capacity: usize,
}

impl LocalOrchestrator {
    /// The tasks, by the value of their id.
    pub closed spec fn spec_tasks(&self) -> Map<u128, TaskModel> {
        self.tasks@.map_values(|r: TaskRecord| (r.history@, r.terminal))
    }

    /// The dimension.
    pub closed spec fn spec_dimension(&self) -> DimensionId {
        self.dimension_id
    }

    /// The ring-buffer size offered to live subscribers.
    pub closed spec fn spec_capacity(&self) -> int {
        self.channel_capacity as int
    }

    /// An orchestrator for the dimension, without tasks; subscribers get a
    /// ring buffer of `channel_capacity` events (at least one).
    pub fn new(dimension_id: DimensionId, channel_capacity: usize) -> (r: Self)
        ensures
            r.spec_tasks() == Map::<u128, TaskModel>::empty(),
            r.spec_dimension() == dimension_id,
            r.spec_capacity() == if channel_capacity == 0 { 1 } else { channel_capacity as int },
    {
        let r = LocalOrchestrator {
            dimension_id,
            tasks: IdMap::new(),
            channel_capacity: if channel_capacity == 0 { 1 } else { channel_capacity },
        };
        proof {
            assert(r.spec_tasks() =~= Map::<u128, TaskModel>::empty());
        }
        r
    }

    /// The dimension.
    pub fn dimension_id(&self) -> (r: DimensionId)
        ensures
            r == self.spec_dimension(),
    {
        self.dimension_id
    }

    /// The ring-buffer size offered to live subscribers.
    pub fn channel_capacity(&self) -> (r: usize)
        ensures
            r == self.spec_capacity(),
    {
        self.channel_capacity
    }

    /// Accept a task of this dimension (a known task starts over) and record
    /// `orchestrator.submit`.
    pub fn submit(&mut self, task_id: TaskId, dimension_id: DimensionId, log: &mut ActionLog)
        -> (r: Result<(), OrchestratorError>)
        ensures
            (r is Ok) <==> dimension_id == old(self).spec_dimension(),
            r matches Err(e) ==> e == (OrchestratorError::DimensionMismatch {
                expected: old(self).spec_dimension(),
                got: dimension_id,
            }) && final(self).spec_tasks() == old(self).spec_tasks() && final(log)@ == old(log)@,
            r is Ok ==> final(self).spec_tasks() == old(self).spec_tasks().insert(task_id.0,
                (seq![OrchestratorEvent::Submitted { task_id }], false))
                && appended_one(old(log)@, final(log)@, EventType::OrchestratorSubmit,
                    Some(old(self).spec_dimension()), Some(task_id))
                && final(log)@.last().payload.model() == task_event_model(task_id),
            final(self).spec_dimension() == old(self).spec_dimension(),
            final(self).spec_capacity() == old(self).spec_capacity(),
    {
        if dimension_id != self.dimension_id {
            return Err(OrchestratorError::DimensionMismatch { expected: self.dimension_id, got: dimension_id });
        }
        let mut history: Vec<OrchestratorEvent> = Vec::new();
        history.push(OrchestratorEvent::Submitted { task_id });
        proof {
            assert(history@ =~= seq![OrchestratorEvent::Submitted { task_id }]);
        }
        let _ = self.tasks.insert(task_id.0, TaskRecord { history, terminal: false });
        proof {
            assert(self.spec_tasks() =~= old(self).spec_tasks().insert(task_id.0,
                (seq![OrchestratorEvent::Submitted { task_id }], false)));
        }
        let payload = task_payload(task_id);
        log.record(EventType::OrchestratorSubmit, Some(self.dimension_id), Some(task_id), payload);
        Ok(())
    }

    /// Append an event to a known task that has not ended.
    fn record(&mut self, task_id: TaskId, event: OrchestratorEvent) -> (r: Result<(), OrchestratorError>)
        ensures
            match record_step(old(self).spec_tasks(), task_id, event) {
                Ok(m) => r is Ok && final(self).spec_tasks() == m,
                Err(e) => r matches Err(x) && x == e && final(self).spec_tasks() == old(self).spec_tasks(),
            },
            final(self).spec_dimension() == old(self).spec_dimension(),
            final(self).spec_capacity() == old(self).spec_capacity(),
    {
        let ends = event.is_terminal();
        match self.tasks.remove(task_id.0) {
            None => {
                proof {
                    assert(self.spec_tasks() =~= old(self).spec_tasks());
                }
                Err(OrchestratorError::TaskNotFound(task_id))
            },
            Some(rec) => {
                if rec.terminal {
                    let _ = self.tasks.insert(task_id.0, rec);
                    proof {
                        assert(self.tasks@ =~= old(self).tasks@);
                        assert(self.spec_tasks() =~= old(self).spec_tasks());
                    }
                    return Err(OrchestratorError::AlreadyTerminal(task_id));
                }
                let mut rec = rec;
                rec.history.push(event);
                rec.terminal = ends;
                let _ = self.tasks.insert(task_id.0, rec);
                proof {
                    let m = record_step(old(self).spec_tasks(), task_id, event)->Ok_0;
                    assert(self.spec_tasks() =~= m);
                }
                Ok(())
            },
        }
    }

    /// Record progress of a task and `orchestrator.progress`.
    pub fn progress(&mut self, task_id: TaskId, percent: u8, message: &str, log: &mut ActionLog)
        -> (r: Result<(), OrchestratorError>)
        ensures
            match refusal(old(self).spec_tasks(), task_id) {
                Some(e) => r == Err::<(), OrchestratorError>(e) && final(self).spec_tasks() == old(self).spec_tasks()
                    && final(log)@ == old(log)@,
                None => {
                    &&& r is Ok
                    &&& recorded_last(old(self).spec_tasks(), final(self).spec_tasks(), task_id)
                    &&& is_progress(final(self).spec_tasks()[task_id.0].0.last(), task_id, percent, message@)
                    &&& appended_one(old(log)@, final(log)@, EventType::OrchestratorProgress,
                        Some(old(self).spec_dimension()), Some(task_id))
                    &&& final(log)@.last().payload.model() == JsonModel::Object(seq![
                        ("task_id"@, JsonModel::Str(uuid_text(task_id.0))),
                        ("percent"@, JsonModel::Int(percent as int)),
                        ("message"@, JsonModel::Str(message@)),
                    ])
                },
            },
            final(self).spec_dimension() == old(self).spec_dimension(),
            final(self).spec_capacity() == old(self).spec_capacity(),
    {
        let event = OrchestratorEvent::Progress { task_id, percent, message: message.to_owned() };
        let ghost ev = event;
        let r = self.record(task_id, event);
        if r.is_ok() {
            proof {
                assert(self.spec_tasks()[task_id.0].0.last() == ev);
            }
            let members = vec![
                ("task_id".to_owned(), JsonValue::from_uuid(task_id.0)),
                ("percent".to_owned(), JsonValue::from_u64(percent as u64)),
                ("message".to_owned(), JsonValue::string(message)),
            ];
            proof {
                lemma_members_models(members@);
                assert(members@.map_values(|m: (String, JsonValue)| (m.0@, m.1.model())) =~= seq![
                    ("task_id"@, JsonModel::Str(uuid_text(task_id.0))),
                    ("percent"@, JsonModel::Int(percent as int)),
                    ("message"@, JsonModel::Str(message@)),
                ]);
            }
            let payload = JsonValue::object(members);
            log.record(EventType::OrchestratorProgress, Some(self.dimension_id), Some(task_id), payload);
        }
        r
    }

    /// Mark a task completed and record `task.completed`.
    pub fn complete(&mut self, task_id: TaskId, log: &mut ActionLog) -> (r: Result<(), OrchestratorError>)
        ensures
            match record_step(old(self).spec_tasks(), task_id, OrchestratorEvent::Completed { task_id }) {
                Err(e) => r == Err::<(), OrchestratorError>(e) && final(self).spec_tasks() == old(self).spec_tasks()
                    && final(log)@ == old(log)@,
                Ok(m) => r is Ok && final(self).spec_tasks() == m && appended_one(old(log)@, final(log)@,
                    EventType::TaskCompleted, Some(old(self).spec_dimension()), Some(task_id))
                    && final(log)@.last().payload.model() == task_event_model(task_id),
            },
            final(self).spec_dimension() == old(self).spec_dimension(),
            final(self).spec_capacity() == old(self).spec_capacity(),
    {
        let r = self.record(task_id, OrchestratorEvent::Completed { task_id });
        if r.is_ok() {
            let payload = task_payload(task_id);
            log.record(EventType::TaskCompleted, Some(self.dimension_id), Some(task_id), payload);
        }
        r
    }

    /// Mark a task failed with an error and record `task.failed`.
    pub fn fail(&mut self, task_id: TaskId, error: &str, log: &mut ActionLog) -> (r: Result<(), OrchestratorError>)
        ensures
            match refusal(old(self).spec_tasks(), task_id) {
                Some(e) => r == Err::<(), OrchestratorError>(e) && final(self).spec_tasks() == old(self).spec_tasks()
                    && final(log)@ == old(log)@,
                None => {
                    &&& r is Ok
                    &&& recorded_last(old(self).spec_tasks(), final(self).spec_tasks(), task_id)
                    &&& is_failure(final(self).spec_tasks()[task_id.0].0.last(), task_id, error@)
                    &&& appended_one(old(log)@, final(log)@, EventType::TaskFailed,
                        Some(old(self).spec_dimension()), Some(task_id))
                    &&& final(log)@.last().payload.model() == JsonModel::Object(seq![
                        ("task_id"@, JsonModel::Str(uuid_text(task_id.0))),
                        ("error"@, JsonModel::Str(error@)),
                    ])
                },
            },
            final(self).spec_dimension() == old(self).spec_dimension(),
            final(self).spec_capacity() == old(self).spec_capacity(),
    {
        let event = OrchestratorEvent::Failed { task_id, error: error.to_owned() };
        let ghost ev = event;
        let r = self.record(task_id, event);
        if r.is_ok() {
            proof {
                assert(self.spec_tasks()[task_id.0].0.last() == ev);
            }
            let members = vec![
                ("task_id".to_owned(), JsonValue::from_uuid(task_id.0)),
                ("error".to_owned(), JsonValue::string(error)),
            ];
            proof {
                lemma_members_models(members@);
                assert(members@.map_values(|m: (String, JsonValue)| (m.0@, m.1.model())) =~= seq![
                    ("task_id"@, JsonModel::Str(uuid_text(task_id.0))),
                    ("error"@, JsonModel::Str(error@)),
                ]);
            }
            let payload = JsonValue::object(members);
            log.record(EventType::TaskFailed, Some(self.dimension_id), Some(task_id), payload);
        }
        r
    }

    /// Cancel a task and record `orchestrator.cancel`.
    pub fn cancel(&mut self, task_id: TaskId, log: &mut ActionLog) -> (r: Result<(), OrchestratorError>)
        ensures
            match record_step(old(self).spec_tasks(), task_id, OrchestratorEvent::Cancelled { task_id }) {
                Err(e) => r == Err::<(), OrchestratorError>(e) && final(self).spec_tasks() == old(self).spec_tasks()
                    && final(log)@ == old(log)@,
                Ok(m) => r is Ok && final(self).spec_tasks() == m && appended_one(old(log)@, final(log)@,
                    EventType::OrchestratorCancel, Some(old(self).spec_dimension()), Some(task_id))
                    && final(log)@.last().payload.model() == task_event_model(task_id),
            },
            final(self).spec_dimension() == old(self).spec_dimension(),
            final(self).spec_capacity() == old(self).spec_capacity(),
    {
        let r = self.record(task_id, OrchestratorEvent::Cancelled { task_id });
        if r.is_ok() {
            let payload = task_payload(task_id);
            log.record(EventType::OrchestratorCancel, Some(self.dimension_id), Some(task_id), payload);
        }
        r
    }

    /// The history of a task, oldest first; records `orchestrator.replay`.
    pub fn replay(&self, task_id: TaskId, log: &mut ActionLog) -> (r: Result<Vec<OrchestratorEvent>, OrchestratorError>)
        ensures
            (r is Ok) <==> self.spec_tasks().contains_key(task_id.0),
            r matches Ok(h) ==> h@ == self.spec_tasks()[task_id.0].0 && appended_one(old(log)@, final(log)@,
                EventType::OrchestratorReplay, Some(self.spec_dimension()), Some(task_id))
                && final(log)@.last().payload.model() == JsonModel::Object(seq![
                    ("task_id"@, JsonModel::Str(uuid_text(task_id.0))),
                    ("event_count"@, JsonModel::Int(h@.len() as int)),
                ]),
            r matches Err(e) ==> e == OrchestratorError::TaskNotFound(task_id) && final(log)@ == old(log)@,
    {
        let events = match self.tasks.get(task_id.0) {
            None => {
                return Err(OrchestratorError::TaskNotFound(task_id));
            },
            Some(rec) => copy_events(&rec.history),
        };
        let members = vec![
            ("task_id".to_owned(), JsonValue::from_uuid(task_id.0)),
            ("event_count".to_owned(), JsonValue::from_u64(events.len() as u64)),
        ];
        proof {
            lemma_members_models(members@);
            assert(members@.map_values(|m: (String, JsonValue)| (m.0@, m.1.model())) =~= seq![
                ("task_id"@, JsonModel::Str(uuid_text(task_id.0))),
                ("event_count"@, JsonModel::Int(events@.len() as int)),
            ]);
        }
        let payload = JsonValue::object(members);
        log.record(EventType::OrchestratorReplay, Some(self.dimension_id), Some(task_id), payload);
        Ok(events)
    }
}

/// Copies of a list of events.
fn copy_events(v: &Vec<OrchestratorEvent>) -> (r: Vec<OrchestratorEvent>)
    ensures
        r@ == v@,
{
    let mut out: Vec<OrchestratorEvent> = Vec::new();
    let n = v.len();
    for i in 0..n
        invariant
            n == v@.len(),
            out@ == v@.take(i as int),
    {
        proof {
            assert(v@.take(i + 1) == v@.take(i as int).push(v@[i as int]));
        }
        out.push(v[i].clone());
    }
    proof {
        assert(v@.take(n as int) == v@);
    }
    out
}

} // verus!
