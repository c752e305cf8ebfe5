//! The append-only action log that every controller action writes to.
//!
//! An entry mirrors the event envelope: identifier, "verb.noun" event type,
//! timestamp, optional dimension and task scope, actor, causality and
//! correlation identifiers, and a payload.

use vstd::prelude::*;

use crate::ids::{ArtifactId, DimensionId, TaskId};
use crate::json::JsonValue;

verus! {

/// Current Unix epoch time in milliseconds, read from
/// `std::time::SystemTime::now`.  The clock is outside the library: nothing is
/// stated of the value.
#[verifier::external_body]
pub fn now_ms() -> (r: u64) {
    match std::time::SystemTime::now().duration_since(std::time::UNIX_EPOCH) {
        Ok(d) => d.as_millis() as u64,
        Err(_) => 0,
    }
}

/// Structured event type identifier, written as a "verb.noun" string.
#[derive(Clone, Copy, Debug, PartialEq, Eq, Structural)]
pub enum EventType {

    /// A blockController was registered.
    ControllerRegistered,
    /// Controller linked to a node or editor.
    ControllerLinked,
    /// Controller isolated (sandbox mode).
    ControllerIsolated,
    /// Controller lifecycle ended.
    ControllerDisposed,

    /// A task was accepted into the queue.
    TaskSubmitted,
    /// Execution began.
    TaskStarted,
    /// Task finished successfully.
    TaskCompleted,
    /// Task terminated with an error.
    TaskFailed,
    /// Task was cancelled.
    TaskCancelled,
    /// Task was re-submitted after failure.
    TaskRetried,

    /// A canvas node was added.
    NodeCreated,
    /// A node's parameters changed.
    NodeUpdated,
    /// A node was removed from the graph.
    NodeDeleted,
    /// Undo command applied to the node graph.
    NodeUndo,
    /// Redo command applied to the node graph.
    NodeRedo,

    /// A flow control decision was evaluated.
    FlowEvaluated,
    /// Flow advanced to the next step.
    FlowAdvanced,

    /// Hyperparameters were adjusted based on performance.
    ModelHyperparametersAdjusted,
    /// A model reload was requested based on performance.
    ModelReloadRequested,

    /// A kernel replica was provisioned for a model module.
    ReplicaProvisioned,
    /// A kernel replica was released.
    ReplicaReleased,

    /// A chat request was received for payload adaptation.
    ChatRequestReceived,
    /// A chat payload was generated for downstream execution.
    ChatPayloadGenerated,

    /// An artifact was committed to storage.
    ArtifactProduced,
    /// An artifact was read by a task or agent.
    ArtifactConsumed,
    /// A node snapshot was captured.
    ArtifactSnapshot,
    /// A diff/patch was applied and stored.
    ArtifactPatched,

    /// A new editor instance was created.
    EditorCreated,
    /// An interpreter was attached to an editor.
    InterpreterAttached,
    /// A block was bound to the executor runtime.
    RuntimeBound,

    /// A task was submitted to the orchestrator.
    OrchestratorSubmit,
    /// A task was cancelled via the orchestrator.
    OrchestratorCancel,
    /// Orchestrator replayed stored events for a task.
    OrchestratorReplay,
    /// Progress event emitted by the orchestrator.
    OrchestratorProgress,

    /// A directed link was added between two node ports.
    LinkCreated,
    /// A directed link was removed from the graph.
    LinkRemoved,
    /// A node group was created.
    GroupCreated,
    /// A node group was removed.
    GroupRemoved,
    /// A subgraph / macro was registered.
    SubgraphCreated,
    /// The graph passed or failed validation.
    GraphValidated,
    /// A diff/patch was applied to the flow graph.
    GraphPatched,

    /// A node execution contract transitioned to Running.
    NodeExecutionStarted,
    /// A node execution contract emitted a progress update.
    NodeExecutionProgress,
    /// A node execution contract reached Complete.
    NodeExecutionCompleted,
    /// A node execution contract reached Failed.
    NodeExecutionFailed,
    /// A node execution contract was Cancelled.
    NodeExecutionCancelled,

    /// A semantic relation was created between two nodes.
    NodeRelationCreated,
    /// A semantic relation between two nodes was removed.
    NodeRelationRemoved,

    /// A message was sent from one node to another.
    NodeMessageSent,
    /// A message was broadcast from a node to all listeners.
    NodeMessageBroadcast,

    /// A task lease was renewed by a worker heartbeat.
    TaskLeaseRenewed,
    /// A task was paused (e.g., preemption).
    TaskPaused,
    /// A paused task was resumed.
    TaskResumed,

    /// An instance template was created.
    TemplateCreated,
    /// An instance template was cloned.
    TemplateCloned,
    /// An instance template was forked.
    TemplateForked,
    /// A node instance was expanded from a template.
    InstanceCreated,

    /// A pipeline was registered.
    PipelineCreated,
    /// A transform version of a pipeline was saved.
    TransformVersionSaved,
    /// Replay of a transform version was requested.
    TransformReplayRequested,
    /// A pipeline checkpoint was saved.
    PipelineCheckpointed,
    /// A pipeline resumed from its checkpoint.
    PipelineResumed,
    /// A lineage record was stored.
    PipelineLineageRecorded,
    /// A storage connector was registered.
    StorageConnectorRegistered,
}

impl EventType {
    /// The canonical "verb.noun" text of an event type.
    pub open spec fn spec_str(self) -> Seq<char> {
        match self {
            EventType::ControllerRegistered => "controller.registered"@,
            EventType::ControllerLinked => "controller.linked"@,
            EventType::ControllerIsolated => "controller.isolated"@,
            EventType::ControllerDisposed => "controller.disposed"@,
            EventType::TaskSubmitted => "task.submitted"@,
            EventType::TaskStarted => "task.started"@,
            EventType::TaskCompleted => "task.completed"@,
            EventType::TaskFailed => "task.failed"@,
            EventType::TaskCancelled => "task.cancelled"@,
            EventType::TaskRetried => "task.retried"@,
            EventType::NodeCreated => "node.created"@,
            EventType::NodeUpdated => "node.updated"@,
            EventType::NodeDeleted => "node.deleted"@,
            EventType::NodeUndo => "node.undo"@,
            EventType::NodeRedo => "node.redo"@,
            EventType::FlowEvaluated => "flow.evaluated"@,
            EventType::FlowAdvanced => "flow.advanced"@,
            EventType::ModelHyperparametersAdjusted => "model.hyperparameters_adjusted"@,
            EventType::ModelReloadRequested => "model.reload_requested"@,
            EventType::ReplicaProvisioned => "replica.provisioned"@,
            EventType::ReplicaReleased => "replica.released"@,
            EventType::ChatRequestReceived => "chat.request_received"@,
            EventType::ChatPayloadGenerated => "chat.payload_generated"@,
            EventType::ArtifactProduced => "artifact.produced"@,
            EventType::ArtifactConsumed => "artifact.consumed"@,
            EventType::ArtifactSnapshot => "artifact.snapshot"@,
            EventType::ArtifactPatched => "artifact.patched"@,
            EventType::EditorCreated => "editor.created"@,
            EventType::InterpreterAttached => "interpreter.attached"@,
            EventType::RuntimeBound => "runtime.bound"@,
            EventType::OrchestratorSubmit => "orchestrator.submit"@,
            EventType::OrchestratorCancel => "orchestrator.cancel"@,
            EventType::OrchestratorReplay => "orchestrator.replay"@,
            EventType::OrchestratorProgress => "orchestrator.progress"@,
            EventType::LinkCreated => "link.created"@,
            EventType::LinkRemoved => "link.removed"@,
            EventType::GroupCreated => "group.created"@,
            EventType::GroupRemoved => "group.removed"@,
            EventType::SubgraphCreated => "subgraph.created"@,
            EventType::GraphValidated => "graph.validated"@,
            EventType::GraphPatched => "graph.patched"@,
            EventType::NodeExecutionStarted => "node_execution.started"@,
            EventType::NodeExecutionProgress => "node_execution.progress"@,
            EventType::NodeExecutionCompleted => "node_execution.completed"@,
            EventType::NodeExecutionFailed => "node_execution.failed"@,
            EventType::NodeExecutionCancelled => "node_execution.cancelled"@,
            EventType::NodeRelationCreated => "node_relation.created"@,
            EventType::NodeRelationRemoved => "node_relation.removed"@,
            EventType::NodeMessageSent => "node_message.sent"@,
            EventType::NodeMessageBroadcast => "node_message.broadcast"@,
            EventType::TaskLeaseRenewed => "task.lease_renewed"@,
            EventType::TaskPaused => "task.paused"@,
            EventType::TaskResumed => "task.resumed"@,
            EventType::TemplateCreated => "template.created"@,
            EventType::TemplateCloned => "template.cloned"@,
            EventType::TemplateForked => "template.forked"@,
            EventType::InstanceCreated => "instance.created"@,
            EventType::PipelineCreated => "pipeline.created"@,
            EventType::TransformVersionSaved => "transform.version_saved"@,
            EventType::TransformReplayRequested => "transform.replay_requested"@,
            EventType::PipelineCheckpointed => "pipeline.checkpointed"@,
            EventType::PipelineResumed => "pipeline.resumed"@,
            EventType::PipelineLineageRecorded => "pipeline.lineage_recorded"@,
            EventType::StorageConnectorRegistered => "storage_connector.registered"@,
        }
    }

    /// Return the canonical "verb.noun" string representation.
    pub fn as_str(&self) -> (r: &'static str)
        ensures
            r@ == self.spec_str(),
    {
        match self {
            EventType::ControllerRegistered => "controller.registered",
            EventType::ControllerLinked => "controller.linked",
            EventType::ControllerIsolated => "controller.isolated",
            EventType::ControllerDisposed => "controller.disposed",
            EventType::TaskSubmitted => "task.submitted",
            EventType::TaskStarted => "task.started",
            EventType::TaskCompleted => "task.completed",
            EventType::TaskFailed => "task.failed",
            EventType::TaskCancelled => "task.cancelled",
            EventType::TaskRetried => "task.retried",
            EventType::NodeCreated => "node.created",
            EventType::NodeUpdated => "node.updated",
            EventType::NodeDeleted => "node.deleted",
            EventType::NodeUndo => "node.undo",
            EventType::NodeRedo => "node.redo",
            EventType::FlowEvaluated => "flow.evaluated",
            EventType::FlowAdvanced => "flow.advanced",
            EventType::ModelHyperparametersAdjusted => "model.hyperparameters_adjusted",
            EventType::ModelReloadRequested => "model.reload_requested",
            EventType::ReplicaProvisioned => "replica.provisioned",
            EventType::ReplicaReleased => "replica.released",
            EventType::ChatRequestReceived => "chat.request_received",
            EventType::ChatPayloadGenerated => "chat.payload_generated",
            EventType::ArtifactProduced => "artifact.produced",
            EventType::ArtifactConsumed => "artifact.consumed",
            EventType::ArtifactSnapshot => "artifact.snapshot",
            EventType::ArtifactPatched => "artifact.patched",
            EventType::EditorCreated => "editor.created",
            EventType::InterpreterAttached => "interpreter.attached",
            EventType::RuntimeBound => "runtime.bound",
            EventType::OrchestratorSubmit => "orchestrator.submit",
            EventType::OrchestratorCancel => "orchestrator.cancel",
            EventType::OrchestratorReplay => "orchestrator.replay",
            EventType::OrchestratorProgress => "orchestrator.progress",
            EventType::LinkCreated => "link.created",
            EventType::LinkRemoved => "link.removed",
            EventType::GroupCreated => "group.created",
            EventType::GroupRemoved => "group.removed",
            EventType::SubgraphCreated => "subgraph.created",
            EventType::GraphValidated => "graph.validated",
            EventType::GraphPatched => "graph.patched",
            EventType::NodeExecutionStarted => "node_execution.started",
            EventType::NodeExecutionProgress => "node_execution.progress",
            EventType::NodeExecutionCompleted => "node_execution.completed",
            EventType::NodeExecutionFailed => "node_execution.failed",
            EventType::NodeExecutionCancelled => "node_execution.cancelled",
            EventType::NodeRelationCreated => "node_relation.created",
            EventType::NodeRelationRemoved => "node_relation.removed",
            EventType::NodeMessageSent => "node_message.sent",
            EventType::NodeMessageBroadcast => "node_message.broadcast",
            EventType::TaskLeaseRenewed => "task.lease_renewed",
            EventType::TaskPaused => "task.paused",
            EventType::TaskResumed => "task.resumed",
            EventType::TemplateCreated => "template.created",
            EventType::TemplateCloned => "template.cloned",
            EventType::TemplateForked => "template.forked",
            EventType::InstanceCreated => "instance.created",
            EventType::PipelineCreated => "pipeline.created",
            EventType::TransformVersionSaved => "transform.version_saved",
            EventType::TransformReplayRequested => "transform.replay_requested",
            EventType::PipelineCheckpointed => "pipeline.checkpointed",
            EventType::PipelineResumed => "pipeline.resumed",
            EventType::PipelineLineageRecorded => "pipeline.lineage_recorded",
            EventType::StorageConnectorRegistered => "storage_connector.registered",
        }
    }
}

/// The kind of actor that triggered a controller event.
#[derive(Debug)]
pub enum Actor {
    /// A human user identified by an opaque string.
    User(String),
    /// An automated agent identified by an opaque string.
    Agent(String),
    /// A system/background process.
    System,
    /// The kernel layer.
    Kernel,
}

impl Clone for Actor {
    fn clone(&self) -> (r: Self)
        ensures
            r == *self,
    {
        match self {
            Actor::User(s) => Actor::User(s.clone()),
            Actor::Agent(s) => Actor::Agent(s.clone()),
            Actor::System => Actor::System,
            Actor::Kernel => Actor::Kernel,
        }
    }
}

/// A single immutable action-log entry.
#[derive(Debug)]
pub struct ActionLogEntry {
    /// Unique identifier of this entry (time-ordered).
    pub event_id: ArtifactId,
    /// Structured event type identifier ("verb.noun").
    pub event_type: EventType,
    /// Unix epoch milliseconds when this event occurred.
    pub occurred_at_ms: u64,
    /// Dimension scope for this event (`None` for kernel-level events).
    pub dimension_id: Option<DimensionId>,
    /// Task context for this event (`None` if not task-scoped).
    pub task_id: Option<TaskId>,
    /// Actor that triggered the event.
    pub actor: Actor,
    /// `event_id` of the event that directly caused this one.
    pub causality_id: Option<u128>,
    /// Groups all events belonging to the same user-facing operation.
    pub correlation_id: Option<String>,
    /// Verb-specific payload fields.
    pub payload: JsonValue,
}

impl Clone for ActionLogEntry {
    fn clone(&self) -> (r: Self)
        ensures
            r == *self,
    {
        ActionLogEntry {
            event_id: self.event_id,
            event_type: self.event_type,
            occurred_at_ms: self.occurred_at_ms,
            dimension_id: self.dimension_id,
            task_id: self.task_id,
            actor: self.actor.clone(),
            causality_id: self.causality_id,
            correlation_id: match &self.correlation_id {
                Some(c) => Some(c.clone()),
                None => None,
            },
            payload: self.payload.clone(),
        }
    }
}

impl ActionLogEntry {
    /// Construct a new entry with a fresh `event_id` and the current
    /// timestamp; no causality or correlation identifier is set.
    pub fn new(
        event_type: EventType,
        actor: Actor,
        dimension_id: Option<DimensionId>,
        task_id: Option<TaskId>,
        payload: JsonValue,
    ) -> (r: Self)
        ensures
            r.event_type == event_type,
            r.actor == actor,
            r.dimension_id == dimension_id,
            r.task_id == task_id,
            r.causality_id is None,
            r.correlation_id is None,
            r.payload == payload,
    {
        ActionLogEntry {
            event_id: ArtifactId::new(),
            event_type,
            occurred_at_ms: now_ms(),
            dimension_id,
            task_id,
            actor,
            causality_id: None,
            correlation_id: None,
            payload,
        }
    }

    /// Set the causality ID (chained from a previous event).
    pub fn with_causality(self, causality_id: u128) -> (r: Self)
        ensures
            r == (ActionLogEntry { causality_id: Some(causality_id), ..self }),
    {
        let mut s = self;
        s.causality_id = Some(causality_id);
        s
    }

    /// Set the correlation ID (groups a user-facing operation).
    pub fn with_correlation(self, correlation_id: String) -> (r: Self)
        ensures
            r == (ActionLogEntry { correlation_id: Some(correlation_id), ..self }),
    {
        let mut s = self;
        s.correlation_id = Some(correlation_id);
        s
    }
}

/// `new_log` is `old_log` with exactly one entry appended, of event type `ev`
/// and scoped to `dim` and `task`.
pub open spec fn appended_one(
    old_log: Seq<ActionLogEntry>,
    new_log: Seq<ActionLogEntry>,
    ev: EventType,
    dim: Option<DimensionId>,
    task: Option<TaskId>,
) -> bool {
    &&& new_log.len() == old_log.len() + 1
    &&& new_log.drop_last() == old_log
    &&& new_log.last().event_type == ev
    &&& new_log.last().dimension_id == dim
    &&& new_log.last().task_id == task
}

/// The event type whose text is `s`, if any.
pub open spec fn event_named(s: Seq<char>) -> Option<EventType> {
    if s.len() == 9 {
        if s == "node.undo"@ {
            Some(EventType::NodeUndo)
        } else if s == "node.redo"@ {
            Some(EventType::NodeRedo)
        } else {
            None
        }
    } else if s.len() == 11 {
        if s == "task.failed"@ {
            Some(EventType::TaskFailed)
        } else if s == "task.paused"@ {
            Some(EventType::TaskPaused)
        } else {
            None
        }
    } else if s.len() == 12 {
        if s == "task.started"@ {
            Some(EventType::TaskStarted)
        } else if s == "task.retried"@ {
            Some(EventType::TaskRetried)
        } else if s == "node.created"@ {
            Some(EventType::NodeCreated)
        } else if s == "node.updated"@ {
            Some(EventType::NodeUpdated)
        } else if s == "node.deleted"@ {
            Some(EventType::NodeDeleted)
        } else if s == "link.created"@ {
            Some(EventType::LinkCreated)
        } else if s == "link.removed"@ {
            Some(EventType::LinkRemoved)
        } else if s == "task.resumed"@ {
            Some(EventType::TaskResumed)
        } else {
            None
        }
    } else if s.len() == 13 {
        if s == "flow.advanced"@ {
            Some(EventType::FlowAdvanced)
        } else if s == "runtime.bound"@ {
            Some(EventType::RuntimeBound)
        } else if s == "group.created"@ {
            Some(EventType::GroupCreated)
        } else if s == "group.removed"@ {
            Some(EventType::GroupRemoved)
        } else if s == "graph.patched"@ {
            Some(EventType::GraphPatched)
        } else {
            None
        }
    } else if s.len() == 14 {
        if s == "task.submitted"@ {
            Some(EventType::TaskSubmitted)
        } else if s == "task.completed"@ {
            Some(EventType::TaskCompleted)
        } else if s == "task.cancelled"@ {
            Some(EventType::TaskCancelled)
        } else if s == "flow.evaluated"@ {
            Some(EventType::FlowEvaluated)
        } else if s == "editor.created"@ {
            Some(EventType::EditorCreated)
        } else {
            None
        }
    } else if s.len() == 15 {
        if s == "graph.validated"@ {
            Some(EventType::GraphValidated)
        } else if s == "template.cloned"@ {
            Some(EventType::TemplateCloned)
        } else if s == "template.forked"@ {
            Some(EventType::TemplateForked)
        } else {
            None
        }
    } else if s.len() == 16 {
        if s == "replica.released"@ {
            Some(EventType::ReplicaReleased)
        } else if s == "artifact.patched"@ {
            Some(EventType::ArtifactPatched)
        } else if s == "subgraph.created"@ {
            Some(EventType::SubgraphCreated)
        } else if s == "template.created"@ {
            Some(EventType::TemplateCreated)
        } else if s == "instance.created"@ {
            Some(EventType::InstanceCreated)
        } else if s == "pipeline.created"@ {
            Some(EventType::PipelineCreated)
        } else if s == "pipeline.resumed"@ {
            Some(EventType::PipelineResumed)
        } else {
            None
        }
    } else if s.len() == 17 {
        if s == "controller.linked"@ {
            Some(EventType::ControllerLinked)
        } else if s == "artifact.produced"@ {
            Some(EventType::ArtifactProduced)
        } else if s == "artifact.consumed"@ {
            Some(EventType::ArtifactConsumed)
        } else if s == "artifact.snapshot"@ {
            Some(EventType::ArtifactSnapshot)
        } else if s == "node_message.sent"@ {
            Some(EventType::NodeMessageSent)
        } else {
            None
        }
    } else if s.len() == 18 {
        if s == "task.lease_renewed"@ {
            Some(EventType::TaskLeaseRenewed)
        } else {
            None
        }
    } else if s.len() == 19 {
        if s == "controller.isolated"@ {
            Some(EventType::ControllerIsolated)
        } else if s == "controller.disposed"@ {
            Some(EventType::ControllerDisposed)
        } else if s == "replica.provisioned"@ {
            Some(EventType::ReplicaProvisioned)
        } else if s == "orchestrator.submit"@ {
            Some(EventType::OrchestratorSubmit)
        } else if s == "orchestrator.cancel"@ {
            Some(EventType::OrchestratorCancel)
        } else if s == "orchestrator.replay"@ {
            Some(EventType::OrchestratorReplay)
        } else {
            None
        }
    } else if s.len() == 20 {
        if s == "interpreter.attached"@ {
            Some(EventType::InterpreterAttached)
        } else {
            None
        }
    } else if s.len() == 21 {
        if s == "controller.registered"@ {
            Some(EventType::ControllerRegistered)
        } else if s == "chat.request_received"@ {
            Some(EventType::ChatRequestReceived)
        } else if s == "orchestrator.progress"@ {
            Some(EventType::OrchestratorProgress)
        } else if s == "node_execution.failed"@ {
            Some(EventType::NodeExecutionFailed)
        } else if s == "node_relation.created"@ {
            Some(EventType::NodeRelationCreated)
        } else if s == "node_relation.removed"@ {
            Some(EventType::NodeRelationRemoved)
        } else if s == "pipeline.checkpointed"@ {
            Some(EventType::PipelineCheckpointed)
        } else {
            None
        }
    } else if s.len() == 22 {
        if s == "model.reload_requested"@ {
            Some(EventType::ModelReloadRequested)
        } else if s == "chat.payload_generated"@ {
            Some(EventType::ChatPayloadGenerated)
        } else if s == "node_execution.started"@ {
            Some(EventType::NodeExecutionStarted)
        } else if s == "node_message.broadcast"@ {
            Some(EventType::NodeMessageBroadcast)
        } else {
            None
        }
    } else if s.len() == 23 {
        if s == "node_execution.progress"@ {
            Some(EventType::NodeExecutionProgress)
        } else if s == "transform.version_saved"@ {
            Some(EventType::TransformVersionSaved)
        } else {
            None
        }
    } else if s.len() == 24 {
        if s == "node_execution.completed"@ {
            Some(EventType::NodeExecutionCompleted)
        } else if s == "node_execution.cancelled"@ {
            Some(EventType::NodeExecutionCancelled)
        } else {
            None
        }
    } else if s.len() == 25 {
        if s == "pipeline.lineage_recorded"@ {
            Some(EventType::PipelineLineageRecorded)
        } else {
            None
        }
    } else if s.len() == 26 {
        if s == "transform.replay_requested"@ {
            Some(EventType::TransformReplayRequested)
        } else {
            None
        }
    } else if s.len() == 28 {
        if s == "storage_connector.registered"@ {
            Some(EventType::StorageConnectorRegistered)
        } else {
            None
        }
    } else if s.len() == 30 {
        if s == "model.hyperparameters_adjusted"@ {
            Some(EventType::ModelHyperparametersAdjusted)
        } else {
            None
        }
    } else {
        None
    }
}

/// Each event type's text names it back.
#[verifier::spinoff_prover]
pub proof fn lemma_event_named(e: EventType)
    ensures
        event_named(e.spec_str()) == Some(e),
{
    match e {
        EventType::NodeUndo => {
            reveal_strlit("node.undo");
            assert("node.undo"@.len() == 9);
            assert(event_named("node.undo"@) == Some(EventType::NodeUndo));
        },
        EventType::NodeRedo => {
            reveal_strlit("node.undo");
            reveal_strlit("node.redo");
            assert("node.redo"@.len() == 9);
            assert("node.redo"@[5] != "node.undo"@[5]);
            assert(event_named("node.redo"@) == Some(EventType::NodeRedo));
        },
        EventType::TaskFailed => {
            reveal_strlit("task.failed");
            assert("task.failed"@.len() == 11);
            assert(event_named("task.failed"@) == Some(EventType::TaskFailed));
        },
        EventType::TaskPaused => {
            reveal_strlit("task.failed");
            reveal_strlit("task.paused");
            assert("task.paused"@.len() == 11);
            assert("task.paused"@[5] != "task.failed"@[5]);
            assert(event_named("task.paused"@) == Some(EventType::TaskPaused));
        },
        EventType::TaskStarted => {
            reveal_strlit("task.started");
            assert("task.started"@.len() == 12);
            assert(event_named("task.started"@) == Some(EventType::TaskStarted));
        },
        EventType::TaskRetried => {
            reveal_strlit("task.started");
            reveal_strlit("task.retried");
            assert("task.retried"@.len() == 12);
            assert("task.retried"@[5] != "task.started"@[5]);
            assert(event_named("task.retried"@) == Some(EventType::TaskRetried));
        },
        EventType::NodeCreated => {
            reveal_strlit("task.started");
            reveal_strlit("task.retried");
            reveal_strlit("node.created");
            assert("node.created"@.len() == 12);
            assert("node.created"@[0] != "task.started"@[0]);
            assert("node.created"@[0] != "task.retried"@[0]);
            assert(event_named("node.created"@) == Some(EventType::NodeCreated));
        },
        EventType::NodeUpdated => {
            reveal_strlit("task.started");
            reveal_strlit("task.retried");
            reveal_strlit("node.created");
            reveal_strlit("node.updated");
            assert("node.updated"@.len() == 12);
            assert("node.updated"@[0] != "task.started"@[0]);
            assert("node.updated"@[0] != "task.retried"@[0]);
            assert("node.updated"@[5] != "node.created"@[5]);
            assert(event_named("node.updated"@) == Some(EventType::NodeUpdated));
        },
        EventType::NodeDeleted => {
            reveal_strlit("task.started");
            reveal_strlit("task.retried");
            reveal_strlit("node.created");
            reveal_strlit("node.updated");
            reveal_strlit("node.deleted");
            assert("node.deleted"@.len() == 12);
            assert("node.deleted"@[0] != "task.started"@[0]);
            assert("node.deleted"@[0] != "task.retried"@[0]);
            assert("node.deleted"@[5] != "node.created"@[5]);
            assert("node.deleted"@[5] != "node.updated"@[5]);
            assert(event_named("node.deleted"@) == Some(EventType::NodeDeleted));
        },
        EventType::LinkCreated => {
            reveal_strlit("task.started");
            reveal_strlit("task.retried");
            reveal_strlit("node.created");
            reveal_strlit("node.updated");
            reveal_strlit("node.deleted");
            reveal_strlit("link.created");
            assert("link.created"@.len() == 12);
            assert("link.created"@[0] != "task.started"@[0]);
            assert("link.created"@[0] != "task.retried"@[0]);
            assert("link.created"@[0] != "node.created"@[0]);
            assert("link.created"@[0] != "node.updated"@[0]);
            assert("link.created"@[0] != "node.deleted"@[0]);
            assert(event_named("link.created"@) == Some(EventType::LinkCreated));
        },
        EventType::LinkRemoved => {
            reveal_strlit("task.started");
            reveal_strlit("task.retried");
            reveal_strlit("node.created");
            reveal_strlit("node.updated");
            reveal_strlit("node.deleted");
            reveal_strlit("link.created");
            reveal_strlit("link.removed");
            assert("link.removed"@.len() == 12);
            assert("link.removed"@[0] != "task.started"@[0]);
            assert("link.removed"@[0] != "task.retried"@[0]);
            assert("link.removed"@[0] != "node.created"@[0]);
            assert("link.removed"@[0] != "node.updated"@[0]);
            assert("link.removed"@[0] != "node.deleted"@[0]);
            assert("link.removed"@[5] != "link.created"@[5]);
            assert(event_named("link.removed"@) == Some(EventType::LinkRemoved));
        },
        EventType::TaskResumed => {
            reveal_strlit("task.started");
            reveal_strlit("task.retried");
            reveal_strlit("node.created");
            reveal_strlit("node.updated");
            reveal_strlit("node.deleted");
            reveal_strlit("link.created");
            reveal_strlit("link.removed");
            reveal_strlit("task.resumed");
            assert("task.resumed"@.len() == 12);
            assert("task.resumed"@[5] != "task.started"@[5]);
            assert("task.resumed"@[7] != "task.retried"@[7]);
            assert("task.resumed"@[0] != "node.created"@[0]);
            assert("task.resumed"@[0] != "node.updated"@[0]);
            assert("task.resumed"@[0] != "node.deleted"@[0]);
            assert("task.resumed"@[0] != "link.created"@[0]);
            assert("task.resumed"@[0] != "link.removed"@[0]);
            assert(event_named("task.resumed"@) == Some(EventType::TaskResumed));
        },
        EventType::FlowAdvanced => {
            reveal_strlit("flow.advanced");
            assert("flow.advanced"@.len() == 13);
            assert(event_named("flow.advanced"@) == Some(EventType::FlowAdvanced));
        },
        EventType::RuntimeBound => {
            reveal_strlit("flow.advanced");
            reveal_strlit("runtime.bound");
            assert("runtime.bound"@.len() == 13);
            assert("runtime.bound"@[0] != "flow.advanced"@[0]);
            assert(event_named("runtime.bound"@) == Some(EventType::RuntimeBound));
        },
        EventType::GroupCreated => {
            reveal_strlit("flow.advanced");
            reveal_strlit("runtime.bound");
            reveal_strlit("group.created");
            assert("group.created"@.len() == 13);
            assert("group.created"@[0] != "flow.advanced"@[0]);
            assert("group.created"@[0] != "runtime.bound"@[0]);
            assert(event_named("group.created"@) == Some(EventType::GroupCreated));
        },
        EventType::GroupRemoved => {
            reveal_strlit("flow.advanced");
            reveal_strlit("runtime.bound");
            reveal_strlit("group.created");
            reveal_strlit("group.removed");
            assert("group.removed"@.len() == 13);
            assert("group.removed"@[0] != "flow.advanced"@[0]);
            assert("group.removed"@[0] != "runtime.bound"@[0]);
            assert("group.removed"@[6] != "group.created"@[6]);
            assert(event_named("group.removed"@) == Some(EventType::GroupRemoved));
        },
        EventType::GraphPatched => {
            reveal_strlit("flow.advanced");
            reveal_strlit("runtime.bound");
            reveal_strlit("group.created");
            reveal_strlit("group.removed");
            reveal_strlit("graph.patched");
            assert("graph.patched"@.len() == 13);
            assert("graph.patched"@[0] != "flow.advanced"@[0]);
            assert("graph.patched"@[0] != "runtime.bound"@[0]);
            assert("graph.patched"@[2] != "group.created"@[2]);
            assert("graph.patched"@[2] != "group.removed"@[2]);
            assert(event_named("graph.patched"@) == Some(EventType::GraphPatched));
        },
        EventType::TaskSubmitted => {
            reveal_strlit("task.submitted");
            assert("task.submitted"@.len() == 14);
            assert(event_named("task.submitted"@) == Some(EventType::TaskSubmitted));
        },
        EventType::TaskCompleted => {
            reveal_strlit("task.submitted");
            reveal_strlit("task.completed");
            assert("task.completed"@.len() == 14);
            assert("task.completed"@[5] != "task.submitted"@[5]);
            assert(event_named("task.completed"@) == Some(EventType::TaskCompleted));
        },
        EventType::TaskCancelled => {
            reveal_strlit("task.submitted");
            reveal_strlit("task.completed");
            reveal_strlit("task.cancelled");
            assert("task.cancelled"@.len() == 14);
            assert("task.cancelled"@[5] != "task.submitted"@[5]);
            assert("task.cancelled"@[6] != "task.completed"@[6]);
            assert(event_named("task.cancelled"@) == Some(EventType::TaskCancelled));
        },
        EventType::FlowEvaluated => {
            reveal_strlit("task.submitted");
            reveal_strlit("task.completed");
            reveal_strlit("task.cancelled");
            reveal_strlit("flow.evaluated");
            assert("flow.evaluated"@.len() == 14);
            assert("flow.evaluated"@[0] != "task.submitted"@[0]);
            assert("flow.evaluated"@[0] != "task.completed"@[0]);
            assert("flow.evaluated"@[0] != "task.cancelled"@[0]);
            assert(event_named("flow.evaluated"@) == Some(EventType::FlowEvaluated));
        },
        EventType::EditorCreated => {
            reveal_strlit("task.submitted");
            reveal_strlit("task.completed");
            reveal_strlit("task.cancelled");
            reveal_strlit("flow.evaluated");
            reveal_strlit("editor.created");
            assert("editor.created"@.len() == 14);
            assert("editor.created"@[0] != "task.submitted"@[0]);
            assert("editor.created"@[0] != "task.completed"@[0]);
            assert("editor.created"@[0] != "task.cancelled"@[0]);
            assert("editor.created"@[0] != "flow.evaluated"@[0]);
            assert(event_named("editor.created"@) == Some(EventType::EditorCreated));
        },
        EventType::GraphValidated => {
            reveal_strlit("graph.validated");
            assert("graph.validated"@.len() == 15);
            assert(event_named("graph.validated"@) == Some(EventType::GraphValidated));
        },
        EventType::TemplateCloned => {
            reveal_strlit("graph.validated");
            reveal_strlit("template.cloned");
            assert("template.cloned"@.len() == 15);
            assert("template.cloned"@[0] != "graph.validated"@[0]);
            assert(event_named("template.cloned"@) == Some(EventType::TemplateCloned));
        },
        EventType::TemplateForked => {
            reveal_strlit("graph.validated");
            reveal_strlit("template.cloned");
            reveal_strlit("template.forked");
            assert("template.forked"@.len() == 15);
            assert("template.forked"@[0] != "graph.validated"@[0]);
            assert("template.forked"@[9] != "template.cloned"@[9]);
            assert(event_named("template.forked"@) == Some(EventType::TemplateForked));
        },
        EventType::ReplicaReleased => {
            reveal_strlit("replica.released");
            assert("replica.released"@.len() == 16);
            assert(event_named("replica.released"@) == Some(EventType::ReplicaReleased));
        },
        EventType::ArtifactPatched => {
            reveal_strlit("replica.released");
            reveal_strlit("artifact.patched");
            assert("artifact.patched"@.len() == 16);
            assert("artifact.patched"@[0] != "replica.released"@[0]);
            assert(event_named("artifact.patched"@) == Some(EventType::ArtifactPatched));
        },
        EventType::SubgraphCreated => {
            reveal_strlit("replica.released");
            reveal_strlit("artifact.patched");
            reveal_strlit("subgraph.created");
            assert("subgraph.created"@.len() == 16);
            assert("subgraph.created"@[0] != "replica.released"@[0]);
            assert("subgraph.created"@[0] != "artifact.patched"@[0]);
            assert(event_named("subgraph.created"@) == Some(EventType::SubgraphCreated));
        },
        EventType::TemplateCreated => {
            reveal_strlit("replica.released");
            reveal_strlit("artifact.patched");
            reveal_strlit("subgraph.created");
            reveal_strlit("template.created");
            assert("template.created"@.len() == 16);
            assert("template.created"@[0] != "replica.released"@[0]);
            assert("template.created"@[0] != "artifact.patched"@[0]);
            assert("template.created"@[0] != "subgraph.created"@[0]);
            assert(event_named("template.created"@) == Some(EventType::TemplateCreated));
        },
        EventType::InstanceCreated => {
            reveal_strlit("replica.released");
            reveal_strlit("artifact.patched");
            reveal_strlit("subgraph.created");
            reveal_strlit("template.created");
            reveal_strlit("instance.created");
            assert("instance.created"@.len() == 16);
            assert("instance.created"@[0] != "replica.released"@[0]);
            assert("instance.created"@[0] != "artifact.patched"@[0]);
            assert("instance.created"@[0] != "subgraph.created"@[0]);
            assert("instance.created"@[0] != "template.created"@[0]);
            assert(event_named("instance.created"@) == Some(EventType::InstanceCreated));
        },
        EventType::PipelineCreated => {
            reveal_strlit("replica.released");
            reveal_strlit("artifact.patched");
            reveal_strlit("subgraph.created");
            reveal_strlit("template.created");
            reveal_strlit("instance.created");
            reveal_strlit("pipeline.created");
            assert("pipeline.created"@.len() == 16);
            assert("pipeline.created"@[0] != "replica.released"@[0]);
            assert("pipeline.created"@[0] != "artifact.patched"@[0]);
            assert("pipeline.created"@[0] != "subgraph.created"@[0]);
            assert("pipeline.created"@[0] != "template.created"@[0]);
            assert("pipeline.created"@[0] != "instance.created"@[0]);
            assert(event_named("pipeline.created"@) == Some(EventType::PipelineCreated));
        },
        EventType::PipelineResumed => {
            reveal_strlit("replica.released");
            reveal_strlit("artifact.patched");
            reveal_strlit("subgraph.created");
            reveal_strlit("template.created");
            reveal_strlit("instance.created");
            reveal_strlit("pipeline.created");
            reveal_strlit("pipeline.resumed");
            assert("pipeline.resumed"@.len() == 16);
            assert("pipeline.resumed"@[0] != "replica.released"@[0]);
            assert("pipeline.resumed"@[0] != "artifact.patched"@[0]);
            assert("pipeline.resumed"@[0] != "subgraph.created"@[0]);
            assert("pipeline.resumed"@[0] != "template.created"@[0]);
            assert("pipeline.resumed"@[0] != "instance.created"@[0]);
            assert("pipeline.resumed"@[9] != "pipeline.created"@[9]);
            assert(event_named("pipeline.resumed"@) == Some(EventType::PipelineResumed));
        },
        EventType::ControllerLinked => {
            reveal_strlit("controller.linked");
            assert("controller.linked"@.len() == 17);
            assert(event_named("controller.linked"@) == Some(EventType::ControllerLinked));
        },
        EventType::ArtifactProduced => {
            reveal_strlit("controller.linked");
            reveal_strlit("artifact.produced");
            assert("artifact.produced"@.len() == 17);
            assert("artifact.produced"@[0] != "controller.linked"@[0]);
            assert(event_named("artifact.produced"@) == Some(EventType::ArtifactProduced));
        },
        EventType::ArtifactConsumed => {
            reveal_strlit("controller.linked");
            reveal_strlit("artifact.produced");
            reveal_strlit("artifact.consumed");
            assert("artifact.consumed"@.len() == 17);
            assert("artifact.consumed"@[0] != "controller.linked"@[0]);
            assert("artifact.consumed"@[9] != "artifact.produced"@[9]);
            assert(event_named("artifact.consumed"@) == Some(EventType::ArtifactConsumed));
        },
        EventType::ArtifactSnapshot => {
            reveal_strlit("controller.linked");
            reveal_strlit("artifact.produced");
            reveal_strlit("artifact.consumed");
            reveal_strlit("artifact.snapshot");
            assert("artifact.snapshot"@.len() == 17);
            assert("artifact.snapshot"@[0] != "controller.linked"@[0]);
            assert("artifact.snapshot"@[9] != "artifact.produced"@[9]);
            assert("artifact.snapshot"@[9] != "artifact.consumed"@[9]);
            assert(event_named("artifact.snapshot"@) == Some(EventType::ArtifactSnapshot));
        },
        EventType::NodeMessageSent => {
            reveal_strlit("controller.linked");
            reveal_strlit("artifact.produced");
            reveal_strlit("artifact.consumed");
            reveal_strlit("artifact.snapshot");
            reveal_strlit("node_message.sent");
            assert("node_message.sent"@.len() == 17);
            assert("node_message.sent"@[0] != "controller.linked"@[0]);
            assert("node_message.sent"@[0] != "artifact.produced"@[0]);
            assert("node_message.sent"@[0] != "artifact.consumed"@[0]);
            assert("node_message.sent"@[0] != "artifact.snapshot"@[0]);
            assert(event_named("node_message.sent"@) == Some(EventType::NodeMessageSent));
        },
        EventType::TaskLeaseRenewed => {
            reveal_strlit("task.lease_renewed");
            assert("task.lease_renewed"@.len() == 18);
            assert(event_named("task.lease_renewed"@) == Some(EventType::TaskLeaseRenewed));
        },
        EventType::ControllerIsolated => {
            reveal_strlit("controller.isolated");
            assert("controller.isolated"@.len() == 19);
            assert(event_named("controller.isolated"@) == Some(EventType::ControllerIsolated));
        },
        EventType::ControllerDisposed => {
            reveal_strlit("controller.isolated");
            reveal_strlit("controller.disposed");
            assert("controller.disposed"@.len() == 19);
            assert("controller.disposed"@[11] != "controller.isolated"@[11]);
            assert(event_named("controller.disposed"@) == Some(EventType::ControllerDisposed));
        },
        EventType::ReplicaProvisioned => {
            reveal_strlit("controller.isolated");
            reveal_strlit("controller.disposed");
            reveal_strlit("replica.provisioned");
            assert("replica.provisioned"@.len() == 19);
            assert("replica.provisioned"@[0] != "controller.isolated"@[0]);
            assert("replica.provisioned"@[0] != "controller.disposed"@[0]);
            assert(event_named("replica.provisioned"@) == Some(EventType::ReplicaProvisioned));
        },
        EventType::OrchestratorSubmit => {
            reveal_strlit("controller.isolated");
            reveal_strlit("controller.disposed");
            reveal_strlit("replica.provisioned");
            reveal_strlit("orchestrator.submit");
            assert("orchestrator.submit"@.len() == 19);
            assert("orchestrator.submit"@[0] != "controller.isolated"@[0]);
            assert("orchestrator.submit"@[0] != "controller.disposed"@[0]);
            assert("orchestrator.submit"@[0] != "replica.provisioned"@[0]);
            assert(event_named("orchestrator.submit"@) == Some(EventType::OrchestratorSubmit));
        },
        EventType::OrchestratorCancel => {
            reveal_strlit("controller.isolated");
            reveal_strlit("controller.disposed");
            reveal_strlit("replica.provisioned");
            reveal_strlit("orchestrator.submit");
            reveal_strlit("orchestrator.cancel");
            assert("orchestrator.cancel"@.len() == 19);
            assert("orchestrator.cancel"@[0] != "controller.isolated"@[0]);
            assert("orchestrator.cancel"@[0] != "controller.disposed"@[0]);
            assert("orchestrator.cancel"@[0] != "replica.provisioned"@[0]);
            assert("orchestrator.cancel"@[13] != "orchestrator.submit"@[13]);
            assert(event_named("orchestrator.cancel"@) == Some(EventType::OrchestratorCancel));
        },
        EventType::OrchestratorReplay => {
            reveal_strlit("controller.isolated");
            reveal_strlit("controller.disposed");
            reveal_strlit("replica.provisioned");
            reveal_strlit("orchestrator.submit");
            reveal_strlit("orchestrator.cancel");
            reveal_strlit("orchestrator.replay");
            assert("orchestrator.replay"@.len() == 19);
            assert("orchestrator.replay"@[0] != "controller.isolated"@[0]);
            assert("orchestrator.replay"@[0] != "controller.disposed"@[0]);
            assert("orchestrator.replay"@[0] != "replica.provisioned"@[0]);
            assert("orchestrator.replay"@[13] != "orchestrator.submit"@[13]);
            assert("orchestrator.replay"@[13] != "orchestrator.cancel"@[13]);
            assert(event_named("orchestrator.replay"@) == Some(EventType::OrchestratorReplay));
        },
        EventType::InterpreterAttached => {
            reveal_strlit("interpreter.attached");
            assert("interpreter.attached"@.len() == 20);
            assert(event_named("interpreter.attached"@) == Some(EventType::InterpreterAttached));
        },
        EventType::ControllerRegistered => {
            reveal_strlit("controller.registered");
            assert("controller.registered"@.len() == 21);
            assert(event_named("controller.registered"@) == Some(EventType::ControllerRegistered));
        },
        EventType::ChatRequestReceived => {
            reveal_strlit("controller.registered");
            reveal_strlit("chat.request_received");
            assert("chat.request_received"@.len() == 21);
            assert("chat.request_received"@[1] != "controller.registered"@[1]);
            assert(event_named("chat.request_received"@) == Some(EventType::ChatRequestReceived));
        },
        EventType::OrchestratorProgress => {
            reveal_strlit("controller.registered");
            reveal_strlit("chat.request_received");
            reveal_strlit("orchestrator.progress");
            assert("orchestrator.progress"@.len() == 21);
            assert("orchestrator.progress"@[0] != "controller.registered"@[0]);
            assert("orchestrator.progress"@[0] != "chat.request_received"@[0]);
            assert(event_named("orchestrator.progress"@) == Some(EventType::OrchestratorProgress));
        },
        EventType::NodeExecutionFailed => {
            reveal_strlit("controller.registered");
            reveal_strlit("chat.request_received");
            reveal_strlit("orchestrator.progress");
            reveal_strlit("node_execution.failed");
            assert("node_execution.failed"@.len() == 21);
            assert("node_execution.failed"@[0] != "controller.registered"@[0]);
            assert("node_execution.failed"@[0] != "chat.request_received"@[0]);
            assert("node_execution.failed"@[0] != "orchestrator.progress"@[0]);
            assert(event_named("node_execution.failed"@) == Some(EventType::NodeExecutionFailed));
        },
        EventType::NodeRelationCreated => {
            reveal_strlit("controller.registered");
            reveal_strlit("chat.request_received");
            reveal_strlit("orchestrator.progress");
            reveal_strlit("node_execution.failed");
            reveal_strlit("node_relation.created");
            assert("node_relation.created"@.len() == 21);
            assert("node_relation.created"@[0] != "controller.registered"@[0]);
            assert("node_relation.created"@[0] != "chat.request_received"@[0]);
            assert("node_relation.created"@[0] != "orchestrator.progress"@[0]);
            assert("node_relation.created"@[5] != "node_execution.failed"@[5]);
            assert(event_named("node_relation.created"@) == Some(EventType::NodeRelationCreated));
        },
        EventType::NodeRelationRemoved => {
            reveal_strlit("controller.registered");
            reveal_strlit("chat.request_received");
            reveal_strlit("orchestrator.progress");
            reveal_strlit("node_execution.failed");
            reveal_strlit("node_relation.created");
            reveal_strlit("node_relation.removed");
            assert("node_relation.removed"@.len() == 21);
            assert("node_relation.removed"@[0] != "controller.registered"@[0]);
            assert("node_relation.removed"@[0] != "chat.request_received"@[0]);
            assert("node_relation.removed"@[0] != "orchestrator.progress"@[0]);
            assert("node_relation.removed"@[5] != "node_execution.failed"@[5]);
            assert("node_relation.removed"@[14] != "node_relation.created"@[14]);
            assert(event_named("node_relation.removed"@) == Some(EventType::NodeRelationRemoved));
        },
        EventType::PipelineCheckpointed => {
            reveal_strlit("controller.registered");
            reveal_strlit("chat.request_received");
            reveal_strlit("orchestrator.progress");
            reveal_strlit("node_execution.failed");
            reveal_strlit("node_relation.created");
            reveal_strlit("node_relation.removed");
            reveal_strlit("pipeline.checkpointed");
            assert("pipeline.checkpointed"@.len() == 21);
            assert("pipeline.checkpointed"@[0] != "controller.registered"@[0]);
            assert("pipeline.checkpointed"@[0] != "chat.request_received"@[0]);
            assert("pipeline.checkpointed"@[0] != "orchestrator.progress"@[0]);
            assert("pipeline.checkpointed"@[0] != "node_execution.failed"@[0]);
            assert("pipeline.checkpointed"@[0] != "node_relation.created"@[0]);
            assert("pipeline.checkpointed"@[0] != "node_relation.removed"@[0]);
            assert(event_named("pipeline.checkpointed"@) == Some(EventType::PipelineCheckpointed));
        },
        EventType::ModelReloadRequested => {
            reveal_strlit("model.reload_requested");
            assert("model.reload_requested"@.len() == 22);
            assert(event_named("model.reload_requested"@) == Some(EventType::ModelReloadRequested));
        },
        EventType::ChatPayloadGenerated => {
            reveal_strlit("model.reload_requested");
            reveal_strlit("chat.payload_generated");
            assert("chat.payload_generated"@.len() == 22);
            assert("chat.payload_generated"@[0] != "model.reload_requested"@[0]);
            assert(event_named("chat.payload_generated"@) == Some(EventType::ChatPayloadGenerated));
        },
        EventType::NodeExecutionStarted => {
            reveal_strlit("model.reload_requested");
            reveal_strlit("chat.payload_generated");
            reveal_strlit("node_execution.started");
            assert("node_execution.started"@.len() == 22);
            assert("node_execution.started"@[0] != "model.reload_requested"@[0]);
            assert("node_execution.started"@[0] != "chat.payload_generated"@[0]);
            assert(event_named("node_execution.started"@) == Some(EventType::NodeExecutionStarted));
        },
        EventType::NodeMessageBroadcast => {
            reveal_strlit("model.reload_requested");
            reveal_strlit("chat.payload_generated");
            reveal_strlit("node_execution.started");
            reveal_strlit("node_message.broadcast");
            assert("node_message.broadcast"@.len() == 22);
            assert("node_message.broadcast"@[0] != "model.reload_requested"@[0]);
            assert("node_message.broadcast"@[0] != "chat.payload_generated"@[0]);
            assert("node_message.broadcast"@[5] != "node_execution.started"@[5]);
            assert(event_named("node_message.broadcast"@) == Some(EventType::NodeMessageBroadcast));
        },
        EventType::NodeExecutionProgress => {
            reveal_strlit("node_execution.progress");
            assert("node_execution.progress"@.len() == 23);
            assert(event_named("node_execution.progress"@) == Some(EventType::NodeExecutionProgress));
        },
        EventType::TransformVersionSaved => {
            reveal_strlit("node_execution.progress");
            reveal_strlit("transform.version_saved");
            assert("transform.version_saved"@.len() == 23);
            assert("transform.version_saved"@[0] != "node_execution.progress"@[0]);
            assert(event_named("transform.version_saved"@) == Some(EventType::TransformVersionSaved));
        },
        EventType::NodeExecutionCompleted => {
            reveal_strlit("node_execution.completed");
            assert("node_execution.completed"@.len() == 24);
            assert(event_named("node_execution.completed"@) == Some(EventType::NodeExecutionCompleted));
        },
        EventType::NodeExecutionCancelled => {
            reveal_strlit("node_execution.completed");
            reveal_strlit("node_execution.cancelled");
            assert("node_execution.cancelled"@.len() == 24);
            assert("node_execution.cancelled"@[16] != "node_execution.completed"@[16]);
            assert(event_named("node_execution.cancelled"@) == Some(EventType::NodeExecutionCancelled));
        },
        EventType::PipelineLineageRecorded => {
            reveal_strlit("pipeline.lineage_recorded");
            assert("pipeline.lineage_recorded"@.len() == 25);
            assert(event_named("pipeline.lineage_recorded"@) == Some(EventType::PipelineLineageRecorded));
        },
        EventType::TransformReplayRequested => {
            reveal_strlit("transform.replay_requested");
            assert("transform.replay_requested"@.len() == 26);
            assert(event_named("transform.replay_requested"@) == Some(EventType::TransformReplayRequested));
        },
        EventType::StorageConnectorRegistered => {
            reveal_strlit("storage_connector.registered");
            assert("storage_connector.registered"@.len() == 28);
            assert(event_named("storage_connector.registered"@) == Some(EventType::StorageConnectorRegistered));
        },
        EventType::ModelHyperparametersAdjusted => {
            reveal_strlit("model.hyperparameters_adjusted");
            assert("model.hyperparameters_adjusted"@.len() == 30);
            assert(event_named("model.hyperparameters_adjusted"@) == Some(EventType::ModelHyperparametersAdjusted));
        },
    }
}

/// `s` is two non-empty runs of lower-case letters and underscores joined
/// by one dot, the dot at `i`.
pub open spec fn dotted_at(s: Seq<char>, i: int) -> bool {
    &&& 0 < i < s.len() - 1
    &&& s[i] == '.'
    &&& forall|k: int| 0 <= k < s.len() && k != i ==> (('a' <= #[trigger] s[k] && s[k] <= 'z') || s[k] == '_')
}

/// Every event type's text is `noun.verb`: one dot between two non-empty
/// runs of lower-case letters and underscores.
#[verifier::spinoff_prover]
pub proof fn lemma_event_text_shape(e: EventType)
    ensures
        exists|i: int| dotted_at(e.spec_str(), i),
{
    match e {
        EventType::ControllerRegistered => {
            reveal_strlit("controller.registered");
            assert(dotted_at("controller.registered"@, 10));
            assert(dotted_at(e.spec_str(), 10));
        },
        EventType::ControllerLinked => {
            reveal_strlit("controller.linked");
            assert(dotted_at("controller.linked"@, 10));
            assert(dotted_at(e.spec_str(), 10));
        },
        EventType::ControllerIsolated => {
            reveal_strlit("controller.isolated");
            assert(dotted_at("controller.isolated"@, 10));
            assert(dotted_at(e.spec_str(), 10));
        },
        EventType::ControllerDisposed => {
            reveal_strlit("controller.disposed");
            assert(dotted_at("controller.disposed"@, 10));
            assert(dotted_at(e.spec_str(), 10));
        },
        EventType::TaskSubmitted => {
            reveal_strlit("task.submitted");
            assert(dotted_at("task.submitted"@, 4));
            assert(dotted_at(e.spec_str(), 4));
        },
        EventType::TaskStarted => {
            reveal_strlit("task.started");
            assert(dotted_at("task.started"@, 4));
            assert(dotted_at(e.spec_str(), 4));
        },
        EventType::TaskCompleted => {
            reveal_strlit("task.completed");
            assert(dotted_at("task.completed"@, 4));
            assert(dotted_at(e.spec_str(), 4));
        },
        EventType::TaskFailed => {
            reveal_strlit("task.failed");
            assert(dotted_at("task.failed"@, 4));
            assert(dotted_at(e.spec_str(), 4));
        },
        EventType::TaskCancelled => {
            reveal_strlit("task.cancelled");
            assert(dotted_at("task.cancelled"@, 4));
            assert(dotted_at(e.spec_str(), 4));
        },
        EventType::TaskRetried => {
            reveal_strlit("task.retried");
            assert(dotted_at("task.retried"@, 4));
            assert(dotted_at(e.spec_str(), 4));
        },
        EventType::NodeCreated => {
            reveal_strlit("node.created");
            assert(dotted_at("node.created"@, 4));
            assert(dotted_at(e.spec_str(), 4));
        },
        EventType::NodeUpdated => {
            reveal_strlit("node.updated");
            assert(dotted_at("node.updated"@, 4));
            assert(dotted_at(e.spec_str(), 4));
        },
        EventType::NodeDeleted => {
            reveal_strlit("node.deleted");
            assert(dotted_at("node.deleted"@, 4));
            assert(dotted_at(e.spec_str(), 4));
        },
        EventType::NodeUndo => {
            reveal_strlit("node.undo");
            assert(dotted_at("node.undo"@, 4));
            assert(dotted_at(e.spec_str(), 4));
        },
        EventType::NodeRedo => {
            reveal_strlit("node.redo");
            assert(dotted_at("node.redo"@, 4));
            assert(dotted_at(e.spec_str(), 4));
        },
        EventType::FlowEvaluated => {
            reveal_strlit("flow.evaluated");
            assert(dotted_at("flow.evaluated"@, 4));
            assert(dotted_at(e.spec_str(), 4));
        },
        EventType::FlowAdvanced => {
            reveal_strlit("flow.advanced");
            assert(dotted_at("flow.advanced"@, 4));
            assert(dotted_at(e.spec_str(), 4));
        },
        EventType::ModelHyperparametersAdjusted => {
            reveal_strlit("model.hyperparameters_adjusted");
            assert(dotted_at("model.hyperparameters_adjusted"@, 5));
            assert(dotted_at(e.spec_str(), 5));
        },
        EventType::ModelReloadRequested => {
            reveal_strlit("model.reload_requested");
            assert(dotted_at("model.reload_requested"@, 5));
            assert(dotted_at(e.spec_str(), 5));
        },
        EventType::ReplicaProvisioned => {
            reveal_strlit("replica.provisioned");
            assert(dotted_at("replica.provisioned"@, 7));
            assert(dotted_at(e.spec_str(), 7));
        },
        EventType::ReplicaReleased => {
            reveal_strlit("replica.released");
            assert(dotted_at("replica.released"@, 7));
            assert(dotted_at(e.spec_str(), 7));
        },
        EventType::ChatRequestReceived => {
            reveal_strlit("chat.request_received");
            assert(dotted_at("chat.request_received"@, 4));
            assert(dotted_at(e.spec_str(), 4));
        },
        EventType::ChatPayloadGenerated => {
            reveal_strlit("chat.payload_generated");
            assert(dotted_at("chat.payload_generated"@, 4));
            assert(dotted_at(e.spec_str(), 4));
        },
        EventType::ArtifactProduced => {
            reveal_strlit("artifact.produced");
            assert(dotted_at("artifact.produced"@, 8));
            assert(dotted_at(e.spec_str(), 8));
        },
        EventType::ArtifactConsumed => {
            reveal_strlit("artifact.consumed");
            assert(dotted_at("artifact.consumed"@, 8));
            assert(dotted_at(e.spec_str(), 8));
        },
        EventType::ArtifactSnapshot => {
            reveal_strlit("artifact.snapshot");
            assert(dotted_at("artifact.snapshot"@, 8));
            assert(dotted_at(e.spec_str(), 8));
        },
        EventType::ArtifactPatched => {
            reveal_strlit("artifact.patched");
            assert(dotted_at("artifact.patched"@, 8));
            assert(dotted_at(e.spec_str(), 8));
        },
        EventType::EditorCreated => {
            reveal_strlit("editor.created");
            assert(dotted_at("editor.created"@, 6));
            assert(dotted_at(e.spec_str(), 6));
        },
        EventType::InterpreterAttached => {
            reveal_strlit("interpreter.attached");
            assert(dotted_at("interpreter.attached"@, 11));
            assert(dotted_at(e.spec_str(), 11));
        },
        EventType::RuntimeBound => {
            reveal_strlit("runtime.bound");
            assert(dotted_at("runtime.bound"@, 7));
            assert(dotted_at(e.spec_str(), 7));
        },
        EventType::OrchestratorSubmit => {
            reveal_strlit("orchestrator.submit");
            assert(dotted_at("orchestrator.submit"@, 12));
            assert(dotted_at(e.spec_str(), 12));
        },
        EventType::OrchestratorCancel => {
            reveal_strlit("orchestrator.cancel");
            assert(dotted_at("orchestrator.cancel"@, 12));
            assert(dotted_at(e.spec_str(), 12));
        },
        EventType::OrchestratorReplay => {
            reveal_strlit("orchestrator.replay");
            assert(dotted_at("orchestrator.replay"@, 12));
            assert(dotted_at(e.spec_str(), 12));
        },
        EventType::OrchestratorProgress => {
            reveal_strlit("orchestrator.progress");
            assert(dotted_at("orchestrator.progress"@, 12));
            assert(dotted_at(e.spec_str(), 12));
        },
        EventType::LinkCreated => {
            reveal_strlit("link.created");
            assert(dotted_at("link.created"@, 4));
            assert(dotted_at(e.spec_str(), 4));
        },
        EventType::LinkRemoved => {
            reveal_strlit("link.removed");
            assert(dotted_at("link.removed"@, 4));
            assert(dotted_at(e.spec_str(), 4));
        },
        EventType::GroupCreated => {
            reveal_strlit("group.created");
            assert(dotted_at("group.created"@, 5));
            assert(dotted_at(e.spec_str(), 5));
        },
        EventType::GroupRemoved => {
            reveal_strlit("group.removed");
            assert(dotted_at("group.removed"@, 5));
            assert(dotted_at(e.spec_str(), 5));
        },
        EventType::SubgraphCreated => {
            reveal_strlit("subgraph.created");
            assert(dotted_at("subgraph.created"@, 8));
            assert(dotted_at(e.spec_str(), 8));
        },
        EventType::GraphValidated => {
            reveal_strlit("graph.validated");
            assert(dotted_at("graph.validated"@, 5));
            assert(dotted_at(e.spec_str(), 5));
        },
        EventType::GraphPatched => {
            reveal_strlit("graph.patched");
            assert(dotted_at("graph.patched"@, 5));
            assert(dotted_at(e.spec_str(), 5));
        },
        EventType::NodeExecutionStarted => {
            reveal_strlit("node_execution.started");
            assert(dotted_at("node_execution.started"@, 14));
            assert(dotted_at(e.spec_str(), 14));
        },
        EventType::NodeExecutionProgress => {
            reveal_strlit("node_execution.progress");
            assert(dotted_at("node_execution.progress"@, 14));
            assert(dotted_at(e.spec_str(), 14));
        },
        EventType::NodeExecutionCompleted => {
            reveal_strlit("node_execution.completed");
            assert(dotted_at("node_execution.completed"@, 14));
            assert(dotted_at(e.spec_str(), 14));
        },
        EventType::NodeExecutionFailed => {
            reveal_strlit("node_execution.failed");
            assert(dotted_at("node_execution.failed"@, 14));
            assert(dotted_at(e.spec_str(), 14));
        },
        EventType::NodeExecutionCancelled => {
            reveal_strlit("node_execution.cancelled");
            assert(dotted_at("node_execution.cancelled"@, 14));
            assert(dotted_at(e.spec_str(), 14));
        },
        EventType::NodeRelationCreated => {
            reveal_strlit("node_relation.created");
            assert(dotted_at("node_relation.created"@, 13));
            assert(dotted_at(e.spec_str(), 13));
        },
        EventType::NodeRelationRemoved => {
            reveal_strlit("node_relation.removed");
            assert(dotted_at("node_relation.removed"@, 13));
            assert(dotted_at(e.spec_str(), 13));
        },
        EventType::NodeMessageSent => {
            reveal_strlit("node_message.sent");
            assert(dotted_at("node_message.sent"@, 12));
            assert(dotted_at(e.spec_str(), 12));
        },
        EventType::NodeMessageBroadcast => {
            reveal_strlit("node_message.broadcast");
            assert(dotted_at("node_message.broadcast"@, 12));
            assert(dotted_at(e.spec_str(), 12));
        },
        EventType::TaskLeaseRenewed => {
            reveal_strlit("task.lease_renewed");
            assert(dotted_at("task.lease_renewed"@, 4));
            assert(dotted_at(e.spec_str(), 4));
        },
        EventType::TaskPaused => {
            reveal_strlit("task.paused");
            assert(dotted_at("task.paused"@, 4));
            assert(dotted_at(e.spec_str(), 4));
        },
        EventType::TaskResumed => {
            reveal_strlit("task.resumed");
            assert(dotted_at("task.resumed"@, 4));
            assert(dotted_at(e.spec_str(), 4));
        },
        EventType::TemplateCreated => {
            reveal_strlit("template.created");
            assert(dotted_at("template.created"@, 8));
            assert(dotted_at(e.spec_str(), 8));
        },
        EventType::TemplateCloned => {
            reveal_strlit("template.cloned");
            assert(dotted_at("template.cloned"@, 8));
            assert(dotted_at(e.spec_str(), 8));
        },
        EventType::TemplateForked => {
            reveal_strlit("template.forked");
            assert(dotted_at("template.forked"@, 8));
            assert(dotted_at(e.spec_str(), 8));
        },
        EventType::InstanceCreated => {
            reveal_strlit("instance.created");
            assert(dotted_at("instance.created"@, 8));
            assert(dotted_at(e.spec_str(), 8));
        },
        EventType::PipelineCreated => {
            reveal_strlit("pipeline.created");
            assert(dotted_at("pipeline.created"@, 8));
            assert(dotted_at(e.spec_str(), 8));
        },
        EventType::TransformVersionSaved => {
            reveal_strlit("transform.version_saved");
            assert(dotted_at("transform.version_saved"@, 9));
            assert(dotted_at(e.spec_str(), 9));
        },
        EventType::TransformReplayRequested => {
            reveal_strlit("transform.replay_requested");
            assert(dotted_at("transform.replay_requested"@, 9));
            assert(dotted_at(e.spec_str(), 9));
        },
        EventType::PipelineCheckpointed => {
            reveal_strlit("pipeline.checkpointed");
            assert(dotted_at("pipeline.checkpointed"@, 8));
            assert(dotted_at(e.spec_str(), 8));
        },
        EventType::PipelineResumed => {
            reveal_strlit("pipeline.resumed");
            assert(dotted_at("pipeline.resumed"@, 8));
            assert(dotted_at(e.spec_str(), 8));
        },
        EventType::PipelineLineageRecorded => {
            reveal_strlit("pipeline.lineage_recorded");
            assert(dotted_at("pipeline.lineage_recorded"@, 8));
            assert(dotted_at(e.spec_str(), 8));
        },
        EventType::StorageConnectorRegistered => {
            reveal_strlit("storage_connector.registered");
            assert(dotted_at("storage_connector.registered"@, 17));
            assert(dotted_at(e.spec_str(), 17));
        },
    }
}

/// Different event types have different texts.
pub proof fn lemma_event_texts_distinct(e1: EventType, e2: EventType)
    ensures
        e1 != e2 ==> e1.spec_str() != e2.spec_str(),
{
    lemma_event_named(e1);
    lemma_event_named(e2);
}

/// Whether an entry is scoped to the dimension `dim`.
pub open spec fn in_dimension(dim: DimensionId) -> spec_fn(ActionLogEntry) -> bool {
    |e: ActionLogEntry| e.dimension_id == Some(dim)
}

/// Whether an entry is scoped to the task `task`.
pub open spec fn for_task(task: TaskId) -> spec_fn(ActionLogEntry) -> bool {
    |e: ActionLogEntry| e.task_id == Some(task)
}

/// Append-only in-memory action log.
///
/// Entries are kept in the order they were appended (newest last).
#[derive(Debug)]
pub struct ActionLog {
    entries: Vec<ActionLogEntry>,
    capacity: usize,
}

impl View for ActionLog {
    type V = Seq<ActionLogEntry>;

    closed spec fn view(&self) -> Seq<ActionLogEntry> {
        self.entries@
    }
}

impl ActionLog {
    /// Create an empty log.  `capacity` is the ring-buffer size offered to
    /// live subscribers (at least one).
    pub fn new(capacity: usize) -> (r: Self)
        ensures
            r@ == Seq::<ActionLogEntry>::empty(),
            r.capacity() == if capacity == 0 { 1 } else { capacity as int },
    {
        ActionLog { entries: Vec::new(), capacity: if capacity == 0 { 1 } else { capacity } }
    }

    /// The subscriber ring-buffer size.
    pub closed spec fn capacity(&self) -> int {
        self.capacity as int
    }

    /// The subscriber ring-buffer size.
    pub fn subscriber_capacity(&self) -> (r: usize)
        ensures
            r == self.capacity(),
    {
        self.capacity
    }

    /// Append an entry to the log.
    pub fn append(&mut self, entry: ActionLogEntry)
        ensures
            final(self)@ == old(self)@.push(entry),
            appended_one(old(self)@, final(self)@, entry.event_type, entry.dimension_id, entry.task_id),
            final(self).capacity() == old(self).capacity(),
    {
        self.entries.push(entry);
        proof {
            assert(self@.drop_last() == old(self)@);
        }
    }

    /// Build an entry by the system actor and append it.
    pub fn record(
        &mut self,
        event_type: EventType,
        dimension_id: Option<DimensionId>,
        task_id: Option<TaskId>,
        payload: JsonValue,
    )
        ensures
            appended_one(old(self)@, final(self)@, event_type, dimension_id, task_id),
            final(self)@.last().actor == Actor::System,
            final(self)@.last().payload == payload,
            final(self).capacity() == old(self).capacity(),
    {
        self.append(ActionLogEntry::new(event_type, Actor::System, dimension_id, task_id, payload));
    }

    /// Return all entries scoped to the given dimension, oldest first.
    pub fn entries_for_dimension(&self, dim: DimensionId) -> (r: Vec<ActionLogEntry>)
        ensures
            r@ == self@.filter(in_dimension(dim)),
    {
        let mut out: Vec<ActionLogEntry> = Vec::new();
        let n = self.entries.len();
        for i in 0..n
            invariant
                n == self.entries@.len(),
                out@ == self@.take(i as int).filter(in_dimension(dim)),
        {
            proof {
                assert(self@.take(i + 1) == self@.take(i as int).push(self@[i as int]));
                self@.take(i as int).lemma_filter_push(self@[i as int], in_dimension(dim));
            }
            if self.entries[i].dimension_id == Some(dim) {
                out.push(self.entries[i].clone());
            }
        }
        proof {
            assert(self@.take(n as int) == self@);
        }
        out
    }

    /// Return all entries associated with a specific task, oldest first.
    pub fn entries_for_task(&self, task_id: TaskId) -> (r: Vec<ActionLogEntry>)
        ensures
            r@ == self@.filter(for_task(task_id)),
    {
        let mut out: Vec<ActionLogEntry> = Vec::new();
        let n = self.entries.len();
        for i in 0..n
            invariant
                n == self.entries@.len(),
                out@ == self@.take(i as int).filter(for_task(task_id)),
        {
            proof {
                assert(self@.take(i + 1) == self@.take(i as int).push(self@[i as int]));
                self@.take(i as int).lemma_filter_push(self@[i as int], for_task(task_id));
            }
            if self.entries[i].task_id == Some(task_id) {
                out.push(self.entries[i].clone());
            }
        }
        proof {
            assert(self@.take(n as int) == self@);
        }
        out
    }

    /// Return a copy of all entries (newest last).
    pub fn all_entries(&self) -> (r: Vec<ActionLogEntry>)
        ensures
            r@ == self@,
    {
        let mut out: Vec<ActionLogEntry> = Vec::new();
        let n = self.entries.len();
        for i in 0..n
            invariant
                n == self.entries@.len(),
                out@ == self@.take(i as int),
        {
            proof {
                assert(self@.take(i + 1) == self@.take(i as int).push(self@[i as int]));
            }
            out.push(self.entries[i].clone());
        }
        proof {
            assert(self@.take(n as int) == self@);
        }
        out
    }

    /// Number of entries currently stored.
    pub fn len(&self) -> (r: usize)
        ensures
            r == self@.len(),
    {
        self.entries.len()
    }

    /// Returns `true` when no entries have been recorded.
    pub fn is_empty(&self) -> (r: bool)
        ensures
            r == (self@.len() == 0),
    {
        self.entries.len() == 0
    }
}

} // verus!
