//! Block controller lifecycle: create → link → isolate → dispose.
//!
//! ```text
//!  Created ──► link(peer) ──► Linked ──► isolate() ──► Isolated
//!     │                          │                        │
//!     └──────────────────────────┴────────────────────────┴──► dispose() ──► Disposed
//! ```
//!
//! Every lifecycle call made in a state that does not allow it fails and
//! leaves the controller unchanged; every successful transition appends one
//! entry to the action log.

use vstd::prelude::*;

use crate::action_log::{appended_one, ActionLog, EventType};
use crate::ids::{new_uuid, DimensionId, TaskId};
use crate::json::{JsonModel, JsonValue, lemma_members_models, uuid_text};

verus! {

/// The payload of `controller.disposed`: the controller and how long it
/// lived, in milliseconds (read from the clock).
pub open spec fn disposed_model(id: u128, lifetime_ms: u64) -> JsonModel {
    JsonModel::Object(seq![
        ("controller_id"@, JsonModel::Str(uuid_text(id))),
        ("lifetime_ms"@, JsonModel::Int(lifetime_ms as int)),
    ])
}

/// Discrete lifecycle state of a [`BlockController`].
#[derive(Clone, Copy, Debug, PartialEq, Eq, Structural)]
pub enum ControllerState {
    /// Freshly constructed; no peers linked yet.
    Created,
    /// Linked to a peer dimension (node or editor).
    Linked,
    /// Sandboxed — isolated from the peer dimension.
    Isolated,
    /// Lifecycle ended; resources released.
    Disposed,
}

/// A lifecycle operation on a controller.
pub enum LifecycleOp {
    /// `link(peer)`.
    Link,
    /// `isolate()`.
    Isolate,
    /// `dispose()`.
    Dispose,
}

/// Position of a state along the lifecycle.
pub open spec fn state_rank(s: ControllerState) -> int {
    match s {
        ControllerState::Created => 0,
        ControllerState::Linked => 1,
        ControllerState::Isolated => 2,
        ControllerState::Disposed => 3,
    }
}

/// The state an operation leads to from `s`, or `None` when `s` does not
/// allow it.
pub open spec fn lifecycle_step(s: ControllerState, op: LifecycleOp) -> Option<ControllerState> {
    match op {
        LifecycleOp::Link => if s == ControllerState::Created { Some(ControllerState::Linked) } else { None },
        LifecycleOp::Isolate => if s == ControllerState::Linked { Some(ControllerState::Isolated) } else { None },
        LifecycleOp::Dispose => if s != ControllerState::Disposed { Some(ControllerState::Disposed) } else { None },
    }
}

/// Lifecycle transitions are one-way: every allowed operation moves the
/// controller strictly forward, so no state is ever entered twice.
pub proof fn lemma_lifecycle_one_way(s: ControllerState, op: LifecycleOp)
    ensures
        lifecycle_step(s, op) matches Some(t) ==> state_rank(t) > state_rank(s),
{
}

/// Once disposed, a controller allows no operation at all.
pub proof fn lemma_disposed_is_final(op: LifecycleOp)
    ensures
        lifecycle_step(ControllerState::Disposed, op) is None,
{
}

/// Errors produced by [`BlockController`] operations.
#[derive(Debug)]
pub enum BlockControllerError {
    /// The controller was called with a dimension that does not match its own.
    DimensionMismatch {
        /// The controller's own dimension.
        expected: DimensionId,
        /// The dimension supplied by the caller.
        got: DimensionId,
    },
    /// The requested lifecycle transition is not valid from the current state.
    InvalidTransition {
        /// Current state.
        from: ControllerState,
        /// Human-readable reason.
        reason: &'static str,
    },
    /// The controller has already been disposed.
    AlreadyDisposed(u128),
}

/// A dimensional block controller managing a single block's lifecycle.
///
/// The dimension is fixed at construction; the lifecycle only moves
/// forward (see [`lemma_lifecycle_one_way`]).
#[derive(Debug)]
pub struct BlockController {
    /// Globally-unique controller identifier.
    pub id: u128,
    /// The dimension this controller belongs to.
    pub dimension_id: DimensionId,
    /// The task that spawned this controller.
    pub task_id: TaskId,
    state: ControllerState,
    peer_dimension: Option<DimensionId>,
    created_at_ms: u64,
}

impl BlockController {
    /// The controller identifier.
    pub closed spec fn spec_id(&self) -> u128 {
        self.id
    }

    /// The controller's dimension.
    pub closed spec fn spec_dimension(&self) -> DimensionId {
        self.dimension_id
    }

    /// The task that spawned the controller.
    pub closed spec fn spec_task(&self) -> TaskId {
        self.task_id
    }

    /// The current lifecycle state.
    pub closed spec fn spec_state(&self) -> ControllerState {
        self.state
    }

    /// The peer dimension recorded by `link`, if any.
    pub closed spec fn spec_peer(&self) -> Option<DimensionId> {
        self.peer_dimension
    }

    /// Create a controller in the `Created` state and log
    /// `controller.registered`.
    pub fn create(dimension_id: DimensionId, task_id: TaskId, log: &mut ActionLog) -> (r: Self)
        ensures
            r.spec_dimension() == dimension_id,
            r.spec_task() == task_id,
            r.spec_state() == ControllerState::Created,
            r.spec_peer() is None,
            appended_one(old(log)@, final(log)@, EventType::ControllerRegistered, Some(dimension_id), Some(task_id)),
            final(log)@.last().payload.model() == JsonModel::Object(seq![
                ("controller_id"@, JsonModel::Str(uuid_text(r.spec_id()))),
                ("controller_kind"@, JsonModel::Str("block"@)),
                ("dimension_id"@, JsonModel::Str(uuid_text(dimension_id.0))),
            ]),
    {
        let id = new_uuid();
        let members = vec![
            ("controller_id".to_owned(), JsonValue::from_uuid(id)),
            ("controller_kind".to_owned(), JsonValue::string("block")),
            ("dimension_id".to_owned(), JsonValue::from_uuid(dimension_id.0)),
        ];
        proof {
            lemma_members_models(members@);
            assert(members@.map_values(|m: (String, JsonValue)| (m.0@, m.1.model())) =~= seq![
                ("controller_id"@, JsonModel::Str(uuid_text(id))),
                ("controller_kind"@, JsonModel::Str("block"@)),
                ("dimension_id"@, JsonModel::Str(uuid_text(dimension_id.0))),
            ]);
        }
        let payload = JsonValue::object(members);
        log.record(EventType::ControllerRegistered, Some(dimension_id), Some(task_id), payload);
        BlockController {
            id,
            dimension_id,
            task_id,
            state: ControllerState::Created,
            peer_dimension: None,
            created_at_ms: crate::action_log::now_ms(),
        }
    }

    /// Return the current [`ControllerState`].
    pub fn state(&self) -> (r: ControllerState)
        ensures
            r == self.spec_state(),
    {
        self.state
    }

    /// The peer dimension this controller was linked to, if any.
    pub fn peer_dimension(&self) -> (r: Option<DimensionId>)
        ensures
            r == self.spec_peer(),
    {
        self.peer_dimension
    }

    /// Check that `dim` is this controller's dimension.
    pub fn validate_dimension(&self, dim: DimensionId) -> (r: Result<(), BlockControllerError>)
        ensures
            r is Ok <==> dim == self.spec_dimension(),
            r matches Err(e) ==> e == (BlockControllerError::DimensionMismatch {
                expected: self.spec_dimension(),
                got: dim,
            }),
    {
        if dim != self.dimension_id {
            Err(BlockControllerError::DimensionMismatch { expected: self.dimension_id, got: dim })
        } else {
            Ok(())
        }
    }

    /// Move from `Created` to `Linked`, recording the peer dimension.
    pub fn link(&mut self, peer_dimension: DimensionId, log: &mut ActionLog) -> (r: Result<(), BlockControllerError>)
        ensures
            r is Ok <==> old(self).spec_state() == ControllerState::Created,
            r is Ok ==> {
                &&& final(self).spec_state() == ControllerState::Linked
                &&& final(self).spec_peer() == Some(peer_dimension)
                &&& appended_one(old(log)@, final(log)@, EventType::ControllerLinked,
                        Some(old(self).spec_dimension()), Some(old(self).spec_task()))
                &&& final(log)@.last().payload.model() == JsonModel::Object(seq![
                    ("controller_id"@, JsonModel::Str(uuid_text(old(self).spec_id()))),
                    ("target_id"@, JsonModel::Str(uuid_text(peer_dimension.0))),
                    ("target_kind"@, JsonModel::Str("dimension"@)),
                ])
            },
            r matches Err(e) ==> {
                &&& e matches BlockControllerError::InvalidTransition { from, .. }
                &&& from == old(self).spec_state()
                &&& *final(self) == *old(self)
                &&& final(log)@ == old(log)@
            },
            final(self).spec_id() == old(self).spec_id(),
            final(self).spec_dimension() == old(self).spec_dimension(),
            final(self).spec_task() == old(self).spec_task(),
    {
        if self.state != ControllerState::Created {
            return Err(BlockControllerError::InvalidTransition {
                from: self.state,
                reason: "link() requires Created state",
            });
        }
        self.state = ControllerState::Linked;
        self.peer_dimension = Some(peer_dimension);
        let members = vec![
            ("controller_id".to_owned(), JsonValue::from_uuid(self.id)),
            ("target_id".to_owned(), JsonValue::from_uuid(peer_dimension.0)),
            ("target_kind".to_owned(), JsonValue::string("dimension")),
        ];
        proof {
            lemma_members_models(members@);
            assert(members@.map_values(|m: (String, JsonValue)| (m.0@, m.1.model())) =~= seq![
                ("controller_id"@, JsonModel::Str(uuid_text(self.id))),
                ("target_id"@, JsonModel::Str(uuid_text(peer_dimension.0))),
                ("target_kind"@, JsonModel::Str("dimension"@)),
            ]);
        }
        let payload = JsonValue::object(members);
        log.record(EventType::ControllerLinked, Some(self.dimension_id), Some(self.task_id), payload);
        Ok(())
    }

    /// Move from `Linked` to `Isolated`.
    pub fn isolate(&mut self, log: &mut ActionLog) -> (r: Result<(), BlockControllerError>)
        ensures
            r is Ok <==> old(self).spec_state() == ControllerState::Linked,
            r is Ok ==> {
                &&& final(self).spec_state() == ControllerState::Isolated
                &&& final(self).spec_peer() == old(self).spec_peer()
                &&& appended_one(old(log)@, final(log)@, EventType::ControllerIsolated,
                        Some(old(self).spec_dimension()), Some(old(self).spec_task()))
                &&& final(log)@.last().payload.model() == JsonModel::Object(seq![
                    ("controller_id"@, JsonModel::Str(uuid_text(old(self).spec_id()))),
                    ("reason"@, JsonModel::Str("explicit isolate() call"@)),
                ])
            },
            r matches Err(e) ==> {
                &&& e matches BlockControllerError::InvalidTransition { from, .. }
                &&& from == old(self).spec_state()
                &&& *final(self) == *old(self)
                &&& final(log)@ == old(log)@
            },
            final(self).spec_id() == old(self).spec_id(),
            final(self).spec_dimension() == old(self).spec_dimension(),
            final(self).spec_task() == old(self).spec_task(),
    {
        if self.state != ControllerState::Linked {
            return Err(BlockControllerError::InvalidTransition {
                from: self.state,
                reason: "isolate() requires Linked state",
            });
        }
        self.state = ControllerState::Isolated;
        let members = vec![
            ("controller_id".to_owned(), JsonValue::from_uuid(self.id)),
            ("reason".to_owned(), JsonValue::string("explicit isolate() call")),
        ];
        proof {
            lemma_members_models(members@);
            assert(members@.map_values(|m: (String, JsonValue)| (m.0@, m.1.model())) =~= seq![
                ("controller_id"@, JsonModel::Str(uuid_text(self.id))),
                ("reason"@, JsonModel::Str("explicit isolate() call"@)),
            ]);
        }
        let payload = JsonValue::object(members);
        log.record(EventType::ControllerIsolated, Some(self.dimension_id), Some(self.task_id), payload);
        Ok(())
    }

    /// Move to `Disposed` from any other state.
    pub fn dispose(&mut self, log: &mut ActionLog) -> (r: Result<(), BlockControllerError>)
        ensures
            r is Ok <==> old(self).spec_state() != ControllerState::Disposed,
            r is Ok ==> {
                &&& final(self).spec_state() == ControllerState::Disposed
                &&& final(self).spec_peer() == old(self).spec_peer()
                &&& appended_one(old(log)@, final(log)@, EventType::ControllerDisposed,
                        Some(old(self).spec_dimension()), Some(old(self).spec_task()))
                &&& exists|lifetime_ms: u64| final(log)@.last().payload.model() == #[trigger] disposed_model(old(self).spec_id(), lifetime_ms)
            },
            r matches Err(e) ==> {
                &&& e == BlockControllerError::AlreadyDisposed(old(self).spec_id())
                &&& *final(self) == *old(self)
                &&& final(log)@ == old(log)@
            },
            final(self).spec_id() == old(self).spec_id(),
            final(self).spec_dimension() == old(self).spec_dimension(),
            final(self).spec_task() == old(self).spec_task(),
    {
        if self.state == ControllerState::Disposed {
            return Err(BlockControllerError::AlreadyDisposed(self.id));
        }
        let now = crate::action_log::now_ms();
        let lifetime_ms: u64 = if now >= self.created_at_ms { now - self.created_at_ms } else { 0 };
        self.state = ControllerState::Disposed;
        let members = vec![
            ("controller_id".to_owned(), JsonValue::from_uuid(self.id)),
            ("lifetime_ms".to_owned(), JsonValue::from_u64(lifetime_ms)),
        ];
        proof {
            lemma_members_models(members@);
            assert(members@.map_values(|m: (String, JsonValue)| (m.0@, m.1.model())) =~= seq![
                ("controller_id"@, JsonModel::Str(uuid_text(self.id))),
                ("lifetime_ms"@, JsonModel::Int(lifetime_ms as int)),
            ]);
            assert(JsonModel::Object(members@.map_values(|m: (String, JsonValue)| (m.0@, m.1.model())))
                == disposed_model(self.id, lifetime_ms));
        }
        let payload = JsonValue::object(members);
        log.record(EventType::ControllerDisposed, Some(self.dimension_id), Some(self.task_id), payload);
        proof {
            assert(old(self).spec_id() == self.id);
            assert(log@.last().payload.model() == disposed_model(old(self).spec_id(), lifetime_ms));
        }
        Ok(())
    }
}

} // verus!
