//! Model runtime coordination: model kinds, kernel replicas and the
//! integer side of tuning decisions (when a reload is due, how replicas are
//! spread over the selected modules).

use vstd::prelude::*;
use crate::action_log::now_ms;
use crate::ids::{DimensionId, TaskId};
use crate::idmap::IdMap;

verus! {

/// Kind of model.
#[derive(Clone, Copy, Debug, PartialEq, Eq, Structural)]
pub enum ModelKind {
    /// Classic machine-learning model.
    Ml,
    /// Foundation or reasoning model.
    Ai,
}

/// Errors of the model performance manager.
#[derive(Debug)]
pub enum ModelRuntimeError {
    /// The model is not registered.
    ModelNotFound(String),
    /// The model is registered already.
    ModelAlreadyRegistered(String),
    /// A metric the policy reads is missing from the sample.
    MissingMetric(String),
}

/// Whether a reload is due: enough samples were seen, the policy's
/// threshold was breached, and the cooldown since the last reload (if
/// any) has passed.
pub open spec fn reload_due_spec(sample_count: u64, min_samples: u64, breached: bool,
    last_reload_at_ms: Option<u64>, captured_at_ms: u64, cooldown_ms: u64) -> bool {
    &&& sample_count >= min_samples
    &&& breached
    &&& match last_reload_at_ms {
        Some(last) => (if captured_at_ms >= last { captured_at_ms - last } else { 0 }) >= cooldown_ms,
        None => true,
    }
}

/// Decide whether a model's reload is due after a sample: `breached` says
/// whether the sample breached the reload policy's threshold.
pub fn reload_due(sample_count: u64, min_samples: u64, breached: bool, last_reload_at_ms: Option<u64>,
    captured_at_ms: u64, cooldown_ms: u64) -> (r: bool)
    ensures
        r == reload_due_spec(sample_count, min_samples, breached, last_reload_at_ms, captured_at_ms, cooldown_ms),
{
    if sample_count < min_samples {
        return false;
    }
    if !breached {
        return false;
    }
    match last_reload_at_ms {
        Some(last) => captured_at_ms.saturating_sub(last) >= cooldown_ms,
        None => true,
    }
}

/// How many replicas module `i` of `caps` gets when `remaining` replicas
/// are still to be placed and `base` modules were selected.
pub open spec fn replicas_for(i: int, cap: u32, remaining: int, base: int) -> int {
    let wanted = if i == 0 && remaining > base { 1 + (remaining - base) } else { 1 };
    let limit = if cap >= 1 { cap as int } else { 1 };
    if wanted < limit { wanted } else { limit }
}

/// The replicas of each module, placed in order: the first module takes
/// what the others do not need (one each), within every module's cap (at
/// least one).
pub open spec fn allocation(caps: Seq<u32>, n: int, remaining: int, base: int) -> Seq<int>
    decreases n,
{
    if n <= 0 {
        Seq::empty()
    } else {
        let prev = allocation(caps, n - 1, remaining, base);
        let left = remaining - sum_of(prev);
        let r = replicas_for(n - 1, caps[n - 1], if left > 0 { left } else { 0 }, base);
        prev.push(r)
    }
}

/// The sum of a list of counts.
pub open spec fn sum_of(s: Seq<int>) -> int
    decreases s.len(),
{
    if s.len() == 0 { 0 } else { sum_of(s.drop_last()) + s.last() }
}

/// Spread `desired_total` replicas over the selected modules with caps
/// `caps`: every module gets at least one; the total asked for is at
/// least the number of modules; the first module takes the surplus, within
/// its cap.  Returns each module's count and the total.
pub fn allocate_replicas(caps: &Vec<u32>, desired_total: u32) -> (r: (Vec<u32>, u32))
    requires
        caps@.len() <= u32::MAX,
    ensures
        ({
            let base: int = if caps@.len() >= 1 { caps@.len() as int } else { 1 };
            let remaining: int = if desired_total >= base { desired_total as int } else { base };
            let a = allocation(caps@, caps@.len() as int, remaining, base);
            &&& r.0@.len() == caps@.len()
            &&& forall|i: int| 0 <= i < caps@.len() ==> r.0@[i] == a[i]
            &&& r.1 == sum_of(a)
        }),
{
    let n = caps.len();
    let base: u32 = if n >= 1 { n as u32 } else { 1 };
    let mut remaining: u32 = if desired_total >= base { desired_total } else { base };
    let ghost rem0 = remaining as int;
    let mut out: Vec<u32> = Vec::new();
    let mut total: u32 = 0;
    for i in 0..n
        invariant
            n == caps@.len(),
            base as int == (if n >= 1 { n as int } else { 1 }),
            rem0 >= base,
            rem0 <= u32::MAX,
            out@.len() == i,
            forall|j: int| 0 <= j < i ==> out@[j] == allocation(caps@, i as int, rem0, base as int)[j],
            allocation(caps@, i as int, rem0, base as int).len() == i,
            total == sum_of(allocation(caps@, i as int, rem0, base as int)),
            total + (n - i) <= rem0,
            remaining == rem0 - total,
    {
        let ghost prev = allocation(caps@, i as int, rem0, base as int);
        let cap = caps[i];
        let mut replicas: u32 = 1;
        if i == 0 && remaining > base {
            replicas = replicas + (remaining - base);
        }
        let limit: u32 = if cap >= 1 { cap } else { 1 };
        if replicas > limit {
            replicas = limit;
        }
        proof {
            assert(allocation(caps@, i + 1, rem0, base as int) == prev.push(replicas as int));
            assert(prev.push(replicas as int).drop_last() =~= prev);
        }
        out.push(replicas);
        total = total + replicas;
        remaining = remaining - replicas;
    }
    (out, total)
}


// ---------------------------------------------------------------------------
// Kernel replicas
// ---------------------------------------------------------------------------

/// Identifier of a kernel replica.
#[derive(Clone, Copy, Debug, PartialEq, Eq, Structural, Hash)]
pub struct ReplicaId(u32);

impl ReplicaId {
    /// The raw value.
    pub closed spec fn spec_value(self) -> u32 {
        self.0
    }

    /// Identifiers are equal exactly when their raw values are.
    pub proof fn lemma_value_determines(a: Self, b: Self)
        ensures
            a == b <==> a.spec_value() == b.spec_value(),
    {
    }

    /// An identifier from its raw value.
    pub fn new(value: u32) -> (r: Self)
        ensures
            r.spec_value() == value,
    {
        ReplicaId(value)
    }

    /// The raw value.
    pub fn value(self) -> (r: u32)
        ensures
            r == self.spec_value(),
    {
        self.0
    }
}

/// Limits applied to a replica.
#[derive(Clone, Copy, Debug, PartialEq, Eq, Structural)]
pub struct ReplicaPolicy {
    /// Most tasks in the replica's scheduler.
    pub max_tasks: u32,
    /// Arena memory cap in bytes.
    pub arena_cap_bytes: u64,
    /// Destroy when idle.
    pub auto_destroy: bool,
    /// CPU the scheduler is pinned to, if any.
    pub cpu_pin: Option<u8>,
}

impl Default for ReplicaPolicy {
    /// 32 tasks, a 1 MiB arena, destroyed when idle, not pinned.
    fn default() -> (r: Self)
        ensures
            r == (ReplicaPolicy { max_tasks: 32, arena_cap_bytes: 1048576, auto_destroy: true, cpu_pin: None }),
    {
        ReplicaPolicy { max_tasks: 32, arena_cap_bytes: 1048576, auto_destroy: true, cpu_pin: None }
    }
}

/// A request for a replica of a model module.
#[derive(Debug)]
pub struct ReplicaRequest {
    /// Dimension.
    pub dimension_id: DimensionId,
    /// Requesting task.
    pub task_id: TaskId,
    /// Model.
    pub model_id: String,
    /// Module.
    pub module_id: String,
    /// Limits.
    pub policy: ReplicaPolicy,
}

impl Clone for ReplicaRequest {
    fn clone(&self) -> (r: Self)
        ensures
            r == *self,
    {
        ReplicaRequest {
            dimension_id: self.dimension_id,
            task_id: self.task_id,
            model_id: self.model_id.clone(),
            module_id: self.module_id.clone(),
            policy: self.policy,
        }
    }
}

/// A created replica.
#[derive(Debug)]
pub struct ReplicaHandle {
    /// Replica id.
    pub id: ReplicaId,
    /// The request it answers.
    pub request: ReplicaRequest,
    /// Creation time, Unix epoch milliseconds.
    pub created_at_ms: u64,
}

impl Clone for ReplicaHandle {
    fn clone(&self) -> (r: Self)
        ensures
            r == *self,
    {
        ReplicaHandle { id: self.id, request: self.request.clone(), created_at_ms: self.created_at_ms }
    }
}

/// Errors of a replica kernel.
#[derive(Debug)]
pub enum ReplicaKernelError {
    /// The replica limit is reached.
    LimitReached(u32),
    /// No such replica.
    ReplicaNotFound(u32),
}

/// A kernel that creates and destroys replicas.
pub trait ReplicaKernel {
    /// Create a replica for a request.
    fn create_replica(&mut self, request: &ReplicaRequest) -> Result<ReplicaHandle, ReplicaKernelError>;

    /// Destroy a replica.
    fn destroy_replica(&mut self, id: ReplicaId) -> Result<(), ReplicaKernelError>;
}

/// A replica kernel held in memory, with a limit on live replicas.
#[derive(Debug)]
pub struct InMemoryReplicaKernel {
    max_replicas: u32,
    next_id: u32,
    replicas: IdMap<ReplicaHandle>,
}

impl InMemoryReplicaKernel {
    /// The live replicas by id.
    pub closed spec fn spec_replicas(&self) -> Map<u128, ReplicaHandle> {
        self.replicas@
    }

    /// The id the next replica gets.
    pub closed spec fn spec_next_id(&self) -> u32 {
        self.next_id
    }

    /// The limit on live replicas.
    pub closed spec fn spec_max(&self) -> u32 {
        self.max_replicas
    }

    /// A kernel with no replica whose first replica gets id 1.
    pub fn new(max_replicas: u32) -> (r: Self)
        ensures
            r.spec_replicas() == Map::<u128, ReplicaHandle>::empty(),
            r.spec_next_id() == 1,
            r.spec_max() == max_replicas,
    {
        InMemoryReplicaKernel { max_replicas, next_id: 1, replicas: IdMap::new() }
    }
}

impl ReplicaKernel for InMemoryReplicaKernel {
    /// Refused at the limit; otherwise the replica gets the next id (ids
    /// wrap around) and is stored.
    fn create_replica(&mut self, request: &ReplicaRequest) -> (r: Result<ReplicaHandle, ReplicaKernelError>)
        ensures
            (r is Err) <==> old(self).spec_replicas().len() >= old(self).spec_max(),
            r matches Err(e) ==> e == ReplicaKernelError::LimitReached(old(self).spec_max()) && *final(self) == *old(self),
            r matches Ok(h) ==> {
                &&& h.id.spec_value() == old(self).spec_next_id()
                &&& h.request == *request
                &&& final(self).spec_replicas() == old(self).spec_replicas().insert(h.id.spec_value() as u128, h)
                &&& final(self).spec_next_id() == old(self).spec_next_id().wrapping_add(1)
                &&& final(self).spec_max() == old(self).spec_max()
            },
    {
        let live = self.replicas.len();
        if live as u64 >= self.max_replicas as u64 {
            return Err(ReplicaKernelError::LimitReached(self.max_replicas));
        }
        let id = ReplicaId::new(self.next_id);
        self.next_id = self.next_id.wrapping_add(1);
        let handle = ReplicaHandle { id, request: request.clone(), created_at_ms: now_ms() };
        self.replicas.insert(id.0 as u128, handle.clone());
        Ok(handle)
    }

    /// Remove a replica; refused when it does not exist.
    fn destroy_replica(&mut self, id: ReplicaId) -> (r: Result<(), ReplicaKernelError>)
        ensures
            (r is Ok) <==> old(self).spec_replicas().contains_key(id.spec_value() as u128),
            r matches Err(e) ==> e == ReplicaKernelError::ReplicaNotFound(id.spec_value()),
            final(self).spec_replicas() == old(self).spec_replicas().remove(id.spec_value() as u128),
            final(self).spec_next_id() == old(self).spec_next_id(),
            final(self).spec_max() == old(self).spec_max(),
    {
        match self.replicas.remove(id.0 as u128) {
            Some(_) => Ok(()),
            None => Err(ReplicaKernelError::ReplicaNotFound(id.value())),
        }
    }
}

/// Errors of the replica pool.
#[derive(Debug)]
pub enum ModelReplicaError {
    /// No module is registered.
    NoModulesAvailable,
    /// The kernel refused.
    KernelError(ReplicaKernelError),
}

impl ModelReplicaError {
    /// The pool error carrying a kernel error.
    pub fn from_kernel(e: ReplicaKernelError) -> (r: Self)
        ensures
            r == ModelReplicaError::KernelError(e),
    {
        ModelReplicaError::KernelError(e)
    }
}

} // verus!
