//! Job scheduling and the task lifecycle: task states and priorities, a
//! priority queue served FIFO within a priority, retries with exponential
//! backoff, cancellation, leases, per-dimension quotas and a token-bucket
//! rate limiter, dependency-aware readiness, preemption, snapshots,
//! templates, and a global task index.

use vstd::prelude::*;
use std::sync::Arc;
use std::sync::atomic::AtomicBool;
use std::time::Instant;
use crate::action_log::{ActionLog, EventType, appended_one, now_ms};
use crate::ids::{DimensionId, TaskId};
use crate::idmap::{IdMap, seq_keys};
use crate::json::{JsonModel, JsonValue, lemma_members_models, uuid_text};
use crate::topo::{kahn_order, has_topological_order, is_topological_order, with_endpoints,
    lemma_with_endpoints, edges_closed, contains_id};

verus! {

// ---------------------------------------------------------------------------
// Clock
// ---------------------------------------------------------------------------

#[verifier::external_type_specification]
#[verifier::external_body]
pub struct ExInstant(std::time::Instant);

/// Reads the monotonic clock with `std::time::Instant::now`.  Nothing is
/// stated of the instant returned.
#[verifier::external_body]
fn instant_now() -> (r: Instant) {
    Instant::now()
}

/// Whole milliseconds elapsed since `t`, from `std::time::Instant::elapsed`
/// and `Duration::as_millis`.  It depends on the clock: nothing is stated.
#[verifier::external_body]
fn millis_since(t: &Instant) -> (r: u64) {
    t.elapsed().as_millis() as u64
}

/// Nanoseconds elapsed since `t`, from `std::time::Instant::elapsed` and
/// `Duration::as_nanos`.  It depends on the clock: nothing is stated.
#[verifier::external_body]
fn nanos_since(t: &Instant) -> (r: u128) {
    t.elapsed().as_nanos()
}

// ---------------------------------------------------------------------------
// Task states and priorities
// ---------------------------------------------------------------------------

/// Lifecycle state of a task:
/// `Queued → Running → Completed | Failed`, `Running ⇄ Paused`,
/// any non-terminal state → `Cancelled`.
#[derive(Clone, Copy, Debug, PartialEq, Eq, Structural, Hash)]
pub enum TaskState {
    /// Waiting in the priority queue.
    Queued,
    /// Executing.
    Running,
    /// Suspended; can be resumed.
    Paused,
    /// Terminated with an error; may be retried.
    Failed,
    /// Completed successfully.
    Completed,
    /// Cancelled; terminal.
    Cancelled,
}

impl TaskState {
    /// Completed, failed or cancelled.
    pub open spec fn spec_is_terminal(self) -> bool {
        self == TaskState::Completed || self == TaskState::Failed || self == TaskState::Cancelled
    }

    /// Returns `true` for states that cannot advance further.
    pub fn is_terminal(self) -> (r: bool)
        ensures
            r == self.spec_is_terminal(),
    {
        match self {
            TaskState::Completed | TaskState::Failed | TaskState::Cancelled => true,
            _ => false,
        }
    }

    /// The lower-case name of a state.
    pub open spec fn spec_str(self) -> Seq<char> {
        match self {
            TaskState::Queued => "queued"@,
            TaskState::Running => "running"@,
            TaskState::Paused => "paused"@,
            TaskState::Failed => "failed"@,
            TaskState::Completed => "completed"@,
            TaskState::Cancelled => "cancelled"@,
        }
    }

    /// The lower-case name of a state.
    pub fn as_str(self) -> (r: &'static str)
        ensures
            r@ == self.spec_str(),
    {
        match self {
            TaskState::Queued => "queued",
            TaskState::Running => "running",
            TaskState::Paused => "paused",
            TaskState::Failed => "failed",
            TaskState::Completed => "completed",
            TaskState::Cancelled => "cancelled",
        }
    }

    /// The lower-case name of a state, as an owned string.
    pub fn to_string(self) -> (r: String)
        ensures
            r@ == self.spec_str(),
    {
        self.as_str().to_owned()
    }
}

/// Task priority; later variants are more urgent.
#[derive(Clone, Copy, Debug, PartialEq, Eq, Structural, Hash, PartialOrd, Ord)]
pub enum TaskPriority {
    /// Background housekeeping.
    Background,
    /// Below normal.
    Low,
    /// Default.
    Normal,
    /// Above normal.
    High,
    /// Time-critical.
    Critical,
}

impl TaskPriority {
    /// The urgency of a priority, from 0 (background) to 4 (critical).
    pub open spec fn spec_rank(self) -> u8 {
        match self {
            TaskPriority::Background => 0,
            TaskPriority::Low => 1,
            TaskPriority::Normal => 2,
            TaskPriority::High => 3,
            TaskPriority::Critical => 4,
        }
    }

    /// The urgency of a priority, from 0 (background) to 4 (critical).
    pub fn rank(self) -> (r: u8)
        ensures
            r == self.spec_rank(),
    {
        match self {
            TaskPriority::Background => 0,
            TaskPriority::Low => 1,
            TaskPriority::Normal => 2,
            TaskPriority::High => 3,
            TaskPriority::Critical => 4,
        }
    }
}

/// Urgency law: the rank strictly increases along the declared order
/// `Background < Low < Normal < High < Critical`, so distinct priorities
/// have distinct ranks and a more urgent priority is always served first.
pub proof fn lemma_rank_follows_urgency()
    ensures
        TaskPriority::Background.spec_rank() < TaskPriority::Low.spec_rank(),
        TaskPriority::Low.spec_rank() < TaskPriority::Normal.spec_rank(),
        TaskPriority::Normal.spec_rank() < TaskPriority::High.spec_rank(),
        TaskPriority::High.spec_rank() < TaskPriority::Critical.spec_rank(),
        forall|a: TaskPriority, b: TaskPriority| a != b ==> #[trigger] a.spec_rank() != #[trigger] b.spec_rank(),
{
}

impl Default for TaskPriority {
    /// `Normal`.
    fn default() -> (r: Self)
        ensures
            r == TaskPriority::Normal,
    {
        TaskPriority::Normal
    }
}

// ---------------------------------------------------------------------------
// Retries
// ---------------------------------------------------------------------------

/// How a failed job is retried: at most `max_attempts` retries, waiting
/// `backoff_base_ms * backoff_multiplier^attempt` milliseconds, capped at
/// `backoff_max_ms`.
#[derive(Clone, Copy, Debug, PartialEq, Eq, Structural)]
pub struct RetryPolicy {
    /// Maximum number of retries (0 = none).
    pub max_attempts: u32,
    /// Base backoff, milliseconds.
    pub backoff_base_ms: u64,
    /// Factor applied per attempt.
    pub backoff_multiplier: u32,
    /// Cap on the backoff, milliseconds.
    pub backoff_max_ms: u64,
}

/// `b^e`.
pub open spec fn pow(b: int, e: nat) -> int
    decreases e,
{
    if e == 0 { 1 } else { b * pow(b, (e - 1) as nat) }
}

/// The backoff before retry number `attempt` (counting from 0).
pub open spec fn backoff_ms(p: RetryPolicy, attempt: nat) -> int {
    let raw = p.backoff_base_ms * pow(p.backoff_multiplier as int, attempt);
    if raw < p.backoff_max_ms { raw } else { p.backoff_max_ms as int }
}

proof fn lemma_pow_nonneg(b: int, e: nat)
    requires
        b >= 0,
    ensures
        pow(b, e) >= 0,
    decreases e,
{
    if e > 0 {
        lemma_pow_nonneg(b, (e - 1) as nat);
        assert(b * pow(b, (e - 1) as nat) >= 0) by (nonlinear_arith)
            requires b >= 0, pow(b, (e - 1) as nat) >= 0;
    }
}

/// Once `base * b^e` reaches `cap`, every later power reaches it too.
proof fn lemma_pow_grows(base: int, b: int, e: nat, cap: int)
    requires
        base >= 0,
        b >= 1,
        base * pow(b, e) >= cap,
    ensures
        base * pow(b, e + 1) >= cap,
{
    lemma_pow_nonneg(b, e);
    assert(pow(b, e + 1) == b * pow(b, e));
    assert(base * (b * pow(b, e)) >= base * pow(b, e)) by (nonlinear_arith)
        requires base >= 0, b >= 1, pow(b, e) >= 0;
}

impl RetryPolicy {
    /// Three retries, 500 ms base, doubling, 30 s cap.
    pub fn default_policy() -> (r: Self)
        ensures
            r == (RetryPolicy { max_attempts: 3, backoff_base_ms: 500, backoff_multiplier: 2, backoff_max_ms: 30_000 }),
    {
        RetryPolicy { max_attempts: 3, backoff_base_ms: 500, backoff_multiplier: 2, backoff_max_ms: 30_000 }
    }

    /// The default policy with no retries.
    pub fn no_retry() -> (r: Self)
        ensures
            r == (RetryPolicy { max_attempts: 0, ..RetryPolicy::default_policy_spec() }),
    {
        RetryPolicy { max_attempts: 0, ..RetryPolicy::default_policy() }
    }

    /// The default policy.
    pub open spec fn default_policy_spec() -> RetryPolicy {
        RetryPolicy { max_attempts: 3, backoff_base_ms: 500, backoff_multiplier: 2, backoff_max_ms: 30_000 }
    }

    /// The backoff in milliseconds before retry number `attempt`
    /// (counting from 0): `base * multiplier^attempt`, capped at the maximum.
    pub fn backoff(self, attempt: u32) -> (r: u64)
        ensures
            r == backoff_ms(self, attempt as nat),
    {
        let cap = self.backoff_max_ms as u128;
        let mut cur: u128 = self.backoff_base_ms as u128;
        let mut i: u32 = 0;
        proof {
            assert(pow(self.backoff_multiplier as int, 0) == 1);
        }
        while i < attempt
            invariant
                i <= attempt,
                cap == self.backoff_max_ms,
                cur < cap ==> cur == self.backoff_base_ms * pow(self.backoff_multiplier as int, i as nat),
                cur >= cap ==> self.backoff_base_ms * pow(self.backoff_multiplier as int, i as nat) >= cap,
                self.backoff_multiplier == 0 ==> cur == self.backoff_base_ms * pow(self.backoff_multiplier as int, i as nat),
                cur < 0x1_0000_0000_0000_0000,
            decreases attempt - i,
        {
            proof {
                lemma_pow_nonneg(self.backoff_multiplier as int, i as nat);
                assert(pow(self.backoff_multiplier as int, (i + 1) as nat)
                    == self.backoff_multiplier * pow(self.backoff_multiplier as int, i as nat));
            }
            if cur >= cap && self.backoff_multiplier >= 1 {
                proof {
                    lemma_pow_grows(self.backoff_base_ms as int, self.backoff_multiplier as int, i as nat, cap as int);
                }
            } else if self.backoff_multiplier == 0 {
                proof {
                    assert(self.backoff_multiplier * pow(self.backoff_multiplier as int, i as nat) == 0);
                    assert(self.backoff_base_ms * pow(self.backoff_multiplier as int, (i + 1) as nat) == 0);
                }
                cur = 0;
            } else {
                assert(cur * (self.backoff_multiplier as u128) < 0x1_0000_0000_0000_0000 * 0x1_0000_0000) by (nonlinear_arith)
                    requires cur < cap, cap < 0x1_0000_0000_0000_0000, self.backoff_multiplier < 0x1_0000_0000;
                let next = cur * (self.backoff_multiplier as u128);
                proof {
                    assert(next == self.backoff_base_ms * pow(self.backoff_multiplier as int, (i + 1) as nat)) by (nonlinear_arith)
                        requires
                            next == cur * self.backoff_multiplier,
                            cur == self.backoff_base_ms * pow(self.backoff_multiplier as int, i as nat),
                            pow(self.backoff_multiplier as int, (i + 1) as nat)
                                == self.backoff_multiplier * pow(self.backoff_multiplier as int, i as nat);
                }
                if next >= cap {
                    cur = cap;
                } else {
                    cur = next;
                }
            }
            i = i + 1;
        }
        if cur < cap {
            cur as u64
        } else {
            self.backoff_max_ms
        }
    }
}

impl Default for RetryPolicy {
    /// Three retries, 500 ms base, doubling, 30 s cap.
    fn default() -> (r: Self)
        ensures
            r == RetryPolicy::default_policy_spec(),
    {
        RetryPolicy::default_policy()
    }
}

// ---------------------------------------------------------------------------
// Cancellation
// ---------------------------------------------------------------------------

/// A cancellation signal shared by all clones of a token.
///
/// Other clones may set the signal at any time, so nothing is stated of what
/// `is_cancelled` returns.
#[derive(Clone, Debug)]
pub struct CancellationToken {
    inner: Arc<AtomicBool>,
}

impl CancellationToken {
    /// A new, unset token.
    pub fn new() -> (r: Self) {
        CancellationToken { inner: Arc::new(AtomicBool::new(false)) }
    }

    /// Signal cancellation to every clone.
    pub fn cancel(&self) {
        self.inner.store(true, std::sync::atomic::Ordering::Release);
    }

    /// Whether cancellation has been signalled.
    pub fn is_cancelled(&self) -> (r: bool) {
        self.inner.load(std::sync::atomic::Ordering::Acquire)
    }
}

impl Default for CancellationToken {
    /// A new, unset token.
    fn default() -> (r: Self) {
        CancellationToken::new()
    }
}

// ---------------------------------------------------------------------------
// Leases
// ---------------------------------------------------------------------------

/// Exclusive execution rights of a worker over a task for a bounded period,
/// renewed by heartbeats.
#[derive(Debug)]
pub struct Lease {
    task_id: TaskId,
    worker_id: String,
    ttl_ms: u64,
    renewed_at: Instant,
}

impl Lease {
    /// The task covered.
    pub closed spec fn spec_task_id(&self) -> TaskId {
        self.task_id
    }

    /// The worker holding the lease.
    pub closed spec fn spec_worker_id(&self) -> Seq<char> {
        self.worker_id@
    }

    /// The time to live, milliseconds.
    pub closed spec fn spec_ttl_ms(&self) -> u64 {
        self.ttl_ms
    }

    /// Whether `elapsed_ms` milliseconds after the last renewal are past the
    /// time to live.
    pub open spec fn spec_expired_after(&self, elapsed_ms: u64) -> bool {
        elapsed_ms >= self.spec_ttl_ms()
    }

    /// Acquire a lease for `task_id` by `worker_id`, renewed now.
    pub fn acquire(task_id: TaskId, worker_id: &str, ttl_ms: u64) -> (r: Self)
        ensures
            r.spec_task_id() == task_id,
            r.spec_worker_id() == worker_id@,
            r.spec_ttl_ms() == ttl_ms,
    {
        Lease { task_id, worker_id: worker_id.to_owned(), ttl_ms, renewed_at: instant_now() }
    }

    /// Renew the lease now.
    pub fn heartbeat(&mut self)
        ensures
            final(self).spec_task_id() == old(self).spec_task_id(),
            final(self).spec_worker_id() == old(self).spec_worker_id(),
            final(self).spec_ttl_ms() == old(self).spec_ttl_ms(),
    {
        self.renewed_at = instant_now();
    }

    /// Whether a lease last renewed `elapsed_ms` milliseconds ago has expired.
    pub fn expired_after(&self, elapsed_ms: u64) -> (r: bool)
        ensures
            r == self.spec_expired_after(elapsed_ms),
    {
        elapsed_ms >= self.ttl_ms
    }

    /// Whether the time to live has elapsed since the last renewal; the
    /// elapsed time comes from the clock, so this is `expired_after` of some
    /// number of milliseconds.
    pub fn is_expired(&self) -> (r: bool)
        ensures
            exists|elapsed_ms: u64| r == #[trigger] self.spec_expired_after(elapsed_ms),
            self.spec_ttl_ms() == 0 ==> r,
    {
        let elapsed = millis_since(&self.renewed_at);
        self.expired_after(elapsed)
    }

    /// The task covered.
    pub fn task_id(&self) -> (r: TaskId)
        ensures
            r == self.spec_task_id(),
    {
        self.task_id
    }

    /// The worker holding the lease.
    pub fn worker_id(&self) -> (r: &str)
        ensures
            r@ == self.spec_worker_id(),
    {
        self.worker_id.as_str()
    }

    /// The time to live, milliseconds.
    pub fn ttl(&self) -> (r: u64)
        ensures
            r == self.spec_ttl_ms(),
    {
        self.ttl_ms
    }
}

// ---------------------------------------------------------------------------
// Quotas and rate limiting
// ---------------------------------------------------------------------------

/// Resource limits of one dimension.
#[derive(Clone, Copy, Debug, PartialEq, Eq, Structural)]
pub struct DimensionQuota {
    /// Maximum concurrently running tasks.
    pub max_concurrent: usize,
    /// Maximum depth of the waiting queue.
    pub max_queued: usize,
    /// Maximum submissions per second (0 = unlimited).
    pub max_tasks_per_second: u32,
}

impl Default for DimensionQuota {
    /// 16 concurrent, 256 queued, 100 per second.
    fn default() -> (r: Self)
        ensures
            r == (DimensionQuota { max_concurrent: 16, max_queued: 256, max_tasks_per_second: 100 }),
    {
        DimensionQuota { max_concurrent: 16, max_queued: 256, max_tasks_per_second: 100 }
    }
}

/// Token bucket holding tokens in billionths, refilled at `rate` tokens per
/// second (one billionth per nanosecond per unit of rate) up to `capacity`
/// tokens; one submission takes one token.
#[derive(Debug)]
pub struct RateLimiter {
    capacity: u32,
    nano_tokens: u128,
    rate: u32,
    last_refill: Instant,
}

/// Billionths of a token in one token.
pub const NANO_TOKENS_PER_TOKEN: u128 = 1_000_000_000;

/// The bucket after `elapsed_ns` nanoseconds of refilling.
pub open spec fn refilled(nano_tokens: int, elapsed_ns: int, rate: int, capacity: int) -> int {
    let t = nano_tokens + elapsed_ns * rate;
    let full = capacity * NANO_TOKENS_PER_TOKEN;
    if t < full { t } else { full }
}

impl RateLimiter {
    /// The bucket size, tokens.
    pub closed spec fn spec_capacity(&self) -> int {
        self.capacity as int
    }

    /// The tokens held, billionths.
    pub closed spec fn spec_nano_tokens(&self) -> int {
        self.nano_tokens as int
    }

    /// The refill rate, tokens per second (0 = unlimited).
    pub closed spec fn spec_rate(&self) -> int {
        self.rate as int
    }

    /// A full bucket of `max(rate, 1)` tokens; `rate = 0` disables limiting.
    pub fn new(rate: u32) -> (r: Self)
        ensures
            r.spec_rate() == rate,
            r.spec_capacity() == if rate == 0 { 1 } else { rate as int },
            r.spec_nano_tokens() == r.spec_capacity() * NANO_TOKENS_PER_TOKEN,
    {
        let capacity: u32 = if rate == 0 { 1 } else { rate };
        RateLimiter {
            capacity,
            nano_tokens: capacity as u128 * NANO_TOKENS_PER_TOKEN,
            rate,
            last_refill: instant_now(),
        }
    }

    /// Refill for `elapsed_ns` nanoseconds, then take one token if there is
    /// one; what is left of a token stays in the bucket.  An unlimited
    /// limiter always grants.
    pub fn acquire_after(&mut self, elapsed_ns: u128) -> (r: bool)
        ensures
            old(self).spec_rate() == 0 ==> r && final(self).spec_nano_tokens() == old(self).spec_nano_tokens(),
            old(self).spec_rate() != 0 ==> {
                let t = refilled(old(self).spec_nano_tokens(), elapsed_ns as int, old(self).spec_rate(), old(self).spec_capacity());
                &&& r == (t >= NANO_TOKENS_PER_TOKEN)
                &&& final(self).spec_nano_tokens() == if r { t - NANO_TOKENS_PER_TOKEN } else { t }
            },
            final(self).spec_rate() == old(self).spec_rate(),
            final(self).spec_capacity() == old(self).spec_capacity(),
    {
        if self.rate == 0 {
            return true;
        }
        let full: u128 = self.capacity as u128 * NANO_TOKENS_PER_TOKEN;
        let ghost exact = elapsed_ns as int * self.rate as int;
        let added: u128 = if elapsed_ns >= full {
            assert(exact >= full) by (nonlinear_arith)
                requires exact == elapsed_ns as int * self.rate as int, elapsed_ns >= full, self.rate >= 1;
            full
        } else {
            assert(elapsed_ns as int * self.rate as int <= full as int * 0x1_0000_0000) by (nonlinear_arith)
                requires elapsed_ns < full, self.rate < 0x1_0000_0000int;
            elapsed_ns * (self.rate as u128)
        };
        let t: u128 = if self.nano_tokens >= full || added >= full - self.nano_tokens { full } else { self.nano_tokens + added };
        if t >= NANO_TOKENS_PER_TOKEN {
            self.nano_tokens = t - NANO_TOKENS_PER_TOKEN;
            true
        } else {
            self.nano_tokens = t;
            false
        }
    }

    /// Try to take one token, refilling for the time since the last call.
    /// The time comes from the clock: whatever it was, the outcome is that of
    /// `acquire_after` for some number of nanoseconds.
    pub fn try_acquire(&mut self) -> (r: bool)
        ensures
            old(self).spec_rate() == 0 ==> r && final(self).spec_nano_tokens() == old(self).spec_nano_tokens(),
            old(self).spec_rate() != 0 ==> exists|elapsed_ns: u128| {
                let t = #[trigger] refilled(old(self).spec_nano_tokens(), elapsed_ns as int, old(self).spec_rate(), old(self).spec_capacity());
                &&& r == (t >= NANO_TOKENS_PER_TOKEN)
                &&& final(self).spec_nano_tokens() == if r { t - NANO_TOKENS_PER_TOKEN } else { t }
            },
            final(self).spec_rate() == old(self).spec_rate(),
            final(self).spec_capacity() == old(self).spec_capacity(),
    {
        if self.rate == 0 {
            return true;
        }
        let ghost before = self.nano_tokens as int;
        let elapsed = nanos_since(&self.last_refill);
        let r = self.acquire_after(elapsed);
        self.last_refill = instant_now();
        proof {
            let t = refilled(before, elapsed as int, self.rate as int, self.capacity as int);
            assert(r == (t >= NANO_TOKENS_PER_TOKEN) && self.nano_tokens as int == if r { t - NANO_TOKENS_PER_TOKEN } else { t });
        }
        r
    }
}

// ---------------------------------------------------------------------------
// Preemption
// ---------------------------------------------------------------------------

/// Whether and how a running task can be interrupted.
#[derive(Clone, Copy, Debug, PartialEq, Eq, Structural)]
pub enum PreemptionPolicy {
    /// Never preempted.
    Never,
    /// A higher-priority task may preempt it.
    ByPriority,
    /// A critical task may preempt it.
    ByDeadline,
    /// Always preemptible.
    Always,
}

impl Default for PreemptionPolicy {
    /// `Never`.
    fn default() -> (r: Self)
        ensures
            r == PreemptionPolicy::Never,
    {
        PreemptionPolicy::Never
    }
}

// ---------------------------------------------------------------------------
// Jobs and errors
// ---------------------------------------------------------------------------

/// A task queued in the scheduler.
#[derive(Debug)]
pub struct JobEntry {
    /// Globally unique task id.
    pub task_id: TaskId,
    /// Owning dimension.
    pub dimension_id: DimensionId,
    /// Priority.
    pub priority: TaskPriority,
    /// Lifecycle state.
    pub state: TaskState,
    /// Optional name.
    pub name: Option<String>,
    /// Retry policy.
    pub retry_policy: RetryPolicy,
    /// Retries consumed so far.
    pub retry_count: u32,
    /// Preemption policy.
    pub preemption_policy: PreemptionPolicy,
}

impl Clone for JobEntry {
    fn clone(&self) -> (r: Self)
        ensures
            r == *self,
    {
        JobEntry {
            task_id: self.task_id,
            dimension_id: self.dimension_id,
            priority: self.priority,
            state: self.state,
            name: match &self.name {
                Some(n) => Some(n.clone()),
                None => None,
            },
            retry_policy: self.retry_policy,
            retry_count: self.retry_count,
            preemption_policy: self.preemption_policy,
        }
    }
}

/// Whether `candidate` may preempt `current`, by `current`'s policy.
pub open spec fn preempts(current: JobEntry, candidate: JobEntry) -> bool {
    match current.preemption_policy {
        PreemptionPolicy::Never => false,
        PreemptionPolicy::Always => true,
        PreemptionPolicy::ByPriority => candidate.priority.spec_rank() > current.priority.spec_rank(),
        PreemptionPolicy::ByDeadline => candidate.priority == TaskPriority::Critical
            && current.priority.spec_rank() < TaskPriority::Critical.spec_rank(),
    }
}

/// Preemption law: a running task that never yields is never preempted, one
/// that always yields always is; under `ByPriority` only a strictly more
/// urgent candidate preempts (never one of the same priority, never a less
/// urgent one); under `ByDeadline` only a critical candidate preempts a
/// task that is not critical itself.
pub proof fn lemma_preemption(current: JobEntry, candidate: JobEntry)
    ensures
        current.preemption_policy == PreemptionPolicy::Never ==> !preempts(current, candidate),
        current.preemption_policy == PreemptionPolicy::Always ==> preempts(current, candidate),
        current.preemption_policy == PreemptionPolicy::ByPriority ==> (preempts(current, candidate)
            <==> candidate.priority.spec_rank() > current.priority.spec_rank()),
        current.preemption_policy == PreemptionPolicy::ByPriority && candidate.priority == current.priority
            ==> !preempts(current, candidate),
        current.preemption_policy == PreemptionPolicy::ByPriority && current.priority == TaskPriority::Critical
            ==> !preempts(current, candidate),
        current.preemption_policy == PreemptionPolicy::ByPriority && candidate.priority == TaskPriority::Critical
            ==> (preempts(current, candidate) <==> current.priority != TaskPriority::Critical),
        current.preemption_policy == PreemptionPolicy::ByPriority && candidate.priority == TaskPriority::Background
            ==> !preempts(current, candidate),
        current.preemption_policy == PreemptionPolicy::ByDeadline ==> (preempts(current, candidate)
            <==> (candidate.priority == TaskPriority::Critical && current.priority != TaskPriority::Critical)),
{
    lemma_rank_follows_urgency();
}

/// Whether `candidate` may preempt `current`.
pub fn should_preempt(current: &JobEntry, candidate: &JobEntry) -> (r: bool)
    ensures
        r == preempts(*current, *candidate),
{
    match current.preemption_policy {
        PreemptionPolicy::Never => false,
        PreemptionPolicy::Always => true,
        PreemptionPolicy::ByPriority => candidate.priority.rank() > current.priority.rank(),
        PreemptionPolicy::ByDeadline => candidate.priority == TaskPriority::Critical
            && current.priority.rank() < TaskPriority::Critical.rank(),
    }
}

/// Errors of the scheduler.
#[derive(Debug)]
pub enum SchedulerError {
    /// The task does not exist.
    TaskNotFound(TaskId),
    /// The task is in a state that forbids the operation.
    AlreadyTerminal(TaskId),
    /// A quota of the dimension was exceeded.
    QuotaExceeded(DimensionId, String),
    /// A dependency cycle would be created.
    DagCycle,
    /// A dependency is not registered.
    UnknownDependency(TaskId),
    /// The task is not in the global index.
    NotInIndex(TaskId),
    /// A task with this id already exists.
    DuplicateTaskId(TaskId),
}

// ---------------------------------------------------------------------------
// Dependencies
// ---------------------------------------------------------------------------

/// The precedence edges of dependency pairs: `(task, dep)` gives `dep → task`.
pub open spec fn dep_edges(pairs: Seq<(u128, u128)>) -> Seq<(u128, u128)> {
    pairs.map_values(|p: (u128, u128)| (p.1, p.0))
}

/// The tasks and dependencies can be ordered so that every dependency comes
/// before the task that waits for it.
pub open spec fn deps_acyclic(pairs: Seq<(u128, u128)>) -> bool {
    has_topological_order(with_endpoints(Seq::empty(), dep_edges(pairs)), dep_edges(pairs))
}

/// `path` is a chain of dependencies: each of its tasks waits for the next
/// one (`(path[i], path[i + 1])` is a pair).
pub open spec fn dep_chain(pairs: Seq<(u128, u128)>, path: Seq<u128>) -> bool {
    &&& path.len() >= 1
    &&& forall|i: int| 0 <= i < path.len() - 1 ==> pairs.contains((#[trigger] path[i], path[i + 1]))
}

/// `from` waits, directly or through other tasks, for `to`.
pub open spec fn waits_for(pairs: Seq<(u128, u128)>, from: u128, to: u128) -> bool {
    exists|path: Seq<u128>| #[trigger] dep_chain(pairs, path) && path[0] == from && path.last() == to
}

/// The position of `x` in `o` (meaningful when `o` holds it).
spec fn pos(o: Seq<u128>, x: u128) -> int {
    choose|i: int| 0 <= i < o.len() && o[i] == x
}

/// `o` holds both tasks of every pair, the dependency first.
spec fn respects(o: Seq<u128>, pairs: Seq<(u128, u128)>) -> bool {
    forall|x: u128, y: u128| #[trigger] pairs.contains((x, y)) ==> o.contains(x) && o.contains(y) && pos(o, y) < pos(o, x)
}

/// In an order where every dependency comes before the task that waits for
/// it, the end of a chain comes no later than its start.
proof fn lemma_chain_order(o: Seq<u128>, pairs: Seq<(u128, u128)>, path: Seq<u128>, n: int)
    requires
        dep_chain(pairs, path),
        0 <= n < path.len(),
        respects(o, pairs),
    ensures
        pos(o, path[n]) <= pos(o, path[0]),
    decreases n,
{
    if n > 0 {
        lemma_chain_order(o, pairs, path, n - 1);
        assert(pairs.contains((path[n - 1], path[n])));
    }
}

/// A chain of dependencies stays one when a pair is added.
proof fn lemma_chain_push(pairs: Seq<(u128, u128)>, e: (u128, u128), path: Seq<u128>)
    requires
        dep_chain(pairs, path),
    ensures
        dep_chain(pairs.push(e), path),
{
    assert forall|i: int| 0 <= i < path.len() - 1 implies pairs.push(e).contains((#[trigger] path[i], path[i + 1])) by {
        assert(pairs.contains((path[i], path[i + 1])));
        let k = choose|k: int| 0 <= k < pairs.len() && pairs[k] == (path[i], path[i + 1]);
        assert(pairs.push(e)[k] == (path[i], path[i + 1]));
    }
}

/// In an order of the tasks where every dependency comes first, both tasks
/// of every pair occur, the dependency first.
proof fn lemma_order_respects(o: Seq<u128>, np: Seq<(u128, u128)>)
    requires
        is_topological_order(o, with_endpoints(Seq::empty(), dep_edges(np)), dep_edges(np)),
    ensures
        respects(o, np),
{
    let es = dep_edges(np);
    let verts = with_endpoints(Seq::empty(), es);
    assert(crate::topo::covers(o, verts) && crate::topo::edges_forward(o, es)) by {
        reveal(is_topological_order);
    }
    lemma_with_endpoints(Seq::empty(), es);
    assert forall|x: u128, y: u128| #[trigger] np.contains((x, y))
        implies o.contains(x) && o.contains(y) && pos(o, y) < pos(o, x) by {
        let k = choose|k: int| 0 <= k < np.len() && np[k] == (x, y);
        assert(es[k] == (y, x));
        assert(verts.contains(x) && verts.contains(y));
        assert(o.contains(x) && o.contains(y)) by {
            reveal(crate::topo::covers);
        }
        let i = pos(o, y);
        let j = pos(o, x);
        assert(o[i] == es[k].0 && o[j] == es[k].1);
        assert(i < j) by {
            reveal(crate::topo::edges_forward);
        }
    }
}

/// A task cannot wait for itself, nor for a task that waits for it: adding
/// such a dependency leaves no order of the tasks in which every dependency
/// comes first.
pub proof fn lemma_dependency_cycle(pairs: Seq<(u128, u128)>, task: u128, dep: u128)
    requires
        task == dep || waits_for(pairs, dep, task),
    ensures
        !deps_acyclic(pairs.push((task, dep))),
{
    let np = pairs.push((task, dep));
    if deps_acyclic(np) {
        let o = choose|o: Seq<u128>| is_topological_order(o, with_endpoints(Seq::empty(), dep_edges(np)), dep_edges(np));
        lemma_order_respects(o, np);
        assert(np[pairs.len() as int] == (task, dep));
        assert(np.contains((task, dep)));
        assert(pos(o, dep) < pos(o, task));
        if task != dep {
            let path = choose|path: Seq<u128>| #[trigger] dep_chain(pairs, path) && path[0] == dep && path.last() == task;
            lemma_chain_push(pairs, (task, dep), path);
            lemma_chain_order(o, np, path, path.len() - 1);
        }
    }
}

/// In a sequence without repeats, the element at `i` is found at `i`.
proof fn lemma_pos_unique(s: Seq<u128>, i: int)
    requires
        s.no_duplicates(),
        0 <= i < s.len(),
    ensures
        pos(s, s[i]) == i,
{
    let j = pos(s, s[i]);
    assert(0 <= j < s.len() && s[j] == s[i]);
}

/// Filtering a sequence without repeats keeps it without repeats and keeps
/// its order; a filter and its complement together are as long as it.
proof fn lemma_filter_keeps_order(s: Seq<u128>, p: spec_fn(u128) -> bool)
    requires
        s.no_duplicates(),
    ensures
        s.filter(p).no_duplicates(),
        forall|a: int, b: int| 0 <= a < b < s.filter(p).len() ==> pos(s, s.filter(p)[a]) < pos(s, s.filter(p)[b]),
        s.filter(p).len() + s.filter(|x: u128| !p(x)).len() == s.len(),
    decreases s.len(),
{
    let np = |x: u128| !p(x);
    if s.len() == 0 {
        assert(s.filter(p) =~= Seq::<u128>::empty()) by { reveal(Seq::filter); }
        assert(s.filter(np) =~= Seq::<u128>::empty()) by { reveal(Seq::filter); }
    } else {
        let q = s.drop_last();
        let e = s.last();
        assert(q.push(e) == s);
        assert(q.no_duplicates()) by {
            assert forall|a: int, b: int| 0 <= a < q.len() && 0 <= b < q.len() && a != b implies q[a] != q[b] by {
                assert(s[a] == q[a] && s[b] == q[b]);
            }
        }
        assert(!q.contains(e)) by {
            if q.contains(e) {
                let j = choose|j: int| 0 <= j < q.len() && q[j] == e;
                assert(s[j] == e && s[s.len() - 1] == e);
            }
        }
        lemma_filter_keeps_order(q, p);
        q.lemma_filter_push(e, p);
        q.lemma_filter_push(e, np);
        let fq = q.filter(p);
        let f = s.filter(p);
        assert forall|x: u128| #[trigger] fq.contains(x) implies q.contains(x) && pos(s, x) == pos(q, x) by {
            q.lemma_filter_contains_rev(p, x);
            let i = choose|i: int| 0 <= i < q.len() && q[i] == x;
            lemma_pos_unique(q, i);
            assert(s[i] == x);
            lemma_pos_unique(s, i);
        }
        lemma_pos_unique(s, s.len() - 1);
        if p(e) {
            assert(f == fq.push(e));
            assert(f.no_duplicates()) by {
                assert forall|a: int, b: int| 0 <= a < f.len() && 0 <= b < f.len() && a != b implies f[a] != f[b] by {
                    if a < fq.len() && b < fq.len() {
                    } else if a < fq.len() {
                        assert(fq.contains(fq[a]));
                    } else {
                        assert(fq.contains(fq[b]));
                    }
                }
            }
            assert forall|a: int, b: int| 0 <= a < b < f.len() implies pos(s, f[a]) < pos(s, f[b]) by {
                assert(fq.contains(fq[a]));
                if b < fq.len() {
                    assert(fq.contains(fq[b]));
                }
            }
        } else {
            assert(f == fq);
            assert forall|a: int, b: int| 0 <= a < b < f.len() implies pos(s, f[a]) < pos(s, f[b]) by {
                assert(fq.contains(fq[a]));
                assert(fq.contains(fq[b]));
            }
        }
    }
}

/// Two elements of a filtered sequence without repeats stand in the order
/// they have in the sequence.
proof fn lemma_filter_index_order(s: Seq<u128>, p: spec_fn(u128) -> bool, a: int, b: int)
    requires
        s.no_duplicates(),
        0 <= a < s.filter(p).len(),
        0 <= b < s.filter(p).len(),
        pos(s, s.filter(p)[a]) < pos(s, s.filter(p)[b]),
    ensures
        a < b,
{
    lemma_filter_keeps_order(s, p);
}

/// A task waits for whatever a task it waits for waits for.
proof fn lemma_waits_for_step(pairs: Seq<(u128, u128)>, v: u128, u: u128, t: u128)
    requires
        pairs.contains((v, u)),
        waits_for(pairs, u, t),
    ensures
        waits_for(pairs, v, t),
{
    let path = choose|path: Seq<u128>| #[trigger] dep_chain(pairs, path) && path[0] == u && path.last() == t;
    let np = seq![v] + path;
    assert(dep_chain(pairs, np)) by {
        assert forall|i: int| 0 <= i < np.len() - 1 implies pairs.contains((#[trigger] np[i], np[i + 1])) by {
            if i == 0 {
                assert(np[0] == v && np[1] == path[0]);
            } else {
                assert(np[i] == path[i - 1] && np[i + 1] == path[i]);
            }
        }
    }
    assert(np[0] == v && np.last() == path.last());
}

/// A task may wait for a task that does not already wait for it: the
/// dependencies stay acyclic.
#[verifier::rlimit(30)]
pub proof fn lemma_dependency_accepted(pairs: Seq<(u128, u128)>, task: u128, dep: u128)
    requires
        deps_acyclic(pairs),
        task != dep,
        !waits_for(pairs, dep, task),
    ensures
        deps_acyclic(pairs.push((task, dep))),
{
    let es = dep_edges(pairs);
    let vs = with_endpoints(Seq::empty(), es);
    let o = choose|o: Seq<u128>| is_topological_order(o, vs, es);
    assert(o.no_duplicates() && o.len() == vs.len() && crate::topo::within(o, vs) && crate::topo::covers(o, vs)
        && crate::topo::edges_forward(o, es)) by {
        reveal(is_topological_order);
    }
    assert(forall|x: u128| #[trigger] o.contains(x) <==> vs.contains(x)) by {
        reveal(crate::topo::within);
        reveal(crate::topo::covers);
    }
    lemma_with_endpoints(Seq::empty(), es);
    let np = pairs.push((task, dep));
    let es2 = dep_edges(np);
    assert(es2 =~= es.push((dep, task)));
    assert(es2.drop_last() =~= es);
    let vs2 = with_endpoints(Seq::empty(), es2);
    assert(vs2 == crate::topo::push_absent(crate::topo::push_absent(vs, dep), task));
    let o1 = crate::topo::push_absent(crate::topo::push_absent(o, dep), task);
    crate::topo::lemma_push_absent(o, dep);
    crate::topo::lemma_push_absent(crate::topo::push_absent(o, dep), task);
    crate::topo::lemma_push_absent(vs, dep);
    lemma_with_endpoints(Seq::empty(), es2);
    assert(o1.len() == vs2.len());
    assert(forall|x: u128| #[trigger] o1.contains(x) <==> vs2.contains(x));
    assert(forall|i: int| 0 <= i < o.len() ==> o1[i] == o[i]);
    let reach = |w: u128| waits_for(pairs, w, task);
    let nreach = |w: u128| !reach(w);
    let a = o1.filter(nreach);
    let b = o1.filter(reach);
    lemma_filter_keeps_order(o1, reach);
    lemma_filter_keeps_order(o1, nreach);
    let ord = a + b;
    assert(reach(task)) by {
        let path = seq![task];
        assert(dep_chain(pairs, path));
    }
    assert(!reach(dep));
    // membership of the two parts
    assert forall|x: u128| #[trigger] a.contains(x) <==> (o1.contains(x) && !reach(x)) by {
        if a.contains(x) {
            o1.lemma_filter_contains_rev(nreach, x);
        }
        if o1.contains(x) && !reach(x) {
            let i = choose|i: int| 0 <= i < o1.len() && o1[i] == x;
            o1.lemma_filter_contains(nreach, i);
        }
    }
    assert forall|x: u128| #[trigger] b.contains(x) <==> (o1.contains(x) && reach(x)) by {
        if b.contains(x) {
            o1.lemma_filter_contains_rev(reach, x);
        }
        if o1.contains(x) && reach(x) {
            let i = choose|i: int| 0 <= i < o1.len() && o1[i] == x;
            o1.lemma_filter_contains(reach, i);
        }
    }
    // positions of old vertices are those of the old order
    assert forall|x: u128| #[trigger] o.contains(x) implies pos(o1, x) == pos(o, x) by {
        let i = choose|i: int| 0 <= i < o.len() && o[i] == x;
        lemma_pos_unique(o, i);
        assert(o1[i] == x);
        lemma_pos_unique(o1, i);
    }
    assert(ord.no_duplicates()) by {
        assert forall|i: int, j: int| 0 <= i < ord.len() && 0 <= j < ord.len() && i != j implies ord[i] != ord[j] by {
            if i < a.len() && j < a.len() {
            } else if i >= a.len() && j >= a.len() {
                assert(ord[i] == b[i - a.len()] && ord[j] == b[j - a.len()]);
            } else if i < a.len() {
                assert(a.contains(ord[i]));
                assert(ord[j] == b[j - a.len()]);
                assert(b.contains(ord[j]));
            } else {
                assert(a.contains(ord[j]));
                assert(ord[i] == b[i - a.len()]);
                assert(b.contains(ord[i]));
            }
        }
    }
    assert(crate::topo::within(ord, vs2)) by {
        reveal(crate::topo::within);
        assert forall|i: int| 0 <= i < ord.len() implies vs2.contains(#[trigger] ord[i]) by {
            if i < a.len() {
                assert(a.contains(ord[i]));
            } else {
                assert(ord[i] == b[i - a.len()]);
                assert(b.contains(ord[i]));
            }
        }
    }
    assert(crate::topo::covers(ord, vs2)) by {
        reveal(crate::topo::covers);
        assert forall|x: u128| #[trigger] vs2.contains(x) implies ord.contains(x) by {
            if reach(x) {
                assert(b.contains(x));
                let j = choose|j: int| 0 <= j < b.len() && b[j] == x;
                assert(ord[a.len() + j] == x);
            } else {
                assert(a.contains(x));
                let j = choose|j: int| 0 <= j < a.len() && a[j] == x;
                assert(ord[j] == x);
            }
        }
    }
    assert(crate::topo::edges_forward(ord, es2)) by {
        reveal(crate::topo::edges_forward);
        assert forall|k: int, i: int, j: int|
            0 <= k < es2.len() && 0 <= i < ord.len() && 0 <= j < ord.len()
                && #[trigger] ord[i] == es2[k].0 && #[trigger] ord[j] == #[trigger] es2[k].1 implies i < j by {
            let u = es2[k].0;
            let v = es2[k].1;
            assert(i < a.len() ==> a.contains(ord[i]));
            assert(i >= a.len() ==> ord[i] == b[i - a.len()] && b.contains(ord[i]));
            assert(j < a.len() ==> a.contains(ord[j]));
            assert(j >= a.len() ==> ord[j] == b[j - a.len()] && b.contains(ord[j]));
            if k == pairs.len() {
                assert(u == dep && v == task);
            } else {
                assert(es[k] == (pairs[k].1, pairs[k].0));
                assert(pairs.contains((v, u)));
                assert(vs.contains(u) && vs.contains(v));
                let iu = pos(o, u);
                let iv = pos(o, v);
                assert(o[iu] == u && o[iv] == v);
                assert(iu < iv);
                if reach(u) {
                    lemma_waits_for_step(pairs, v, u, task);
                }
                if i < a.len() && j < a.len() {
                    assert(pos(o1, a[j]) == iv && pos(o1, a[i]) == iu);
                    lemma_filter_index_order(o1, nreach, i, j);
                } else if i >= a.len() && j >= a.len() {
                    assert(pos(o1, b[j - a.len()]) == iv && pos(o1, b[i - a.len()]) == iu);
                    lemma_filter_index_order(o1, reach, i - a.len(), j - a.len());
                }
            }
        }
    }
    assert(ord.len() == vs2.len());
    assert(is_topological_order(ord, vs2, es2)) by {
        reveal(is_topological_order);
    }
}

/// Every dependency of `task` has an entry in `entries` that is completed.
pub open spec fn deps_complete(pairs: Seq<(u128, u128)>, task: u128, entries: Map<u128, JobEntry>) -> bool {
    forall|i: int| 0 <= i < pairs.len() && pairs[i].0 == task ==> entries.contains_key(#[trigger] pairs[i].1)
        && entries[pairs[i].1].state == TaskState::Completed
}

/// No dependencies are acyclic.
proof fn lemma_no_deps_acyclic()
    ensures
        deps_acyclic(Seq::<(u128, u128)>::empty()),
{
    let e = Seq::<(u128, u128)>::empty();
    assert(dep_edges(e) =~= Seq::<(u128, u128)>::empty());
    assert(with_endpoints(Seq::empty(), dep_edges(e)) == Seq::<u128>::empty());
    let o = Seq::<u128>::empty();
    assert(crate::topo::within(o, o)) by { reveal(crate::topo::within); }
    assert(crate::topo::covers(o, o)) by { reveal(crate::topo::covers); }
    assert(crate::topo::edges_forward(o, dep_edges(e))) by { reveal(crate::topo::edges_forward); }
    assert(is_topological_order(o, o, dep_edges(e))) by { reveal(is_topological_order); }
}

/// Task dependencies: `add_dependency(a, b)` means `a` waits for `b`.
/// The dependencies never form a cycle.
#[derive(Debug)]
pub struct TaskDag {
    pairs: Vec<(u128, u128)>,
}

impl TaskDag {
    /// No pair occurs twice, and the dependencies are acyclic.
    #[verifier::type_invariant]
    spec fn inv(&self) -> bool {
        &&& self.pairs@.no_duplicates()
        &&& deps_acyclic(self.pairs@)
    }

    /// The `(task, dependency)` pairs, in the order they were added.
    pub closed spec fn spec_pairs(&self) -> Seq<(u128, u128)> {
        self.pairs@
    }

    /// No dependencies.
    pub fn new() -> (r: Self)
        ensures
            r.spec_pairs() == Seq::<(u128, u128)>::empty(),
            deps_acyclic(r.spec_pairs()),
    {
        proof {
            lemma_no_deps_acyclic();
        }
        let r = TaskDag { pairs: Vec::new() };
        assert(r.pairs@ == Seq::<(u128, u128)>::empty());
        r
    }

    /// Declare that `task` waits for `depends_on`; refused with `DagCycle`
    /// when the dependencies would then form a cycle, which is exactly when
    /// `task` is `depends_on` or `depends_on` already waits, directly or
    /// through other tasks, for `task`.
    pub fn add_dependency(&mut self, task: TaskId, depends_on: TaskId) -> (r: Result<(), SchedulerError>)
        ensures
            r is Ok <==> deps_acyclic(old(self).spec_pairs().push((task.0, depends_on.0))),
            r is Err <==> task.0 == depends_on.0 || waits_for(old(self).spec_pairs(), depends_on.0, task.0),
            r is Ok ==> final(self).spec_pairs().to_set() == old(self).spec_pairs().to_set().insert((task.0, depends_on.0)),
            r matches Err(e) ==> e is DagCycle && final(self).spec_pairs() == old(self).spec_pairs(),
            deps_acyclic(final(self).spec_pairs()),
    {
        proof {
            use_type_invariant(&*self);
            if task.0 == depends_on.0 || waits_for(self.pairs@, depends_on.0, task.0) {
                lemma_dependency_cycle(self.pairs@, task.0, depends_on.0);
            } else {
                lemma_dependency_accepted(self.pairs@, task.0, depends_on.0);
            }
        }
        let mut edges: Vec<(u128, u128)> = Vec::new();
        let n = self.pairs.len();
        for i in 0..n
            invariant
                n == self.pairs@.len(),
                edges@ == dep_edges(self.pairs@.take(i as int)),
        {
            proof {
                assert(dep_edges(self.pairs@.take(i + 1)) == dep_edges(self.pairs@.take(i as int)).push((self.pairs@[i as int].1, self.pairs@[i as int].0)));
            }
            edges.push((self.pairs[i].1, self.pairs[i].0));
        }
        proof {
            assert(self.pairs@.take(n as int) == self.pairs@);
        }
        edges.push((depends_on.0, task.0));
        let ghost np = self.pairs@.push((task.0, depends_on.0));
        proof {
            assert(edges@ == dep_edges(np));
        }
        let mut verts: Vec<u128> = Vec::new();
        let m = edges.len();
        for k in 0..m
            invariant
                m == edges@.len(),
                verts@ == with_endpoints(Seq::empty(), edges@.take(k as int)),
        {
            let (a, b) = edges[k];
            proof {
                assert(edges@.take(k + 1).drop_last() == edges@.take(k as int));
                assert(edges@.take(k + 1).last() == (a, b));
            }
            if !contains_id(&verts, a) {
                verts.push(a);
            }
            if !contains_id(&verts, b) {
                verts.push(b);
            }
        }
        proof {
            assert(edges@.take(m as int) == edges@);
            assert(Seq::<u128>::empty().no_duplicates());
            lemma_with_endpoints(Seq::empty(), edges@);
            assert(edges_closed(verts@, edges@)) by {
                assert forall|k: int| 0 <= k < edges@.len() implies verts@.contains(edges@[k].0) && verts@.contains(edges@[k].1) by {
                    assert(verts@.contains(edges@[k].0));
                    assert(verts@.contains(edges@[k].1));
                }
            }
        }
        match kahn_order(&verts, &edges) {
            Ok(_) => {},
            Err(_) => {
                return Err(SchedulerError::DagCycle);
            },
        }
        let mut present = false;
        for i in 0..n
            invariant
                n == self.pairs@.len(),
                present == exists|j: int| 0 <= j < i && self.pairs@[j] == (task.0, depends_on.0),
        {
            if self.pairs[i].0 == task.0 && self.pairs[i].1 == depends_on.0 {
                present = true;
            }
        }
        if !present {
            let ghost before = self.pairs@;
            let mut pairs: Vec<(u128, u128)> = Vec::new();
            proof {
                lemma_no_deps_acyclic();
                assert(pairs@ == Seq::<(u128, u128)>::empty());
            }
            std::mem::swap(&mut pairs, &mut self.pairs);
            pairs.push((task.0, depends_on.0));
            proof {
                assert(pairs@ == np);
                assert(pairs@.no_duplicates()) by {
                    assert forall|a: int, b: int| 0 <= a < pairs@.len() && 0 <= b < pairs@.len() && a != b
                        implies pairs@[a] != pairs@[b] by {
                        if a < before.len() && b < before.len() {
                        } else if a < before.len() {
                            assert(pairs@[a] == before[a]);
                        } else {
                            assert(pairs@[b] == before[b]);
                        }
                    }
                }
            }
            self.pairs = pairs;
            proof {
                let pr = (task.0, depends_on.0);
                assert forall|x: (u128, u128)| #[trigger] self.pairs@.to_set().contains(x) == before.to_set().insert(pr).contains(x) by {
                    if self.pairs@.contains(x) {
                        let j = choose|j: int| 0 <= j < self.pairs@.len() && self.pairs@[j] == x;
                        if j < before.len() {
                            assert(before[j] == x);
                        }
                    }
                    if before.contains(x) {
                        let j = choose|j: int| 0 <= j < before.len() && before[j] == x;
                        assert(self.pairs@[j] == x);
                    }
                    if x == pr {
                        assert(self.pairs@[before.len() as int] == x);
                    }
                }
                assert(self.pairs@.to_set() =~= before.to_set().insert(pr));
            }
        } else {
            proof {
                let j = choose|j: int| 0 <= j < n && self.pairs@[j] == (task.0, depends_on.0);
                assert(self.pairs@.to_set().contains(self.pairs@[j]));
                assert(self.pairs@.to_set() =~= self.pairs@.to_set().insert((task.0, depends_on.0)));
            }
        }
        Ok(())
    }

    /// Whether every dependency of `task` has a completed entry.
    pub fn is_ready(&self, task: TaskId, entries: &IdMap<JobEntry>) -> (r: bool)
        ensures
            r == deps_complete(self.spec_pairs(), task.0, entries@),
    {
        let n = self.pairs.len();
        for i in 0..n
            invariant
                n == self.pairs@.len(),
                forall|j: int| 0 <= j < i && self.pairs@[j].0 == task.0 ==> entries@.contains_key(#[trigger] self.pairs@[j].1)
                    && entries@[self.pairs@[j].1].state == TaskState::Completed,
        {
            if self.pairs[i].0 == task.0 {
                match entries.get(self.pairs[i].1) {
                    Some(e) => {
                        if e.state != TaskState::Completed {
                            return false;
                        }
                    },
                    None => {
                        return false;
                    },
                }
            }
        }
        true
    }

    /// An order of `all_tasks` in which every dependency between two of them
    /// comes first; `DagCycle` when `all_tasks` repeats a task or no such
    /// order exists.
    pub fn topological_order(&self, all_tasks: &Vec<TaskId>) -> (r: Result<Vec<TaskId>, SchedulerError>)
        ensures
            r is Ok <==> task_ids(all_tasks@).no_duplicates()
                && has_topological_order(task_ids(all_tasks@), dep_edges(pairs_within(self.spec_pairs(), task_ids(all_tasks@)))),
            r matches Ok(o) ==> is_topological_order(task_ids(o@), task_ids(all_tasks@),
                dep_edges(pairs_within(self.spec_pairs(), task_ids(all_tasks@)))),
            r matches Err(e) ==> e is DagCycle,
    {
        let mut ids: Vec<u128> = Vec::new();
        let n = all_tasks.len();
        for i in 0..n
            invariant
                n == all_tasks@.len(),
                ids@ == task_ids(all_tasks@.take(i as int)),
        {
            proof {
                assert(task_ids(all_tasks@.take(i + 1)) == task_ids(all_tasks@.take(i as int)).push(all_tasks@[i as int].0));
            }
            ids.push(all_tasks[i].0);
        }
        proof {
            assert(all_tasks@.take(n as int) == all_tasks@);
        }
        for i in 0..n
            invariant
                n == ids@.len(),
                ids@ == task_ids(all_tasks@),
                forall|a: int, b: int| 0 <= a < i && 0 <= b < n && a != b ==> ids@[a] != ids@[b],
        {
            for j in 0..n
                invariant
                    n == ids@.len(),
                    ids@ == task_ids(all_tasks@),
                    i < n,
                    forall|a: int, b: int| 0 <= a < i && 0 <= b < n && a != b ==> ids@[a] != ids@[b],
                    forall|b: int| 0 <= b < j && b != i ==> ids@[i as int] != ids@[b],
            {
                if j != i && ids[i] == ids[j] {
                    return Err(SchedulerError::DagCycle);
                }
            }
        }
        let ghost within = pairs_within(self.pairs@, ids@);
        let mut edges: Vec<(u128, u128)> = Vec::new();
        let m = self.pairs.len();
        for k in 0..m
            invariant
                m == self.pairs@.len(),
                edges@ == dep_edges(pairs_within(self.pairs@.take(k as int), ids@)),
        {
            let (t, d) = self.pairs[k];
            proof {
                assert(self.pairs@.take(k + 1) == self.pairs@.take(k as int).push((t, d)));
                self.pairs@.take(k as int).lemma_filter_push((t, d), both_within(ids@));
            }
            if contains_id(&ids, t) && contains_id(&ids, d) {
                edges.push((d, t));
                proof {
                    assert(dep_edges(pairs_within(self.pairs@.take(k + 1), ids@))
                        =~= dep_edges(pairs_within(self.pairs@.take(k as int), ids@)).push((d, t)));
                }
            } else {
                proof {
                    assert(dep_edges(pairs_within(self.pairs@.take(k + 1), ids@))
                        =~= dep_edges(pairs_within(self.pairs@.take(k as int), ids@)));
                }
            }
        }
        proof {
            assert(self.pairs@.take(m as int) == self.pairs@);
            assert(edges_closed(ids@, edges@)) by {
                assert forall|k: int| 0 <= k < edges@.len() implies ids@.contains(edges@[k].0) && ids@.contains(edges@[k].1) by {
                    let w = pairs_within(self.pairs@, ids@);
                    assert(edges@[k] == (w[k].1, w[k].0));
                    assert(w.contains(w[k]));
                    assert(both_within(ids@)(w[k]));
                }
            }
        }
        match kahn_order(&ids, &edges) {
            Ok(o) => {
                let mut out: Vec<TaskId> = Vec::new();
                let k = o.len();
                for i in 0..k
                    invariant
                        k == o@.len(),
                        task_ids(out@) == o@.take(i as int),
                {
                    let ghost prev = out@;
                    out.push(TaskId(o[i]));
                    proof {
                        assert(out@ == prev.push(TaskId(o@[i as int])));
                        assert(task_ids(out@) =~= task_ids(prev).push(o@[i as int]));
                        assert(o@.take(i + 1) =~= o@.take(i as int).push(o@[i as int]));
                    }
                }
                proof {
                    assert(o@.take(k as int) == o@);
                }
                Ok(out)
            },
            Err(_) => Err(SchedulerError::DagCycle),
        }
    }
}

/// The raw ids of a list of task ids.
pub open spec fn task_ids(s: Seq<TaskId>) -> Seq<u128> {
    s.map_values(|t: TaskId| t.0)
}

/// Pairs whose task and dependency both occur in `ids`.
pub open spec fn both_within(ids: Seq<u128>) -> spec_fn((u128, u128)) -> bool {
    |p: (u128, u128)| ids.contains(p.0) && ids.contains(p.1)
}

/// The pairs among `ids`, in order.
pub open spec fn pairs_within(pairs: Seq<(u128, u128)>, ids: Seq<u128>) -> Seq<(u128, u128)> {
    pairs.filter(both_within(ids))
}

// ---------------------------------------------------------------------------
// The scheduler
// ---------------------------------------------------------------------------

/// A queue slot: the task's priority rank, its submission number, the task.
pub type QueueSlot = (u8, u64, TaskId);

/// `a` is served before `b`: higher priority first, then earlier submission.
pub open spec fn served_before(a: QueueSlot, b: QueueSlot) -> bool {
    a.0 > b.0 || (a.0 == b.0 && a.1 < b.1)
}

/// The queue is in serving order.
pub open spec fn queue_sorted(q: Seq<QueueSlot>) -> bool {
    forall|i: int, j: int| 0 <= i < j < q.len() ==> served_before(q[i], q[j])
}

/// `q2` is `q` with `e` inserted after every slot of at least its priority
/// and before every slot of lower priority.
pub open spec fn queue_inserted(q: Seq<QueueSlot>, e: QueueSlot, q2: Seq<QueueSlot>) -> bool {
    exists|p: int| 0 <= p <= q.len() && q2 == q.insert(p, e)
        && (forall|i: int| 0 <= i < p ==> (#[trigger] q[i]).0 >= e.0)
        && (forall|i: int| p <= i < q.len() ==> (#[trigger] q[i]).0 < e.0)
}

/// `i` is the first slot of `q` whose task is ready.
pub open spec fn first_ready(q: Seq<QueueSlot>, pairs: Seq<(u128, u128)>, entries: Map<u128, JobEntry>, i: int) -> bool {
    &&& 0 <= i < q.len()
    &&& deps_complete(pairs, q[i].2.0, entries)
    &&& forall|j: int| 0 <= j < i ==> !deps_complete(pairs, (#[trigger] q[j]).2.0, entries)
}

/// Serving law: in a queue in serving order, the first ready slot is at
/// least as urgent as every other ready slot, and among ready slots of the
/// same urgency it was submitted first.
pub proof fn lemma_first_ready_is_most_urgent(q: Seq<QueueSlot>, pairs: Seq<(u128, u128)>,
    entries: Map<u128, JobEntry>, i: int)
    requires
        queue_sorted(q),
        first_ready(q, pairs, entries, i),
    ensures
        forall|j: int| 0 <= j < q.len() && j != i && deps_complete(pairs, (#[trigger] q[j]).2.0, entries)
            ==> q[j].0 < q[i].0 || (q[j].0 == q[i].0 && q[i].1 < q[j].1),
{
    assert forall|j: int| 0 <= j < q.len() && j != i && deps_complete(pairs, (#[trigger] q[j]).2.0, entries)
        implies q[j].0 < q[i].0 || (q[j].0 == q[i].0 && q[i].1 < q[j].1) by {
        if j < i {
        } else {
            assert(served_before(q[i], q[j]));
        }
    }
}

/// The payload of a task event: the task's id.
pub open spec fn task_event_model(t: TaskId) -> JsonModel {
    JsonModel::Object(seq![("task_id"@, JsonModel::Str(uuid_text(t.0)))])
}

/// The payload of a task event.
pub(crate) fn task_payload(t: TaskId) -> (r: JsonValue)
    ensures
        r.model() == task_event_model(t),
{
    let m = vec![("task_id".to_owned(), JsonValue::from_uuid(t.0))];
    proof {
        lemma_members_models(m@);
        assert(m@.map_values(|x: (String, JsonValue)| (x.0@, x.1.model())) =~= seq![("task_id"@, JsonModel::Str(uuid_text(t.0)))]);
    }
    JsonValue::object(m)
}

/// Queue slots of tasks other than `t`.
pub open spec fn not_for_task(t: TaskId) -> spec_fn(QueueSlot) -> bool {
    |s: QueueSlot| s.2 != t
}

/// Dropping slots keeps the serving order.
proof fn lemma_filter_queue_sorted(q: Seq<QueueSlot>, p: spec_fn(QueueSlot) -> bool)
    requires
        queue_sorted(q),
    ensures
        queue_sorted(q.filter(p)),
    decreases q.len(),
{
    if q.len() > 0 {
        let r = q.drop_last();
        lemma_filter_queue_sorted(r, p);
        r.lemma_filter_push(q.last(), p);
        assert(r.push(q.last()) == q);
        let f = q.filter(p);
        let fr = r.filter(p);
        if p(q.last()) {
            assert forall|a: int, b: int| 0 <= a < b < f.len() implies served_before(f[a], f[b]) by {
                if b == f.len() - 1 {
                    assert(f[a] == fr[a]);
                    assert(fr.contains(fr[a]));
                    r.lemma_filter_contains_rev(p, fr[a]);
                    let j = choose|j: int| 0 <= j < r.len() && r[j] == fr[a];
                    assert(q[j] == r[j]);
                    assert(q[q.len() - 1] == q.last());
                } else {
                    assert(f[a] == fr[a] && f[b] == fr[b]);
                }
            }
        }
    }
}

/// Some slot of `q` is for task `t`.
pub open spec fn queued(q: Seq<QueueSlot>, t: u128) -> bool {
    exists|i: int| 0 <= i < q.len() && (#[trigger] q[i]).2.0 == t
}

/// `entries` with the state of `t` replaced.
pub open spec fn with_state(entries: Map<u128, JobEntry>, t: u128, s: TaskState) -> Map<u128, JobEntry> {
    entries.insert(t, JobEntry { state: s, ..entries[t] })
}

/// A priority-aware, dimension-scoped job scheduler: tasks are served by
/// priority, first come first served within a priority.
#[derive(Debug)]
pub struct JobScheduler {
    dimension_id: DimensionId,
    queue: Vec<QueueSlot>,
    entries: IdMap<JobEntry>,
    seq: u64,
    quota: DimensionQuota,
    rate_limiter: RateLimiter,
}

impl JobScheduler {
    /// The queue is in serving order, every queued task has an entry, no
    /// submission number exceeds the counter, and every entry is stored
    /// under its task's id.
    pub closed spec fn wf(&self) -> bool {
        &&& queue_sorted(self.queue@)
        &&& forall|t: u128| #[trigger] self.entries@.contains_key(t) ==> self.entries@[t].task_id.0 == t
        &&& forall|i: int| 0 <= i < self.queue@.len() ==> self.entries@.contains_key((#[trigger] self.queue@[i]).2.0)
        &&& forall|i: int| 0 <= i < self.queue@.len() ==> (#[trigger] self.queue@[i]).1 <= self.seq
    }

    /// Every scheduler keeps its queue well formed.
    #[verifier::type_invariant]
    spec fn inv(&self) -> bool {
        self.wf()
    }

    /// A well-formed scheduler serves its queue in order: higher priority
    /// first, first come first served within a priority.
    pub proof fn lemma_queue_in_serving_order(&self)
        requires
            self.wf(),
        ensures
            queue_sorted(self.spec_queue()),
    {
    }

    /// The dimension served.
    pub closed spec fn spec_dimension(&self) -> DimensionId {
        self.dimension_id
    }

    /// The queue in serving order.
    pub closed spec fn spec_queue(&self) -> Seq<QueueSlot> {
        self.queue@
    }

    /// Every known task, by id.
    pub closed spec fn spec_entries(&self) -> Map<u128, JobEntry> {
        self.entries@
    }

    /// The submission counter.
    pub closed spec fn spec_seq(&self) -> u64 {
        self.seq
    }

    /// The quota.
    pub closed spec fn spec_quota(&self) -> DimensionQuota {
        self.quota
    }

    /// The rate limiter's refill rate (0 = unlimited).
    pub closed spec fn spec_rate(&self) -> int {
        self.rate_limiter.spec_rate()
    }

    /// An empty scheduler for `dimension_id` with the given quota.
    pub fn new(dimension_id: DimensionId, quota: DimensionQuota) -> (r: Self)
        ensures
            r.spec_dimension() == dimension_id,
            r.spec_quota() == quota,
            r.spec_queue() == Seq::<QueueSlot>::empty(),
            r.spec_entries() == Map::<u128, JobEntry>::empty(),
            r.spec_seq() == 0,
            r.spec_rate() == quota.max_tasks_per_second,
            r.wf(),
    {
        JobScheduler {
            dimension_id,
            queue: Vec::new(),
            entries: IdMap::new(),
            seq: 0,
            quota,
            rate_limiter: RateLimiter::new(quota.max_tasks_per_second),
        }
    }

    /// Store `e` as the entry of `t`, leaving everything else as it is.
    fn set_entry(&mut self, t: u128, e: JobEntry)
        requires
            e.task_id.0 == t,
        ensures
            final(self).spec_entries() == old(self).spec_entries().insert(t, e),
            final(self).spec_queue() == old(self).spec_queue(),
            final(self).spec_seq() == old(self).spec_seq(),
            final(self).spec_dimension() == old(self).spec_dimension(),
            final(self).spec_quota() == old(self).spec_quota(),
            final(self).spec_rate() == old(self).spec_rate(),
    {
        proof {
            use_type_invariant(&*self);
        }
        let mut q: Vec<QueueSlot> = Vec::new();
        std::mem::swap(&mut q, &mut self.queue);
        let mut es: IdMap<JobEntry> = IdMap::new();
        std::mem::swap(&mut es, &mut self.entries);
        es.insert(t, e);
        self.entries = es;
        self.queue = q;
    }

    /// Insert a slot into the queue in serving order.
    fn push_slot(&mut self, e: QueueSlot)
        requires
            old(self).spec_entries().contains_key(e.2.0),
            e.1 == old(self).spec_seq(),
            forall|i: int| 0 <= i < old(self).spec_queue().len() ==> (#[trigger] old(self).spec_queue()[i]).1 < e.1,
        ensures
            final(self).wf(),
            queue_inserted(old(self).spec_queue(), e, final(self).spec_queue()),
            final(self).spec_entries() == old(self).spec_entries(),
            final(self).spec_seq() == old(self).spec_seq(),
            final(self).spec_dimension() == old(self).spec_dimension(),
            final(self).spec_quota() == old(self).spec_quota(),
            final(self).spec_rate() == old(self).spec_rate(),
    {
        proof {
            use_type_invariant(&*self);
        }
        let ghost q = self.queue@;
        let n = self.queue.len();
        let mut p: usize = 0;
        while p < n && self.queue[p].0 >= e.0
            invariant
                n == q.len(),
                q == self.queue@,
                p <= n,
                forall|i: int| 0 <= i < p ==> (#[trigger] q[i]).0 >= e.0,
            decreases n - p,
        {
            p = p + 1;
        }
        proof {
            assert forall|i: int| p <= i < q.len() implies (#[trigger] q[i]).0 < e.0 by {
                if i > p {
                    assert(served_before(q[p as int], q[i]));
                }
            }
        }
        let mut queue: Vec<QueueSlot> = Vec::new();
        std::mem::swap(&mut queue, &mut self.queue);
        queue.insert(p, e);
        proof {
            let q2 = queue@;
            assert(q2 == q.insert(p as int, e));
            assert(queue_sorted(q2)) by {
                assert forall|i: int, j: int| 0 <= i < j < q2.len() implies served_before(q2[i], q2[j]) by {
                    if j < p {
                        assert(q2[i] == q[i] && q2[j] == q[j]);
                    } else if j == p {
                        assert(q2[i] == q[i]);
                        assert(old(self).spec_queue()[i].1 < e.1);
                    } else if i < p {
                        assert(q2[i] == q[i] && q2[j] == q[j - 1]);
                    } else if i == p {
                        assert(q2[j] == q[j - 1]);
                    } else {
                        assert(q2[i] == q[i - 1] && q2[j] == q[j - 1]);
                    }
                }
            }
            assert forall|i: int| 0 <= i < q2.len() implies self.entries@.contains_key((#[trigger] q2[i]).2.0) by {
                if i < p {
                    assert(q2[i] == q[i]);
                } else if i > p {
                    assert(q2[i] == q[i - 1]);
                }
            }
            assert forall|i: int| 0 <= i < q2.len() implies (#[trigger] q2[i]).1 <= self.seq by {
                if i < p {
                    assert(q2[i] == q[i]);
                } else if i > p {
                    assert(q2[i] == q[i - 1]);
                }
            }
        }
        self.queue = queue;
    }

    /// Enqueue a job, refused with `QuotaExceeded` when the rate limiter
    /// refuses or the queue is full.
    pub fn enqueue(&mut self, entry: JobEntry, log: &mut ActionLog) -> (r: Result<(), SchedulerError>)
        requires
            old(self).spec_seq() < u64::MAX,
        ensures
            final(self).wf(),
            old(self).spec_queue().len() >= old(self).spec_quota().max_queued ==> r is Err,
            old(self).spec_rate() == 0 && old(self).spec_queue().len() < old(self).spec_quota().max_queued ==> r is Ok,
            r is Ok ==> {
                &&& old(self).spec_queue().len() < old(self).spec_quota().max_queued
                &&& final(self).spec_seq() == old(self).spec_seq() + 1
                &&& queue_inserted(old(self).spec_queue(), (entry.priority.spec_rank(), final(self).spec_seq(), entry.task_id), final(self).spec_queue())
                &&& final(self).spec_entries() == old(self).spec_entries().insert(entry.task_id.0, entry)
                &&& appended_one(old(log)@, final(log)@, EventType::TaskSubmitted, Some(old(self).spec_dimension()), Some(entry.task_id))
                &&& final(log)@.last().payload.model() == task_event_model(entry.task_id)
            },
            r matches Err(e) ==> {
                &&& e matches SchedulerError::QuotaExceeded(d, _) && d == old(self).spec_dimension()
                &&& final(self).spec_queue() == old(self).spec_queue()
                &&& final(self).spec_entries() == old(self).spec_entries()
                &&& final(self).spec_seq() == old(self).spec_seq()
                &&& final(log)@ == old(log)@
            },
            final(self).spec_dimension() == old(self).spec_dimension(),
            final(self).spec_quota() == old(self).spec_quota(),
            final(self).spec_rate() == old(self).spec_rate(),
    {
        proof {
            use_type_invariant(&*self);
        }
        let mut limiter = RateLimiter::new(0);
        std::mem::swap(&mut limiter, &mut self.rate_limiter);
        let granted = limiter.try_acquire();
        std::mem::swap(&mut limiter, &mut self.rate_limiter);
        if !granted {
            return Err(SchedulerError::QuotaExceeded(self.dimension_id, "rate limit exceeded".to_owned()));
        }
        if self.queue.len() >= self.quota.max_queued {
            let mut msg = "queue depth ".to_owned();
            msg.append("reached the limit");
            return Err(SchedulerError::QuotaExceeded(self.dimension_id, msg));
        }
        let task_id = entry.task_id;
        let rank = entry.priority.rank();
        self.seq = self.seq + 1;
        self.set_entry(task_id.0, entry);
        self.push_slot((rank, self.seq, task_id));
        let payload = task_payload(task_id);
        log.record(EventType::TaskSubmitted, Some(self.dimension_id), Some(task_id), payload);
        Ok(())
    }

    /// Start the first queued task (in serving order) whose dependencies are
    /// all completed, and return its entry; `None` when no queued task is
    /// ready.  A task with no slot in the queue (such as a cancelled one) is
    /// never the one started, and its entry is left as it is.
    pub fn dequeue(&mut self, dag: &TaskDag, log: &mut ActionLog) -> (r: Option<JobEntry>)
        ensures
            final(self).wf(),
            r is None <==> forall|i: int| 0 <= i < old(self).spec_queue().len()
                ==> !deps_complete(dag.spec_pairs(), (#[trigger] old(self).spec_queue()[i]).2.0, old(self).spec_entries()),
            r is None ==> final(self).spec_queue() == old(self).spec_queue()
                && final(self).spec_entries() == old(self).spec_entries()
                && final(log)@ == old(log)@,
            r matches Some(e) ==> exists|i: int| {
                &&& first_ready(old(self).spec_queue(), dag.spec_pairs(), old(self).spec_entries(), i)
                &&& forall|j: int| 0 <= j < old(self).spec_queue().len()
                    && deps_complete(dag.spec_pairs(), (#[trigger] old(self).spec_queue()[j]).2.0, old(self).spec_entries())
                    ==> old(self).spec_queue()[j].0 <= old(self).spec_queue()[i].0
                &&& final(self).spec_queue() == old(self).spec_queue().remove(i)
                &&& final(self).spec_entries() == with_state(old(self).spec_entries(), old(self).spec_queue()[i].2.0, TaskState::Running)
                &&& e == final(self).spec_entries()[old(self).spec_queue()[i].2.0]
                &&& appended_one(old(log)@, final(log)@, EventType::TaskStarted, Some(old(self).spec_dimension()), Some(old(self).spec_queue()[i].2))
                &&& final(log)@.last().payload.model() == task_event_model(old(self).spec_queue()[i].2)
            },
            forall|t: u128| #![trigger queued(old(self).spec_queue(), t)] !queued(old(self).spec_queue(), t) ==> {
                &&& !queued(final(self).spec_queue(), t)
                &&& final(self).spec_entries().contains_key(t) == old(self).spec_entries().contains_key(t)
                &&& final(self).spec_entries()[t] == old(self).spec_entries()[t]
                &&& (r matches Some(e) ==> e.task_id.0 != t)
            },
            final(self).spec_seq() == old(self).spec_seq(),
            final(self).spec_dimension() == old(self).spec_dimension(),
            final(self).spec_quota() == old(self).spec_quota(),
            final(self).spec_rate() == old(self).spec_rate(),
    {
        proof {
            use_type_invariant(&*self);
        }
        let ghost q = self.queue@;
        let n = self.queue.len();
        let mut i: usize = 0;
        while i < n
            invariant
                n == q.len(),
                q == self.queue@,
                *self == *old(self),
                i <= n,
                forall|j: int| 0 <= j < i ==> !deps_complete(dag.spec_pairs(), (#[trigger] q[j]).2.0, self.entries@),
            ensures
                i <= n,
                *self == *old(self),
                forall|j: int| 0 <= j < i ==> !deps_complete(dag.spec_pairs(), (#[trigger] q[j]).2.0, self.entries@),
                i < n ==> deps_complete(dag.spec_pairs(), q[i as int].2.0, self.entries@),
            decreases n - i,
        {
            if dag.is_ready(self.queue[i].2, &self.entries) {
                break;
            }
            i = i + 1;
        }
        if i == n {
            return None;
        }
        let ghost e0 = self.entries@;
        let mut queue: Vec<QueueSlot> = Vec::new();
        std::mem::swap(&mut queue, &mut self.queue);
        let slot = queue.remove(i);
        proof {
            assert(queue@ == q.remove(i as int));
            assert forall|a: int, b: int| 0 <= a < b < queue@.len() implies served_before(queue@[a], queue@[b]) by {
                if b < i {
                } else if a < i {
                    assert(queue@[b] == q[b + 1]);
                } else {
                    assert(queue@[a] == q[a + 1] && queue@[b] == q[b + 1]);
                }
            }
            assert forall|a: int| 0 <= a < queue@.len() implies self.entries@.contains_key((#[trigger] queue@[a]).2.0)
                && queue@[a].1 <= self.seq by {
                if a >= i {
                    assert(queue@[a] == q[a + 1]);
                }
            }
        }
        self.queue = queue;
        let t = slot.2;
        let started = match self.entries.get(t.0) {
            Some(old_entry) => {
                let mut e = old_entry.clone();
                e.state = TaskState::Running;
                let copy = e.clone();
                self.set_entry(t.0, e);
                proof {
                    assert(self.entries@ =~= with_state(e0, t.0, TaskState::Running));
                }
                copy
            },
            None => {
                return None;
            },
        };
        let payload = task_payload(t);
        log.record(EventType::TaskStarted, Some(self.dimension_id), Some(t), payload);
        proof {
            let ii = i as int;
            assert(old(self).spec_queue() == q);
            assert(old(self).spec_entries() == e0);
            assert(slot == q[ii]);
            assert(deps_complete(dag.spec_pairs(), old(self).spec_queue()[ii].2.0, old(self).spec_entries()));
            assert(first_ready(old(self).spec_queue(), dag.spec_pairs(), old(self).spec_entries(), ii));
            lemma_first_ready_is_most_urgent(old(self).spec_queue(), dag.spec_pairs(), old(self).spec_entries(), ii);
        }
        Some(started)
    }

    /// Set the state of a task that exists and is not terminal.
    fn transition(&mut self, task_id: TaskId, new_state: TaskState) -> (r: Result<(), SchedulerError>)
        ensures
            final(self).wf(),
            r is Ok <==> old(self).spec_entries().contains_key(task_id.0)
                && !old(self).spec_entries()[task_id.0].state.spec_is_terminal(),
            r is Ok ==> final(self).spec_entries() == with_state(old(self).spec_entries(), task_id.0, new_state),
            r matches Err(e) ==> final(self).spec_entries() == old(self).spec_entries()
                && if old(self).spec_entries().contains_key(task_id.0) {
                    e == SchedulerError::AlreadyTerminal(task_id)
                } else {
                    e == SchedulerError::TaskNotFound(task_id)
                },
            final(self).spec_queue() == old(self).spec_queue(),
            final(self).spec_seq() == old(self).spec_seq(),
            final(self).spec_dimension() == old(self).spec_dimension(),
            final(self).spec_quota() == old(self).spec_quota(),
            final(self).spec_rate() == old(self).spec_rate(),
    {
        proof {
            use_type_invariant(&*self);
        }
        self.transition_if(task_id, None, new_state)
    }

    /// Set the state of a task that exists and is in `expected` (when given)
    /// or is not terminal (when not).
    fn transition_if(&mut self, task_id: TaskId, expected: Option<TaskState>, new_state: TaskState) -> (r: Result<(), SchedulerError>)
        ensures
            final(self).wf(),
            r is Ok <==> old(self).spec_entries().contains_key(task_id.0) && match expected {
                Some(s) => old(self).spec_entries()[task_id.0].state == s,
                None => !old(self).spec_entries()[task_id.0].state.spec_is_terminal(),
            },
            r is Ok ==> final(self).spec_entries() == with_state(old(self).spec_entries(), task_id.0, new_state),
            r matches Err(e) ==> final(self).spec_entries() == old(self).spec_entries()
                && if old(self).spec_entries().contains_key(task_id.0) {
                    e == SchedulerError::AlreadyTerminal(task_id)
                } else {
                    e == SchedulerError::TaskNotFound(task_id)
                },
            final(self).spec_queue() == old(self).spec_queue(),
            final(self).spec_seq() == old(self).spec_seq(),
            final(self).spec_dimension() == old(self).spec_dimension(),
            final(self).spec_quota() == old(self).spec_quota(),
            final(self).spec_rate() == old(self).spec_rate(),
    {
        proof {
            use_type_invariant(&*self);
        }
        let ghost e0 = self.entries@;
        let ok = match self.entries.get(task_id.0) {
            Some(e) => match expected {
                Some(s) => e.state == s,
                None => !e.state.is_terminal(),
            },
            None => {
                return Err(SchedulerError::TaskNotFound(task_id));
            },
        };
        if !ok {
            return Err(SchedulerError::AlreadyTerminal(task_id));
        }
        match self.entries.get(task_id.0) {
            Some(e) => {
                let mut e = e.clone();
                e.state = new_state;
                self.set_entry(task_id.0, e);
                proof {
                    assert(self.entries@ =~= with_state(e0, task_id.0, new_state));
                    assert forall|i: int| 0 <= i < self.queue@.len() implies self.entries@.contains_key((#[trigger] self.queue@[i]).2.0) by {
                        assert(e0.contains_key(self.queue@[i].2.0));
                    }
                }
            },
            None => {},
        }
        Ok(())
    }

    /// Mark a task completed.
    pub fn complete(&mut self, task_id: TaskId, log: &mut ActionLog) -> (r: Result<(), SchedulerError>)
        ensures
            final(self).wf(),
            r is Ok <==> old(self).spec_entries().contains_key(task_id.0)
                && !old(self).spec_entries()[task_id.0].state.spec_is_terminal(),
            r is Ok ==> final(self).spec_entries() == with_state(old(self).spec_entries(), task_id.0, TaskState::Completed)
                && appended_one(old(log)@, final(log)@, EventType::TaskCompleted, Some(old(self).spec_dimension()), Some(task_id))
                && final(log)@.last().payload.model() == task_event_model(task_id),
            r matches Err(e) ==> final(self).spec_entries() == old(self).spec_entries() && final(log)@ == old(log)@
                && if old(self).spec_entries().contains_key(task_id.0) {
                    e == SchedulerError::AlreadyTerminal(task_id)
                } else {
                    e == SchedulerError::TaskNotFound(task_id)
                },
            final(self).spec_queue() == old(self).spec_queue(),
            final(self).spec_seq() == old(self).spec_seq(),
            final(self).spec_dimension() == old(self).spec_dimension(),
            final(self).spec_quota() == old(self).spec_quota(),
            final(self).spec_rate() == old(self).spec_rate(),
    {
        proof {
            use_type_invariant(&*self);
        }
        self.transition(task_id, TaskState::Completed)?;
        let payload = task_payload(task_id);
        log.record(EventType::TaskCompleted, Some(self.dimension_id), Some(task_id), payload);
        Ok(())
    }

    /// Mark a task failed with a reason.
    pub fn fail(&mut self, task_id: TaskId, reason: &str, log: &mut ActionLog) -> (r: Result<(), SchedulerError>)
        ensures
            final(self).wf(),
            r is Ok <==> old(self).spec_entries().contains_key(task_id.0)
                && !old(self).spec_entries()[task_id.0].state.spec_is_terminal(),
            r is Ok ==> final(self).spec_entries() == with_state(old(self).spec_entries(), task_id.0, TaskState::Failed)
                && appended_one(old(log)@, final(log)@, EventType::TaskFailed, Some(old(self).spec_dimension()), Some(task_id))
                && final(log)@.last().payload.model() == JsonModel::Object(seq![
                    ("task_id"@, JsonModel::Str(uuid_text(task_id.0))), ("reason"@, JsonModel::Str(reason@))]),
            r matches Err(e) ==> final(self).spec_entries() == old(self).spec_entries() && final(log)@ == old(log)@
                && if old(self).spec_entries().contains_key(task_id.0) {
                    e == SchedulerError::AlreadyTerminal(task_id)
                } else {
                    e == SchedulerError::TaskNotFound(task_id)
                },
            final(self).spec_queue() == old(self).spec_queue(),
            final(self).spec_seq() == old(self).spec_seq(),
            final(self).spec_dimension() == old(self).spec_dimension(),
            final(self).spec_quota() == old(self).spec_quota(),
            final(self).spec_rate() == old(self).spec_rate(),
    {
        proof {
            use_type_invariant(&*self);
        }
        self.transition(task_id, TaskState::Failed)?;
        let m = vec![
            ("task_id".to_owned(), JsonValue::from_uuid(task_id.0)),
            ("reason".to_owned(), JsonValue::string(reason)),
        ];
        proof {
            lemma_members_models(m@);
            assert(m@.map_values(|x: (String, JsonValue)| (x.0@, x.1.model())) =~= seq![
                ("task_id"@, JsonModel::Str(uuid_text(task_id.0))), ("reason"@, JsonModel::Str(reason@))]);
        }
        let payload = JsonValue::object(m);
        log.record(EventType::TaskFailed, Some(self.dimension_id), Some(task_id), payload);
        Ok(())
    }

    /// Pause a running task.
    pub fn pause(&mut self, task_id: TaskId) -> (r: Result<(), SchedulerError>)
        ensures
            final(self).wf(),
            r is Ok <==> old(self).spec_entries().contains_key(task_id.0)
                && old(self).spec_entries()[task_id.0].state == TaskState::Running,
            r is Ok ==> final(self).spec_entries() == with_state(old(self).spec_entries(), task_id.0, TaskState::Paused),
            r matches Err(e) ==> final(self).spec_entries() == old(self).spec_entries()
                && if old(self).spec_entries().contains_key(task_id.0) {
                    e == SchedulerError::AlreadyTerminal(task_id)
                } else {
                    e == SchedulerError::TaskNotFound(task_id)
                },
            final(self).spec_queue() == old(self).spec_queue(),
            final(self).spec_seq() == old(self).spec_seq(),
            final(self).spec_dimension() == old(self).spec_dimension(),
            final(self).spec_quota() == old(self).spec_quota(),
            final(self).spec_rate() == old(self).spec_rate(),
    {
        proof {
            use_type_invariant(&*self);
        }
        self.transition_if(task_id, Some(TaskState::Running), TaskState::Paused)
    }

    /// Resume a paused task: it is queued again with its priority.
    pub fn resume(&mut self, task_id: TaskId) -> (r: Result<(), SchedulerError>)
        requires
            old(self).spec_seq() < u64::MAX,
        ensures
            final(self).wf(),
            r is Ok <==> old(self).spec_entries().contains_key(task_id.0)
                && old(self).spec_entries()[task_id.0].state == TaskState::Paused,
            r is Ok ==> {
                &&& final(self).spec_entries() == with_state(old(self).spec_entries(), task_id.0, TaskState::Queued)
                &&& final(self).spec_seq() == old(self).spec_seq() + 1
                &&& queue_inserted(old(self).spec_queue(),
                    (old(self).spec_entries()[task_id.0].priority.spec_rank(), final(self).spec_seq(), task_id),
                    final(self).spec_queue())
            },
            r matches Err(e) ==> final(self).spec_entries() == old(self).spec_entries()
                && final(self).spec_queue() == old(self).spec_queue()
                && final(self).spec_seq() == old(self).spec_seq()
                && if old(self).spec_entries().contains_key(task_id.0) {
                    e == SchedulerError::AlreadyTerminal(task_id)
                } else {
                    e == SchedulerError::TaskNotFound(task_id)
                },
            final(self).spec_dimension() == old(self).spec_dimension(),
            final(self).spec_quota() == old(self).spec_quota(),
            final(self).spec_rate() == old(self).spec_rate(),
    {
        proof {
            use_type_invariant(&*self);
        }
        let rank = match self.entries.get(task_id.0) {
            Some(e) => e.priority.rank(),
            None => 0,
        };
        self.transition_if(task_id, Some(TaskState::Paused), TaskState::Queued)?;
        self.seq = self.seq + 1;
        self.push_slot((rank, self.seq, task_id));
        Ok(())
    }

    /// Cancel a task that is not terminal.  Cancelled is terminal: the task
    /// leaves the queue, so it is never started afterwards.
    pub fn cancel(&mut self, task_id: TaskId, log: &mut ActionLog) -> (r: Result<(), SchedulerError>)
        ensures
            final(self).wf(),
            r is Ok <==> old(self).spec_entries().contains_key(task_id.0)
                && !old(self).spec_entries()[task_id.0].state.spec_is_terminal(),
            r is Ok ==> final(self).spec_entries() == with_state(old(self).spec_entries(), task_id.0, TaskState::Cancelled)
                && final(self).spec_queue() == old(self).spec_queue().filter(not_for_task(task_id))
                && (forall|i: int| 0 <= i < final(self).spec_queue().len() ==> (#[trigger] final(self).spec_queue()[i]).2 != task_id)
                && !queued(final(self).spec_queue(), task_id.0)
                && appended_one(old(log)@, final(log)@, EventType::TaskCancelled, Some(old(self).spec_dimension()), Some(task_id))
                && final(log)@.last().payload.model() == task_event_model(task_id),
            r matches Err(e) ==> final(self).spec_entries() == old(self).spec_entries() && final(log)@ == old(log)@
                && final(self).spec_queue() == old(self).spec_queue()
                && if old(self).spec_entries().contains_key(task_id.0) {
                    e == SchedulerError::AlreadyTerminal(task_id)
                } else {
                    e == SchedulerError::TaskNotFound(task_id)
                },
            final(self).spec_seq() == old(self).spec_seq(),
            final(self).spec_dimension() == old(self).spec_dimension(),
            final(self).spec_quota() == old(self).spec_quota(),
            final(self).spec_rate() == old(self).spec_rate(),
    {
        proof {
            use_type_invariant(&*self);
        }
        self.transition(task_id, TaskState::Cancelled)?;
        let ghost q = self.queue@;
        let ghost p = not_for_task(task_id);
        let mut rest: Vec<QueueSlot> = Vec::new();
        std::mem::swap(&mut rest, &mut self.queue);
        let n = rest.len();
        let mut kept: Vec<QueueSlot> = Vec::new();
        for i in 0..n
            invariant
                n == q.len(),
                rest@ == q,
                p == not_for_task(task_id),
                kept@ == q.take(i as int).filter(p),
        {
            proof {
                assert(q.take(i + 1) == q.take(i as int).push(q[i as int]));
                q.take(i as int).lemma_filter_push(q[i as int], p);
            }
            let slot = rest[i];
            if slot.2.0 != task_id.0 {
                kept.push(slot);
            }
        }
        proof {
            assert(q.take(n as int) == q);
            lemma_filter_queue_sorted(q, p);
            assert forall|i: int| 0 <= i < kept@.len() implies (#[trigger] kept@[i]).2 != task_id
                && self.entries@.contains_key(kept@[i].2.0) && kept@[i].1 <= self.seq by {
                assert(kept@.contains(kept@[i]));
                q.lemma_filter_contains_rev(p, kept@[i]);
            }
        }
        self.queue = kept;
        let payload = task_payload(task_id);
        log.record(EventType::TaskCancelled, Some(self.dimension_id), Some(task_id), payload);
        Ok(())
    }

    /// Retry a failed task by its policy: `Ok(Some(backoff_ms))` when it is
    /// queued again, `Ok(None)` when its retries are used up (it stays
    /// failed).
    pub fn retry(&mut self, task_id: TaskId, log: &mut ActionLog) -> (r: Result<Option<u64>, SchedulerError>)
        requires
            old(self).spec_seq() < u64::MAX,
        ensures
            final(self).wf(),
            r is Err <==> !(old(self).spec_entries().contains_key(task_id.0)
                && old(self).spec_entries()[task_id.0].state == TaskState::Failed),
            r matches Err(e) ==> if old(self).spec_entries().contains_key(task_id.0) {
                    e == SchedulerError::AlreadyTerminal(task_id)
                } else {
                    e == SchedulerError::TaskNotFound(task_id)
                },
            r matches Ok(None) ==> old(self).spec_entries()[task_id.0].retry_count
                >= old(self).spec_entries()[task_id.0].retry_policy.max_attempts,
            r matches Ok(Some(b)) ==> {
                let old_e = old(self).spec_entries()[task_id.0];
                &&& old_e.retry_count < old_e.retry_policy.max_attempts
                &&& b == backoff_ms(old_e.retry_policy, old_e.retry_count as nat)
                &&& final(self).spec_entries() == old(self).spec_entries().insert(task_id.0,
                    JobEntry { state: TaskState::Queued, retry_count: (old_e.retry_count + 1) as u32, ..old_e })
                &&& final(self).spec_seq() == old(self).spec_seq() + 1
                &&& queue_inserted(old(self).spec_queue(), (old_e.priority.spec_rank(), final(self).spec_seq(), task_id),
                    final(self).spec_queue())
                &&& appended_one(old(log)@, final(log)@, EventType::TaskRetried, Some(old(self).spec_dimension()), Some(task_id))
                &&& final(log)@.last().payload.model() == JsonModel::Object(seq![
                    ("task_id"@, JsonModel::Str(uuid_text(task_id.0))),
                    ("attempt"@, JsonModel::Int(old_e.retry_count + 1)),
                    ("backoff_ms"@, JsonModel::Int(b as int))])
            },
            !(r matches Ok(Some(_))) ==> final(self).spec_entries() == old(self).spec_entries()
                && final(self).spec_queue() == old(self).spec_queue()
                && final(self).spec_seq() == old(self).spec_seq()
                && final(log)@ == old(log)@,
            final(self).spec_dimension() == old(self).spec_dimension(),
            final(self).spec_quota() == old(self).spec_quota(),
            final(self).spec_rate() == old(self).spec_rate(),
    {
        proof {
            use_type_invariant(&*self);
        }
        let ghost e0 = self.entries@;
        let (policy, count, rank) = match self.entries.get(task_id.0) {
            Some(e) => {
                if e.state != TaskState::Failed {
                    return Err(SchedulerError::AlreadyTerminal(task_id));
                }
                (e.retry_policy, e.retry_count, e.priority.rank())
            },
            None => {
                return Err(SchedulerError::TaskNotFound(task_id));
            },
        };
        if count >= policy.max_attempts {
            return Ok(None);
        }
        let backoff = policy.backoff(count);
        match self.entries.get(task_id.0) {
            Some(e) => {
                let mut e = e.clone();
                e.state = TaskState::Queued;
                e.retry_count = count + 1;
                self.set_entry(task_id.0, e);
                proof {
                    assert(self.entries@ =~= e0.insert(task_id.0,
                        JobEntry { state: TaskState::Queued, retry_count: (count + 1) as u32, ..e0[task_id.0] }));
                }
            },
            None => {},
        }
        self.seq = self.seq + 1;
        proof {
            assert forall|i: int| 0 <= i < self.queue@.len() implies self.entries@.contains_key((#[trigger] self.queue@[i]).2.0) by {
                assert(e0.contains_key(self.queue@[i].2.0));
            }
        }
        self.push_slot((rank, self.seq, task_id));
        let m = vec![
            ("task_id".to_owned(), JsonValue::from_uuid(task_id.0)),
            ("attempt".to_owned(), JsonValue::from_u64(count as u64 + 1)),
            ("backoff_ms".to_owned(), JsonValue::from_u64(backoff)),
        ];
        proof {
            lemma_members_models(m@);
            assert(m@.map_values(|x: (String, JsonValue)| (x.0@, x.1.model())) =~= seq![
                ("task_id"@, JsonModel::Str(uuid_text(task_id.0))),
                ("attempt"@, JsonModel::Int(count + 1)),
                ("backoff_ms"@, JsonModel::Int(backoff as int))]);
        }
        let payload = JsonValue::object(m);
        log.record(EventType::TaskRetried, Some(self.dimension_id), Some(task_id), payload);
        Ok(Some(backoff))
    }

    /// The state of a task, if known.
    pub fn state(&self, task_id: TaskId) -> (r: Option<TaskState>)
        ensures
            r is Some <==> self.spec_entries().contains_key(task_id.0),
            r matches Some(s) ==> s == self.spec_entries()[task_id.0].state,
    {
        match self.entries.get(task_id.0) {
            Some(e) => Some(e.state),
            None => None,
        }
    }

    /// The entries, for readiness checks.
    pub fn entries(&self) -> (r: &IdMap<JobEntry>)
        ensures
            r@ == self.spec_entries(),
    {
        &self.entries
    }

    /// Number of queued slots.
    pub fn queued_count(&self) -> (r: usize)
        ensures
            r == self.spec_queue().len(),
    {
        self.queue.len()
    }

    /// The submission counter.
    pub fn submissions(&self) -> (r: u64)
        ensures
            r == self.spec_seq(),
    {
        self.seq
    }
}

// ---------------------------------------------------------------------------
// Snapshots
// ---------------------------------------------------------------------------

/// A task as persisted, to rebuild its entry after a crash or restart.
#[derive(Debug)]
pub struct TaskSnapshot {
    /// Task id.
    pub task_id: TaskId,
    /// Owning dimension.
    pub dimension_id: DimensionId,
    /// Last known state.
    pub state: TaskState,
    /// Priority.
    pub priority: TaskPriority,
    /// Retry policy.
    pub retry_policy: RetryPolicy,
    /// Retries consumed.
    pub retry_count: u32,
    /// Preemption policy.
    pub preemption_policy: PreemptionPolicy,
    /// Optional name.
    pub name: Option<String>,
    /// Task-specific data.
    pub payload: JsonValue,
    /// When the snapshot was taken, Unix epoch milliseconds.
    pub snapshot_at_ms: u64,
}

/// The state a task is recovered in: a running task is queued again (its
/// worker is presumed dead); any other state is kept.
pub open spec fn recovered_state(s: TaskState) -> TaskState {
    if s == TaskState::Running { TaskState::Queued } else { s }
}

impl TaskSnapshot {
    /// A snapshot of `entry` with `payload`, taken now.
    pub fn from_entry(entry: &JobEntry, payload: JsonValue) -> (r: Self)
        ensures
            r.task_id == entry.task_id,
            r.dimension_id == entry.dimension_id,
            r.state == entry.state,
            r.priority == entry.priority,
            r.retry_policy == entry.retry_policy,
            r.retry_count == entry.retry_count,
            r.preemption_policy == entry.preemption_policy,
            r.name == entry.name,
            r.payload == payload,
    {
        TaskSnapshot {
            task_id: entry.task_id,
            dimension_id: entry.dimension_id,
            state: entry.state,
            priority: entry.priority,
            retry_policy: entry.retry_policy,
            retry_count: entry.retry_count,
            preemption_policy: entry.preemption_policy,
            name: match &entry.name {
                Some(n) => Some(n.clone()),
                None => None,
            },
            payload,
            snapshot_at_ms: now_ms(),
        }
    }

    /// Rebuild the entry; a task snapshotted while running is queued again.
    pub fn recover(self) -> (r: JobEntry)
        ensures
            r == (JobEntry {
                task_id: self.task_id,
                dimension_id: self.dimension_id,
                priority: self.priority,
                state: recovered_state(self.state),
                name: self.name,
                retry_policy: self.retry_policy,
                retry_count: self.retry_count,
                preemption_policy: self.preemption_policy,
            }),
    {
        let state = match self.state {
            TaskState::Running => TaskState::Queued,
            other => other,
        };
        JobEntry {
            task_id: self.task_id,
            dimension_id: self.dimension_id,
            priority: self.priority,
            state,
            name: self.name,
            retry_policy: self.retry_policy,
            retry_count: self.retry_count,
            preemption_policy: self.preemption_policy,
        }
    }
}

// ---------------------------------------------------------------------------
// Templates
// ---------------------------------------------------------------------------

/// A reusable blueprint for jobs.
#[derive(Debug)]
pub struct TaskTemplate {
    /// Template name, unique within a registry.
    pub name: String,
    /// Default priority.
    pub default_priority: TaskPriority,
    /// Default retry policy.
    pub default_retry_policy: RetryPolicy,
    /// Default preemption policy.
    pub default_preemption_policy: PreemptionPolicy,
    /// Default payload.
    pub default_payload: JsonValue,
}

impl TaskTemplate {
    /// A template with normal priority, the default retry policy, no
    /// preemption and a null payload.
    pub fn new(name: &str) -> (r: Self)
        ensures
            r.name@ == name@,
            r.default_priority == TaskPriority::Normal,
            r.default_retry_policy == RetryPolicy::default_policy_spec(),
            r.default_preemption_policy == PreemptionPolicy::Never,
            r.default_payload == JsonValue::Null,
    {
        TaskTemplate {
            name: name.to_owned(),
            default_priority: TaskPriority::Normal,
            default_retry_policy: RetryPolicy::default_policy(),
            default_preemption_policy: PreemptionPolicy::Never,
            default_payload: JsonValue::Null,
        }
    }

    /// A queued job from this template, named after it, with no retries
    /// consumed; the overrides replace the defaults when given.
    pub fn instantiate(
        &self,
        task_id: TaskId,
        dimension_id: DimensionId,
        priority_override: Option<TaskPriority>,
        retry_override: Option<RetryPolicy>,
    ) -> (r: JobEntry)
        ensures
            r.task_id == task_id,
            r.dimension_id == dimension_id,
            r.priority == match priority_override { Some(p) => p, None => self.default_priority },
            r.state == TaskState::Queued,
            r.name == Some(self.name),
            r.retry_policy == match retry_override { Some(p) => p, None => self.default_retry_policy },
            r.retry_count == 0,
            r.preemption_policy == self.default_preemption_policy,
    {
        JobEntry {
            task_id,
            dimension_id,
            priority: match priority_override {
                Some(p) => p,
                None => self.default_priority,
            },
            state: TaskState::Queued,
            name: Some(self.name.clone()),
            retry_policy: match retry_override {
                Some(p) => p,
                None => self.default_retry_policy,
            },
            retry_count: 0,
            preemption_policy: self.default_preemption_policy,
        }
    }
}

impl Clone for TaskTemplate {
    fn clone(&self) -> (r: Self)
        ensures
            r == *self,
    {
        TaskTemplate {
            name: self.name.clone(),
            default_priority: self.default_priority,
            default_retry_policy: self.default_retry_policy,
            default_preemption_policy: self.default_preemption_policy,
            default_payload: self.default_payload.clone(),
        }
    }
}

/// The template named `name` among `s` (names are distinct).
pub open spec fn template_named(s: Seq<TaskTemplate>, name: Seq<char>) -> Option<TaskTemplate> {
    if exists|i: int| 0 <= i < s.len() && s[i].name@ == name {
        Some(s[choose|i: int| 0 <= i < s.len() && s[i].name@ == name])
    } else {
        None
    }
}

/// Templates keyed by name.
#[derive(Debug)]
pub struct TaskTemplateRegistry {
    templates: Vec<TaskTemplate>,
}

impl TaskTemplateRegistry {
    /// Names are distinct.
    #[verifier::type_invariant]
    spec fn distinct(&self) -> bool {
        forall|i: int, j: int| 0 <= i < j < self.templates@.len() ==> self.templates@[i].name@ != self.templates@[j].name@
    }

    /// The template registered under `name`, if any.
    pub closed spec fn spec_get(&self, name: Seq<char>) -> Option<TaskTemplate> {
        template_named(self.templates@, name)
    }

    /// An empty registry.
    pub fn new() -> (r: Self)
        ensures
            forall|n: Seq<char>| r.spec_get(n) is None,
    {
        TaskTemplateRegistry { templates: Vec::new() }
    }

    fn find(&self, name: &str) -> (r: Option<usize>)
        ensures
            r matches Some(i) ==> i < self.templates@.len() && self.templates@[i as int].name@ == name@,
            r is None ==> forall|i: int| 0 <= i < self.templates@.len() ==> self.templates@[i].name@ != name@,
    {
        let n = self.templates.len();
        for i in 0..n
            invariant
                n == self.templates@.len(),
                forall|j: int| 0 <= j < i ==> self.templates@[j].name@ != name@,
        {
            if crate::text::str_eq(self.templates[i].name.as_str(), name) {
                return Some(i);
            }
        }
        None
    }

    /// Register a template, replacing one with the same name.
    pub fn register(&mut self, template: TaskTemplate)
        ensures
            final(self).spec_get(template.name@) == Some(template),
            forall|n: Seq<char>| n != template.name@ ==> final(self).spec_get(n) == old(self).spec_get(n),
    {
        proof {
            use_type_invariant(&*self);
        }
        let ghost s = self.templates@;
        let ghost tn = template.name@;
        let found = self.find(template.name.as_str());
        let mut ts: Vec<TaskTemplate> = Vec::new();
        std::mem::swap(&mut ts, &mut self.templates);
        match found {
            Some(i) => {
                ts.set(i, template);
            },
            None => {
                ts.push(template);
            },
        }
        proof {
            let t = ts@;
            assert(forall|a: int, b: int| 0 <= a < b < t.len() ==> t[a].name@ != t[b].name@) by {
                assert forall|a: int, b: int| 0 <= a < b < t.len() implies t[a].name@ != t[b].name@ by {
                    if a < s.len() && b < s.len() {
                        if found is Some {
                            let i = found->0 as int;
                            if a != i && b != i {
                                assert(t[a] == s[a] && t[b] == s[b]);
                            } else if a == i {
                                assert(t[b] == s[b]);
                                assert(s[a].name@ != s[b].name@);
                            } else {
                                assert(t[a] == s[a]);
                                assert(s[a].name@ != s[b].name@);
                            }
                        } else {
                            assert(t[a] == s[a] && t[b] == s[b]);
                        }
                    } else {
                        assert(t[a] == s[a]);
                    }
                }
            }
            assert(template_named(t, tn) == Some(t[if found is Some { found->0 as int } else { s.len() as int }]));
            assert forall|n: Seq<char>| n != tn implies template_named(t, n) == template_named(s, n) by {
                if exists|i: int| 0 <= i < s.len() && s[i].name@ == n {
                    let i = choose|i: int| 0 <= i < s.len() && s[i].name@ == n;
                    assert(t[i] == s[i]);
                    let j = choose|j: int| 0 <= j < t.len() && t[j].name@ == n;
                    if j != i {
                        if j < s.len() {
                            assert(t[j] == s[j]);
                            assert(i < j ==> s[i].name@ != s[j].name@);
                            assert(j < i ==> s[j].name@ != s[i].name@);
                        }
                    }
                }
                if exists|j: int| 0 <= j < t.len() && t[j].name@ == n {
                    let j = choose|j: int| 0 <= j < t.len() && t[j].name@ == n;
                    if j < s.len() {
                        assert(t[j] == s[j]);
                    }
                }
            }
        }
        self.templates = ts;
    }

    /// A copy of the template registered under `name`, if any.
    pub fn get(&self, name: &str) -> (r: Option<TaskTemplate>)
        ensures
            r == self.spec_get(name@),
    {
        proof {
            use_type_invariant(self);
        }
        match self.find(name) {
            Some(i) => {
                proof {
                    let j = choose|j: int| 0 <= j < self.templates@.len() && self.templates@[j].name@ == name@;
                    if j != i as int {
                        assert(i < j ==> self.templates@[i as int].name@ != self.templates@[j].name@);
                        assert(j < i ==> self.templates@[j].name@ != self.templates@[i as int].name@);
                    }
                }
                Some(self.templates[i].clone())
            },
            None => None,
        }
    }
}

// ---------------------------------------------------------------------------
// Global task index
// ---------------------------------------------------------------------------

/// The dimension owning each task id; an id is registered at most once.
#[derive(Debug)]
pub struct TaskIndex {
    index: IdMap<DimensionId>,
}

impl TaskIndex {
    /// The owners by task id.
    pub closed spec fn spec_index(&self) -> Map<u128, DimensionId> {
        self.index@
    }

    /// An empty index.
    pub fn new() -> (r: Self)
        ensures
            r.spec_index() == Map::<u128, DimensionId>::empty(),
    {
        TaskIndex { index: IdMap::new() }
    }

    /// Register `task_id` as owned by `dimension_id`; an id already
    /// registered is refused.
    pub fn register(&mut self, task_id: TaskId, dimension_id: DimensionId) -> (r: Result<(), SchedulerError>)
        ensures
            r is Ok <==> !old(self).spec_index().contains_key(task_id.0),
            r is Ok ==> final(self).spec_index() == old(self).spec_index().insert(task_id.0, dimension_id),
            r matches Err(e) ==> e == SchedulerError::DuplicateTaskId(task_id) && final(self).spec_index() == old(self).spec_index(),
    {
        if self.index.contains_key(task_id.0) {
            return Err(SchedulerError::DuplicateTaskId(task_id));
        }
        self.index.insert(task_id.0, dimension_id);
        Ok(())
    }

    /// The dimension that owns `task_id`.
    pub fn dimension_of(&self, task_id: TaskId) -> (r: Option<DimensionId>)
        ensures
            r is Some <==> self.spec_index().contains_key(task_id.0),
            r matches Some(d) ==> d == self.spec_index()[task_id.0],
    {
        match self.index.get(task_id.0) {
            Some(d) => Some(*d),
            None => None,
        }
    }

    /// Whether `task_id` is registered.
    pub fn contains(&self, task_id: TaskId) -> (r: bool)
        ensures
            r == self.spec_index().contains_key(task_id.0),
    {
        self.index.contains_key(task_id.0)
    }

    /// Number of registered ids.
    pub fn len(&self) -> (r: usize)
        ensures
            r == self.spec_index().len(),
    {
        self.index.len()
    }

    /// Whether no id is registered.
    pub fn is_empty(&self) -> (r: bool)
        ensures
            r == (self.spec_index().len() == 0),
    {
        self.index.is_empty()
    }
}

} // verus!
