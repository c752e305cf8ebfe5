use ify_controller::action_log::ActionLog;
use ify_controller::idmap::IdMap;
use ify_controller::ids::{DimensionId, TaskId};
use ify_controller::job_scheduler::{
    should_preempt, CancellationToken, DimensionQuota, JobEntry, JobScheduler, Lease, PreemptionPolicy, RateLimiter,
    RetryPolicy, SchedulerError, TaskDag, TaskIndex, TaskPriority, TaskSnapshot, TaskState, TaskTemplate,
    TaskTemplateRegistry,
};
use ify_controller::json::JsonValue;

fn make_scheduler() -> (JobScheduler, DimensionId, ActionLog) {
    let dim = DimensionId::new();
    let log = ActionLog::new(64);
    let quota = DimensionQuota::default();
    (JobScheduler::new(dim, quota), dim, log)
}

fn basic_entry(dim: DimensionId) -> JobEntry {
    JobEntry {
        task_id: TaskId::new(),
        dimension_id: dim,
        priority: TaskPriority::Normal,
        state: TaskState::Queued,
        name: None,
        retry_policy: RetryPolicy::default(),
        retry_count: 0,
        preemption_policy: PreemptionPolicy::Never,
    }
}

#[test]
fn task_state_terminal_variants() {
    assert!(TaskState::Completed.is_terminal());
    assert!(TaskState::Failed.is_terminal());
    assert!(TaskState::Cancelled.is_terminal());
    assert!(!TaskState::Queued.is_terminal());
    assert!(!TaskState::Running.is_terminal());
    assert!(!TaskState::Paused.is_terminal());
}

#[test]
fn task_state_display() {
    assert_eq!(TaskState::Queued.to_string(), "queued");
    assert_eq!(TaskState::Running.to_string(), "running");
    assert_eq!(TaskState::Paused.to_string(), "paused");
    assert_eq!(TaskState::Failed.to_string(), "failed");
    assert_eq!(TaskState::Completed.to_string(), "completed");
    assert_eq!(TaskState::Cancelled.to_string(), "cancelled");
}

#[test]
fn priority_ordering() {
    assert!(TaskPriority::Critical > TaskPriority::High);
    assert!(TaskPriority::High > TaskPriority::Normal);
    assert!(TaskPriority::Normal > TaskPriority::Low);
    assert!(TaskPriority::Low > TaskPriority::Background);
}

#[test]
fn priority_rank_follows_urgency() {
    assert_eq!(TaskPriority::Background.rank(), 0);
    assert_eq!(TaskPriority::Critical.rank(), 4);
    assert!(TaskPriority::High.rank() > TaskPriority::Normal.rank());
}

#[test]
fn high_priority_dequeued_first() {
    let (mut sched, dim, mut log) = make_scheduler();
    let dag = TaskDag::new();

    let low = JobEntry { task_id: TaskId::new(), priority: TaskPriority::Low, ..basic_entry(dim) };
    let high = JobEntry { task_id: TaskId::new(), priority: TaskPriority::High, ..basic_entry(dim) };
    let high_id = high.task_id;

    sched.enqueue(low, &mut log).unwrap();
    sched.enqueue(high, &mut log).unwrap();

    let got = sched.dequeue(&dag, &mut log).unwrap();
    assert_eq!(got.task_id, high_id);
}

#[test]
fn retry_policy_backoff_is_exponential() {
    let policy = RetryPolicy { max_attempts: 5, backoff_base_ms: 100, backoff_multiplier: 2, backoff_max_ms: 60_000 };
    assert_eq!(policy.backoff(0), 100);
    assert_eq!(policy.backoff(1), 200);
    assert_eq!(policy.backoff(2), 400);
}

#[test]
fn retry_policy_backoff_capped_at_max() {
    let policy = RetryPolicy { max_attempts: 10, backoff_base_ms: 1000, backoff_multiplier: 10, backoff_max_ms: 5000 };
    assert!(policy.backoff(5) <= 5000);
    assert_eq!(policy.backoff(5), 5000);
    assert_eq!(policy.backoff(40), 5000);
}

#[test]
fn retry_exhausted_returns_none() {
    let (mut sched, dim, mut log) = make_scheduler();
    let mut entry = basic_entry(dim);
    entry.retry_policy = RetryPolicy::no_retry();
    let tid = entry.task_id;
    sched.enqueue(entry, &mut log).unwrap();

    let dag = TaskDag::new();
    sched.dequeue(&dag, &mut log).unwrap();
    sched.fail(tid, "boom", &mut log).unwrap();

    let result = sched.retry(tid, &mut log).unwrap();
    assert!(result.is_none(), "no retries should be scheduled");
}

#[test]
fn retry_re_queues_task() {
    let (mut sched, dim, mut log) = make_scheduler();
    let mut entry = basic_entry(dim);
    entry.retry_policy = RetryPolicy { max_attempts: 3, ..Default::default() };
    let tid = entry.task_id;
    sched.enqueue(entry, &mut log).unwrap();

    let dag = TaskDag::new();
    sched.dequeue(&dag, &mut log).unwrap();
    sched.fail(tid, "oops", &mut log).unwrap();

    let backoff = sched.retry(tid, &mut log).unwrap();
    assert!(backoff.is_some());
    assert_eq!(sched.state(tid), Some(TaskState::Queued));
}

#[test]
fn cancellation_token() {
    let token = CancellationToken::new();
    assert!(!token.is_cancelled());
    token.cancel();
    assert!(token.is_cancelled());
    let clone = token.clone();
    assert!(clone.is_cancelled());
}

#[test]
fn lease_not_expired_immediately() {
    let tid = TaskId::new();
    let lease = Lease::acquire(tid, "worker-1", 30_000);
    assert!(!lease.is_expired());
    assert_eq!(lease.task_id(), tid);
    assert_eq!(lease.worker_id(), "worker-1");
    assert_eq!(lease.ttl(), 30_000);
}

#[test]
fn lease_expiry_is_measured_against_ttl() {
    let lease = Lease::acquire(TaskId::new(), "worker-1", 50);
    assert!(!lease.expired_after(49));
    assert!(lease.expired_after(50));
}

#[test]
fn heartbeat_renews_lease() {
    let mut lease = Lease::acquire(TaskId::new(), "worker-1", 50);
    lease.heartbeat();
    assert!(!lease.is_expired());
    assert!(!lease.expired_after(30));
}

#[test]
fn quota_queue_depth_enforced() {
    let dim = DimensionId::new();
    let mut log = ActionLog::new(64);
    let quota = DimensionQuota { max_concurrent: 4, max_queued: 2, max_tasks_per_second: 1000 };
    let mut sched = JobScheduler::new(dim, quota);

    sched.enqueue(basic_entry(dim), &mut log).unwrap();
    sched.enqueue(basic_entry(dim), &mut log).unwrap();
    let err = sched.enqueue(basic_entry(dim), &mut log);
    assert!(matches!(err, Err(SchedulerError::QuotaExceeded(_, _))));
}

#[test]
fn rate_limiter_token_bucket() {
    let mut rl = RateLimiter::new(2);
    assert!(rl.try_acquire());
    assert!(rl.try_acquire());
    assert!(!rl.try_acquire());
}

#[test]
fn rate_limiter_keeps_fractions_of_a_token() {
    let mut rl = RateLimiter::new(1000);
    for _ in 0..1000 {
        assert!(rl.acquire_after(0));
    }
    assert!(!rl.acquire_after(0));
    // 0.6 ms at 1000 tokens per second is 0.6 of a token: not enough alone,
    // but it is kept, and the next 0.6 ms completes a token.
    assert!(!rl.acquire_after(600_000));
    assert!(rl.acquire_after(600_000));
    assert!(!rl.acquire_after(600_000));
    assert!(rl.acquire_after(600_000));
}

#[test]
fn rate_limiter_refills_with_time() {
    let mut rl = RateLimiter::new(2);
    assert!(rl.acquire_after(0));
    assert!(rl.acquire_after(0));
    assert!(!rl.acquire_after(0));
    assert!(rl.acquire_after(1_000_000_000));
}

#[test]
fn dag_ready_with_no_deps() {
    let dag = TaskDag::new();
    let tid = TaskId::new();
    let entries: IdMap<JobEntry> = IdMap::new();
    assert!(dag.is_ready(tid, &entries));
}

#[test]
fn dag_not_ready_when_dep_not_complete() {
    let mut dag = TaskDag::new();
    let a = TaskId::new();
    let b = TaskId::new();
    dag.add_dependency(a, b).unwrap();

    let dim = DimensionId::new();
    let mut entries: IdMap<JobEntry> = IdMap::new();
    entries.insert(b.0, JobEntry { task_id: b, state: TaskState::Running, ..basic_entry(dim) });
    assert!(!dag.is_ready(a, &entries));
}

#[test]
fn dag_ready_when_dep_complete() {
    let mut dag = TaskDag::new();
    let a = TaskId::new();
    let b = TaskId::new();
    dag.add_dependency(a, b).unwrap();

    let dim = DimensionId::new();
    let mut entries: IdMap<JobEntry> = IdMap::new();
    entries.insert(b.0, JobEntry { task_id: b, state: TaskState::Completed, ..basic_entry(dim) });
    assert!(dag.is_ready(a, &entries));
}

#[test]
fn dag_cycle_detected() {
    let mut dag = TaskDag::new();
    let a = TaskId::new();
    let b = TaskId::new();
    dag.add_dependency(a, b).unwrap();
    let err = dag.add_dependency(b, a);
    assert!(matches!(err, Err(SchedulerError::DagCycle)));
}

#[test]
fn dag_self_dependency_is_a_cycle() {
    let mut dag = TaskDag::new();
    let a = TaskId::new();
    assert!(matches!(dag.add_dependency(a, a), Err(SchedulerError::DagCycle)));
}

#[test]
fn dag_topological_order() {
    let mut dag = TaskDag::new();
    let a = TaskId::new();
    let b = TaskId::new();
    let c = TaskId::new();
    dag.add_dependency(b, a).unwrap();
    dag.add_dependency(c, b).unwrap();

    let order = dag.topological_order(&vec![a, b, c]).unwrap();
    let pos = |t: TaskId| order.iter().position(|x| *x == t).unwrap();
    assert!(pos(a) < pos(b));
    assert!(pos(b) < pos(c));
}

#[test]
fn preemption_never() {
    let dim = DimensionId::new();
    let current =
        JobEntry { preemption_policy: PreemptionPolicy::Never, priority: TaskPriority::Low, ..basic_entry(dim) };
    let candidate = JobEntry { priority: TaskPriority::Critical, ..basic_entry(dim) };
    assert!(!should_preempt(&current, &candidate));
}

#[test]
fn preemption_by_priority() {
    let dim = DimensionId::new();
    let current =
        JobEntry { preemption_policy: PreemptionPolicy::ByPriority, priority: TaskPriority::Low, ..basic_entry(dim) };
    let candidate_high = JobEntry { priority: TaskPriority::High, ..basic_entry(dim) };
    let candidate_low = JobEntry { priority: TaskPriority::Background, ..basic_entry(dim) };
    assert!(should_preempt(&current, &candidate_high));
    assert!(!should_preempt(&current, &candidate_low));
}

#[test]
fn preemption_always() {
    let dim = DimensionId::new();
    let current =
        JobEntry { preemption_policy: PreemptionPolicy::Always, priority: TaskPriority::High, ..basic_entry(dim) };
    let candidate = JobEntry { priority: TaskPriority::Background, ..basic_entry(dim) };
    assert!(should_preempt(&current, &candidate));
}

#[test]
fn snapshot_round_trip() {
    let dim = DimensionId::new();
    let entry = basic_entry(dim);
    let tid = entry.task_id;

    let snap = TaskSnapshot::from_entry(&entry, JsonValue::object(vec![("k".to_string(), JsonValue::string("v"))]));
    let restored = snap.recover();
    assert_eq!(restored.task_id, tid);
    assert_eq!(restored.dimension_id, dim);
}

#[test]
fn recover_running_task_becomes_queued() {
    let dim = DimensionId::new();
    let mut entry = basic_entry(dim);
    entry.state = TaskState::Running;

    let snap = TaskSnapshot::from_entry(&entry, JsonValue::Null);
    let recovered = snap.recover();
    assert_eq!(recovered.state, TaskState::Queued);
}

#[test]
fn recover_completed_task_stays_completed() {
    let dim = DimensionId::new();
    let mut entry = basic_entry(dim);
    entry.state = TaskState::Completed;

    let snap = TaskSnapshot::from_entry(&entry, JsonValue::Null);
    let recovered = snap.recover();
    assert_eq!(recovered.state, TaskState::Completed);
}

#[test]
fn template_instantiation() {
    let tmpl = TaskTemplate::new("ml-train");
    let dim = DimensionId::new();
    let tid = TaskId::new();
    let entry = tmpl.instantiate(tid, dim, Some(TaskPriority::High), None);
    assert_eq!(entry.task_id, tid);
    assert_eq!(entry.priority, TaskPriority::High);
    assert_eq!(entry.name.as_deref(), Some("ml-train"));
    assert_eq!(entry.state, TaskState::Queued);
}

#[test]
fn template_registry_register_and_retrieve() {
    let mut registry = TaskTemplateRegistry::new();
    registry.register(TaskTemplate::new("etl-pipeline"));
    let t = registry.get("etl-pipeline").unwrap();
    assert_eq!(t.name, "etl-pipeline");
    assert!(registry.get("nonexistent").is_none());
}

#[test]
fn template_override_retry() {
    let tmpl = TaskTemplate::new("batch");
    let dim = DimensionId::new();
    let tid = TaskId::new();
    let custom_retry = RetryPolicy { max_attempts: 10, ..Default::default() };
    let entry = tmpl.instantiate(tid, dim, None, Some(custom_retry));
    assert_eq!(entry.retry_policy.max_attempts, 10);
}

#[test]
fn task_index_prevents_duplicates() {
    let mut index = TaskIndex::new();
    let tid = TaskId::new();
    let dim = DimensionId::new();
    index.register(tid, dim).unwrap();
    let err = index.register(tid, dim);
    assert!(matches!(err, Err(SchedulerError::DuplicateTaskId(_))));
}

#[test]
fn task_index_dimension_lookup() {
    let mut index = TaskIndex::new();
    let tid = TaskId::new();
    let dim = DimensionId::new();
    index.register(tid, dim).unwrap();
    assert_eq!(index.dimension_of(tid), Some(dim));
}

#[test]
fn task_index_contains() {
    let mut index = TaskIndex::new();
    let tid = TaskId::new();
    let dim = DimensionId::new();
    assert!(!index.contains(tid));
    index.register(tid, dim).unwrap();
    assert!(index.contains(tid));
}

#[test]
fn task_index_cross_dimension_different_ids() {
    let mut index = TaskIndex::new();
    index.register(TaskId::new(), DimensionId::new()).unwrap();
    index.register(TaskId::new(), DimensionId::new()).unwrap();
    assert_eq!(index.len(), 2);
    assert!(!index.is_empty());
}

#[test]
fn full_lifecycle_queued_running_completed() {
    let (mut sched, dim, mut log) = make_scheduler();
    let dag = TaskDag::new();

    let entry = basic_entry(dim);
    let tid = entry.task_id;
    sched.enqueue(entry, &mut log).unwrap();
    assert_eq!(sched.state(tid), Some(TaskState::Queued));

    let dequeued = sched.dequeue(&dag, &mut log).unwrap();
    assert_eq!(dequeued.task_id, tid);
    assert_eq!(sched.state(tid), Some(TaskState::Running));

    sched.complete(tid, &mut log).unwrap();
    assert_eq!(sched.state(tid), Some(TaskState::Completed));
}

#[test]
fn pause_resume_cycle() {
    let (mut sched, dim, mut log) = make_scheduler();
    let dag = TaskDag::new();

    let entry = basic_entry(dim);
    let tid = entry.task_id;
    sched.enqueue(entry, &mut log).unwrap();
    sched.dequeue(&dag, &mut log).unwrap();
    sched.pause(tid).unwrap();
    assert_eq!(sched.state(tid), Some(TaskState::Paused));
    sched.resume(tid).unwrap();
    assert_eq!(sched.state(tid), Some(TaskState::Queued));
    let got = sched.dequeue(&dag, &mut log).unwrap();
    assert_eq!(got.task_id, tid);
}

#[test]
fn completing_a_terminal_task_fails() {
    let (mut sched, dim, mut log) = make_scheduler();
    let dag = TaskDag::new();
    let entry = basic_entry(dim);
    let tid = entry.task_id;
    sched.enqueue(entry, &mut log).unwrap();
    sched.dequeue(&dag, &mut log).unwrap();
    sched.complete(tid, &mut log).unwrap();
    assert!(matches!(sched.complete(tid, &mut log), Err(SchedulerError::AlreadyTerminal(_))));
    assert!(matches!(sched.complete(TaskId::new(), &mut log), Err(SchedulerError::TaskNotFound(_))));
}

#[test]
fn cancelled_task_is_never_started() {
    let (mut sched, dim, mut log) = make_scheduler();
    let dag = TaskDag::new();
    let e = basic_entry(dim);
    let id = e.task_id;
    sched.enqueue(e, &mut log).unwrap();
    sched.cancel(id, &mut log).unwrap();
    assert!(sched.dequeue(&dag, &mut log).is_none());
    assert_eq!(sched.state(id), Some(TaskState::Cancelled));
}

#[test]
fn lease_with_zero_ttl_is_expired_at_once() {
    let lease = Lease::acquire(TaskId::new(), "worker-1", 0);
    assert!(lease.is_expired());
}

#[test]
fn dependency_on_a_task_that_waits_transitively_is_refused() {
    let mut dag = TaskDag::new();
    let (a, b, c) = (TaskId::new(), TaskId::new(), TaskId::new());
    dag.add_dependency(a, b).unwrap();
    dag.add_dependency(b, c).unwrap();
    assert!(matches!(dag.add_dependency(c, a), Err(SchedulerError::DagCycle)));
    assert!(dag.add_dependency(a, c).is_ok());
}
