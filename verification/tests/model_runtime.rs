use ify_controller::ids::{DimensionId, TaskId};
use ify_controller::model_runtime::{
    allocate_replicas, reload_due, InMemoryReplicaKernel, ReplicaKernel, ReplicaKernelError, ReplicaPolicy,
    ReplicaRequest,
};

fn request(module: &str) -> ReplicaRequest {
    ReplicaRequest {
        dimension_id: DimensionId::new(),
        task_id: TaskId::new(),
        model_id: "model-a".to_string(),
        module_id: module.to_string(),
        policy: ReplicaPolicy::default(),
    }
}

#[test]
fn reload_respects_cooldown_and_min_samples() {
    // first breach with no earlier reload
    assert!(reload_due(1, 1, true, None, 1000, 100));
    // 50 ms after a reload, cooldown 100 ms
    assert!(!reload_due(2, 1, true, Some(1000), 1050, 100));
    assert!(reload_due(2, 1, true, Some(1000), 1100, 100));
    // not breached or too few samples
    assert!(!reload_due(5, 1, false, None, 1000, 0));
    assert!(!reload_due(0, 1, true, None, 1000, 0));
    // a clock that went back counts as no time elapsed
    assert!(!reload_due(2, 1, true, Some(2000), 1000, 1));
}

#[test]
fn allocation_gives_each_module_one_and_the_rest_to_the_first() {
    let (counts, total) = allocate_replicas(&vec![3, 2], 4);
    assert_eq!(counts, vec![3, 1]);
    assert_eq!(total, 4);
    let (counts, total) = allocate_replicas(&vec![3, 2], 0);
    assert_eq!(counts, vec![1, 1]);
    assert_eq!(total, 2);
    let (counts, total) = allocate_replicas(&vec![0], 5);
    assert_eq!(counts, vec![1]);
    assert_eq!(total, 1);
}

#[test]
fn in_memory_kernel_enforces_limit_and_destroys() {
    let mut kernel = InMemoryReplicaKernel::new(2);
    let a = kernel.create_replica(&request("ml-core")).unwrap();
    let _b = kernel.create_replica(&request("ai-core")).unwrap();
    assert!(matches!(kernel.create_replica(&request("x")), Err(ReplicaKernelError::LimitReached(2))));
    kernel.destroy_replica(a.id).unwrap();
    assert!(matches!(kernel.destroy_replica(a.id), Err(ReplicaKernelError::ReplicaNotFound(_))));
    assert!(kernel.create_replica(&request("y")).is_ok());
}

#[test]
fn reload_respects_cooldown() {
    // min_samples 1, cooldown 100 ms; accuracy 0.85 then 0.8 breach "at most 0.9".
    let first = reload_due(1, 1, true, None, 1000, 100);
    assert!(first);
    let second = reload_due(2, 1, true, Some(1000), 1050, 100);
    assert!(!second);
}
