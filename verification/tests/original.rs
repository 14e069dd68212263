use lib::{
    DeadlineTracker, FairQueue, Job, JobScheduler, LoadBalancer, Priority,
    PriorityInversionDetector, ResourcePool, WorkerState,
};

#[test]
fn test_priority_from_i8() {
    assert_eq!(Priority::from_i8(-1), Some(Priority::Reject));
    assert_eq!(Priority::from_i8(0), Some(Priority::Normal));
    assert_eq!(Priority::from_i8(1), Some(Priority::Priority));
    assert_eq!(Priority::from_i8(2), None);
}

#[test]
fn test_job_new() {
    let job = Job::new(1, Priority::Normal, 0);
    assert_eq!(job.id, 1);
    assert_eq!(job.priority, Priority::Normal);
    assert!(job.deadline.is_none());
    assert!(!job.is_complete());
}

#[test]
fn test_job_deadline_overdue() {
    let job = Job::new(1, Priority::Normal, 0).with_deadline(10);
    assert!(!job.is_overdue(5));
    assert!(!job.is_overdue(10));
    assert!(job.is_overdue(11));
}

#[test]
fn test_job_wait_time() {
    let job = Job::new(1, Priority::Normal, 5);
    assert_eq!(job.wait_time(10), 5);
    assert_eq!(job.wait_time(5), 0);
}

#[test]
fn test_resource_pool_allocate_release() {
    let mut pool = ResourcePool::new("cpu", 10);
    assert_eq!(pool.available(), 10);
    assert!(pool.try_allocate(5));
    assert_eq!(pool.available(), 5);
    assert!(!pool.try_allocate(6));
    pool.release(3);
    assert_eq!(pool.available(), 8);
}

#[test]
fn test_deadline_tracker_overdue() {
    let mut tracker = DeadlineTracker::new();
    let jobs = vec![
        Job::new(1, Priority::Normal, 0).with_deadline(5),
        Job::new(2, Priority::Normal, 0).with_deadline(20),
    ];
    tracker.advance(10);
    let overdue = tracker.overdue_jobs(&jobs);
    assert_eq!(overdue, vec![1]);
}

#[test]
fn test_deadline_tracker_at_risk() {
    let mut tracker = DeadlineTracker::new();
    let jobs = vec![
        Job::new(1, Priority::Normal, 0).with_deadline(15),
        Job::new(2, Priority::Normal, 0).with_deadline(30),
    ];
    tracker.advance(10);
    let at_risk = tracker.at_risk_jobs(&jobs, 10);
    assert!(at_risk.contains(&1));
    assert!(!at_risk.contains(&2));
}

#[test]
fn test_fair_queue_reject() {
    let mut q = FairQueue::new();
    let job = Job::new(1, Priority::Reject, 0);
    assert!(!q.enqueue(job));
}

#[test]
fn test_fair_queue_priority_first() {
    let mut q = FairQueue::new();
    q.enqueue(Job::new(1, Priority::Normal, 0));
    q.enqueue(Job::new(2, Priority::Priority, 0));
    let next = q.dequeue();
    assert_eq!(next.unwrap().id, 2); // Priority goes first
}

#[test]
fn test_fair_queue_fifo_within_priority() {
    let mut q = FairQueue::new();
    q.enqueue(Job::new(1, Priority::Normal, 0));
    q.enqueue(Job::new(2, Priority::Normal, 0));
    let next = q.dequeue();
    assert_eq!(next.unwrap().id, 1); // FIFO
}

#[test]
fn test_job_scheduler_submit() {
    let mut scheduler = JobScheduler::new();
    let id1 = scheduler.submit(Priority::Normal);
    let id2 = scheduler.submit(Priority::Priority);
    let id3 = scheduler.submit(Priority::Reject);
    assert_eq!(id1, 1);
    assert_eq!(id2, 2);
    assert!(scheduler.rejected.contains(&id3));
}

#[test]
fn test_job_scheduler_schedule() {
    let mut scheduler = JobScheduler::new();
    scheduler.submit(Priority::Normal);
    scheduler.submit(Priority::Priority);
    let job = scheduler.schedule_next();
    assert_eq!(job.unwrap().priority, Priority::Priority);
}

#[test]
fn test_job_scheduler_complete() {
    let mut scheduler = JobScheduler::new();
    scheduler.add_pool("cpu", 4);
    let job = Job::new(1, Priority::Normal, 0).require_resource("cpu", 2);
    scheduler.queue.enqueue(job);
    let scheduled = scheduler.schedule_next().unwrap();
    scheduler.complete(scheduled);
    assert_eq!(scheduler.completed_count(), 1);
}

#[test]
fn test_priority_inversion_detection() {
    let detector = PriorityInversionDetector::new();
    let running = vec![Job::new(1, Priority::Normal, 0).require_resource("cpu", 4)];
    let queued = vec![Job::new(2, Priority::Priority, 0).require_resource("cpu", 4)];
    let pools = vec![ResourcePool::new("cpu", 4)]; // fully allocated
    // We need to simulate that the pool is fully allocated
    let mut pools = pools;
    pools[0].try_allocate(4); // all taken
    let inversions = detector.detect(&running, &queued, &pools);
    assert_eq!(inversions.len(), 1);
    assert_eq!(inversions[0], (2, 1));
}

#[test]
fn test_load_balancer_select() {
    let mut lb = LoadBalancer::new();
    lb.add_worker(WorkerState::new(1, 10)); // 0/10 = underloaded
    lb.add_worker(WorkerState::new(2, 10)); // 0/10 = underloaded
    let selected = lb.select_worker();
    assert!(selected.is_some());
}

#[test]
fn test_load_balancer_prefer_underloaded() {
    let mut lb = LoadBalancer::new();
    let mut w1 = WorkerState::new(1, 10);
    w1.job_count = 9; // overloaded
    let mut w2 = WorkerState::new(2, 10);
    w2.job_count = 2; // underloaded
    lb.add_worker(w1);
    lb.add_worker(w2);
    let selected = lb.select_worker();
    assert_eq!(selected, Some(2));
}

#[test]
fn test_load_balancer_assign_release() {
    let mut lb = LoadBalancer::new();
    lb.add_worker(WorkerState::new(1, 2));
    let worker = lb.assign_job();
    assert_eq!(worker, Some(1));
    assert_eq!(lb.workers.get(&1).unwrap().job_count, 1);
    lb.release_job(1);
    assert_eq!(lb.workers.get(&1).unwrap().job_count, 0);
}

#[test]
fn test_load_balancer_distribution() {
    let mut lb = LoadBalancer::new();
    let mut w1 = WorkerState::new(1, 10);
    w1.job_count = 9; // overloaded
    let w2 = WorkerState::new(2, 10); // underloaded
    let mut w3 = WorkerState::new(3, 10);
    w3.job_count = 6; // balanced
    lb.add_worker(w1);
    lb.add_worker(w2);
    lb.add_worker(w3);
    let (over, bal, under) = lb.worker_distribution();
    assert_eq!(over, 1);
    assert_eq!(bal, 1);
    assert_eq!(under, 1);
}

#[test]
fn test_worker_load_rating() {
    let mut w = WorkerState::new(1, 10);
    w.job_count = 2;
    assert_eq!(w.load_rating(), Priority::Priority); // 20% = underloaded
    w.job_count = 6;
    assert_eq!(w.load_rating(), Priority::Normal); // 60% = balanced
    w.job_count = 9;
    assert_eq!(w.load_rating(), Priority::Reject); // 90% = overloaded
}

#[test]
fn test_job_resource_requirements() {
    let job = Job::new(1, Priority::Normal, 0)
        .require_resource("cpu", 2)
        .require_resource("mem", 4);
    assert_eq!(job.resource_requirements.get("cpu"), Some(&2));
    assert_eq!(job.resource_requirements.get("mem"), Some(&4));
}
