use lib::{
    DeadlineTracker, FairQueue, Job, JobScheduler, LoadBalancer, NameMap, Priority,
    PriorityInversionDetector, ResourcePool, WorkerState,
};

#[test]
fn from_i8_refuses_values_outside_the_three() {
    assert_eq!(Priority::from_i8(-2), None);
    assert_eq!(Priority::from_i8(i8::MIN), None);
    assert_eq!(Priority::from_i8(i8::MAX), None);
}

#[test]
fn priorities_are_ordered_by_value() {
    assert!(Priority::Reject < Priority::Normal);
    assert!(Priority::Normal < Priority::Priority);
}

#[test]
fn wait_time_is_zero_before_creation() {
    let job = Job::new(7, Priority::Normal, 20);
    assert_eq!(job.wait_time(3), 0);
    assert_eq!(job.wait_time(25), 5);
}

#[test]
fn job_without_deadline_is_never_overdue() {
    let job = Job::new(1, Priority::Priority, 0);
    assert!(!job.is_overdue(u64::MAX));
}

#[test]
fn completed_job_is_neither_overdue_nor_at_risk() {
    let mut job = Job::new(1, Priority::Normal, 0).with_deadline(5);
    job.completed_at = Some(4);
    let mut tracker = DeadlineTracker::new();
    tracker.advance(3);
    assert!(tracker.at_risk_jobs(&[job.clone()], 10).is_empty());
    tracker.advance(10);
    assert!(tracker.overdue_jobs(&[job]).is_empty());
}

#[test]
fn overdue_and_at_risk_never_overlap() {
    let jobs = vec![
        Job::new(1, Priority::Normal, 0).with_deadline(9),
        Job::new(2, Priority::Normal, 0).with_deadline(10),
        Job::new(3, Priority::Normal, 0).with_deadline(11),
        Job::new(4, Priority::Normal, 0).with_deadline(20),
    ];
    let mut tracker = DeadlineTracker::new();
    tracker.advance(10);
    let overdue = tracker.overdue_jobs(&jobs);
    let at_risk = tracker.at_risk_jobs(&jobs, 10);
    assert_eq!(overdue, vec![1]);
    // deadline 10 is reached (nothing remains), so it is neither
    assert_eq!(at_risk, vec![3, 4]);
    for id in &overdue {
        assert!(!at_risk.contains(id));
    }
}

#[test]
fn at_risk_threshold_is_inclusive() {
    let jobs = vec![
        Job::new(1, Priority::Normal, 0).with_deadline(15),
        Job::new(2, Priority::Normal, 0).with_deadline(16),
    ];
    let mut tracker = DeadlineTracker::new();
    tracker.advance(10);
    assert_eq!(tracker.at_risk_jobs(&jobs, 5), vec![1]);
}

#[test]
fn overdue_job_stays_overdue() {
    let job = Job::new(1, Priority::Normal, 0).with_deadline(3);
    assert!(job.is_overdue(4));
    assert!(job.is_overdue(400));
}

#[test]
fn pool_release_saturates_at_zero() {
    let mut pool = ResourcePool::new("gpu", 2);
    assert!(pool.try_allocate(1));
    pool.release(5);
    assert_eq!(pool.allocated, 0);
    assert_eq!(pool.available(), 2);
}

#[test]
fn pool_allocate_then_release_restores() {
    let mut pool = ResourcePool::new("cpu", 8);
    assert!(pool.try_allocate(3));
    assert!(pool.try_allocate(5));
    assert_eq!(pool.available(), 0);
    assert!(!pool.try_allocate(1));
    assert!(pool.try_allocate(0));
    pool.release(5);
    pool.release(3);
    assert_eq!(pool.allocated, 0);
    assert_eq!(pool.name, "cpu");
    assert_eq!(pool.capacity, 8);
}

#[test]
fn over_allocated_pool_has_nothing_available() {
    let mut pool = ResourcePool::new("mem", 4);
    pool.allocated = 9;
    assert_eq!(pool.available(), 0);
    assert!(!pool.try_allocate(1));
    assert_eq!(pool.allocated, 9);
}

#[test]
fn name_map_replaces_in_place() {
    let mut m: NameMap<u32> = NameMap::new();
    m.insert("a", 1);
    m.insert("b", 2);
    m.insert("a", 3);
    assert_eq!(m.len(), 2);
    assert_eq!(m.get("a"), Some(&3));
    assert_eq!(m.get("b"), Some(&2));
    assert_eq!(m.get("c"), None);
    assert_eq!(m.position("a"), Some(0));
    let (name, value) = m.entry(1);
    assert_eq!(name, "b");
    assert_eq!(*value, 2);
}

#[test]
fn require_resource_replaces_earlier_amount() {
    let job = Job::new(1, Priority::Normal, 0)
        .require_resource("cpu", 2)
        .require_resource("cpu", 5);
    assert_eq!(job.resource_requirements.get("cpu"), Some(&5));
    assert_eq!(job.resource_requirements.len(), 1);
}

#[test]
fn fair_queue_order_is_priority_then_fifo() {
    let mut q = FairQueue::new();
    assert!(q.is_empty());
    assert!(q.enqueue(Job::new(1, Priority::Normal, 0)));
    assert!(q.enqueue(Job::new(2, Priority::Priority, 0)));
    assert!(!q.enqueue(Job::new(3, Priority::Reject, 0)));
    assert!(q.enqueue(Job::new(4, Priority::Normal, 0)));
    assert!(q.enqueue(Job::new(5, Priority::Priority, 0)));
    assert_eq!(q.len(), 4);
    let mut ids = Vec::new();
    while let Some(job) = q.dequeue() {
        ids.push(job.id);
    }
    assert_eq!(ids, vec![2, 5, 1, 4]);
    assert!(q.is_empty());
    assert!(q.dequeue().is_none());
}

#[test]
fn put_back_front_undoes_dequeue() {
    let mut q = FairQueue::new();
    q.enqueue(Job::new(1, Priority::Normal, 0));
    q.enqueue(Job::new(2, Priority::Normal, 0));
    let from_priority_level = q.next_is_from_priority_level();
    assert!(!from_priority_level);
    let first = q.dequeue().unwrap();
    q.put_back_front(first, from_priority_level);
    assert_eq!(q.dequeue().unwrap().id, 1);
    assert_eq!(q.dequeue().unwrap().id, 2);
}

#[test]
fn submit_gives_sequential_ids_and_records_rejections() {
    let mut s = JobScheduler::new();
    assert_eq!(s.submit(Priority::Reject), 1);
    assert_eq!(s.submit(Priority::Normal), 2);
    assert_eq!(s.submit(Priority::Reject), 3);
    assert_eq!(s.rejected, vec![1, 3]);
    assert_eq!(s.pending_count(), 1);
    assert_eq!(s.next_job_id, 4);
}

#[test]
fn submit_job_keeps_the_jobs_id() {
    let mut s = JobScheduler::new();
    assert_eq!(s.submit_job(Job::new(42, Priority::Priority, 0)), 42);
    assert_eq!(s.submit_job(Job::new(43, Priority::Reject, 0)), 43);
    assert_eq!(s.rejected, vec![43]);
    assert_eq!(s.pending_count(), 1);
}

#[test]
fn schedule_next_on_empty_queue_is_none() {
    let mut s = JobScheduler::new();
    assert!(s.schedule_next().is_none());
}

#[test]
fn schedule_next_stamps_start_time_and_allocates() {
    let mut s = JobScheduler::new();
    s.add_pool("cpu", 4);
    s.advance_time(7);
    s.submit_job(Job::new(1, Priority::Normal, 0).require_resource("cpu", 3));
    let job = s.schedule_next().unwrap();
    assert_eq!(job.started_at, Some(7));
    assert_eq!(s.pools.get("cpu").unwrap().available(), 1);
    s.advance_time(2);
    s.complete(job);
    assert_eq!(s.pools.get("cpu").unwrap().available(), 4);
    assert_eq!(s.completed[0].completed_at, Some(9));
    assert_eq!(s.completed_count(), 1);
}

#[test]
fn blocked_job_keeps_its_place_and_takes_nothing() {
    let mut s = JobScheduler::new();
    s.add_pool("cpu", 4);
    s.add_pool("mem", 1);
    let job = Job::new(1, Priority::Priority, 0)
        .require_resource("cpu", 2)
        .require_resource("mem", 2);
    s.submit_job(job);
    s.submit_job(Job::new(2, Priority::Priority, 0));
    assert!(s.schedule_next().is_none());
    // nothing was taken from the pool that had room
    assert_eq!(s.pools.get("cpu").unwrap().available(), 4);
    assert_eq!(s.pools.get("mem").unwrap().available(), 1);
    // the blocked job is still first
    assert_eq!(s.queue.priority_queue.front().unwrap().id, 1);
    assert_eq!(s.pending_count(), 2);
    // a larger pool of the same name replaces the old one
    s.add_pool("mem", 4);
    let started = s.schedule_next().unwrap();
    assert_eq!(started.id, 1);
    assert_eq!(s.pools.get("cpu").unwrap().available(), 2);
    assert_eq!(s.pools.get("mem").unwrap().available(), 2);
}

#[test]
fn blocked_job_in_a_foreign_level_stays_there() {
    let mut s = JobScheduler::new();
    s.add_pool("cpu", 1);
    // a normal job placed directly on the priority level
    s.queue
        .priority_queue
        .push_back(Job::new(1, Priority::Normal, 0).require_resource("cpu", 2));
    s.queue.normal_queue.push_back(Job::new(2, Priority::Normal, 0));
    assert!(s.schedule_next().is_none());
    assert_eq!(s.queue.priority_queue.len(), 1);
    assert_eq!(s.queue.priority_queue.front().unwrap().id, 1);
    assert_eq!(s.queue.normal_queue.front().unwrap().id, 2);
}

#[test]
fn requirement_on_unknown_pool_is_ignored() {
    let mut s = JobScheduler::new();
    s.submit_job(Job::new(1, Priority::Normal, 0).require_resource("tpu", 100));
    assert_eq!(s.schedule_next().unwrap().id, 1);
}

#[test]
fn no_inversion_without_priority_jobs_or_with_room() {
    let detector = PriorityInversionDetector::new();
    let running = vec![Job::new(1, Priority::Normal, 0).require_resource("cpu", 4)];
    let mut pools = vec![ResourcePool::new("cpu", 4)];
    pools[0].try_allocate(4);
    let queued_normal = vec![Job::new(2, Priority::Normal, 0).require_resource("cpu", 4)];
    assert!(detector.detect(&running, &queued_normal, &pools).is_empty());
    let queued = vec![Job::new(3, Priority::Priority, 0).require_resource("cpu", 4)];
    let roomy = vec![ResourcePool::new("cpu", 8)];
    assert!(detector.detect(&running, &queued, &roomy).is_empty());
}

#[test]
fn inversion_lists_every_lower_holder() {
    let detector = PriorityInversionDetector::new();
    let running = vec![
        Job::new(1, Priority::Normal, 0).require_resource("cpu", 1),
        Job::new(2, Priority::Priority, 0).require_resource("cpu", 1),
        Job::new(3, Priority::Reject, 0).require_resource("cpu", 2),
        Job::new(4, Priority::Normal, 0).require_resource("cpu", 0),
    ];
    let queued = vec![Job::new(9, Priority::Priority, 0).require_resource("cpu", 2)];
    let mut pools = vec![ResourcePool::new("cpu", 4)];
    pools[0].try_allocate(3);
    assert_eq!(detector.detect(&running, &queued, &pools), vec![(9, 1), (9, 3)]);
}

#[test]
fn load_rating_boundaries() {
    let mut w = WorkerState::new(1, 10);
    w.job_count = 4; // below 50% is underloaded
    assert_eq!(w.load_rating(), Priority::Priority);
    w.job_count = 5; // exactly 50% is balanced
    assert_eq!(w.load_rating(), Priority::Normal);
    w.job_count = 8; // exactly 80% is not overloaded
    assert_eq!(w.load_rating(), Priority::Normal);
    let idle_without_room = WorkerState::new(2, 0);
    assert_eq!(idle_without_room.load_rating(), Priority::Reject);
    assert!(!idle_without_room.is_available());
}

#[test]
fn worker_assign_and_release() {
    let mut w = WorkerState::new(1, 3);
    w.assign();
    w.assign();
    assert_eq!(w.job_count, 2);
    w.release();
    w.release();
    w.release();
    assert_eq!(w.job_count, 0);
}

#[test]
fn select_prefers_least_loaded_underloaded() {
    let mut lb = LoadBalancer::new();
    let mut a = WorkerState::new(1, 10);
    a.job_count = 4;
    let mut b = WorkerState::new(2, 10);
    b.job_count = 1;
    let mut c = WorkerState::new(3, 10);
    c.job_count = 6;
    lb.add_worker(a);
    lb.add_worker(b);
    lb.add_worker(c);
    assert_eq!(lb.select_worker(), Some(2));
}

#[test]
fn select_falls_back_to_least_loaded_balanced() {
    let mut lb = LoadBalancer::new();
    let mut a = WorkerState::new(1, 10);
    a.job_count = 8;
    let mut b = WorkerState::new(2, 10);
    b.job_count = 6;
    let mut c = WorkerState::new(3, 10);
    c.job_count = 9;
    lb.add_worker(a);
    lb.add_worker(b);
    lb.add_worker(c);
    assert_eq!(lb.select_worker(), Some(2));
}

#[test]
fn select_none_when_all_overloaded_or_full() {
    let mut lb = LoadBalancer::new();
    assert_eq!(lb.select_worker(), None);
    let mut a = WorkerState::new(1, 10);
    a.job_count = 9;
    let mut b = WorkerState::new(2, 2);
    b.job_count = 2;
    lb.add_worker(a);
    lb.add_worker(b);
    lb.add_worker(WorkerState::new(3, 0));
    assert_eq!(lb.select_worker(), None);
    assert_eq!(lb.assign_job(), None);
    assert_eq!(lb.workers.get(&1).unwrap().job_count, 9);
}

#[test]
fn release_job_of_unknown_worker_changes_nothing() {
    let mut lb = LoadBalancer::new();
    lb.add_worker(WorkerState::new(1, 2));
    lb.release_job(5);
    lb.release_job(1);
    assert_eq!(lb.workers.len(), 1);
    assert_eq!(lb.workers.get(&1).unwrap().job_count, 0);
}

#[test]
fn assign_fills_a_worker_until_balanced_one_wins() {
    let mut lb = LoadBalancer::new();
    lb.add_worker(WorkerState::new(1, 4));
    assert_eq!(lb.assign_job(), Some(1)); // 0/4 underloaded
    assert_eq!(lb.assign_job(), Some(1)); // 1/4 underloaded
    assert_eq!(lb.assign_job(), Some(1)); // 2/4 balanced, accepted
    assert_eq!(lb.assign_job(), Some(1)); // 3/4 balanced, accepted
    assert_eq!(lb.assign_job(), None); // 4/4 full
    assert_eq!(lb.workers.get(&1).unwrap().job_count, 4);
}

#[test]
fn distribution_counts_every_worker() {
    let mut lb = LoadBalancer::new();
    for id in 0..7u64 {
        let mut w = WorkerState::new(id, 10);
        w.job_count = (id as usize) * 2;
        lb.add_worker(w);
    }
    // loads 0,2,4,6,8,10,12 out of 10
    let (over, bal, under) = lb.worker_distribution();
    assert_eq!((over, bal, under), (2, 2, 3));
    assert_eq!(over + bal + under, lb.workers.len());
}

#[test]
fn value_gives_the_numbers_back() {
    assert_eq!(Priority::Reject.value(), -1);
    assert_eq!(Priority::Normal.value(), 0);
    assert_eq!(Priority::Priority.value(), 1);
    for p in [Priority::Reject, Priority::Normal, Priority::Priority] {
        assert_eq!(Priority::from_i8(p.value()), Some(p));
    }
}

#[test]
fn inversions_follow_requirement_order() {
    let detector = PriorityInversionDetector::new();
    let running = vec![
        Job::new(1, Priority::Normal, 0).require_resource("mem", 1),
        Job::new(2, Priority::Normal, 0).require_resource("cpu", 1),
    ];
    let queued = vec![Job::new(9, Priority::Priority, 0)
        .require_resource("cpu", 1)
        .require_resource("mem", 1)];
    let mut pools = vec![ResourcePool::new("mem", 1), ResourcePool::new("cpu", 1)];
    pools[0].try_allocate(1);
    pools[1].try_allocate(1);
    assert_eq!(detector.detect(&running, &queued, &pools), vec![(9, 2), (9, 1)]);
}
