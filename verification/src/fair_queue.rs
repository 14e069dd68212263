use vstd::prelude::*;
use std::collections::VecDeque;
use crate::job::Job;
use crate::priority::{Priority, priority_value};

verus! {

/// The contents of a fair queue: the jobs waiting at the priority level and
/// at the normal level, each front first.
pub struct QueueView {
    pub priority: Seq<Job>,
    pub normal: Seq<Job>,
}

impl QueueView {
    /// The order in which the jobs would leave the queue: all priority jobs,
    /// then all normal jobs, each level first-in first-out.
    pub open spec fn order(self) -> Seq<Job> {
        self.priority + self.normal
    }

    /// The number of waiting jobs.
    pub open spec fn len(self) -> nat {
        self.priority.len() + self.normal.len()
    }

    /// Each level holds only jobs of its own priority.
    pub open spec fn levels_match(self) -> bool {
        &&& forall|i: int| 0 <= i < self.priority.len() ==> #[trigger] self.priority[i].priority
            == Priority::Priority
        &&& forall|i: int| 0 <= i < self.normal.len() ==> #[trigger] self.normal[i].priority
            == Priority::Normal
    }
}

/// Whether `enqueue` accepts a job of priority `p`.
pub open spec fn accepts(p: Priority) -> bool {
    p != Priority::Reject
}

/// The queue after `job` is enqueued: appended at the back of its level, or
/// left out when it is rejected.
pub open spec fn queue_after_enqueue(q: QueueView, job: Job) -> QueueView {
    match job.priority {
        Priority::Reject => q,
        Priority::Normal => QueueView { normal: q.normal.push(job), ..q },
        Priority::Priority => QueueView { priority: q.priority.push(job), ..q },
    }
}

/// The queue after `job` is put back in front of the priority level
/// (`to_priority_level`) or of the normal level.
pub open spec fn queue_after_put_back(q: QueueView, job: Job, to_priority_level: bool) -> QueueView {
    if to_priority_level {
        QueueView { priority: seq![job] + q.priority, ..q }
    } else {
        QueueView { normal: seq![job] + q.normal, ..q }
    }
}

/// Whether `dequeue` takes its job from the priority level.
pub open spec fn dequeues_from_priority_level(q: QueueView) -> bool {
    q.priority.len() > 0
}

/// The job that `dequeue` hands out: the front priority job, else the front
/// normal job.
pub open spec fn next_job(q: QueueView) -> Option<Job> {
    if q.priority.len() > 0 {
        Some(q.priority[0])
    } else if q.normal.len() > 0 {
        Some(q.normal[0])
    } else {
        None
    }
}

/// The queue after `dequeue`.
pub open spec fn queue_after_dequeue(q: QueueView) -> QueueView {
    if q.priority.len() > 0 {
        QueueView { priority: q.priority.drop_first(), ..q }
    } else if q.normal.len() > 0 {
        QueueView { normal: q.normal.drop_first(), ..q }
    } else {
        q
    }
}

/// A job of priority `Reject` is never queued: the queue stays as it was.
pub proof fn law_rejected_job_is_not_queued(q: QueueView, job: Job)
    requires
        job.priority == Priority::Reject,
    ensures
        queue_after_enqueue(q, job) == q,
{
}

/// Jobs leave in the queue's order: `dequeue` hands out the first job of
/// `order()` and leaves the rest in the same order.
pub proof fn law_dequeue_follows_order(q: QueueView)
    ensures
        q.order().len() == 0 ==> next_job(q) is None && queue_after_dequeue(q) == q,
        q.order().len() > 0 ==> next_job(q) == Some(q.order()[0]) && queue_after_dequeue(
            q,
        ).order() == q.order().drop_first(),
{
    if q.priority.len() > 0 {
        assert(queue_after_dequeue(q).order() =~= q.order().drop_first());
    } else if q.normal.len() > 0 {
        assert(q.order() =~= q.normal);
        assert(queue_after_dequeue(q).order() =~= q.order().drop_first());
    } else {
        assert(q.order().len() == 0);
    }
}

/// First in, first out within a level: a normal job joins the end of the
/// order, and a priority job joins behind the priority jobs already queued
/// but ahead of every normal job.
pub proof fn law_enqueue_joins_its_level(q: QueueView, job: Job)
    ensures
        job.priority == Priority::Normal ==> queue_after_enqueue(q, job).order() == q.order().push(
            job,
        ),
        job.priority == Priority::Priority ==> queue_after_enqueue(q, job).order()
            == q.priority.push(job) + q.normal,
        queue_after_enqueue(q, job).len() == q.len() + if accepts(job.priority) {
            1int
        } else {
            0int
        },
{
    if job.priority == Priority::Normal {
        assert(queue_after_enqueue(q, job).order() =~= q.order().push(job));
    }
}

/// Priority jobs leave first: in a queue whose levels hold only jobs of
/// their own priority, the job that `dequeue` hands out has a priority at
/// least as high as every job that stays.
pub proof fn law_priority_jobs_leave_first(q: QueueView)
    requires
        q.levels_match(),
    ensures
        next_job(q) matches Some(j) ==> forall|i: int|
            0 <= i < queue_after_dequeue(q).order().len() ==> priority_value(
                #[trigger] queue_after_dequeue(q).order()[i].priority,
            ) <= priority_value(j.priority),
{
    let r = queue_after_dequeue(q);
    if q.priority.len() > 0 {
        assert forall|i: int| 0 <= i < r.order().len() implies priority_value(
            #[trigger] r.order()[i].priority,
        ) <= priority_value(q.priority[0].priority) by {
            if i < r.priority.len() {
                assert(r.priority[i] == q.priority[i + 1]);
            } else {
                assert(r.order()[i] == q.normal[i - r.priority.len()]);
            }
        }
    } else if q.normal.len() > 0 {
        assert forall|i: int| 0 <= i < r.order().len() implies priority_value(
            #[trigger] r.order()[i].priority,
        ) <= priority_value(q.normal[0].priority) by {
            assert(r.order()[i] == q.normal[i + 1]);
        }
    }
}

/// Enqueueing and dequeueing keep each level holding only jobs of its own
/// priority.
pub proof fn law_levels_stay_matched(q: QueueView, job: Job)
    requires
        q.levels_match(),
    ensures
        queue_after_enqueue(q, job).levels_match(),
        queue_after_dequeue(q).levels_match(),
{
}

/// Putting the job that was just taken back in front of the level it came
/// from restores the queue: a job that cannot start keeps its place.
pub proof fn law_put_back_undoes_dequeue(q: QueueView)
    ensures
        next_job(q) matches Some(j) ==> queue_after_put_back(
            queue_after_dequeue(q),
            j,
            dequeues_from_priority_level(q),
        ) == q,
{
    if q.priority.len() > 0 {
        assert(seq![q.priority[0]] + q.priority.drop_first() =~= q.priority);
    } else if q.normal.len() > 0 {
        assert(seq![q.normal[0]] + q.normal.drop_first() =~= q.normal);
    }
}

/// A two-level queue: priority jobs leave before normal jobs, and each level
/// is first-in first-out.
#[derive(Debug, Clone)]
pub struct FairQueue {
    pub priority_queue: VecDeque<Job>,
    pub normal_queue: VecDeque<Job>,
}

impl View for FairQueue {
    type V = QueueView;

    open spec fn view(&self) -> QueueView {
        QueueView { priority: self.priority_queue@, normal: self.normal_queue@ }
    }
}

impl FairQueue {
    /// An empty queue.
    pub fn new() -> (r: Self)
        ensures
            r@.priority.len() == 0,
            r@.normal.len() == 0,
    {
        FairQueue { priority_queue: VecDeque::new(), normal_queue: VecDeque::new() }
    }

    /// Queues `job` at the back of its level; a job of priority `Reject` is
    /// refused. Reports whether the job was queued.
    pub fn enqueue(&mut self, job: Job) -> (r: bool)
        ensures
            r == accepts(job.priority),
            final(self)@ == queue_after_enqueue(old(self)@, job),
    {
        match job.priority {
            Priority::Reject => false,
            Priority::Normal => {
                self.normal_queue.push_back(job);
                true
            },
            Priority::Priority => {
                self.priority_queue.push_back(job);
                true
            },
        }
    }

    /// Whether `dequeue` would take its job from the priority level.
    pub fn next_is_from_priority_level(&self) -> (r: bool)
        ensures
            r == dequeues_from_priority_level(self@),
    {
        self.priority_queue.len() > 0
    }

    /// Puts `job` back in front of the priority level (`to_priority_level`)
    /// or of the normal level.
    pub fn put_back_front(&mut self, job: Job, to_priority_level: bool)
        ensures
            final(self)@ == queue_after_put_back(old(self)@, job, to_priority_level),
    {
        if to_priority_level {
            self.priority_queue.push_front(job);
        } else {
            self.normal_queue.push_front(job);
        }
    }

    /// Takes the next job: the front priority job if there is one, else the
    /// front normal job.
    pub fn dequeue(&mut self) -> (r: Option<Job>)
        ensures
            r == next_job(old(self)@),
            final(self)@ == queue_after_dequeue(old(self)@),
    {
        if self.priority_queue.len() > 0 {
            return self.priority_queue.pop_front();
        }
        self.normal_queue.pop_front()
    }

    /// The number of waiting jobs.
    pub fn len(&self) -> (n: usize)
        requires
            self@.len() <= usize::MAX,
        ensures
            n == self@.len(),
    {
        self.priority_queue.len() + self.normal_queue.len()
    }

    /// Whether no job is waiting.
    pub fn is_empty(&self) -> (r: bool)
        ensures
            r == (self@.len() == 0),
    {
        self.priority_queue.len() == 0 && self.normal_queue.len() == 0
    }
}

} // verus!
