use vstd::prelude::*;
use crate::job::{Job, JobId};
use crate::seq_util::{count, flat_map, lemma_flat_map_contains, lemma_flat_map_member, lemma_flat_map_step};

verus! {

/// A job not yet complete whose deadline lies ahead of `now` by at most
/// `threshold` ticks (and by at least one).
pub open spec fn is_at_risk(job: Job, now: u64, threshold: u64) -> bool {
    match job.deadline {
        Some(d) => job.completed_at is None && now < d && d - now <= threshold,
        None => false,
    }
}

/// The id of `job` when `p` holds of it.
pub open spec fn id_if(job: Job, p: bool) -> Seq<JobId> {
    if p {
        seq![job.id]
    } else {
        Seq::empty()
    }
}

/// The ids of the overdue jobs at `now`, in order.
pub open spec fn overdue_ids(jobs: Seq<Job>, now: u64) -> Seq<JobId> {
    flat_map(jobs, |j: Job| id_if(j, j.is_overdue(now)))
}

/// The ids of the jobs at risk at `now` with `threshold`, in order.
pub open spec fn at_risk_ids(jobs: Seq<Job>, now: u64, threshold: u64) -> Seq<JobId> {
    flat_map(jobs, |j: Job| id_if(j, is_at_risk(j, now, threshold)))
}

/// A job is never both overdue and at risk: an overdue job's deadline lies
/// behind the current time, an at-risk job's deadline ahead of it.
pub proof fn law_overdue_excludes_at_risk(job: Job, now: u64, threshold: u64)
    ensures
        !(job.is_overdue(now) && is_at_risk(job, now, threshold)),
{
}

/// Once a job is overdue it stays overdue as time goes on (until it is
/// completed).
pub proof fn law_overdue_stays_overdue(job: Job, now: u64, later: u64)
    requires
        job.is_overdue(now),
        now <= later,
    ensures
        job.is_overdue(later),
{
}

/// A job at risk under some threshold is at risk under every larger one.
pub proof fn law_at_risk_grows_with_threshold(job: Job, now: u64, threshold: u64, larger: u64)
    requires
        is_at_risk(job, now, threshold),
        threshold <= larger,
    ensures
        is_at_risk(job, now, larger),
{
}

/// A completed job is neither overdue nor at risk.
pub proof fn law_completed_job_is_on_time(job: Job, now: u64, threshold: u64)
    requires
        job.is_complete(),
    ensures
        !job.is_overdue(now),
        !is_at_risk(job, now, threshold),
{
}

/// A job that has a deadline `now` has passed and is not complete.
pub open spec fn missed_deadline(j: Job, now: u64) -> bool {
    &&& j.deadline is Some
    &&& now > j.deadline->0
    &&& j.completed_at is None
}

/// A job not complete whose deadline lies 1 to `threshold` ticks after
/// `now`; when it started plays no part.
pub open spec fn deadline_close(j: Job, now: u64, threshold: u64) -> bool {
    &&& j.deadline is Some
    &&& j.completed_at is None
    &&& now < j.deadline->0
    &&& j.deadline->0 <= now + threshold
}

/// The overdue report lists exactly the jobs whose deadline has passed and
/// that are not complete: the id of each such job is in it, each id in it
/// belongs to such a job, and it has one entry per such job.
pub proof fn law_overdue_report_is_exact(jobs: Seq<Job>, now: u64)
    ensures
        forall|i: int|
            0 <= i < jobs.len() && missed_deadline(#[trigger] jobs[i], now) ==> overdue_ids(
                jobs,
                now,
            ).contains(jobs[i].id),
        forall|x: JobId|
            overdue_ids(jobs, now).contains(x) ==> exists|i: int|
                0 <= i < jobs.len() && #[trigger] jobs[i].id == x && missed_deadline(jobs[i], now),
        overdue_ids(jobs, now).len() == count(jobs, |j: Job| missed_deadline(j, now)),
    decreases jobs.len(),
{
    let f = |j: Job| id_if(j, j.is_overdue(now));
    assert forall|i: int|
        0 <= i < jobs.len() && missed_deadline(#[trigger] jobs[i], now) implies overdue_ids(
            jobs,
            now,
        ).contains(jobs[i].id) by {
        assert(f(jobs[i])[0] == jobs[i].id);
        lemma_flat_map_contains(jobs, f, i, jobs[i].id);
    }
    assert forall|x: JobId| overdue_ids(jobs, now).contains(x) implies exists|i: int|
        0 <= i < jobs.len() && #[trigger] jobs[i].id == x && missed_deadline(jobs[i], now) by {
        lemma_flat_map_member(jobs, f, x);
        let i = choose|i: int| 0 <= i < jobs.len() && (#[trigger] f(jobs[i])).contains(x);
        assert(jobs[i].id == x);
    }
    if jobs.len() > 0 {
        law_overdue_report_is_exact(jobs.drop_last(), now);
    }
}

/// The at-risk report lists exactly the jobs not complete whose deadline
/// lies 1 to `threshold` ticks ahead, whether or not they have started: the
/// id of each such job is in it, each id in it belongs to such a job, and it
/// has one entry per such job.
pub proof fn law_at_risk_report_is_exact(jobs: Seq<Job>, now: u64, threshold: u64)
    ensures
        forall|i: int|
            0 <= i < jobs.len() && deadline_close(#[trigger] jobs[i], now, threshold)
                ==> at_risk_ids(jobs, now, threshold).contains(jobs[i].id),
        forall|x: JobId|
            at_risk_ids(jobs, now, threshold).contains(x) ==> exists|i: int|
                0 <= i < jobs.len() && #[trigger] jobs[i].id == x && deadline_close(
                    jobs[i],
                    now,
                    threshold,
                ),
        at_risk_ids(jobs, now, threshold).len() == count(
            jobs,
            |j: Job| deadline_close(j, now, threshold),
        ),
    decreases jobs.len(),
{
    let f = |j: Job| id_if(j, is_at_risk(j, now, threshold));
    assert forall|i: int|
        0 <= i < jobs.len() && deadline_close(#[trigger] jobs[i], now, threshold) implies at_risk_ids(
            jobs,
            now,
            threshold,
        ).contains(jobs[i].id) by {
        assert(f(jobs[i])[0] == jobs[i].id);
        lemma_flat_map_contains(jobs, f, i, jobs[i].id);
    }
    assert forall|x: JobId| at_risk_ids(jobs, now, threshold).contains(x) implies exists|i: int|
        0 <= i < jobs.len() && #[trigger] jobs[i].id == x && deadline_close(jobs[i], now, threshold) by {
        lemma_flat_map_member(jobs, f, x);
        let i = choose|i: int| 0 <= i < jobs.len() && (#[trigger] f(jobs[i])).contains(x);
        assert(jobs[i].id == x);
    }
    if jobs.len() > 0 {
        law_at_risk_report_is_exact(jobs.drop_last(), now, threshold);
    }
}

/// Whether a job has started does not change whether it is at risk.
pub proof fn law_at_risk_ignores_start(job: Job, started: Option<u64>, now: u64, threshold: u64)
    ensures
        is_at_risk(Job { started_at: started, ..job }, now, threshold) == is_at_risk(
            job,
            now,
            threshold,
        ),
{
}

/// Keeps the current time and finds the jobs that have missed, or are about
/// to miss, their deadlines.
#[derive(Debug, Clone)]
pub struct DeadlineTracker {
    pub current_time: u64,
}

impl DeadlineTracker {
    /// A tracker at time zero.
    pub fn new() -> (r: Self)
        ensures
            r.current_time == 0,
    {
        DeadlineTracker { current_time: 0 }
    }

    /// Moves the clock forward by `ticks`.
    pub fn advance(&mut self, ticks: u64)
        requires
            old(self).current_time + ticks <= u64::MAX,
        ensures
            final(self).current_time == old(self).current_time + ticks,
    {
        self.current_time = self.current_time + ticks;
    }

    /// The ids of the jobs that are overdue now, in the order of `jobs`.
    pub fn overdue_jobs(&self, jobs: &[Job]) -> (r: Vec<JobId>)
        ensures
            r@ == overdue_ids(jobs@, self.current_time),
    {
        let mut out: Vec<JobId> = Vec::new();
        let n = jobs.len();
        let mut i: usize = 0;
        while i < n
            invariant
                n == jobs@.len(),
                i <= n,
                out@ == overdue_ids(jobs@.take(i as int), self.current_time),
            decreases n - i,
        {
            proof {
                let now = self.current_time;
                lemma_flat_map_step(jobs@, |j: Job| id_if(j, j.is_overdue(now)), i as int);
            }
            if jobs[i].is_overdue(self.current_time) {
                out.push(jobs[i].id);
            }
            assert(out@ =~= overdue_ids(jobs@.take(i + 1), self.current_time));
            i = i + 1;
        }
        assert(jobs@.take(n as int) =~= jobs@);
        out
    }

    /// The ids of the jobs that are not complete and whose deadline is at
    /// most `threshold` ticks away (and not yet reached), in the order of
    /// `jobs`.
    pub fn at_risk_jobs(&self, jobs: &[Job], threshold: u64) -> (r: Vec<JobId>)
        ensures
            r@ == at_risk_ids(jobs@, self.current_time, threshold),
    {
        let mut out: Vec<JobId> = Vec::new();
        let n = jobs.len();
        let mut i: usize = 0;
        while i < n
            invariant
                n == jobs@.len(),
                i <= n,
                out@ == at_risk_ids(jobs@.take(i as int), self.current_time, threshold),
            decreases n - i,
        {
            proof {
                let now = self.current_time;
                lemma_flat_map_step(
                    jobs@,
                    |j: Job| id_if(j, is_at_risk(j, now, threshold)),
                    i as int,
                );
            }
            let job = &jobs[i];
            let risky = match job.deadline {
                Some(deadline) => {
                    let remaining = deadline.saturating_sub(self.current_time);
                    !job.is_complete() && remaining <= threshold && remaining > 0
                },
                None => false,
            };
            if risky {
                out.push(job.id);
            }
            assert(out@ =~= at_risk_ids(jobs@.take(i + 1), self.current_time, threshold));
            i = i + 1;
        }
        assert(jobs@.take(n as int) =~= jobs@);
        out
    }
}

} // verus!
