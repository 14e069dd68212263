use vstd::prelude::*;
use crate::job::{Job, JobId};
use crate::priority::Priority;
use crate::resource_pool::ResourcePool;
use crate::seq_util::{flat_map, lemma_flat_map_contains, lemma_flat_map_member, lemma_flat_map_step};

verus! {

/// A running job that is not a priority job and holds some units of
/// `resource`.
pub open spec fn holds_as_lower(rj: Job, resource: Seq<char>) -> bool {
    &&& rj.priority != Priority::Priority
    &&& rj.resource_requirements@.contains_key(resource)
    &&& rj.resource_requirements@[resource] > 0
}

/// The pair (blocked job, `rj`) when `rj` holds `resource` as a lower job.
pub open spec fn blocking_pair(qid: JobId, resource: Seq<char>, rj: Job) -> Seq<(JobId, JobId)> {
    if holds_as_lower(rj, resource) {
        seq![(qid, rj.id)]
    } else {
        Seq::empty()
    }
}

/// The job `qid` paired with each running lower job that holds `resource`,
/// in the order of `running`.
pub open spec fn blocking_pairs(qid: JobId, resource: Seq<char>, running: Seq<Job>) -> Seq<
    (JobId, JobId),
> {
    flat_map(running, |rj: Job| blocking_pair(qid, resource, rj))
}

/// The pairs that the pool `p` gives rise to: when it is the pool named
/// `resource` and has fewer than `amount` units available, the blocking
/// pairs of that resource.
pub open spec fn pool_pair(
    qid: JobId,
    resource: Seq<char>,
    amount: u32,
    running: Seq<Job>,
    p: ResourcePool,
) -> Seq<(JobId, JobId)> {
    if p.name@ == resource && p.available() < amount {
        blocking_pairs(qid, resource, running)
    } else {
        Seq::empty()
    }
}

/// The pairs that one requirement of a queued job gives rise to, over all
/// pools in order.
pub open spec fn pool_pairs(
    qid: JobId,
    resource: Seq<char>,
    amount: u32,
    running: Seq<Job>,
    pools: Seq<ResourcePool>,
) -> Seq<(JobId, JobId)> {
    flat_map(pools, |p: ResourcePool| pool_pair(qid, resource, amount, running, p))
}

/// The pairs that a list of requirements of the job `qid` gives rise to.
pub open spec fn requirement_pairs(
    qid: JobId,
    reqs: Seq<(Seq<char>, u32)>,
    running: Seq<Job>,
    pools: Seq<ResourcePool>,
) -> Seq<(JobId, JobId)> {
    flat_map(reqs, |e: (Seq<char>, u32)| pool_pairs(qid, e.0, e.1, running, pools))
}

/// The pairs that one queued job gives rise to: none unless it is a
/// priority job.
pub open spec fn job_pairs(q: Job, running: Seq<Job>, pools: Seq<ResourcePool>) -> Seq<
    (JobId, JobId),
> {
    if q.priority == Priority::Priority {
        requirement_pairs(q.id, q.resource_requirements.entries(), running, pools)
    } else {
        Seq::empty()
    }
}

/// All priority inversions, as (blocked priority job, blocking lower job):
/// for each queued priority job, each of its requirements in order, each
/// pool of that name that cannot cover the requirement, and each running
/// non-priority job that holds units of that resource.
pub open spec fn inversion_pairs(
    running: Seq<Job>,
    queued: Seq<Job>,
    pools: Seq<ResourcePool>,
) -> Seq<(JobId, JobId)> {
    flat_map(queued, |q: Job| job_pairs(q, running, pools))
}

/// Every reported pair (blocked, blocking) names a queued priority job with
/// a requirement (r, amount), a pool named r that has fewer than `amount`
/// units available, and a running job that is not a priority job and holds
/// units of r.
pub proof fn law_inversions_are_priority_blocked_by_lower(
    running: Seq<Job>,
    queued: Seq<Job>,
    pools: Seq<ResourcePool>,
    pair: (JobId, JobId),
)
    requires
        inversion_pairs(running, queued, pools).contains(pair),
    ensures
        exists|a: int, e: int, c: int, b: int|
            #![trigger queued[a], queued[a].resource_requirements.entries()[e], pools[c], running[b]]
            {
                &&& 0 <= a < queued.len()
                &&& 0 <= e < queued[a].resource_requirements.entries().len()
                &&& 0 <= c < pools.len()
                &&& 0 <= b < running.len()
                &&& queued[a].id == pair.0
                &&& queued[a].priority == Priority::Priority
                &&& pools[c].name@ == queued[a].resource_requirements.entries()[e].0
                &&& pools[c].available() < queued[a].resource_requirements.entries()[e].1
                &&& running[b].id == pair.1
                &&& holds_as_lower(running[b], queued[a].resource_requirements.entries()[e].0)
            },
{
    lemma_flat_map_member(queued, |q: Job| job_pairs(q, running, pools), pair);
    let a = choose|a: int|
        0 <= a < queued.len() && (#[trigger] job_pairs(queued[a], running, pools)).contains(pair);
    let q = queued[a];
    let es = q.resource_requirements.entries();
    assert(q.priority == Priority::Priority);
    lemma_flat_map_member(
        es,
        |en: (Seq<char>, u32)| pool_pairs(q.id, en.0, en.1, running, pools),
        pair,
    );
    let e = choose|e: int|
        0 <= e < es.len() && (#[trigger] pool_pairs(q.id, es[e].0, es[e].1, running, pools)).contains(
            pair,
        );
    let (r, amount) = es[e];
    lemma_flat_map_member(
        pools,
        |p: ResourcePool| pool_pair(q.id, r, amount, running, p),
        pair,
    );
    let c = choose|c: int|
        0 <= c < pools.len() && (#[trigger] pool_pair(q.id, r, amount, running, pools[c])).contains(
            pair,
        );
    assert(pools[c].name@ == r && pools[c].available() < amount);
    lemma_flat_map_member(running, |rj: Job| blocking_pair(q.id, r, rj), pair);
    let b = choose|b: int|
        0 <= b < running.len() && (#[trigger] blocking_pair(q.id, r, running[b])).contains(pair);
    assert(holds_as_lower(running[b], r));
    assert(blocking_pair(q.id, r, running[b])[0] == pair);
}

/// Every inversion is reported: for each queued priority job, each of its
/// requirements (r, amount), each pool named r with fewer than `amount`
/// units available, and each running job that is not a priority job and
/// holds some units of r, the pair (queued job, running job) is in the
/// result.
pub proof fn law_every_inversion_is_reported(
    running: Seq<Job>,
    queued: Seq<Job>,
    pools: Seq<ResourcePool>,
    a: int,
    e: int,
    c: int,
    b: int,
)
    requires
        0 <= a < queued.len(),
        queued[a].priority == Priority::Priority,
        0 <= e < queued[a].resource_requirements.entries().len(),
        0 <= c < pools.len(),
        pools[c].name@ == queued[a].resource_requirements.entries()[e].0,
        pools[c].available() < queued[a].resource_requirements.entries()[e].1,
        0 <= b < running.len(),
        running[b].priority != Priority::Priority,
        running[b].resource_requirements@.contains_key(
            queued[a].resource_requirements.entries()[e].0,
        ),
        running[b].resource_requirements@[queued[a].resource_requirements.entries()[e].0] > 0,
    ensures
        inversion_pairs(running, queued, pools).contains((queued[a].id, running[b].id)),
{
    let q = queued[a];
    let es = q.resource_requirements.entries();
    let (r, amount) = es[e];
    let pair = (q.id, running[b].id);
    assert(blocking_pair(q.id, r, running[b])[0] == pair);
    lemma_flat_map_contains(running, |rj: Job| blocking_pair(q.id, r, rj), b, pair);
    lemma_flat_map_contains(
        pools,
        |p: ResourcePool| pool_pair(q.id, r, amount, running, p),
        c,
        pair,
    );
    lemma_flat_map_contains(
        es,
        |en: (Seq<char>, u32)| pool_pairs(q.id, en.0, en.1, running, pools),
        e,
        pair,
    );
    lemma_flat_map_contains(queued, |qj: Job| job_pairs(qj, running, pools), a, pair);
}

/// Detects priority jobs that wait for resources held by lower-priority
/// running jobs.
#[derive(Debug)]
pub struct PriorityInversionDetector;

impl PriorityInversionDetector {
    pub fn new() -> Self {
        PriorityInversionDetector
    }

    /// Detects priority inversions between running and queued jobs; returns
    /// pairs of (blocked priority job, blocking lower-priority job).
    pub fn detect(&self, running: &[Job], queued: &[Job], pools: &[ResourcePool]) -> (r: Vec<
        (JobId, JobId),
    >)
        ensures
            r@ == inversion_pairs(running@, queued@, pools@),
    {
        let mut inversions: Vec<(JobId, JobId)> = Vec::new();
        let n = queued.len();
        let mut i: usize = 0;
        while i < n
            invariant
                n == queued@.len(),
                i <= n,
                inversions@ == inversion_pairs(running@, queued@.take(i as int), pools@),
            decreases n - i,
        {
            proof {
                lemma_flat_map_step(queued@, |q: Job| job_pairs(q, running@, pools@), i as int);
            }
            push_job_pairs(&mut inversions, &queued[i], running, pools);
            i = i + 1;
        }
        assert(queued@.take(n as int) =~= queued@);
        inversions
    }
}

fn push_job_pairs(
    out: &mut Vec<(JobId, JobId)>,
    q: &Job,
    running: &[Job],
    pools: &[ResourcePool],
)
    ensures
        final(out)@ == old(out)@ + job_pairs(*q, running@, pools@),
{
    if q.priority != Priority::Priority {
        assert(old(out)@ + job_pairs(*q, running@, pools@) =~= old(out)@);
        return ;
    }
    let ghost start = out@;
    let ghost reqs = q.resource_requirements.entries();
    let n = q.resource_requirements.len();
    let mut i: usize = 0;
    while i < n
        invariant
            n == reqs.len(),
            reqs == q.resource_requirements.entries(),
            i <= n,
            out@ == start + requirement_pairs(q.id, reqs.take(i as int), running@, pools@),
        decreases n - i,
    {
        proof {
            lemma_flat_map_step(
                reqs,
                |e: (Seq<char>, u32)| pool_pairs(q.id, e.0, e.1, running@, pools@),
                i as int,
            );
        }
        let (name, amount) = q.resource_requirements.entry(i);
        push_pool_pairs(out, q.id, name, *amount, running, pools);
        assert(out@ =~= start + requirement_pairs(q.id, reqs.take(i + 1), running@, pools@));
        i = i + 1;
    }
    assert(reqs.take(n as int) =~= reqs);
}

fn push_pool_pairs(
    out: &mut Vec<(JobId, JobId)>,
    qid: JobId,
    resource: &String,
    amount: u32,
    running: &[Job],
    pools: &[ResourcePool],
)
    ensures
        final(out)@ == old(out)@ + pool_pairs(qid, resource@, amount, running@, pools@),
{
    let ghost start = out@;
    let n = pools.len();
    let mut i: usize = 0;
    while i < n
        invariant
            n == pools@.len(),
            i <= n,
            out@ == start + pool_pairs(qid, resource@, amount, running@, pools@.take(i as int)),
        decreases n - i,
    {
        proof {
            lemma_flat_map_step(
                pools@,
                |p: ResourcePool| pool_pair(qid, resource@, amount, running@, p),
                i as int,
            );
        }
        let pool = &pools[i];
        if pool.name == *resource && pool.available() < amount {
            push_blocking_pairs(out, qid, resource, running);
        }
        assert(out@ =~= start + pool_pairs(
            qid,
            resource@,
            amount,
            running@,
            pools@.take(i + 1),
        ));
        i = i + 1;
    }
    assert(pools@.take(n as int) =~= pools@);
}

fn push_blocking_pairs(
    out: &mut Vec<(JobId, JobId)>,
    qid: JobId,
    resource: &String,
    running: &[Job],
)
    ensures
        final(out)@ == old(out)@ + blocking_pairs(qid, resource@, running@),
{
    let ghost start = out@;
    let n = running.len();
    let mut i: usize = 0;
    while i < n
        invariant
            n == running@.len(),
            i <= n,
            out@ == start + blocking_pairs(qid, resource@, running@.take(i as int)),
        decreases n - i,
    {
        proof {
            lemma_flat_map_step(running@, |rj: Job| blocking_pair(qid, resource@, rj), i as int);
        }
        let rj = &running[i];
        if rj.priority == Priority::Normal || rj.priority == Priority::Reject {
            match rj.resource_requirements.get(resource.as_str()) {
                Some(held) => {
                    if *held > 0 {
                        out.push((qid, rj.id));
                    }
                },
                None => {},
            }
        }
        assert(out@ =~= start + blocking_pairs(qid, resource@, running@.take(i + 1)));
        i = i + 1;
    }
    assert(running@.take(n as int) =~= running@);
}

} // verus!
