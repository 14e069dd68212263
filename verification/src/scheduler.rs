use vstd::prelude::*;
use crate::fair_queue::{
    FairQueue,
    accepts,
    next_job,
    queue_after_dequeue,
    queue_after_enqueue,
};
use crate::job::{Job, JobId, is_new_job};
use crate::name_map::{NameMap, entries_to_map, has_name, lemma_entry_in_map, lemma_push_entry};
use crate::priority::Priority;
use crate::resource_pool::{ResourcePool, pool_after_allocate, pool_after_release};

verus! {

/// Every requirement on a pool that exists fits in what that pool has
/// available. Requirements on pools that do not exist are ignored.
pub open spec fn requirements_fit(
    reqs: Map<Seq<char>, u32>,
    pools: Map<Seq<char>, ResourcePool>,
) -> bool {
    forall|k: Seq<char>|
        reqs.contains_key(k) && pools.contains_key(k) ==> #[trigger] reqs[k] <= pools[k].available()
}

/// One pool after `amount` units have been allocated from it (`allocate`)
/// or given back to it (otherwise).
pub open spec fn pool_step(p: ResourcePool, amount: u32, allocate: bool) -> ResourcePool {
    if allocate {
        pool_after_allocate(p, amount)
    } else {
        pool_after_release(p, amount)
    }
}

/// The pools after each requirement has been applied to the pool of its
/// name; pools that no requirement names stay as they were.
pub open spec fn pools_after_each(
    pools: Map<Seq<char>, ResourcePool>,
    reqs: Map<Seq<char>, u32>,
    allocate: bool,
) -> Map<Seq<char>, ResourcePool> {
    Map::new(
        |k: Seq<char>| pools.contains_key(k),
        |k: Seq<char>|
            if reqs.contains_key(k) {
                pool_step(pools[k], reqs[k], allocate)
            } else {
                pools[k]
            },
    )
}

/// The pools after each requirement has been allocated from the pool of its
/// name.
pub open spec fn pools_after_allocate_all(
    pools: Map<Seq<char>, ResourcePool>,
    reqs: Map<Seq<char>, u32>,
) -> Map<Seq<char>, ResourcePool> {
    pools_after_each(pools, reqs, true)
}

/// The pools after each requirement has been given back to the pool of its
/// name.
pub open spec fn pools_after_release_all(
    pools: Map<Seq<char>, ResourcePool>,
    reqs: Map<Seq<char>, u32>,
) -> Map<Seq<char>, ResourcePool> {
    pools_after_each(pools, reqs, false)
}

/// Every pool has no more units allocated than its capacity.
pub open spec fn within_capacity(pools: Map<Seq<char>, ResourcePool>) -> bool {
    forall|k: Seq<char>| pools.contains_key(k) ==> #[trigger] pools[k].allocated <= pools[k].capacity
}

/// A job fits exactly when each pool it names would accept its
/// allocation: allocating the requirement from the pool raises the pool's
/// allocation by the full amount.
pub proof fn law_fit_means_every_allocation_succeeds(
    pools: Map<Seq<char>, ResourcePool>,
    reqs: Map<Seq<char>, u32>,
)
    ensures
        requirements_fit(reqs, pools) <==> forall|k: Seq<char>|
            reqs.contains_key(k) && pools.contains_key(k) ==> #[trigger] pool_after_allocate(
                pools[k],
                reqs[k],
            ).allocated == pools[k].allocated + reqs[k],
{
    if !requirements_fit(reqs, pools) {
        let k = choose|k: Seq<char>|
            reqs.contains_key(k) && pools.contains_key(k) && !(#[trigger] reqs[k]
                <= pools[k].available());
        assert(reqs[k] > 0);
        assert(pool_after_allocate(pools[k], reqs[k]) == pools[k]);
    }
}

/// In pools that are not over-committed, a job fits exactly when each
/// requirement plus what its pool has allocated stays within the pool's
/// capacity; in particular a job that needs exactly the free units of its
/// pools fits.
pub proof fn law_fit_means_room_within_capacity(
    pools: Map<Seq<char>, ResourcePool>,
    reqs: Map<Seq<char>, u32>,
)
    requires
        within_capacity(pools),
    ensures
        requirements_fit(reqs, pools) <==> forall|k: Seq<char>|
            reqs.contains_key(k) && pools.contains_key(k) ==> pools[k].allocated + #[trigger] reqs[k]
                <= pools[k].capacity,
        (forall|k: Seq<char>|
            reqs.contains_key(k) && pools.contains_key(k) ==> #[trigger] reqs[k]
                == pools[k].capacity - pools[k].allocated) ==> requirements_fit(reqs, pools),
{
}

/// Completing a job gives back exactly what starting it took: releasing the
/// requirements after allocating them (when they fit) restores the pools.
pub proof fn law_complete_undoes_start(
    pools: Map<Seq<char>, ResourcePool>,
    reqs: Map<Seq<char>, u32>,
)
    requires
        requirements_fit(reqs, pools),
    ensures
        pools_after_release_all(pools_after_allocate_all(pools, reqs), reqs) == pools,
{
    let after = pools_after_allocate_all(pools, reqs);
    assert forall|k: Seq<char>| #[trigger] pools.contains_key(k) implies pools_after_release_all(
        after,
        reqs,
    )[k] == pools[k] by {
        if reqs.contains_key(k) {
            assert(reqs[k] <= pools[k].available());
        }
    }
    assert(pools_after_release_all(after, reqs) =~= pools);
}

/// Starting and completing jobs never over-commits a pool that was not
/// over-committed.
pub proof fn law_pools_stay_within_capacity(
    pools: Map<Seq<char>, ResourcePool>,
    reqs: Map<Seq<char>, u32>,
)
    requires
        within_capacity(pools),
    ensures
        within_capacity(pools_after_allocate_all(pools, reqs)),
        within_capacity(pools_after_release_all(pools, reqs)),
{
}

/// Starting a job leaves every pool it does not need as it was, and takes
/// from each pool it needs exactly the units it requires.
pub proof fn law_start_takes_exactly_the_requirements(
    pools: Map<Seq<char>, ResourcePool>,
    reqs: Map<Seq<char>, u32>,
    k: Seq<char>,
)
    requires
        requirements_fit(reqs, pools),
        pools.contains_key(k),
    ensures
        pools_after_allocate_all(pools, reqs).contains_key(k),
        !reqs.contains_key(k) ==> pools_after_allocate_all(pools, reqs)[k] == pools[k],
        reqs.contains_key(k) ==> pools_after_allocate_all(pools, reqs)[k].available()
            == pools[k].available() - reqs[k],
{
    if reqs.contains_key(k) {
        assert(reqs[k] <= pools[k].available());
    }
}

proof fn lemma_one_more(
    pools: Map<Seq<char>, ResourcePool>,
    reqs: Map<Seq<char>, u32>,
    n: Seq<char>,
    a: u32,
    allocate: bool,
)
    requires
        !reqs.contains_key(n),
    ensures
        pools.contains_key(n) ==> pools_after_each(pools, reqs.insert(n, a), allocate)
            == pools_after_each(pools, reqs, allocate).insert(n, pool_step(pools[n], a, allocate)),
        !pools.contains_key(n) ==> pools_after_each(pools, reqs.insert(n, a), allocate)
            == pools_after_each(pools, reqs, allocate),
        pools_after_each(pools, reqs, allocate).contains_key(n) ==> pools_after_each(
            pools,
            reqs,
            allocate,
        )[n] == pools[n],
{
    if pools.contains_key(n) {
        assert(pools_after_each(pools, reqs.insert(n, a), allocate) =~= pools_after_each(
            pools,
            reqs,
            allocate,
        ).insert(n, pool_step(pools[n], a, allocate)));
    } else {
        assert(pools_after_each(pools, reqs.insert(n, a), allocate) =~= pools_after_each(
            pools,
            reqs,
            allocate,
        ));
    }
}

/// Whether every requirement of `reqs` fits in the pool of its name.
fn fits_in_pools(pools: &NameMap<ResourcePool>, reqs: &NameMap<u32>) -> (r: bool)
    ensures
        r == requirements_fit(reqs@, pools@),
{
    let ghost es = reqs.entries();
    let n = reqs.len();
    let mut i: usize = 0;
    while i < n
        invariant
            n == es.len(),
            es == reqs.entries(),
            i <= n,
            crate::name_map::names_distinct(es),
            forall|j: int|
                0 <= j < i && pools@.contains_key(#[trigger] es[j].0) ==> es[j].1
                    <= pools@[es[j].0].available(),
        decreases n - i,
    {
        let (name, amount) = reqs.entry(i);
        match pools.position(name.as_str()) {
            Some(k) => {
                let (_, pool) = pools.entry(k);
                proof {
                    lemma_entry_in_map(pools.entries(), k as int);
                }
                if *amount > pool.available() {
                    proof {
                        lemma_entry_in_map(es, i as int);
                    }
                    return false;
                }
            },
            None => {},
        }
        i = i + 1;
    }
    assert forall|k: Seq<char>| reqs@.contains_key(k) && pools@.contains_key(k) implies #[trigger] reqs@[k]
        <= pools@[k].available() by {
        let j = choose|j: int| 0 <= j < es.len() && #[trigger] es[j].0 == k;
        lemma_entry_in_map(es, j);
    }
    true
}

/// Allocates each requirement of `reqs` from the pool of its name
/// (`allocate`), or gives it back to that pool (otherwise).
fn apply_requirements(pools: &mut NameMap<ResourcePool>, reqs: &NameMap<u32>, allocate: bool)
    ensures
        final(pools)@ == pools_after_each(old(pools)@, reqs@, allocate),
{
    let ghost p0 = pools@;
    let ghost es = reqs.entries();
    let n = reqs.len();
    let mut i: usize = 0;
    assert(pools@ =~= pools_after_each(p0, entries_to_map(es.take(0)), allocate));
    while i < n
        invariant
            n == es.len(),
            es == reqs.entries(),
            crate::name_map::names_distinct(es),
            i <= n,
            pools@ == pools_after_each(p0, entries_to_map(es.take(i as int)), allocate),
        decreases n - i,
    {
        let ghost done = es.take(i as int);
        let (name, amount) = reqs.entry(i);
        proof {
            assert(es.take(i + 1) =~= done.push(es[i as int]));
            assert(crate::name_map::names_distinct(done));
            assert(!has_name(done, name@)) by {
                if has_name(done, name@) {
                    let j = choose|j: int| 0 <= j < done.len() && #[trigger] done[j].0 == name@;
                    assert(es[j].0 == es[i as int].0);
                }
            }
            lemma_push_entry(done, name@, *amount);
            lemma_one_more(p0, entries_to_map(done), name@, *amount, allocate);
        }
        match pools.position(name.as_str()) {
            Some(k) => {
                proof {
                    lemma_entry_in_map(pools.entries(), k as int);
                }
                let mut pool = pools.entry(k).1.clone();
                if allocate {
                    pool.try_allocate(*amount);
                } else {
                    pool.release(*amount);
                }
                pools.set_value(k, pool);
            },
            None => {},
        }
        i = i + 1;
    }
    assert(es.take(n as int) =~= es);
}

/// A job scheduler with ternary priorities and named resource pools.
#[derive(Debug)]
pub struct JobScheduler {
    pub queue: FairQueue,
    pub pools: NameMap<ResourcePool>,
    pub completed: Vec<Job>,
    pub rejected: Vec<JobId>,
    pub current_time: u64,
    pub next_job_id: JobId,
}

impl JobScheduler {
    /// A scheduler with an empty queue and no pools, at time zero, whose
    /// first job id is 1.
    pub fn new() -> (r: Self)
        ensures
            r.queue@.len() == 0,
            r.pools@ == Map::<Seq<char>, ResourcePool>::empty(),
            r.completed@.len() == 0,
            r.rejected@.len() == 0,
            r.current_time == 0,
            r.next_job_id == 1,
    {
        JobScheduler {
            queue: FairQueue::new(),
            pools: NameMap::new(),
            completed: Vec::new(),
            rejected: Vec::new(),
            current_time: 0,
            next_job_id: 1,
        }
    }

    /// Adds an empty pool `name` of `capacity` units, replacing a pool of
    /// that name.
    pub fn add_pool(&mut self, name: &str, capacity: u32)
        ensures
            final(self).pools@.contains_key(name@),
            final(self).pools@[name@].name@ == name@,
            final(self).pools@[name@].capacity == capacity,
            final(self).pools@[name@].allocated == 0,
            final(self).pools@.remove(name@) == old(self).pools@.remove(name@),
            final(self).queue@ == old(self).queue@,
            final(self).completed@ == old(self).completed@,
            final(self).rejected@ == old(self).rejected@,
            final(self).current_time == old(self).current_time,
            final(self).next_job_id == old(self).next_job_id,
    {
        let pool = ResourcePool::new(name, capacity);
        self.pools.insert(name, pool);
        assert(self.pools@.remove(name@) =~= old(self).pools@.remove(name@));
    }

    /// Creates a job of `priority` at the current time under the next id and
    /// queues it; a job of priority `Reject` is recorded as rejected instead.
    /// Returns the job's id.
    pub fn submit(&mut self, priority: Priority) -> (r: JobId)
        requires
            old(self).next_job_id < u64::MAX,
        ensures
            r == old(self).next_job_id,
            final(self).next_job_id == old(self).next_job_id + 1,
            exists|j: Job|
                is_new_job(j, r, priority, old(self).current_time) && final(self).queue@
                    == queue_after_enqueue(old(self).queue@, j),
            final(self).rejected@ == if accepts(priority) {
                old(self).rejected@
            } else {
                old(self).rejected@.push(r)
            },
            final(self).pools@ == old(self).pools@,
            final(self).completed@ == old(self).completed@,
            final(self).current_time == old(self).current_time,
    {
        let id = self.next_job_id;
        self.next_job_id = self.next_job_id + 1;
        let job = Job::new(id, priority, self.current_time);
        let ghost j = job;
        if !self.queue.enqueue(job) {
            self.rejected.push(id);
        }
        assert(is_new_job(j, id, priority, old(self).current_time));
        id
    }

    /// Queues `job`; a job of priority `Reject` is recorded as rejected
    /// instead. Returns the job's id.
    pub fn submit_job(&mut self, job: Job) -> (r: JobId)
        ensures
            r == job.id,
            final(self).queue@ == queue_after_enqueue(old(self).queue@, job),
            final(self).rejected@ == if accepts(job.priority) {
                old(self).rejected@
            } else {
                old(self).rejected@.push(r)
            },
            final(self).pools@ == old(self).pools@,
            final(self).completed@ == old(self).completed@,
            final(self).current_time == old(self).current_time,
            final(self).next_job_id == old(self).next_job_id,
    {
        let id = job.id;
        if !self.queue.enqueue(job) {
            self.rejected.push(id);
        }
        id
    }

    /// Moves the clock forward by `ticks`.
    pub fn advance_time(&mut self, ticks: u64)
        requires
            old(self).current_time + ticks <= u64::MAX,
        ensures
            final(self).current_time == old(self).current_time + ticks,
            final(self).queue@ == old(self).queue@,
            final(self).pools@ == old(self).pools@,
            final(self).completed@ == old(self).completed@,
            final(self).rejected@ == old(self).rejected@,
            final(self).next_job_id == old(self).next_job_id,
    {
        self.current_time = self.current_time + ticks;
    }

    /// Takes the next job from the queue and starts it when all its
    /// requirements fit in their pools: the units are allocated and the job
    /// is returned, stamped with the current time. When they do not fit,
    /// nothing is allocated, the job goes back to the front of the level it
    /// was taken from, leaving the queue as it was, and `None` is returned;
    /// `None` too when the queue is empty.
    pub fn schedule_next(&mut self) -> (r: Option<Job>)
        ensures
            match next_job(old(self).queue@) {
                None => {
                    &&& r is None
                    &&& final(self).queue@ == old(self).queue@
                    &&& final(self).pools@ == old(self).pools@
                },
                Some(j) => if requirements_fit(j.resource_requirements@, old(self).pools@) {
                    &&& r == Some(Job { started_at: Some(old(self).current_time), ..j })
                    &&& final(self).queue@ == queue_after_dequeue(old(self).queue@)
                    &&& final(self).pools@ == pools_after_allocate_all(
                        old(self).pools@,
                        j.resource_requirements@,
                    )
                } else {
                    &&& r is None
                    &&& final(self).queue@ == old(self).queue@
                    &&& final(self).pools@ == old(self).pools@
                },
            },
            final(self).completed@ == old(self).completed@,
            final(self).rejected@ == old(self).rejected@,
            final(self).current_time == old(self).current_time,
            final(self).next_job_id == old(self).next_job_id,
    {
        let from_priority_level = self.queue.next_is_from_priority_level();
        let job = match self.queue.dequeue() {
            Some(j) => j,
            None => return None,
        };
        if !fits_in_pools(&self.pools, &job.resource_requirements) {
            proof {
                crate::fair_queue::law_put_back_undoes_dequeue(old(self).queue@);
            }
            self.queue.put_back_front(job, from_priority_level);
            return None;
        }
        apply_requirements(&mut self.pools, &job.resource_requirements, true);
        let mut job = job;
        job.started_at = Some(self.current_time);
        Some(job)
    }

    /// Completes `job`: its units go back to their pools and it is recorded
    /// as completed at the current time.
    pub fn complete(&mut self, job: Job)
        ensures
            final(self).pools@ == pools_after_release_all(
                old(self).pools@,
                job.resource_requirements@,
            ),
            final(self).completed@ == old(self).completed@.push(
                Job { completed_at: Some(old(self).current_time), ..job },
            ),
            final(self).queue@ == old(self).queue@,
            final(self).rejected@ == old(self).rejected@,
            final(self).current_time == old(self).current_time,
            final(self).next_job_id == old(self).next_job_id,
    {
        apply_requirements(&mut self.pools, &job.resource_requirements, false);
        let mut job = job;
        job.completed_at = Some(self.current_time);
        self.completed.push(job);
    }

    /// The number of queued jobs.
    pub fn pending_count(&self) -> (n: usize)
        requires
            self.queue@.len() <= usize::MAX,
        ensures
            n == self.queue@.len(),
    {
        self.queue.len()
    }

    /// The number of completed jobs.
    pub fn completed_count(&self) -> (n: usize)
        ensures
            n == self.completed@.len(),
    {
        self.completed.len()
    }
}

} // verus!
