use vstd::prelude::*;
use std::collections::HashMap;
use vstd::std_specs::iter::IteratorSpec;
use crate::priority::{Priority, priority_value};
use crate::seq_util::{count, key_set, lemma_count_distinct_keys, lemma_count_step};

verus! {

broadcast use vstd::std_specs::hash::group_hash_axioms;

/// The state of a worker node: how many jobs it runs and how many it can
/// take.
#[derive(Debug, Clone)]
pub struct WorkerState {
    pub id: u64,
    pub job_count: usize,
    pub capacity: usize,
}

impl WorkerState {
    /// An idle worker.
    pub fn new(id: u64, capacity: usize) -> (r: Self)
        ensures
            r.id == id,
            r.job_count == 0,
            r.capacity == capacity,
    {
        WorkerState { id, job_count: 0, capacity }
    }

    /// The ternary load rating: `Reject` when the worker is overloaded (more
    /// than 80% of its capacity in use, or no capacity at all), `Normal` when
    /// it is balanced (50% to 80% in use), `Priority` when it is underloaded
    /// (below 50%).
    #[verifier::allow_in_spec]
    pub fn load_rating(&self) -> Priority
        returns
            (if self.capacity == 0 || 5 * self.job_count > 4 * self.capacity {
                Priority::Reject
            } else if 2 * self.job_count >= self.capacity {
                Priority::Normal
            } else {
                Priority::Priority
            }),
    {
        let jobs = self.job_count as u128;
        let capacity = self.capacity as u128;
        if capacity == 0 || 5 * jobs > 4 * capacity {
            Priority::Reject
        } else if 2 * jobs >= capacity {
            Priority::Normal
        } else {
            Priority::Priority
        }
    }

    /// Whether the worker can take another job.
    #[verifier::allow_in_spec]
    pub fn is_available(&self) -> bool
        returns
            self.job_count < self.capacity,
    {
        self.job_count < self.capacity
    }

    /// Counts one more job on the worker.
    pub fn assign(&mut self)
        requires
            old(self).job_count < usize::MAX,
        ensures
            *final(self) == worker_after_assign(*old(self)),
    {
        self.job_count = self.job_count + 1;
    }

    /// Counts one job less on the worker, never going below zero.
    pub fn release(&mut self)
        ensures
            *final(self) == worker_after_release(*old(self)),
    {
        self.job_count = self.job_count.saturating_sub(1);
    }
}

/// The worker after one more job has been counted on it.
pub open spec fn worker_after_assign(w: WorkerState) -> WorkerState {
    WorkerState { job_count: (w.job_count + 1) as usize, ..w }
}

/// The worker after one job less has been counted on it (never below zero).
pub open spec fn worker_after_release(w: WorkerState) -> WorkerState {
    WorkerState {
        job_count: if w.job_count > 0 {
            (w.job_count - 1) as usize
        } else {
            0
        },
        ..w
    }
}

/// Every worker is stored under its own id.
pub open spec fn keyed_by_id(m: Map<u64, WorkerState>) -> bool {
    forall|k: u64| m.contains_key(k) ==> (#[trigger] m[k]).id == k
}

/// Whichever best choice is made, the id it carries is the key of a worker
/// that can count one more job.
pub open spec fn choices_name_workers(m: Map<u64, WorkerState>) -> bool {
    forall|k: u64|
        #[trigger] is_best_choice(m, k) ==> m.contains_key(m[k].id) && m[m[k].id].job_count
            < usize::MAX
}

/// The number of workers of `m` with load rating `rating`.
pub open spec fn count_rated(m: Map<u64, WorkerState>, rating: Priority) -> nat {
    m.dom().filter(|k: u64| m[k].load_rating() == rating).len()
}

/// A worker that can take a job and is not overloaded.
pub open spec fn is_candidate(w: WorkerState) -> bool {
    w.is_available() && w.load_rating() != Priority::Reject
}

/// Some worker of `m` can take a job without being overloaded.
pub open spec fn has_candidate(m: Map<u64, WorkerState>) -> bool {
    exists|k: u64| m.contains_key(k) && is_candidate(#[trigger] m[k])
}

/// The worker under `k` is a best choice in `m`: a candidate; underloaded
/// unless no available worker is underloaded; and carrying no more jobs
/// than any other available worker of the same rating.
pub open spec fn is_best_choice(m: Map<u64, WorkerState>, k: u64) -> bool {
    &&& m.contains_key(k)
    &&& is_candidate(m[k])
    &&& m[k].load_rating() == Priority::Normal ==> forall|k2: u64|
        m.contains_key(k2) && (#[trigger] m[k2]).is_available() ==> m[k2].load_rating()
            != Priority::Priority
    &&& forall|k2: u64|
        m.contains_key(k2) && (#[trigger] m[k2]).is_available() && m[k2].load_rating()
            == m[k].load_rating() ==> m[k].job_count <= m[k2].job_count
}

/// The worker chosen for a job is never overloaded and never full.
pub proof fn law_choice_is_never_overloaded(m: Map<u64, WorkerState>, k: u64)
    requires
        is_best_choice(m, k),
    ensures
        m[k].is_available(),
        m[k].load_rating() != Priority::Reject,
{
}

/// Underloaded workers are preferred: while some available worker is
/// underloaded, the chosen worker is underloaded and carries no more jobs
/// than that one.
pub proof fn law_underloaded_preferred(m: Map<u64, WorkerState>, k: u64, other: u64)
    requires
        is_best_choice(m, k),
        m.contains_key(other),
        m[other].is_available(),
        m[other].load_rating() == Priority::Priority,
    ensures
        m[k].load_rating() == Priority::Priority,
        m[k].job_count <= m[other].job_count,
{
}

/// More jobs on the same capacity never improve a worker's rating.
pub proof fn law_rating_worsens_with_load(w1: WorkerState, w2: WorkerState)
    requires
        w1.capacity == w2.capacity,
        w1.job_count <= w2.job_count,
    ensures
        priority_value(w2.load_rating()) <= priority_value(w1.load_rating()),
{
}

/// Releasing a job right after assigning one gives the worker back as it
/// was.
pub proof fn law_release_undoes_assign(w: WorkerState)
    requires
        w.job_count < usize::MAX,
    ensures
        worker_after_release(worker_after_assign(w)) == w,
{
}

/// When every worker is stored under its own id, whichever best choice is
/// made names a stored worker that can count one more job.
pub proof fn law_keyed_choices_name_workers(m: Map<u64, WorkerState>)
    requires
        keyed_by_id(m),
    ensures
        choices_name_workers(m),
{
}

/// Adding a worker under its id, and assigning or releasing a job, keep
/// every worker stored under its own id.
pub proof fn law_workers_stay_keyed_by_id(m: Map<u64, WorkerState>, w: WorkerState, id: u64)
    requires
        keyed_by_id(m),
    ensures
        keyed_by_id(m.insert(w.id, w)),
        m.contains_key(id) ==> keyed_by_id(m.insert(id, worker_after_assign(m[id]))),
        m.contains_key(id) ==> keyed_by_id(m.insert(id, worker_after_release(m[id]))),
{
}

/// The rating bands: overloaded above 80% or without capacity, balanced
/// from 50% to 80%, underloaded below 50%.
pub proof fn law_rating_bands(w: WorkerState)
    ensures
        w.load_rating() == Priority::Reject <==> (w.capacity == 0 || 5 * w.job_count > 4
            * w.capacity),
        w.load_rating() == Priority::Normal <==> (w.capacity > 0 && 2 * w.job_count >= w.capacity
            && 5 * w.job_count <= 4 * w.capacity),
        w.load_rating() == Priority::Priority <==> (w.capacity > 0 && 2 * w.job_count
            < w.capacity),
{
}

/// No workers, no count.
pub proof fn law_count_rated_empty(rating: Priority)
    ensures
        count_rated(Map::<u64, WorkerState>::empty(), rating) == 0,
{
    assert(Map::<u64, WorkerState>::empty().dom().filter(
        |k: u64| Map::<u64, WorkerState>::empty()[k].load_rating() == rating,
    ) =~= Set::<u64>::empty());
}

/// Adding a new worker adds one to the count of its own rating and leaves
/// the other counts as they were.
pub proof fn law_count_rated_add(m: Map<u64, WorkerState>, k: u64, w: WorkerState, rating: Priority)
    requires
        m.dom().finite(),
        !m.contains_key(k),
    ensures
        count_rated(m.insert(k, w), rating) == count_rated(m, rating) + if w.load_rating()
            == rating {
            1int
        } else {
            0int
        },
{
    broadcast use vstd::set::group_set_axioms;

    let m2 = m.insert(k, w);
    let before = m.dom().filter(|j: u64| m[j].load_rating() == rating);
    let after = m2.dom().filter(|j: u64| m2[j].load_rating() == rating);
    m.dom().lemma_len_filter(|j: u64| m[j].load_rating() == rating);
    assert(!before.contains(k));
    if w.load_rating() == rating {
        assert(after =~= before.insert(k));
    } else {
        assert(after =~= before);
    }
}

/// Each worker falls under exactly one rating: the three counts of the
/// distribution add up to the number of workers.
pub proof fn law_distribution_counts_every_worker(m: Map<u64, WorkerState>)
    requires
        m.dom().finite(),
    ensures
        count_rated(m, Priority::Reject) + count_rated(m, Priority::Normal) + count_rated(
            m,
            Priority::Priority,
        ) == m.len(),
{
    broadcast use vstd::set::group_set_axioms;

    let over = m.dom().filter(|k: u64| m[k].load_rating() == Priority::Reject);
    let bal = m.dom().filter(|k: u64| m[k].load_rating() == Priority::Normal);
    let under = m.dom().filter(|k: u64| m[k].load_rating() == Priority::Priority);
    m.dom().lemma_len_filter(|k: u64| m[k].load_rating() == Priority::Reject);
    m.dom().lemma_len_filter(|k: u64| m[k].load_rating() == Priority::Normal);
    m.dom().lemma_len_filter(|k: u64| m[k].load_rating() == Priority::Priority);
    assert(over.disjoint(bal));
    vstd::set_lib::lemma_set_disjoint_lens(over, bal);
    assert((over + bal).disjoint(under));
    vstd::set_lib::lemma_set_disjoint_lens(over + bal, under);
    assert(over + bal + under =~= m.dom());
}

/// Spreads jobs over worker nodes by their ternary load rating.
#[derive(Debug, Clone)]
pub struct LoadBalancer {
    pub workers: HashMap<u64, WorkerState>,
}

impl LoadBalancer {
    /// A balancer without workers.
    pub fn new() -> (r: Self)
        ensures
            r.workers@ == Map::<u64, WorkerState>::empty(),
    {
        LoadBalancer { workers: HashMap::new() }
    }

    /// Adds `worker` under its id, replacing a worker with the same id.
    pub fn add_worker(&mut self, worker: WorkerState)
        ensures
            final(self).workers@ == old(self).workers@.insert(worker.id, worker),
    {
        let id = worker.id;
        self.workers.insert(id, worker);
    }

    /// Selects the worker for a new job: the least loaded underloaded worker,
    /// else the least loaded balanced worker; `None` when every worker is
    /// overloaded or full. Among equally loaded workers the choice is open.
    pub fn select_worker(&self) -> (r: Option<u64>)
        ensures
            r is None <==> !has_candidate(self.workers@),
            r matches Some(id) ==> exists|k: u64|
                is_best_choice(self.workers@, k) && #[trigger] self.workers@[k].id == id,
    {
        let ghost m = self.workers@;
        let mut best_under: Option<(u64, usize)> = None;
        let mut best_balanced: Option<(u64, usize)> = None;
        let ghost mut under_key: u64 = 0;
        let ghost mut balanced_key: u64 = 0;
        for entry in it: self.workers.iter()
            invariant
                m == self.workers@,
                it.seq().len() == m.dom().len(),
                forall|j: int| #![trigger it.seq()[j]] 0 <= j < it.seq().len() ==> m.contains_key(*it.seq()[j].0)
                    && m[*it.seq()[j].0] == *it.seq()[j].1,
                match best_under {
                    Some((id, jc)) => {
                        &&& m.contains_key(under_key)
                        &&& m[under_key].id == id
                        &&& m[under_key].job_count == jc
                        &&& m[under_key].is_available()
                        &&& m[under_key].load_rating() == Priority::Priority
                        &&& forall|j: int| #![trigger it.seq()[j]] 0 <= j < it.index() && (*it.seq()[j].1).is_available()
                            && (*it.seq()[j].1).load_rating() == Priority::Priority ==> jc <= (*it.seq()[j].1).job_count
                    },
                    None => forall|j: int| #![trigger it.seq()[j]] 0 <= j < it.index() ==> !((*it.seq()[j].1).is_available()
                        && (*it.seq()[j].1).load_rating() == Priority::Priority),
                },
                match best_balanced {
                    Some((id, jc)) => {
                        &&& m.contains_key(balanced_key)
                        &&& m[balanced_key].id == id
                        &&& m[balanced_key].job_count == jc
                        &&& m[balanced_key].is_available()
                        &&& m[balanced_key].load_rating() == Priority::Normal
                        &&& forall|j: int| #![trigger it.seq()[j]] 0 <= j < it.index() && (*it.seq()[j].1).is_available()
                            && (*it.seq()[j].1).load_rating() == Priority::Normal ==> jc <= (*it.seq()[j].1).job_count
                    },
                    None => forall|j: int| #![trigger it.seq()[j]] 0 <= j < it.index() ==> !((*it.seq()[j].1).is_available()
                        && (*it.seq()[j].1).load_rating() == Priority::Normal),
                },
        {
            let (key, worker) = entry;
            if worker.is_available() {
                match worker.load_rating() {
                    Priority::Priority => {
                        let better = match best_under {
                            Some((_, jc)) => worker.job_count < jc,
                            None => true,
                        };
                        if better {
                            best_under = Some((worker.id, worker.job_count));
                            proof {
                                under_key = *key;
                            }
                        }
                    },
                    Priority::Normal => {
                        let better = match best_balanced {
                            Some((_, jc)) => worker.job_count < jc,
                            None => true,
                        };
                        if better {
                            best_balanced = Some((worker.id, worker.job_count));
                            proof {
                                balanced_key = *key;
                            }
                        }
                    },
                    Priority::Reject => {},
                }
            }
        }
        match best_under {
            Some((id, _)) => Some(id),
            None => match best_balanced {
                Some((id, _)) => Some(id),
                None => None,
            },
        }
    }

    /// Assigns a job to the worker stored under the id that `select_worker`
    /// returns, and returns that id; `None`, with nothing changed, when no
    /// worker can take it.
    pub fn assign_job(&mut self) -> (r: Option<u64>)
        requires
            choices_name_workers(old(self).workers@),
        ensures
            r is None <==> !has_candidate(old(self).workers@),
            r is None ==> final(self).workers@ == old(self).workers@,
            r matches Some(id) ==> {
                &&& exists|k: u64|
                    is_best_choice(old(self).workers@, k) && #[trigger] old(self).workers@[k].id
                        == id
                &&& old(self).workers@.contains_key(id)
                &&& final(self).workers@ == old(self).workers@.insert(
                    id,
                    worker_after_assign(old(self).workers@[id]),
                )
            },
            keyed_by_id(old(self).workers@) ==> keyed_by_id(final(self).workers@),
    {
        let worker_id = match self.select_worker() {
            Some(id) => id,
            None => return None,
        };
        let mut worker = match self.workers.get(&worker_id) {
            Some(w) => WorkerState { id: w.id, job_count: w.job_count, capacity: w.capacity },
            None => return None,
        };
        worker.assign();
        self.workers.insert(worker_id, worker);
        Some(worker_id)
    }

    /// Counts one job less on the worker `worker_id`, if there is one.
    pub fn release_job(&mut self, worker_id: u64)
        ensures
            old(self).workers@.contains_key(worker_id) ==> final(self).workers@ == old(
                self,
            ).workers@.insert(worker_id, worker_after_release(old(self).workers@[worker_id])),
            !old(self).workers@.contains_key(worker_id) ==> final(self).workers@ == old(
                self,
            ).workers@,
    {
        let found = match self.workers.get(&worker_id) {
            Some(w) => Some(WorkerState { id: w.id, job_count: w.job_count, capacity: w.capacity }),
            None => None,
        };
        if let Some(mut worker) = found {
            worker.release();
            self.workers.insert(worker_id, worker);
        }
    }

    /// The numbers of (overloaded, balanced, underloaded) workers.
    pub fn worker_distribution(&self) -> (r: (usize, usize, usize))
        ensures
            r.0 == count_rated(self.workers@, Priority::Reject),
            r.1 == count_rated(self.workers@, Priority::Normal),
            r.2 == count_rated(self.workers@, Priority::Priority),
    {
        let ghost m = self.workers@;
        let total = self.workers.len();
        let mut overloaded: usize = 0;
        let mut balanced: usize = 0;
        let mut underloaded: usize = 0;
        let ghost v = self.workers.iter().remaining();
        for entry in it: self.workers.iter()
            invariant
                m == self.workers@,
                it.seq() == v,
                total == m.dom().len(),
                it.seq().len() == m.dom().len(),
                it.seq().no_duplicates(),
                forall|j: int| #![trigger it.seq()[j]] 0 <= j < it.seq().len() ==> m.contains_key(*it.seq()[j].0)
                    && m[*it.seq()[j].0] == *it.seq()[j].1,
                overloaded == count(it.seq().take(it.index()), |e: (&u64, &WorkerState)| (*e.1).load_rating() == Priority::Reject),
                balanced == count(it.seq().take(it.index()), |e: (&u64, &WorkerState)| (*e.1).load_rating() == Priority::Normal),
                underloaded == count(it.seq().take(it.index()), |e: (&u64, &WorkerState)| (*e.1).load_rating() == Priority::Priority),
                overloaded + balanced + underloaded == it.index(),
        {
            let (_, worker) = entry;
            proof {
                let i = it.index();
                lemma_count_step(it.seq(), |e: (&u64, &WorkerState)| (*e.1).load_rating() == Priority::Reject, i);
                lemma_count_step(it.seq(), |e: (&u64, &WorkerState)| (*e.1).load_rating() == Priority::Normal, i);
                lemma_count_step(it.seq(), |e: (&u64, &WorkerState)| (*e.1).load_rating() == Priority::Priority, i);
            }
            match worker.load_rating() {
                Priority::Reject => overloaded = overloaded + 1,
                Priority::Normal => balanced = balanced + 1,
                Priority::Priority => underloaded = underloaded + 1,
            }
        }
        proof {
            assert(v.take(v.len() as int) =~= v);
            let key = |e: (&u64, &WorkerState)| *e.0;
            assert forall|a: int, b: int|
                0 <= a < v.len() && 0 <= b < v.len() && a != b implies #[trigger] key(v[a]) != #[trigger] key(v[b]) by {
                if key(v[a]) == key(v[b]) {
                    assert(v[a] == v[b]);
                }
            }
            assert(key_set(v, key) =~= m.dom()) by {
                assert forall|k: u64| m.contains_key(k) implies #[trigger] key_set(v, key).contains(k) by {
                    assert(v.contains((&k, &m[k])));
                    let j = choose|j: int| 0 <= j < v.len() && v[j] == (&k, &m[k]);
                    assert(key(v[j]) == k);
                }
            }
            lemma_count_distinct_keys(v, key, |e: (&u64, &WorkerState)| (*e.1).load_rating() == Priority::Reject, |k: u64| m[k].load_rating() == Priority::Reject);
            lemma_count_distinct_keys(v, key, |e: (&u64, &WorkerState)| (*e.1).load_rating() == Priority::Normal, |k: u64| m[k].load_rating() == Priority::Normal);
            lemma_count_distinct_keys(v, key, |e: (&u64, &WorkerState)| (*e.1).load_rating() == Priority::Priority, |k: u64| m[k].load_rating() == Priority::Priority);
        }
        (overloaded, balanced, underloaded)
    }
}

} // verus!
