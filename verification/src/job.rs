use vstd::prelude::*;
use crate::name_map::{NameMap, entries_after_insert};
use crate::priority::Priority;

verus! {

/// Unique identifier for a job.
pub type JobId = u64;

/// A schedulable job with a ternary priority, an optional deadline and the
/// units it needs from named resource pools.
#[derive(Debug, Clone)]
pub struct Job {
    pub id: JobId,
    pub priority: Priority,
    pub deadline: Option<u64>,
    pub resource_requirements: NameMap<u32>,
    pub created_at: u64,
    pub started_at: Option<u64>,
    pub completed_at: Option<u64>,
}

/// `j` is a freshly made job: it has the given id, priority and creation
/// time, no deadline, no requirements, and has neither started nor
/// completed.
pub open spec fn is_new_job(j: Job, id: JobId, priority: Priority, created_at: u64) -> bool {
    &&& j.id == id
    &&& j.priority == priority
    &&& j.deadline is None
    &&& j.resource_requirements@ == Map::<Seq<char>, u32>::empty()
    &&& j.resource_requirements.entries().len() == 0
    &&& j.created_at == created_at
    &&& j.started_at is None
    &&& j.completed_at is None
}

impl Job {
    /// A job created at `created_at`, with no deadline, no requirements,
    /// not started and not completed.
    pub fn new(id: JobId, priority: Priority, created_at: u64) -> (r: Self)
        ensures
            is_new_job(r, id, priority, created_at),
    {
        Job {
            id,
            priority,
            deadline: None,
            resource_requirements: NameMap::new(),
            created_at,
            started_at: None,
            completed_at: None,
        }
    }

    /// The same job with the deadline `deadline`.
    pub fn with_deadline(self, deadline: u64) -> (r: Self)
        ensures
            r == (Job { deadline: Some(deadline), ..self }),
    {
        let mut job = self;
        job.deadline = Some(deadline);
        job
    }

    /// The same job, now needing `amount` units of the pool `name` (in place
    /// of what it needed of that pool before).
    pub fn require_resource(self, name: &str, amount: u32) -> (r: Self)
        ensures
            r.resource_requirements@ == self.resource_requirements@.insert(name@, amount),
            r.resource_requirements.entries() == entries_after_insert(
                self.resource_requirements.entries(),
                name@,
                amount,
            ),
            r.id == self.id,
            r.priority == self.priority,
            r.deadline == self.deadline,
            r.created_at == self.created_at,
            r.started_at == self.started_at,
            r.completed_at == self.completed_at,
    {
        let mut job = self;
        job.resource_requirements.insert(name, amount);
        job
    }

    /// Whether the job has completed.
    #[verifier::allow_in_spec]
    pub fn is_complete(&self) -> bool
        returns
            self.completed_at is Some,
    {
        self.completed_at.is_some()
    }

    /// Whether the job has a deadline that `current_time` has passed while
    /// the job is not complete.
    #[verifier::allow_in_spec]
    pub fn is_overdue(&self, current_time: u64) -> bool
        returns
            (match self.deadline {
                Some(d) => current_time > d && self.completed_at is None,
                None => false,
            }),
    {
        match self.deadline {
            Some(d) => current_time > d && !self.is_complete(),
            None => false,
        }
    }

    /// How long the job has waited since it was created (zero for a time
    /// before its creation).
    #[verifier::allow_in_spec]
    pub fn wait_time(&self, current_time: u64) -> u64
        returns
            (if current_time >= self.created_at {
                (current_time - self.created_at) as u64
            } else {
                0u64
            }),
    {
        current_time.saturating_sub(self.created_at)
    }
}

} // verus!
