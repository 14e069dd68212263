use vstd::prelude::*;

verus! {

/// A ternary priority value: -1 rejects a job, 0 queues it normally and
/// +1 queues it ahead of normal jobs.
#[derive(Debug, Clone, Copy, PartialEq, Eq, Structural, Hash, PartialOrd, Ord)]
pub enum Priority {
    /// Reject the job (-1).
    Reject,
    /// Normal queue priority (0).
    Normal,
    /// Priority boost, scheduled first (+1).
    Priority,
}

/// The numeric value that each priority stands for.
pub open spec fn priority_value(p: Priority) -> int {
    match p {
        Priority::Reject => -1,
        Priority::Normal => 0,
        Priority::Priority => 1,
    }
}

impl Priority {
    /// The numeric value of the priority: -1, 0 or +1.
    pub fn value(self) -> (r: i8)
        ensures
            r == priority_value(self),
    {
        match self {
            Priority::Reject => -1,
            Priority::Normal => 0,
            Priority::Priority => 1,
        }
    }

    /// The priority whose numeric value is `v`, if there is one.
    pub fn from_i8(v: i8) -> (r: Option<Self>)
        ensures
            r is Some <==> -1 <= v <= 1,
            r matches Some(p) ==> priority_value(p) == v,
    {
        match v {
            -1 => Some(Priority::Reject),
            0 => Some(Priority::Normal),
            1 => Some(Priority::Priority),
            _ => None,
        }
    }
}

/// Each value from -1 to +1 belongs to exactly one priority.
pub proof fn law_value_round_trip(p: Priority, v: int)
    requires
        -1 <= v <= 1,
    ensures
        priority_value(p) == v <==> p == (if v == -1 {
            Priority::Reject
        } else if v == 0 {
            Priority::Normal
        } else {
            Priority::Priority
        }),
{
}

} // verus!
