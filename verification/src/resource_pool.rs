use vstd::prelude::*;

verus! {

/// A named resource pool with a fixed capacity, of which some units are
/// allocated.
#[derive(Debug)]
pub struct ResourcePool {
    pub name: String,
    pub capacity: u32,
    pub allocated: u32,
}

/// The pool after `amount` more units have been handed out, when they fit;
/// the pool unchanged when they do not.
pub open spec fn pool_after_allocate(p: ResourcePool, amount: u32) -> ResourcePool {
    if amount <= p.available() {
        ResourcePool { allocated: (p.allocated + amount) as u32, ..p }
    } else {
        p
    }
}

/// The pool after `amount` units have come back; the allocation never goes
/// below zero.
pub open spec fn pool_after_release(p: ResourcePool, amount: u32) -> ResourcePool {
    ResourcePool {
        allocated: if p.allocated >= amount {
            (p.allocated - amount) as u32
        } else {
            0
        },
        ..p
    }
}

impl ResourcePool {
    /// An empty pool named `name` with `capacity` units.
    pub fn new(name: &str, capacity: u32) -> (r: Self)
        ensures
            r.name@ == name@,
            r.capacity == capacity,
            r.allocated == 0,
    {
        ResourcePool { name: name.to_owned(), capacity, allocated: 0 }
    }

    /// The units that are not allocated (zero when the pool is
    /// over-allocated).
    #[verifier::allow_in_spec]
    pub fn available(&self) -> u32
        returns
            (if self.allocated <= self.capacity {
                (self.capacity - self.allocated) as u32
            } else {
                0u32
            }),
    {
        self.capacity.saturating_sub(self.allocated)
    }

    /// Allocates `amount` units if that many are available; reports whether
    /// it did.
    pub fn try_allocate(&mut self, amount: u32) -> (r: bool)
        ensures
            r == (amount <= old(self).available()),
            *final(self) == pool_after_allocate(*old(self), amount),
    {
        if amount <= self.available() {
            self.allocated = self.allocated + amount;
            true
        } else {
            false
        }
    }

    /// Gives back `amount` units, saturating at zero.
    pub fn release(&mut self, amount: u32)
        ensures
            *final(self) == pool_after_release(*old(self), amount),
    {
        self.allocated = self.allocated.saturating_sub(amount);
    }
}

/// An allocation that fits takes exactly `amount` units off what is
/// available, and an allocation that does not fit changes nothing.
pub proof fn law_allocate_takes_amount(p: ResourcePool, amount: u32)
    ensures
        amount <= p.available() ==> pool_after_allocate(p, amount).available() == p.available()
            - amount,
        amount > p.available() ==> pool_after_allocate(p, amount) == p,
{
}

/// A pool never ends up with more units allocated than it has, by
/// allocating or by releasing, when it did not have more before.
pub proof fn law_pool_never_overcommitted(p: ResourcePool, amount: u32)
    requires
        p.allocated <= p.capacity,
    ensures
        pool_after_allocate(p, amount).allocated <= p.capacity,
        pool_after_release(p, amount).allocated <= p.capacity,
{
}

/// Releasing what an allocation that fit took gives the pool back as it
/// was.
pub proof fn law_release_undoes_allocate(p: ResourcePool, amount: u32)
    requires
        amount <= p.available(),
    ensures
        pool_after_release(pool_after_allocate(p, amount), amount) == p,
{
}

impl Clone for ResourcePool {
    /// An identical pool.
    fn clone(&self) -> (r: Self)
        ensures
            r == *self,
    {
        ResourcePool { name: self.name.clone(), capacity: self.capacity, allocated: self.allocated }
    }
}

} // verus!
