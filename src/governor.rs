//! Accounting for the permits that bound how many files are open at once.

use vstd::prelude::*;

verus! {

/// The right to hold one file handle open; handed out only by a `PermitPool`.
#[derive(Debug)]
pub struct Permit {
    slot: (),
}

/// A counting pool of permits with a fixed capacity.
#[derive(Debug)]
pub struct PermitPool {
    capacity: usize,
    outstanding: usize,
}

impl PermitPool {
    #[verifier::type_invariant]
    spec fn within_capacity(&self) -> bool {
        self.outstanding <= self.capacity
    }

    /// The number of permits the pool was created with.
    pub closed spec fn capacity_spec(&self) -> nat {
        self.capacity as nat
    }

    /// The number of permits handed out and not yet released.
    pub closed spec fn outstanding_spec(&self) -> nat {
        self.outstanding as nat
    }

    // Every operation states that the outstanding permits stay within the
    // capacity; the type invariant carries that bound between calls.

    /// A pool of `capacity` permits, none of them handed out.
    pub fn new(capacity: usize) -> (r: PermitPool)
        ensures
            r.capacity_spec() == capacity,
            r.outstanding_spec() == 0,
            r.outstanding_spec() <= r.capacity_spec(),
    {
        PermitPool { capacity, outstanding: 0 }
    }

    pub fn capacity(&self) -> (r: usize)
        ensures
            r == self.capacity_spec(),
    {
        self.capacity
    }

    pub fn outstanding(&self) -> (r: usize)
        ensures
            r == self.outstanding_spec(),
            r <= self.capacity_spec(),
    {
        proof {
            use_type_invariant(self);
        }
        self.outstanding
    }

    /// The number of permits that can still be handed out.
    pub fn available(&self) -> (r: usize)
        ensures
            r == self.capacity_spec() - self.outstanding_spec(),
    {
        proof {
            use_type_invariant(self);
        }
        self.capacity - self.outstanding
    }

    /// Hands out a permit when one is free; otherwise the caller must wait for a
    /// release and try again.
    pub fn try_acquire(&mut self) -> (r: Option<Permit>)
        ensures
            final(self).capacity_spec() == old(self).capacity_spec(),
            final(self).outstanding_spec() <= final(self).capacity_spec(),
            old(self).outstanding_spec() < old(self).capacity_spec() ==> r is Some
                && final(self).outstanding_spec() == old(self).outstanding_spec() + 1,
            old(self).outstanding_spec() >= old(self).capacity_spec() ==> r is None
                && final(self).outstanding_spec() == old(self).outstanding_spec(),
    {
        proof {
            use_type_invariant(&*self);
        }
        if self.outstanding < self.capacity {
            self.outstanding = self.outstanding + 1;
            Some(Permit { slot: () })
        } else {
            None
        }
    }

    /// Returns a permit's slot to the pool.
    pub fn release(&mut self, permit: Permit)
        ensures
            final(self).capacity_spec() == old(self).capacity_spec(),
            final(self).outstanding_spec() <= final(self).capacity_spec(),
            final(self).outstanding_spec() == if old(self).outstanding_spec() > 0 {
                old(self).outstanding_spec() - 1
            } else {
                0
            },
    {
        proof {
            use_type_invariant(&*self);
        }
        if self.outstanding > 0 {
            self.outstanding = self.outstanding - 1;
        }
    }
}

} // verus!
