//! Counting-semaphore admission control: the permit arithmetic of a
//! fixed-capacity semaphore. Blocking and waking waiters is left to the
//! caller, which holds this state under its lock.

use vstd::prelude::*;

verus! {

/// The free permits of a counting semaphore of fixed capacity: at most
/// `capacity` permits are ever held at once.
pub struct AdmissionControl {
    permits: usize,
    capacity: usize,
}

impl AdmissionControl {
    #[verifier::type_invariant]
    spec fn inv(&self) -> bool {
        self.permits <= self.capacity
    }

    /// The number of free permits.
    pub closed spec fn free(&self) -> nat {
        self.permits as nat
    }

    /// The number of permits the semaphore was made with.
    pub closed spec fn capacity(&self) -> nat {
        self.capacity as nat
    }

    /// A semaphore with `n` free permits.
    pub fn new(n: usize) -> (res: Self)
        ensures
            res.free() == n,
            res.capacity() == n,
    {
        AdmissionControl { permits: n, capacity: n }
    }

    /// Take a permit when one is free: `true` and one permit fewer, or
    /// `false` and nothing changed.
    pub fn try_acquire(&mut self) -> (res: bool)
        ensures
            res == (old(self).free() > 0),
            res ==> final(self).free() == old(self).free() - 1,
            !res ==> final(self).free() == old(self).free(),
            final(self).capacity() == old(self).capacity(),
    {
        proof {
            use_type_invariant(&*self);
        }
        if self.permits == 0 {
            false
        } else {
            self.permits = self.permits - 1;
            true
        }
    }

    /// Give back a permit that was taken.
    pub fn release(&mut self)
        requires
            old(self).free() < old(self).capacity(),
        ensures
            final(self).free() == old(self).free() + 1,
            final(self).capacity() == old(self).capacity(),
    {
        self.permits = self.permits + 1;
    }

    /// The current free-permit count, never more than the capacity.
    pub fn available_permits(&self) -> (res: usize)
        ensures
            res == self.free(),
            res <= self.capacity(),
    {
        proof {
            use_type_invariant(self);
        }
        self.permits
    }

    /// The number of permits the semaphore was made with.
    pub fn max_permits(&self) -> (res: usize)
        ensures
            res == self.capacity(),
    {
        self.capacity
    }
}

} // verus!
