//! The counting discipline of the work-availability semaphore.
//!
//! The embedding that runs several walkers puts a mutex and a condition
//! variable around this count so that an idle worker sleeps until a permit
//! arrives; what that blocking protects is exactly the bookkeeping proved
//! here. `wait` takes a permit, so it may only run once one is available —
//! under the blocking collaborator that is what the wakeup guarantees —
//! and `signal` publishes one.

use vstd::prelude::*;

verus! {

/// A counting semaphore: the number of permits currently available.
#[derive(Debug)]
pub struct Semaphore {
    pub count: isize,
}

impl Semaphore {
    /// A semaphore holding `init_val` permits.
    pub fn new(init_val: isize) -> (s: Semaphore)
        ensures
            s.count == init_val,
    {
        Semaphore { count: init_val }
    }

    /// Take one permit; a permit must be available.
    pub fn wait(&mut self)
        requires
            old(self).count > 0,
        ensures
            final(self).count == old(self).count - 1,
    {
        self.count = self.count - 1;
    }

    /// Release one permit.
    pub fn signal(&mut self)
        requires
            old(self).count < isize::MAX,
        ensures
            final(self).count == old(self).count + 1,
    {
        self.count = self.count + 1;
    }
}

impl Default for Semaphore {
    /// A semaphore with no permits.
    fn default() -> (s: Semaphore)
        ensures
            s.count == 0,
    {
        Semaphore { count: 0 }
    }
}

} // verus!
