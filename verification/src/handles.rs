//! The permit pool that bounds how many fetches are in flight at once.

use vstd::prelude::*;

verus! {

/// How many permits the pool of a run holds.
pub const DEFAULT_HANDLES: u32 = 20;

/// How long a fetcher that found no free permit sleeps before it asks again,
/// in milliseconds.
pub const POLL_INTERVAL_MS: u64 = 500;

/// A permit: the right to have one fetch in flight. It can only be had from
/// [`MaxHandles::try_get`], cannot be copied, and goes back with
/// [`MaxHandles::release`].
#[derive(Debug)]
pub struct Handle {
    token: (),
}

/// A pool of permits of fixed capacity.
#[derive(Debug)]
pub struct MaxHandles {
    capacity: u32,
    remaining: u32,
}

impl MaxHandles {
    /// The number of permits the pool was made with.
    pub closed spec fn capacity(&self) -> nat {
        self.capacity as nat
    }

    /// The number of permits that are free.
    pub closed spec fn remaining(&self) -> nat {
        self.remaining as nat
    }

    /// The number of permits that were taken and have not come back.
    pub open spec fn outstanding(&self) -> int {
        self.capacity() - self.remaining()
    }

    /// A pool never has more free permits than it was made with, so the
    /// number of outstanding permits lies between zero and the capacity.
    pub open spec fn wf(&self) -> bool {
        self.remaining() <= self.capacity()
    }

    /// A pool of `max` permits, all of them free.
    pub fn new(max: u32) -> (pool: MaxHandles)
        ensures
            pool.wf(),
            pool.capacity() == max,
            pool.remaining() == max,
            pool.outstanding() == 0,
    {
        MaxHandles { capacity: max, remaining: max }
    }

    /// Takes a permit if one is free. With none free the pool is left as it
    /// is and the caller is expected to ask again after [`POLL_INTERVAL_MS`].
    pub fn try_get(&mut self) -> (got: Option<Handle>)
        requires
            old(self).wf(),
        ensures
            final(self).wf(),
            final(self).capacity() == old(self).capacity(),
            got is Some <==> old(self).remaining() > 0,
            got is Some ==> final(self).outstanding() == old(self).outstanding() + 1,
            got is None ==> final(self).outstanding() == old(self).outstanding(),
            0 <= final(self).outstanding() <= final(self).capacity(),
    {
        if self.remaining > 0 {
            self.remaining = self.remaining - 1;
            Some(Handle { token: () })
        } else {
            None
        }
    }

    /// Gives a permit back. The permit must be one of those outstanding from
    /// this pool.
    pub fn release(&mut self, handle: Handle)
        requires
            old(self).wf(),
            old(self).outstanding() > 0,
        ensures
            final(self).wf(),
            final(self).capacity() == old(self).capacity(),
            final(self).outstanding() == old(self).outstanding() - 1,
            0 <= final(self).outstanding() <= final(self).capacity(),
    {
        let _ = handle;
        self.remaining = self.remaining + 1;
    }

    /// The number of permits the pool was made with.
    pub fn limit(&self) -> (n: u32)
        ensures
            n == self.capacity(),
    {
        self.capacity
    }

    /// The number of permits that are free.
    pub fn available(&self) -> (n: u32)
        ensures
            n == self.remaining(),
    {
        self.remaining
    }

    /// The number of permits that are outstanding.
    pub fn in_use(&self) -> (n: u32)
        requires
            self.wf(),
        ensures
            n == self.outstanding(),
    {
        self.capacity - self.remaining
    }
}

} // verus!
