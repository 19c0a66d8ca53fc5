//! The identifier allocator.
//!
//! Hands out a strictly increasing sequence of unique 64-bit identifiers,
//! one per shortening request: a process-local counter, seeded at start-up
//! with the greatest identifier already in durable use so that no identifier
//! is ever reused, not even across restarts. The counter is a process-scoped
//! cache, not the source of truth: the store's uniqueness constraint remains
//! the final authority.

use vstd::prelude::*;

use crate::errors::AllocateError;

verus! {

/// The allocator: its state is the greatest identifier handed out so far.
pub struct Allocator {
    counter: u64,
}

impl Allocator {
    /// The greatest identifier handed out so far (or taken as already in
    /// use when the allocator was seeded).
    pub closed spec fn allocated(&self) -> u64 {
        self.counter
    }

    /// Seeds the allocator: every identifier up to `resume_from` counts as
    /// spent and is never handed out again.
    pub fn new(resume_from: u64) -> (a: Allocator)
        ensures
            a.allocated() == resume_from,
    {
        Allocator { counter: resume_from }
    }

    /// Hands out the next identifier, one more than everything handed out
    /// before, so allocations are strictly increasing and never repeat.
    /// Fails only when the 64-bit identifier space is spent.
    pub fn allocate(&mut self) -> (r: Result<u64, AllocateError>)
        ensures
            match r {
                Ok(id) => {
                    &&& old(self).allocated() < u64::MAX
                    &&& id == old(self).allocated() + 1
                    &&& final(self).allocated() == id
                },
                Err(e) => {
                    &&& e == AllocateError::AllocationExhausted
                    &&& old(self).allocated() == u64::MAX
                    &&& *final(self) == *old(self)
                },
            },
    {
        if self.counter == u64::MAX {
            return Err(AllocateError::AllocationExhausted);
        }
        self.counter = self.counter + 1;
        Ok(self.counter)
    }
}

} // verus!
