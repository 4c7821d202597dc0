use vstd::prelude::*;

verus! {

/// Issues strictly increasing identifiers for one collection. The counter
/// holds the last identifier issued (0 before the first).
#[derive(Clone, Copy, Debug, PartialEq, Eq, Structural)]
pub struct IdAllocator {
    pub last: u64,
}

impl IdAllocator {
    /// A counter that has issued nothing.
    pub fn new() -> (r: IdAllocator)
        ensures
            r.last == 0,
    {
        IdAllocator { last: 0 }
    }

    /// A counter resumed from a saved state.
    pub fn restore(saved: u64) -> (r: IdAllocator)
        ensures
            r.last == saved,
    {
        IdAllocator { last: saved }
    }

    /// The state to persist; `restore` of it continues the same sequence.
    pub fn saved(&self) -> (r: u64)
        ensures
            r == self.last,
    {
        self.last
    }

    /// Issues the next identifier: one past the last one.
    pub fn allocate(&mut self) -> (r: u64)
        requires
            old(self).last < u64::MAX,
        ensures
            r == old(self).last + 1,
            final(self).last == r,
    {
        self.last = self.last + 1;
        self.last
    }
}

/// Identifiers issued by one counter strictly increase: an identifier issued
/// once the counter has reached `earlier` (or passed it, as a counter restored
/// from a saved state does) exceeds every identifier issued before.
pub proof fn lemma_later_ids_are_larger(earlier: IdAllocator, issued: u64, later: IdAllocator, next: u64)
    requires
        issued <= earlier.last,
        earlier.last <= later.last,
        next == later.last + 1,
    ensures
        issued < next,
{
}

} // verus!
