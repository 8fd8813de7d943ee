//! Identifiers and the allocator that hands out domain identifiers.
use vstd::prelude::*;

verus! {

/// Identifies a domain for the lifetime of the process.
pub type DomainId = u64;

/// Identifies a window within one registry.
pub type WindowId = u64;

/// Identifies a tab within one registry.
pub type TabId = u64;

/// Hands out domain identifiers, each one larger than every earlier one.
///
/// The allocator is an explicit value.  Whoever constructs domains holds
/// it, and callers on several threads share it behind a lock: every
/// allocation takes `&mut self`, so allocations are totally ordered.
pub struct DomainIdAllocator {
    next: u64,
}

impl DomainIdAllocator {
    /// The number of identifiers handed out so far.
    pub closed spec fn issued(&self) -> nat {
        self.next as nat
    }

    /// No identifier is left.
    pub open spec fn exhausted(&self) -> bool {
        self.issued() >= u64::MAX
    }

    /// One allocation: `id` is handed out in state `self`, leaving `next`.
    pub open spec fn step(&self, id: DomainId, next: &DomainIdAllocator) -> bool {
        &&& !self.exhausted()
        &&& id as nat == self.issued()
        &&& next.issued() == self.issued() + 1
    }

    /// An allocator that has handed out nothing.
    pub fn new() -> (alloc: DomainIdAllocator)
        ensures
            alloc.issued() == 0,
    {
        DomainIdAllocator { next: 0 }
    }

    pub fn is_exhausted(&self) -> (r: bool)
        ensures
            r == self.exhausted(),
    {
        self.next == u64::MAX
    }

    /// The number of identifiers handed out so far.
    pub fn count(&self) -> (n: u64)
        ensures
            n as nat == self.issued(),
    {
        self.next
    }

    /// Hands out the next identifier.
    pub fn allocate(&mut self) -> (id: DomainId)
        requires
            !old(self).exhausted(),
        ensures
            old(self).step(id, final(self)),
    {
        let id: DomainId = self.next;
        self.next = id + 1;
        id
    }

    /// Hands out the next identifier, or `None` once the space is used up.
    pub fn try_allocate(&mut self) -> (r: Option<DomainId>)
        ensures
            match r {
                Some(id) => old(self).step(id, final(self)),
                None => old(self).exhausted() && *final(self) == *old(self),
            },
    {
        if self.is_exhausted() {
            None
        } else {
            Some(self.allocate())
        }
    }
}

/// `ids[i]` is what the `i`-th call returned, and `states[i]` the allocator
/// before that call; `states` holds one more entry, the allocator after the
/// last call.
pub open spec fn allocation_run(states: Seq<DomainIdAllocator>, ids: Seq<DomainId>) -> bool {
    &&& states.len() == ids.len() + 1
    &&& forall|i: int| 0 <= i < ids.len() ==> (#[trigger] states[i]).step(ids[i], &states[i + 1])
}

/// In any run of allocations the `i`-th identifier is the first one plus
/// `i`: the identifiers are strictly increasing in the order in which the
/// calls completed, pairwise distinct, and leave no gap.
pub proof fn lemma_allocations_are_consecutive(states: Seq<DomainIdAllocator>, ids: Seq<DomainId>)
    requires
        allocation_run(states, ids),
    ensures
        forall|i: int| 0 <= i < ids.len() ==> #[trigger] ids[i] == states[0].issued() + i,
        forall|i: int, j: int| 0 <= i < j < ids.len() ==> #[trigger] ids[i] < #[trigger] ids[j],
        forall|i: int, j: int|
            0 <= i < ids.len() && 0 <= j < ids.len() && i != j ==> #[trigger] ids[i]
                != #[trigger] ids[j],
        states[ids.len() as int].issued() == states[0].issued() + ids.len(),
    decreases ids.len(),
{
    if ids.len() > 0 {
        let n = ids.len() - 1;
        let s = states.take(n + 1);
        let d = ids.take(n);
        assert forall|i: int| 0 <= i < d.len() implies (#[trigger] s[i]).step(d[i], &s[i + 1]) by {
            assert(states[i].step(ids[i], &states[i + 1]));
        }
        lemma_allocations_are_consecutive(s, d);
        assert(states[n].step(ids[n], &states[n + 1]));
        assert(s[n] == states[n]);
        assert forall|i: int| 0 <= i < ids.len() implies #[trigger] ids[i] == states[0].issued() + i by {
            if i < n {
                assert(d[i] == ids[i]);
            }
        }
    }
}

} // verus!
