//! Sequences of identities that are never reused.
use vstd::prelude::*;

verus! {

/// A sequence of identities. They count up from one; the sequence ends after the
/// largest.
pub struct IdSequence {
    next: Option<u64>,
}

/// What follows `id` in a sequence.
pub open spec fn successor(id: u64) -> Option<u64> {
    if id < u64::MAX {
        Some((id + 1) as u64)
    } else {
        None
    }
}

/// What is next in a sequence once its next identity is handed out.
pub open spec fn after(next: Option<u64>) -> Option<u64> {
    match next {
        Some(id) => successor(id),
        None => None,
    }
}

/// Identity `id` was handed out by a sequence with `next` to come.
pub open spec fn spent(next: Option<u64>, id: u64) -> bool {
    next matches Some(n) ==> id < n
}

impl IdSequence {
    /// The next identity, or `None` once all are spent.
    pub closed spec fn view(&self) -> Option<u64> {
        self.next
    }

    pub fn new() -> (r: IdSequence)
        ensures
            r@ == Some(1u64),
    {
        IdSequence { next: Some(1) }
    }

    /// Hands out the next identity; `None` once all are spent.
    pub fn allocate(&mut self) -> (r: Option<u64>)
        ensures
            r == old(self)@,
            final(self)@ == after(old(self)@),
    {
        let id = self.next;
        if let Some(current) = id {
            self.next = if current < u64::MAX {
                Some(current + 1)
            } else {
                None
            };
        }
        id
    }
}

/// An identity is handed out once: it is larger than every one before it.
pub proof fn identities_increase(next: Option<u64>, earlier: u64)
    requires
        next is Some,
        spent(next, earlier),
    ensures
        earlier < next->0,
        spent(after(next), next->0),
        spent(after(next), earlier),
{
}

/// What is next after `n` identities were handed out.
pub open spec fn after_many(next: Option<u64>, n: nat) -> Option<u64>
    decreases n,
{
    if n == 0 {
        next
    } else {
        after(after_many(next, (n - 1) as nat))
    }
}

/// Identities count up by one and stop for good behind the largest: after `n` of them the next
/// is `n` larger, as long as there is one.
pub proof fn identities_count_up(first: u64, n: nat)
    ensures
        first + n <= u64::MAX ==> after_many(Some(first), n) == Some((first + n) as u64),
        first + n > u64::MAX ==> after_many(Some(first), n) is None,
        after_many(None, n) is None,
    decreases n,
{
    if n > 0 {
        identities_count_up(first, (n - 1) as nat);
    }
}

} // verus!
