//! Monotonic identifier minting. One counter value stands behind every
//! task identity and every I/O registration key, so identifiers handed out
//! earlier are strictly smaller than whatever the counter will hand out
//! later, and no identifier is ever repeated.

use vstd::prelude::*;

verus! {

/// A strictly increasing counter of identifiers. Every identifier minted
/// from it equals the counter's value at that moment, and the counter only
/// moves up, so minted identifiers never repeat.
pub struct IdCounter {
    next: u64,
}

impl IdCounter {
    /// The value the next call to `fresh` will return.
    pub closed spec fn next_id(self) -> u64 {
        self.next
    }

    pub fn new() -> (c: IdCounter)
        ensures
            c.next_id() == 0,
    {
        IdCounter { next: 0 }
    }

    /// Whether another identifier can still be minted.
    pub fn has_headroom(&self) -> (r: bool)
        ensures
            r == (self.next_id() < u64::MAX),
    {
        self.next < u64::MAX
    }

    /// Mint one identifier: returns the current counter value and steps
    /// the counter past it.
    pub fn fresh(&mut self) -> (id: u64)
        requires
            old(self).next_id() < u64::MAX,
        ensures
            id == old(self).next_id(),
            final(self).next_id() == old(self).next_id() + 1,
    {
        let id = self.next;
        self.next = self.next + 1;
        id
    }
}

/// Identifiers minted from one counter are strictly increasing and never
/// repeat: any identifier handed out while the counter stood at `state`
/// or later is strictly greater than any identifier handed out before the
/// counter reached `state`. Together with `fresh`'s contract (a minted
/// identifier equals the counter's value, and the counter then moves past
/// it) this pins down that no two mints ever return the same value.
pub proof fn lemma_fresh_ids_never_repeat(earlier: u64, state: IdCounter, later: u64)
    requires
        earlier < state.next_id(),
        later >= state.next_id(),
    ensures
        later > earlier,
        later != earlier,
{
}

} // verus!
