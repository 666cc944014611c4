//! What the philosophers share: the forks and the termination signal.

use crate::forks::resource_count;
use crate::forks::ring_size;
use vstd::prelude::*;

verus! {

/// The signal that ends the dinner. It starts lowered, is raised by the
/// first philosopher who starves, and is never lowered again: no function
/// of this type does so.
#[derive(Debug)]
pub struct TerminationSignal {
    raised: bool,
}

impl View for TerminationSignal {
    type V = bool;

    closed spec fn view(&self) -> bool {
        self.raised
    }
}

impl TerminationSignal {
    /// A lowered signal.
    pub fn new() -> (signal: Self)
        ensures
            !signal@,
    {
        TerminationSignal { raised: false }
    }

    /// Raises the signal. Raising it again changes nothing.
    pub fn set(&mut self)
        ensures
            final(self)@,
    {
        self.raised = true;
    }

    /// Whether the signal is raised.
    pub fn is_set(&self) -> (raised: bool)
        ensures
            raised == self@,
    {
        self.raised
    }
}

/// The forks of one table, each free or in the hand of one philosopher.
/// The view gives, for each fork, the seat of its holder.
#[derive(Debug)]
pub struct ResourcePool {
    holders: Vec<Option<usize>>,
}

impl View for ResourcePool {
    type V = Seq<Option<usize>>;

    closed spec fn view(&self) -> Seq<Option<usize>> {
        self.holders@
    }
}

impl ResourcePool {
    /// The forks of a table of `amount` seats, all of them free.
    pub fn new(amount: usize) -> (pool: Self)
        ensures
            pool@.len() == ring_size(amount as nat),
            forall|fork: int| 0 <= fork < pool@.len() ==> pool@[fork] is None,
    {
        let count = resource_count(amount);
        let mut holders: Vec<Option<usize>> = Vec::new();
        while holders.len() < count
            invariant
                holders@.len() <= count,
                forall|fork: int| 0 <= fork < holders@.len() ==> holders@[fork] is None,
            decreases count - holders.len(),
        {
            holders.push(None);
        }
        ResourcePool { holders }
    }

    /// The number of forks.
    pub fn len(&self) -> (n: usize)
        ensures
            n == self@.len(),
    {
        self.holders.len()
    }

    /// The seat of the philosopher who holds `fork`, if anyone does.
    pub fn holder(&self, fork: usize) -> (seat: Option<usize>)
        requires
            fork < self@.len(),
        ensures
            seat == self@[fork as int],
    {
        self.holders[fork]
    }

    /// Gives `fork` to the philosopher at `seat` if it is free, and says
    /// whether it did. A fork in someone's hand stays there.
    pub fn try_acquire(&mut self, fork: usize, seat: usize) -> (taken: bool)
        requires
            fork < old(self)@.len(),
        ensures
            taken == (old(self)@[fork as int] is None),
            taken ==> final(self)@ == old(self)@.update(fork as int, Some(seat)),
            !taken ==> final(self)@ == old(self)@,
    {
        match self.holders[fork] {
            None => {
                self.holders[fork] = Some(seat);
                true
            },
            Some(_) => false,
        }
    }

    /// Takes `fork` back from the philosopher at `seat`, and says whether
    /// it did: only the holder can put a fork down.
    pub fn release(&mut self, fork: usize, seat: usize) -> (freed: bool)
        requires
            fork < old(self)@.len(),
        ensures
            freed == (old(self)@[fork as int] == Some(seat)),
            freed ==> final(self)@ == old(self)@.update(fork as int, None),
            !freed ==> final(self)@ == old(self)@,
    {
        match self.holders[fork] {
            Some(holder) => {
                if holder == seat {
                    self.holders[fork] = None;
                    true
                } else {
                    false
                }
            },
            None => false,
        }
    }
}

} // verus!
