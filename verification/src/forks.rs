//! The ring of forks: which two forks a seat reaches, and which of the two
//! is taken first.
//!
//! Seats and forks are numbered from zero. The philosopher at seat `i`
//! reaches fork `i` and the fork of the neighbour to the left. Seats with an
//! even number take their own fork first, seats with an odd number the
//! neighbour's: it is this alternation that keeps the table from locking up.

use vstd::prelude::*;

verus! {

/// The number of forks on a table of `amount` seats: one per seat, and never
/// fewer than two, so that a lone philosopher still finds a pair.
pub open spec fn ring_size(amount: nat) -> nat {
    if amount < 2 {
        2
    } else {
        amount
    }
}

/// The fork to the left of seat `position`: that of the left neighbour.
pub open spec fn left_fork(position: nat, amount: nat) -> nat {
    ((position + ring_size(amount) - 1) % (ring_size(amount) as int)) as nat
}

/// The fork that the philosopher at `position` takes first.
pub open spec fn first_fork(position: nat, amount: nat) -> nat {
    if position % 2 == 0 {
        position
    } else {
        left_fork(position, amount)
    }
}

/// The fork that the philosopher at `position` takes second.
pub open spec fn second_fork(position: nat, amount: nat) -> nat {
    if position % 2 == 0 {
        left_fork(position, amount)
    } else {
        position
    }
}

/// The rank of a fork in the order in which forks are taken: fork zero
/// comes first, then the other forks with an even number, then those with an
/// odd number.
pub open spec fn fork_rank(fork: nat) -> nat {
    if fork % 2 == 1 {
        2
    } else if fork == 0 {
        0
    } else {
        1
    }
}

/// The left fork is the one numbered one less, and the last fork for seat
/// zero.
pub proof fn lemma_left_fork(position: nat, amount: nat)
    requires
        position < ring_size(amount),
    ensures
        position == 0 ==> left_fork(position, amount) == ring_size(amount) - 1,
        position > 0 ==> left_fork(position, amount) == position - 1,
        left_fork(position, amount) < ring_size(amount),
        left_fork(position, amount) != position,
{
    let n = ring_size(amount) as int;
    let p = position as int;
    if p == 0 {
        vstd::arithmetic::div_mod::lemma_small_mod((n - 1) as nat, n as nat);
    } else {
        vstd::arithmetic::div_mod::lemma_mod_add_multiples_vanish(p - 1, n);
        vstd::arithmetic::div_mod::lemma_small_mod((p - 1) as nat, n as nat);
        assert(p + n - 1 == n + (p - 1));
    }
}

/// Every philosopher reaches two different forks of the table, also the one
/// who dines alone.
pub proof fn lemma_two_distinct_forks(position: nat, amount: nat)
    requires
        position < ring_size(amount),
    ensures
        first_fork(position, amount) != second_fork(position, amount),
        first_fork(position, amount) < ring_size(amount),
        second_fork(position, amount) < ring_size(amount),
{
    lemma_left_fork(position, amount);
}

/// No circular wait: every philosopher takes the fork of lower rank first.
/// Whoever waits for a fork therefore waits for one of higher rank than any
/// they hold, and the holder of the fork of highest rank in use waits for
/// nobody.
pub proof fn lemma_forks_taken_in_rank_order(position: nat, amount: nat)
    requires
        position < ring_size(amount),
    ensures
        fork_rank(first_fork(position, amount)) < fork_rank(second_fork(position, amount)),
{
    lemma_left_fork(position, amount);
}

/// A fork lies within reach of the seat with its own number and of the next
/// seat round the table, and of no other.
pub proof fn lemma_fork_shared_by_neighbours(position: nat, fork: nat, amount: nat)
    requires
        position < ring_size(amount),
        fork < ring_size(amount),
    ensures
        (first_fork(position, amount) == fork || second_fork(position, amount) == fork) <==> (
        position == fork || left_fork(position, amount) == fork),
        left_fork(position, amount) == fork <==> position == (fork + 1) as int % (ring_size(
            amount,
        ) as int),
{
    lemma_left_fork(position, amount);
    let n = ring_size(amount);
    if fork + 1 < n {
        vstd::arithmetic::div_mod::lemma_small_mod((fork + 1) as nat, n);
    } else {
        vstd::arithmetic::div_mod::lemma_mod_self_0(n as int);
    }
}

/// The number of forks on a table of `amount` seats.
pub fn resource_count(amount: usize) -> (n: usize)
    ensures
        n == ring_size(amount as nat),
{
    if amount < 2 {
        2
    } else {
        amount
    }
}

/// The fork to the left of seat `position`.
pub fn left_neighbour(position: usize, amount: usize) -> (fork: usize)
    requires
        position < ring_size(amount as nat),
    ensures
        fork == left_fork(position as nat, amount as nat),
        fork < ring_size(amount as nat),
        fork != position,
{
    proof {
        lemma_left_fork(position as nat, amount as nat);
    }
    if position == 0 {
        resource_count(amount) - 1
    } else {
        position - 1
    }
}

/// The two forks of seat `position`, in the order in which they are taken.
pub fn acquisition_order(position: usize, amount: usize) -> (pair: (usize, usize))
    requires
        position < ring_size(amount as nat),
    ensures
        pair.0 == first_fork(position as nat, amount as nat),
        pair.1 == second_fork(position as nat, amount as nat),
        pair.0 != pair.1,
        pair.0 < ring_size(amount as nat),
        pair.1 < ring_size(amount as nat),
{
    let left = left_neighbour(position, amount);
    if position % 2 == 0 {
        (position, left)
    } else {
        (left, position)
    }
}

} // verus!
