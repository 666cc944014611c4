//! A whole dinner, one turn at a time.
//!
//! A [`Dinner`] holds the forks, the termination signal and every
//! philosopher, and lets them take turns in whatever order the caller
//! chooses, at whatever times the caller names. Whatever the order, no fork
//! is ever in two hands, and as long as anyone is at the table someone can
//! move.

use crate::forks::fork_rank;
use crate::forks::lemma_forks_taken_in_rank_order;
use crate::forks::lemma_two_distinct_forks;
use crate::forks::ring_size;
use crate::philosopher::Action;
use crate::philosopher::Activity;
use crate::philosopher::Philosopher;
use crate::philosopher::PhilosopherView;
use crate::philosopher::Verdict;
use crate::table::ResourcePool;
use crate::table::TerminationSignal;
use crate::timing::starved_at;
use crate::timing::TimingPolicy;
use vstd::prelude::*;

verus! {

/// What became of one turn.
#[derive(Clone, Copy, Debug, PartialEq, Eq, Structural)]
pub enum Turn {
    /// The philosopher has left the table before.
    Gone,
    /// The philosopher waits for `fork`, which is in another hand, and
    /// stays as they are.
    Blocked { fork: usize },
    /// The philosopher made a pass that asked for `action`, and goes on.
    Moved { action: Action },
    /// The philosopher made a pass that asked for `action`, and then left
    /// the table, starved or dismissed.
    Left { action: Action, verdict: Verdict },
}

/// The table: the forks, the signal, and a seat for each philosopher, empty
/// once they have left.
#[derive(Debug)]
pub struct Dinner {
    pub timing: TimingPolicy,
    pub amount: usize,
    pub pool: ResourcePool,
    pub signal: TerminationSignal,
    pub seats: Vec<Option<Philosopher>>,
}

/// Whether the philosopher of `seat` is still at the table.
pub open spec fn seat_present(seats: Seq<Option<Philosopher>>, seat: int) -> bool {
    0 <= seat < seats.len() && seats[seat] is Some
}

/// The philosopher of `seat`.
pub open spec fn seat_view(seats: Seq<Option<Philosopher>>, seat: int) -> PhilosopherView {
    seats[seat].unwrap()@
}

/// Whether the philosopher of `seat` has `fork` in hand.
pub open spec fn seat_holds(seats: Seq<Option<Philosopher>>, seat: int, fork: usize) -> bool {
    seat_present(seats, seat) && seat_view(seats, seat).holds(fork)
}

/// A table is well formed when there is a seat for each philosopher and a
/// fork for each seat, but two at the least; when everyone at the table is
/// well formed and sits at their own seat; and when the forks in hand are
/// exactly those that the pool has given out, each to the one who holds it.
pub open spec fn table_wf(
    seats: Seq<Option<Philosopher>>,
    pool: Seq<Option<usize>>,
    amount: nat,
) -> bool {
    &&& seats.len() == amount
    &&& pool.len() == ring_size(amount)
    &&& forall|seat: int| #[trigger]
        seat_present(seats, seat) ==> seat_view(seats, seat).wf(amount) && seat_view(
            seats,
            seat,
        ).table_position == seat
    &&& forall|seat: int, fork: usize| #[trigger]
        seat_holds(seats, seat, fork) ==> pool[fork as int] == Some(seat as usize)
    &&& forall|fork: int|
        0 <= fork < pool.len() ==> ((#[trigger] pool[fork]) matches Some(seat) ==> seat_holds(
            seats,
            seat as int,
            fork as usize,
        ))
}

/// The number of philosophers still at the table.
pub open spec fn present_count(seats: Seq<Option<Philosopher>>) -> nat
    decreases seats.len(),
{
    if seats.len() == 0 {
        0
    } else {
        present_count(seats.drop_last()) + if seats.last() is Some {
            1nat
        } else {
            0nat
        }
    }
}

impl Dinner {
    /// Whether the philosopher of `seat` is still at the table.
    pub open spec fn present(&self, seat: int) -> bool {
        seat_present(self.seats@, seat)
    }

    /// The philosopher of `seat`.
    pub open spec fn philo(&self, seat: int) -> PhilosopherView {
        seat_view(self.seats@, seat)
    }

    /// Whether the philosopher of `seat` has `fork` in hand.
    pub open spec fn holds(&self, seat: int, fork: usize) -> bool {
        seat_holds(self.seats@, seat, fork)
    }

    /// Whether the table is well formed.
    pub open spec fn wf(&self) -> bool {
        table_wf(self.seats@, self.pool@, self.amount as nat)
    }

    /// Whether the next pass of the philosopher of `seat`, begun at `now`,
    /// would ask for a fork that is in another hand.
    pub open spec fn blocked(&self, seat: int, now: u128) -> bool {
        self.present(seat) && match self.philo(seat).action(
            now,
            self.timing,
            self.amount as nat,
        ) {
            Action::TakeFork { fork } => self.pool@[fork as int] is Some,
            _ => false,
        }
    }

    /// What becomes of a turn of `seat` at `now`.
    pub open spec fn outcome(&self, seat: int, now: u128) -> Turn {
        let action = self.philo(seat).action(now, self.timing, self.amount as nat);
        let verdict = self.philo(seat).after(now, self.timing, self.amount as nat).verdict(
            now,
            self.signal@,
            self.timing,
        );
        if !self.present(seat) {
            Turn::Gone
        } else if self.blocked(seat, now) {
            Turn::Blocked { fork: action->fork }
        } else if verdict == Verdict::Alive {
            Turn::Moved { action }
        } else {
            Turn::Left { action, verdict }
        }
    }

    /// A table of `amount` seats at `now`: all forks free, the signal
    /// lowered, and a philosopher just seated at each seat.
    pub fn new(amount: usize, timing: TimingPolicy, now: u128) -> (dinner: Self)
        ensures
            dinner.wf(),
            dinner.amount == amount,
            dinner.timing == timing,
            !dinner.signal@,
            forall|fork: int| 0 <= fork < dinner.pool@.len() ==> dinner.pool@[fork] is None,
            forall|seat: int|
                0 <= seat < amount ==> dinner.present(seat) && #[trigger] dinner.philo(seat) == (
                PhilosopherView {
                    activity: Activity::Start,
                    ts_last_eat: now,
                    ts_eating: now,
                    table_position: seat as nat,
                    held: Seq::empty(),
                }),
    {
        let pool = ResourcePool::new(amount);
        let signal = TerminationSignal::new();
        let mut seats: Vec<Option<Philosopher>> = Vec::new();
        while seats.len() < amount
            invariant
                seats@.len() <= amount,
                forall|seat: int|
                    0 <= seat < seats@.len() ==> (#[trigger] seats@[seat]) is Some
                        && seats@[seat].unwrap()@ == (PhilosopherView {
                        activity: Activity::Start,
                        ts_last_eat: now,
                        ts_eating: now,
                        table_position: seat as nat,
                        held: Seq::empty(),
                    }),
            decreases amount - seats.len(),
        {
            let philo = Philosopher::new_at(seats.len(), now);
            seats.push(Some(philo));
        }
        let dinner = Dinner { timing, amount, pool, signal, seats };
        assert forall|seat: int| #[trigger] dinner.present(seat) implies dinner.philo(seat).wf(
            amount as nat,
        ) && dinner.philo(seat).table_position == seat by {
            assert(dinner.seats@[seat] is Some);
        }
        assert forall|seat: int, fork: usize| #[trigger] dinner.holds(seat, fork) implies false by {
            assert(dinner.seats@[seat] is Some);
        }
        assert forall|seat: int| 0 <= seat < amount implies dinner.present(seat)
            && #[trigger] dinner.philo(seat) == (PhilosopherView {
            activity: Activity::Start,
            ts_last_eat: now,
            ts_eating: now,
            table_position: seat as nat,
            held: Seq::empty(),
        }) by {
            assert(dinner.seats@[seat] is Some);
        }
        dinner
    }

    /// The fork in another hand that the philosopher of `seat` would ask for
    /// on a pass begun at `now`: none where the philosopher has left, asks
    /// for no fork, or asks for one that is free.
    pub fn waits_for(&self, seat: usize, now: u128) -> (fork: Option<usize>)
        requires
            self.wf(),
            seat < self.amount,
        ensures
            fork is Some <==> self.blocked(seat as int, now),
            fork matches Some(wanted) ==> self.philo(seat as int).action(
                now,
                self.timing,
                self.amount as nat,
            ) == (Action::TakeFork { fork: wanted }),
    {
        match &self.seats[seat] {
            None => None,
            Some(philo) => {
                assert(seat_present(self.seats@, seat as int));
                proof {
                    lemma_two_distinct_forks(seat as nat, self.amount as nat);
                }
                match philo.next_action(now, &self.timing, self.amount) {
                    Action::TakeFork { fork } => {
                        if self.pool.holder(fork).is_some() {
                            Some(fork)
                        } else {
                            None
                        }
                    },
                    _ => None,
                }
            },
        }
    }

    /// Lets the philosopher of `seat`, whose next fork is free if they ask
    /// for one, make a pass at `now`: the forks that the pass asks for
    /// change hands.
    fn pass(&mut self, seat: usize, now: u128) -> (done: (Action, Verdict))
        requires
            old(self).wf(),
            old(self).present(seat as int),
            !old(self).blocked(seat as int, now),
        ensures
            final(self).wf(),
            final(self).amount == old(self).amount,
            final(self).timing == old(self).timing,
            final(self).signal == old(self).signal,
            done.0 == old(self).philo(seat as int).action(
                now,
                old(self).timing,
                old(self).amount as nat,
            ),
            done.1 == final(self).philo(seat as int).verdict(
                now,
                old(self).signal@,
                old(self).timing,
            ),
            final(self).present(seat as int),
            final(self).philo(seat as int) == old(self).philo(seat as int).after(
                now,
                old(self).timing,
                old(self).amount as nat,
            ),
            forall|other: int|
                0 <= other < old(self).amount && other != seat ==> final(self).seats@[other]
                    == old(self).seats@[other],
            forall|fork: int|
                0 <= fork < old(self).pool@.len() ==> #[trigger] final(self).pool@[fork] == (
                if final(self).holds(seat as int, fork as usize) {
                    Some(seat)
                } else if old(self).pool@[fork] == Some(seat) {
                    None
                } else {
                    old(self).pool@[fork]
                }),
    {
        let ghost seats0 = self.seats@;
        let ghost pool0 = self.pool@;
        let ghost amount = self.amount as nat;
        let taken = self.seats[seat].take();
        assert(seat_present(seats0, seat as int));
        let mut philo = taken.unwrap();
        let ghost before = philo@;
        proof {
            lemma_two_distinct_forks(seat as nat, amount);
            assert(before.held.len() == 0 || seat_holds(seats0, seat as int, before.held[0]));
            assert(before.held.len() < 2 || seat_holds(seats0, seat as int, before.held[1]));
        }
        let action = philo.advance(now, &self.timing, self.amount);
        match action {
            Action::TakeFork { fork } => {
                self.pool.try_acquire(fork, seat);
            },
            Action::Sleep { first_down, second_down, millis: _ } => {
                self.pool.release(first_down, seat);
                self.pool.release(second_down, seat);
            },
            _ => {},
        }
        let verdict = philo.verdict(now, self.signal.is_set(), &self.timing);
        let ghost moved = philo@;
        self.seats[seat] = Some(philo);
        proof {
            let seats1 = self.seats@;
            let pool1 = self.pool@;
            assert forall|i: int| #[trigger] seat_present(seats1, i) implies seat_view(
                seats1,
                i,
            ).wf(amount) && seat_view(seats1, i).table_position == i by {
                if i != seat {
                    assert(seat_present(seats0, i));
                }
            }
            assert forall|i: int, fork: usize| #[trigger]
                seat_holds(seats1, i, fork) implies pool1[fork as int] == Some(i as usize) by {
                if i != seat {
                    assert(seat_present(seats0, i));
                    assert(seat_holds(seats0, i, fork));
                    lemma_two_distinct_forks(i as nat, amount);
                } else {
                    assert(moved.holds(fork));
                    if before.holds(fork) {
                        assert(seat_holds(seats0, i, fork));
                    }
                }
            }
            assert forall|fork: int| 0 <= fork < pool1.len() implies ((#[trigger] pool1[fork])
                matches Some(h) ==> seat_holds(seats1, h as int, fork as usize)) by {
                if pool1[fork] is Some {
                    let h = pool1[fork].unwrap();
                    if pool0[fork] == Some(h) {
                        assert(seat_holds(seats0, h as int, fork as usize));
                        if h == seat {
                            assert(before.holds(fork as usize));
                            assert(moved.holds(fork as usize));
                        }
                    } else {
                        assert(moved.holds(fork as usize));
                    }
                }
            }
        }
        (action, verdict)
    }

    /// Sends the philosopher of `seat` home: they put down what they hold,
    /// the fork taken last first, and their seat is empty from then on.
    fn dismiss(&mut self, seat: usize)
        requires
            old(self).wf(),
            old(self).present(seat as int),
        ensures
            final(self).wf(),
            final(self).amount == old(self).amount,
            final(self).timing == old(self).timing,
            final(self).signal == old(self).signal,
            !final(self).present(seat as int),
            forall|other: int|
                0 <= other < old(self).amount && other != seat ==> final(self).seats@[other]
                    == old(self).seats@[other],
            forall|fork: int|
                0 <= fork < old(self).pool@.len() ==> #[trigger] final(self).pool@[fork] == (
                if final(self).holds(seat as int, fork as usize) {
                    Some(seat)
                } else if old(self).pool@[fork] == Some(seat) {
                    None
                } else {
                    old(self).pool@[fork]
                }),
    {
        let ghost seats0 = self.seats@;
        let ghost pool0 = self.pool@;
        let ghost amount = self.amount as nat;
        let taken = self.seats[seat].take();
        assert(seat_present(seats0, seat as int));
        let philo = taken.unwrap();
        let ghost before = philo@;
        proof {
            lemma_two_distinct_forks(seat as nat, amount);
            assert(before.held.len() == 0 || seat_holds(seats0, seat as int, before.held[0]));
            assert(before.held.len() < 2 || seat_holds(seats0, seat as int, before.held[1]));
        }
        let dropped = philo.retire();
        if dropped.len() >= 1 {
            self.pool.release(dropped[0], seat);
        }
        if dropped.len() >= 2 {
            self.pool.release(dropped[1], seat);
        }
        proof {
            let seats1 = self.seats@;
            let pool1 = self.pool@;
            assert forall|i: int| #[trigger] seat_present(seats1, i) implies seat_view(
                seats1,
                i,
            ).wf(amount) && seat_view(seats1, i).table_position == i by {
                assert(seat_present(seats0, i));
            }
            assert forall|i: int, fork: usize| #[trigger]
                seat_holds(seats1, i, fork) implies pool1[fork as int] == Some(
                i as usize,
            ) by {
                assert(seat_present(seats0, i));
                assert(seat_holds(seats0, i, fork));
                lemma_two_distinct_forks(i as nat, amount);
            }
            assert forall|fork: int| 0 <= fork < pool1.len() implies ((
            #[trigger] pool1[fork]) matches Some(h) ==> seat_holds(
                seats1,
                h as int,
                fork as usize,
            )) by {
                if pool1[fork] is Some {
                    let h = pool1[fork].unwrap();
                    assert(pool0[fork] == Some(h));
                    assert(seat_holds(seats0, h as int, fork as usize));
                    if h == seat {
                        assert(before.holds(fork as usize));
                    }
                }
            }
        }
    }

    /// Ends the dinner once the signal is raised: gives a turn at `now` to
    /// someone who can move, again and again, until the table is empty.
    /// Everyone leaves and every fork is put down; that this comes to an end
    /// shows that nobody is left waiting for ever.
    pub fn wind_down(&mut self, now: u128)
        requires
            old(self).wf(),
            old(self).signal@,
        ensures
            final(self).wf(),
            final(self).signal@,
            final(self).amount == old(self).amount,
            final(self).timing == old(self).timing,
            forall|seat: int| !final(self).present(seat),
            forall|fork: int|
                0 <= fork < final(self).pool@.len() ==> (#[trigger] final(self).pool@[fork]) is None,
    {
        let mut done = false;
        while !done
            invariant
                self.wf(),
                self.signal@,
                self.amount == old(self).amount,
                self.timing == old(self).timing,
                done ==> forall|seat: int| !self.present(seat),
            decreases
                    present_count(self.seats@) + if done {
                        0nat
                    } else {
                        1nat
                    },
        {
            let mut seat: usize = 0;
            let mut pick: Option<usize> = None;
            while seat < self.amount && pick.is_none()
                invariant
                    self.wf(),
                    seat <= self.amount,
                    pick is None ==> forall|other: int|
                        0 <= other < seat ==> !self.present(other) || self.blocked(other, now),
                    pick matches Some(mover) ==> mover < self.amount && self.present(mover as int)
                        && !self.blocked(mover as int, now),
                decreases self.amount - seat,
            {
                if self.seats[seat].is_some() && self.waits_for(seat, now).is_none() {
                    pick = Some(seat);
                }
                seat += 1;
            }
            match pick {
                None => {
                    proof {
                        assert forall|other: int| !self.present(other) by {
                            if self.present(other) {
                                let mover = lemma_someone_can_move(*self, now, other);
                            }
                        }
                    }
                    done = true;
                },
                Some(mover) => {
                    let ghost before = self.seats@;
                    proof {
                        lemma_signal_sends_home(*self, now, mover as int);
                    }
                    self.turn(mover, now);
                    proof {
                        assert(self.seats@ =~= before.update(mover as int, None));
                        lemma_count_after_leaving(before, mover as int);
                    }
                },
            }
        }
        proof {
            assert forall|fork: int| 0 <= fork < self.pool@.len() implies (
            #[trigger] self.pool@[fork]) is None by {
                if self.pool@[fork] is Some {
                    let holder = self.pool@[fork].unwrap();
                    assert(self.holds(holder as int, fork as usize));
                    assert(self.present(holder as int));
                }
            }
        }
    }

    /// Gives the philosopher of `seat` a turn at `now`.
    ///
    /// One who has left, or who waits for a fork in another hand, stays as
    /// they are. Anyone else makes a pass: the forks that it asks for change
    /// hands, and the verdict is taken. One who is starved or dismissed
    /// puts down what they hold and leaves; one who is starved raises the
    /// signal first.
    pub fn turn(&mut self, seat: usize, now: u128) -> (turn: Turn)
        requires
            old(self).wf(),
            seat < old(self).amount,
        ensures
            turn == old(self).outcome(seat as int, now),
            final(self).wf(),
            final(self).amount == old(self).amount,
            final(self).timing == old(self).timing,
            forall|other: int|
                0 <= other < old(self).amount && other != seat ==> final(self).seats@[other]
                    == old(self).seats@[other],
            forall|fork: int|
                0 <= fork < old(self).pool@.len() ==> #[trigger] final(self).pool@[fork] == (
                if final(self).holds(seat as int, fork as usize) {
                    Some(seat)
                } else if old(self).pool@[fork] == Some(seat) {
                    None
                } else {
                    old(self).pool@[fork]
                }),
            turn is Gone || turn is Blocked ==> final(self).seats@ == old(self).seats@,
            turn is Gone || turn is Blocked ==> final(self).pool@ == old(self).pool@,
            turn is Moved ==> final(self).present(seat as int) && final(self).philo(seat as int)
                == old(self).philo(seat as int).after(now, old(self).timing, old(self).amount as nat),
            turn is Left ==> !final(self).present(seat as int),
            final(self).signal@ == (old(self).signal@ || (turn matches Turn::Left {
                verdict: Verdict::Starved,
                ..
            })),
    {
        if self.seats[seat].is_none() {
            return Turn::Gone;
        }
        match self.waits_for(seat, now) {
            Some(fork) => {
                return Turn::Blocked { fork };
            },
            None => {},
        }
        let (action, verdict) = self.pass(seat, now);
        let ghost seats1 = self.seats@;
        match verdict {
            Verdict::Alive => Turn::Moved { action },
            _ => {
                if verdict == Verdict::Starved {
                    self.signal.set();
                }
                self.dismiss(seat);
                proof {
                    assert forall|fork: int| 0 <= fork < old(self).pool@.len() implies (
                    #[trigger] self.pool@[fork]) == (if old(self).pool@[fork] == Some(seat) {
                        None
                    } else {
                        old(self).pool@[fork]
                    }) by {
                        if old(self).pool@[fork] is Some {
                            let h = old(self).pool@[fork].unwrap();
                            assert(seat_holds(old(self).seats@, h as int, fork as usize));
                            if h != seat {
                                assert(seat_holds(seats1, h as int, fork as usize));
                            }
                        }
                    }
                }
                Turn::Left { action, verdict }
            },
        }
    }
}

/// When someone leaves, one fewer is at the table.
pub proof fn lemma_count_after_leaving(seats: Seq<Option<Philosopher>>, seat: int)
    requires
        seat_present(seats, seat),
    ensures
        present_count(seats.update(seat, None)) + 1 == present_count(seats),
    decreases seats.len(),
{
    let after = seats.update(seat, None);
    if seat == seats.len() - 1 {
        assert(after.drop_last() =~= seats.drop_last());
    } else {
        assert(after.drop_last() =~= seats.drop_last().update(seat, None));
        lemma_count_after_leaving(seats.drop_last(), seat);
    }
}

/// Mutual exclusion: at a well-formed table no fork is in two hands.
pub proof fn lemma_mutual_exclusion(dinner: Dinner, one: int, other: int, fork: usize)
    requires
        dinner.wf(),
        dinner.holds(one, fork),
        dinner.holds(other, fork),
    ensures
        one == other,
{
}

/// The pool and the hands agree: a fork is given out to a seat exactly when
/// the philosopher there holds it, and a free fork is in nobody's hand.
pub proof fn lemma_pool_matches_hands(dinner: Dinner, seat: int, fork: usize)
    requires
        dinner.wf(),
        0 <= seat < dinner.amount,
        fork < dinner.pool@.len(),
    ensures
        dinner.holds(seat, fork) <==> dinner.pool@[fork as int] == Some(seat as usize),
{
}

/// Whoever is blocked waits for a fork in the hand of someone at the table;
/// and if that one is blocked too, they wait for a fork of higher rank.
proof fn lemma_blocked_waits_upwards(dinner: Dinner, now: u128, seat: int) -> (holder: int)
    requires
        dinner.wf(),
        dinner.blocked(seat, now),
    ensures
        dinner.present(holder),
        dinner.holds(holder, dinner.philo(seat).action(now, dinner.timing, dinner.amount as nat)->fork),
        dinner.blocked(holder, now) ==> fork_rank(
            dinner.philo(holder).action(now, dinner.timing, dinner.amount as nat)->fork as nat,
        ) > fork_rank(
            dinner.philo(seat).action(now, dinner.timing, dinner.amount as nat)->fork as nat,
        ),
{
    let amount = dinner.amount as nat;
    let fork = dinner.philo(seat).action(now, dinner.timing, amount)->fork;
    assert(seat_present(dinner.seats@, seat));
    lemma_two_distinct_forks(seat as nat, amount);
    let holder = dinner.pool@[fork as int].unwrap() as int;
    assert(dinner.holds(holder, fork));
    assert(seat_present(dinner.seats@, holder));
    lemma_two_distinct_forks(holder as nat, amount);
    lemma_forks_taken_in_rank_order(holder as nat, amount);
    holder
}

/// Deadlock freedom: as long as anyone is at a well-formed table, someone
/// there is not blocked, whatever the time and however the turns went
/// before. The one found is `seat`, or holds a fork on the way up the ranks
/// from the fork that `seat` waits for.
pub proof fn lemma_someone_can_move(dinner: Dinner, now: u128, seat: int) -> (mover: int)
    requires
        dinner.wf(),
        dinner.present(seat),
    ensures
        dinner.present(mover),
        !dinner.blocked(mover, now),
        dinner.outcome(mover, now) is Moved || dinner.outcome(mover, now) is Left,
{
    if !dinner.blocked(seat, now) {
        seat
    } else {
        let second = lemma_blocked_waits_upwards(dinner, now, seat);
        if !dinner.blocked(second, now) {
            second
        } else {
            let third = lemma_blocked_waits_upwards(dinner, now, second);
            if !dinner.blocked(third, now) {
                third
            } else {
                let fourth = lemma_blocked_waits_upwards(dinner, now, third);
                if dinner.blocked(fourth, now) {
                    let _ = lemma_blocked_waits_upwards(dinner, now, fourth);
                }
                fourth
            }
        }
    }
}

/// One who dines alone is never blocked: both forks are theirs alone.
pub proof fn lemma_lone_diner_never_blocked(dinner: Dinner, now: u128)
    requires
        dinner.wf(),
        dinner.amount == 1,
        dinner.present(0),
    ensures
        !dinner.blocked(0, now),
{
    let mover = lemma_someone_can_move(dinner, now, 0);
}

/// Once the signal is raised, whoever gets a turn and is not blocked leaves
/// the table with it: nobody moves on.
pub proof fn lemma_signal_sends_home(dinner: Dinner, now: u128, seat: int)
    requires
        dinner.wf(),
        dinner.signal@,
        dinner.present(seat),
        !dinner.blocked(seat, now),
    ensures
        dinner.outcome(seat, now) is Left,
{
}

/// One who has starved by the end of a pass leaves the table as starved,
/// which raises the signal, whatever the signal showed before.
pub proof fn lemma_starvation_raises_signal(dinner: Dinner, now: u128, seat: int)
    requires
        dinner.wf(),
        dinner.present(seat),
        !dinner.blocked(seat, now),
        starved_at(
            dinner.timing,
            dinner.philo(seat).after(now, dinner.timing, dinner.amount as nat).ts_last_eat,
            now,
        ),
    ensures
        dinner.outcome(seat, now) matches Turn::Left { verdict: Verdict::Starved, .. },
{
}

} // verus!
