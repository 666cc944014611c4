//! One philosopher: what they are doing, what they hold, and what they do
//! next.
//!
//! A philosopher never waits, sleeps or writes by themselves. Each call of
//! [`Philosopher::advance`] moves them to their next state and hands back
//! the [`Action`] that belongs to it; the caller performs the action, asks
//! for the [`Verdict`], and calls again.

use crate::clock::now_millis;
use crate::forks::acquisition_order;
use crate::forks::first_fork;
use crate::forks::lemma_two_distinct_forks;
use crate::forks::second_fork;
use crate::observation::line_text;
use crate::observation::observation_line;
use crate::observation::Status;
use crate::timing::meal_over_at;
use crate::timing::starved_at;
use crate::timing::TimingPolicy;
use vstd::prelude::*;

verus! {

/// What a philosopher is doing.
#[derive(Clone, Copy, Debug, PartialEq, Eq, Structural)]
pub enum Activity {
    /// Just seated; about to think.
    Start,
    /// Hungry; about to reach for the forks.
    Eat,
    /// At the meal, both forks in hand.
    Eating,
    /// Asleep after the meal.
    Sleep,
    /// Thinking.
    Think,
    /// Reaching for the forks, one or both of them in hand.
    TakingFork,
}

/// What the caller does for a philosopher after a call of `advance`.
#[derive(Clone, Copy, Debug, PartialEq, Eq, Structural)]
pub enum Action {
    /// Report the philosopher as thinking, then wait for `millis`.
    Think { millis: u128 },
    /// Nothing to do.
    Pass,
    /// Wait until `fork` is free and take it, then report the philosopher
    /// as having taken a fork.
    TakeFork { fork: usize },
    /// Report the philosopher as eating.
    Eat,
    /// The meal goes on: yield for a moment.
    Wait,
    /// Put down `first_down`, then `second_down`; report the philosopher as
    /// sleeping, then wait for `millis`.
    Sleep { first_down: usize, second_down: usize, millis: u128 },
}

/// Whether a philosopher goes on after a pass.
#[derive(Clone, Copy, Debug, PartialEq, Eq, Structural)]
pub enum Verdict {
    /// Go on.
    Alive,
    /// The philosopher has starved: raise the signal, then leave.
    Starved,
    /// Another philosopher has starved: leave.
    Dismissed,
}

/// A philosopher at the table.
#[derive(Debug)]
pub struct Philosopher {
    pub activity: Activity,
    /// When the last meal ended, or when the philosopher sat down.
    pub ts_last_eat: u128,
    /// When the current meal began.
    pub ts_eating: u128,
    /// The seat, counted from zero.
    pub table_position: usize,
    /// The forks in hand, in the order in which they were taken.
    pub held: Vec<usize>,
}

/// A philosopher as a mathematical value.
pub struct PhilosopherView {
    pub activity: Activity,
    pub ts_last_eat: u128,
    pub ts_eating: u128,
    pub table_position: nat,
    pub held: Seq<usize>,
}

impl View for Philosopher {
    type V = PhilosopherView;

    open spec fn view(&self) -> PhilosopherView {
        PhilosopherView {
            activity: self.activity,
            ts_last_eat: self.ts_last_eat,
            ts_eating: self.ts_eating,
            table_position: self.table_position as nat,
            held: self.held@,
        }
    }
}

/// What an observation says of someone engaged in `activity`.
pub open spec fn status_of(activity: Activity) -> Status {
    match activity {
        Activity::Eating => Status::Eating,
        Activity::Sleep => Status::Sleeping,
        Activity::Think => Status::Thinking,
        Activity::TakingFork => Status::TakenFork,
        Activity::Start => Status::Unseen,
        Activity::Eat => Status::Unseen,
    }
}

impl PhilosopherView {
    /// The fork that this philosopher takes first.
    pub open spec fn first(self, amount: nat) -> nat {
        first_fork(self.table_position, amount)
    }

    /// The fork that this philosopher takes second.
    pub open spec fn second(self, amount: nat) -> nat {
        second_fork(self.table_position, amount)
    }

    /// A philosopher at a table of `amount` seats is well formed when the
    /// seat is one of the table, the table is one that a machine can count,
    /// and the forks in hand are those that the
    /// activity calls for: the first, or the first and then the second,
    /// while reaching for the forks; both while eating; none otherwise.
    pub open spec fn wf(self, amount: nat) -> bool {
        &&& self.table_position < amount <= usize::MAX
        &&& match self.activity {
            Activity::TakingFork => {
                &&& 1 <= self.held.len() <= 2
                &&& self.held[0] == self.first(amount)
                &&& self.held.len() == 2 ==> self.held[1] == self.second(amount)
            },
            Activity::Eating => {
                &&& self.held.len() == 2
                &&& self.held[0] == self.first(amount)
                &&& self.held[1] == self.second(amount)
            },
            _ => self.held.len() == 0,
        }
    }

    /// Whether `fork` is in hand: whether it is the first or the second of
    /// the forks held.
    pub open spec fn holds(self, fork: usize) -> bool {
        ||| self.held.len() >= 1 && self.held[0] == fork
        ||| self.held.len() >= 2 && self.held[1] == fork
    }

    /// The philosopher after the next pass, begun at `now`.
    pub open spec fn after(self, now: u128, timing: TimingPolicy, amount: nat) -> PhilosopherView {
        match self.activity {
            Activity::Start => PhilosopherView { activity: Activity::Think, ..self },
            Activity::Sleep => PhilosopherView { activity: Activity::Think, ..self },
            Activity::Think => PhilosopherView { activity: Activity::Eat, ..self },
            Activity::Eat => PhilosopherView {
                activity: Activity::TakingFork,
                held: self.held.push(self.first(amount) as usize),
                ..self
            },
            Activity::TakingFork => if self.held.len() < 2 {
                PhilosopherView { held: self.held.push(self.second(amount) as usize), ..self }
            } else {
                PhilosopherView { activity: Activity::Eating, ts_eating: now, ..self }
            },
            Activity::Eating => if meal_over_at(timing, self.ts_eating, now) {
                PhilosopherView {
                    activity: Activity::Sleep,
                    ts_last_eat: now,
                    held: Seq::empty(),
                    ..self
                }
            } else {
                self
            },
        }
    }

    /// What the caller is asked to do on the next pass, begun at `now`.
    pub open spec fn action(self, now: u128, timing: TimingPolicy, amount: nat) -> Action {
        match self.activity {
            Activity::Start => Action::Think { millis: timing.time_think },
            Activity::Sleep => Action::Think { millis: timing.time_think },
            Activity::Think => Action::Pass,
            Activity::Eat => Action::TakeFork { fork: self.first(amount) as usize },
            Activity::TakingFork => if self.held.len() < 2 {
                Action::TakeFork { fork: self.second(amount) as usize }
            } else {
                Action::Eat
            },
            Activity::Eating => if meal_over_at(timing, self.ts_eating, now) {
                Action::Sleep {
                    first_down: self.held[1],
                    second_down: self.held[0],
                    millis: timing.time_sleep,
                }
            } else {
                Action::Wait
            },
        }
    }

    /// How a pass ends at `now`: starved, whatever the signal says; else
    /// dismissed where the signal is raised; else alive.
    pub open spec fn verdict(self, now: u128, signal_raised: bool, timing: TimingPolicy) -> Verdict {
        if starved_at(timing, self.ts_last_eat, now) {
            Verdict::Starved
        } else if signal_raised {
            Verdict::Dismissed
        } else {
            Verdict::Alive
        }
    }
}

impl Philosopher {
    /// A philosopher who sits down at seat `pos` at the time that the clock
    /// shows, with empty hands.
    pub fn new(pos: usize) -> (r: Self)
        ensures
            r.activity == Activity::Start,
            r.table_position == pos,
            r.ts_eating == r.ts_last_eat,
            r.held@ == Seq::<usize>::empty(),
    {
        Philosopher::new_at(pos, now_millis())
    }

    /// A philosopher who sits down at seat `pos` at `now`, with empty hands.
    pub fn new_at(pos: usize, now: u128) -> (r: Self)
        ensures
            r@ == (PhilosopherView {
                activity: Activity::Start,
                ts_last_eat: now,
                ts_eating: now,
                table_position: pos as nat,
                held: Seq::empty(),
            }),
    {
        Philosopher {
            activity: Activity::Start,
            ts_last_eat: now,
            ts_eating: now,
            table_position: pos,
            held: Vec::new(),
        }
    }

    /// Whether the philosopher has starved by the time that the clock shows.
    /// The answer is that of `is_dead_at` for some reading of the clock.
    pub fn is_dead(&self, timing: &TimingPolicy) -> (dead: bool)
        ensures
            exists|now: u128| dead == #[trigger] starved_at(*timing, self.ts_last_eat, now),
            timing.time_die == 0 ==> dead,
    {
        let now = now_millis();
        let dead = self.is_dead_at(now, timing);
        assert(dead == starved_at(*timing, self.ts_last_eat, now));
        dead
    }

    /// Whether the philosopher has starved at `now`: whether the time since
    /// the last meal has reached the time to die.
    pub fn is_dead_at(&self, now: u128, timing: &TimingPolicy) -> (dead: bool)
        ensures
            dead == starved_at(*timing, self.ts_last_eat, now),
    {
        timing.has_starved(self.ts_last_eat, now)
    }

    /// Whether the current meal is over by the time that the clock shows.
    /// The answer is that of `is_done_eating_at` for some reading of the
    /// clock.
    pub fn is_done_eating(&self, timing: &TimingPolicy) -> (done: bool)
        ensures
            exists|now: u128| done == #[trigger] meal_over_at(*timing, self.ts_eating, now),
            timing.time_eat == u128::MAX ==> !done,
    {
        let now = now_millis();
        let done = self.is_done_eating_at(now, timing);
        assert(done == meal_over_at(*timing, self.ts_eating, now));
        done
    }

    /// Whether the current meal is over at `now`: whether it has lasted
    /// longer than the time to eat.
    pub fn is_done_eating_at(&self, now: u128, timing: &TimingPolicy) -> (done: bool)
        ensures
            done == meal_over_at(*timing, self.ts_eating, now),
    {
        timing.has_eaten_enough(self.ts_eating, now)
    }

    /// Whether the philosopher is well formed at a table of `amount` seats.
    pub fn is_well_formed(&self, amount: usize) -> (ok: bool)
        ensures
            ok == self@.wf(amount as nat),
    {
        if self.table_position >= amount {
            return false;
        }
        let (first, second) = acquisition_order(self.table_position, amount);
        let count = self.held.len();
        match self.activity {
            Activity::TakingFork => {
                (count == 1 && self.held[0] == first) || (count == 2 && self.held[0] == first
                    && self.held[1] == second)
            },
            Activity::Eating => count == 2 && self.held[0] == first && self.held[1] == second,
            _ => count == 0,
        }
    }

    /// What an observation says of the philosopher now.
    pub fn status(&self) -> (status: Status)
        ensures
            status == status_of(self.activity),
    {
        match self.activity {
            Activity::Eating => Status::Eating,
            Activity::Sleep => Status::Sleeping,
            Activity::Think => Status::Thinking,
            Activity::TakingFork => Status::TakenFork,
            Activity::Start => Status::Unseen,
            Activity::Eat => Status::Unseen,
        }
    }

    /// The line that reports what the philosopher is doing at `now`.
    pub fn observation(&self, now: u128) -> (line: String)
        ensures
            line@ == line_text(now as nat, self.table_position as nat, status_of(self.activity)),
    {
        observation_line(now, self.table_position, self.status())
    }

    /// The line that reports the philosopher's death at `now`.
    pub fn obituary(&self, now: u128) -> (line: String)
        ensures
            line@ == line_text(now as nat, self.table_position as nat, Status::Died),
    {
        observation_line(now, self.table_position, Status::Died)
    }

    /// Makes the next pass, begun at `now`, at a table of `amount` seats:
    /// moves the philosopher on and says what the caller is to do.
    pub fn advance(&mut self, now: u128, timing: &TimingPolicy, amount: usize) -> (action: Action)
        requires
            old(self)@.wf(amount as nat),
        ensures
            final(self)@ == old(self)@.after(now, *timing, amount as nat),
            action == old(self)@.action(now, *timing, amount as nat),
            final(self)@.wf(amount as nat),
    {
        proof {
            lemma_two_distinct_forks(self.table_position as nat, amount as nat);
        }
        let action = match self.activity {
            Activity::Start => {
                self.activity = Activity::Think;
                Action::Think { millis: timing.time_think }
            },
            Activity::Sleep => {
                self.activity = Activity::Think;
                Action::Think { millis: timing.time_think }
            },
            Activity::Think => {
                self.activity = Activity::Eat;
                Action::Pass
            },
            Activity::Eat => {
                let (first, _) = acquisition_order(self.table_position, amount);
                self.held.push(first);
                self.activity = Activity::TakingFork;
                Action::TakeFork { fork: first }
            },
            Activity::TakingFork => {
                if self.held.len() < 2 {
                    let (_, second) = acquisition_order(self.table_position, amount);
                    self.held.push(second);
                    Action::TakeFork { fork: second }
                } else {
                    self.activity = Activity::Eating;
                    self.ts_eating = now;
                    Action::Eat
                }
            },
            Activity::Eating => {
                if timing.has_eaten_enough(self.ts_eating, now) {
                    let first_down = self.held[1];
                    let second_down = self.held[0];
                    self.held.clear();
                    self.ts_last_eat = now;
                    self.activity = Activity::Sleep;
                    Action::Sleep { first_down, second_down, millis: timing.time_sleep }
                } else {
                    Action::Wait
                }
            },
        };
        assert(self@.held =~= old(self)@.after(now, *timing, amount as nat).held);
        action
    }

    /// What the next pass, begun at `now`, will ask the caller to do. The
    /// philosopher stays as they are.
    pub fn next_action(&self, now: u128, timing: &TimingPolicy, amount: usize) -> (action: Action)
        requires
            self@.wf(amount as nat),
        ensures
            action == self@.action(now, *timing, amount as nat),
    {
        proof {
            lemma_two_distinct_forks(self.table_position as nat, amount as nat);
        }
        match self.activity {
            Activity::Start => Action::Think { millis: timing.time_think },
            Activity::Sleep => Action::Think { millis: timing.time_think },
            Activity::Think => Action::Pass,
            Activity::Eat => {
                let (first, _) = acquisition_order(self.table_position, amount);
                Action::TakeFork { fork: first }
            },
            Activity::TakingFork => {
                if self.held.len() < 2 {
                    let (_, second) = acquisition_order(self.table_position, amount);
                    Action::TakeFork { fork: second }
                } else {
                    Action::Eat
                }
            },
            Activity::Eating => {
                if timing.has_eaten_enough(self.ts_eating, now) {
                    Action::Sleep {
                        first_down: self.held[1],
                        second_down: self.held[0],
                        millis: timing.time_sleep,
                    }
                } else {
                    Action::Wait
                }
            },
        }
    }

    /// How the pass ends at `now`, given what the termination signal showed.
    pub fn verdict(&self, now: u128, signal_raised: bool, timing: &TimingPolicy) -> (v: Verdict)
        ensures
            v == self@.verdict(now, signal_raised, *timing),
    {
        if self.is_dead_at(now, timing) {
            Verdict::Starved
        } else if signal_raised {
            Verdict::Dismissed
        } else {
            Verdict::Alive
        }
    }

    /// Ends the philosopher's life: hands back the forks still in hand, the
    /// one taken last first, for the caller to put down.
    pub fn retire(self) -> (dropped: Vec<usize>)
        ensures
            dropped@ == self@.held.reverse(),
    {
        let mut held = self.held;
        let ghost before = held@;
        let mut dropped: Vec<usize> = Vec::new();
        while held.len() > 0
            invariant
                held@.len() <= before.len(),
                held@ == before.subrange(0, held@.len() as int),
                dropped@ == before.subrange(held@.len() as int, before.len() as int).reverse(),
            decreases held.len(),
        {
            let fork = held.pop();
            match fork {
                Some(f) => {
                    dropped.push(f);
                },
                None => {},
            }
            assert(held@ =~= before.subrange(0, held@.len() as int));
            assert(dropped@ =~= before.subrange(
                held@.len() as int,
                before.len() as int,
            ).reverse());
        }
        assert(dropped@ =~= before.reverse());
        dropped
    }
}

/// A pass leaves a well-formed philosopher well formed.
pub proof fn lemma_advance_keeps_wf(
    philo: PhilosopherView,
    now: u128,
    timing: TimingPolicy,
    amount: nat,
)
    requires
        philo.wf(amount),
    ensures
        philo.after(now, timing, amount).wf(amount),
        philo.after(now, timing, amount).table_position == philo.table_position,
{
    lemma_two_distinct_forks(philo.table_position, amount);
}

/// A philosopher never reaches for a fork already in hand: the fork asked
/// for is one of the two beside the seat, is not held, and is held after
/// the pass, on top of what was held before.
pub proof fn lemma_never_takes_a_held_fork(
    philo: PhilosopherView,
    now: u128,
    timing: TimingPolicy,
    amount: nat,
    fork: usize,
)
    requires
        philo.wf(amount),
        philo.action(now, timing, amount) == (Action::TakeFork { fork }),
    ensures
        !philo.held.contains(fork),
        fork == philo.first(amount) || fork == philo.second(amount),
        philo.after(now, timing, amount).held == philo.held.push(fork),
{
    lemma_two_distinct_forks(philo.table_position, amount);
}

/// Of a well-formed philosopher, the forks in hand are those of the stack.
pub proof fn lemma_holds_is_contains(philo: PhilosopherView, amount: nat, fork: usize)
    requires
        philo.wf(amount),
    ensures
        philo.holds(fork) <==> philo.held.contains(fork),
        philo.holds(fork) ==> fork == philo.first(amount) || fork == philo.second(amount),
        philo.held.len() <= 2,
{
    if philo.holds(fork) {
        if philo.held.len() >= 1 && philo.held[0] == fork {
            assert(philo.held.contains(fork));
        } else {
            assert(philo.held[1] == fork);
            assert(philo.held.contains(fork));
        }
    }
}

/// A philosopher puts down exactly the forks taken, the one taken last
/// first, and only when the meal is over; afterwards the hands are empty.
pub proof fn lemma_puts_down_in_reverse(
    philo: PhilosopherView,
    now: u128,
    timing: TimingPolicy,
    amount: nat,
    first_down: usize,
    second_down: usize,
    millis: u128,
)
    requires
        philo.wf(amount),
        philo.action(now, timing, amount) == (Action::Sleep { first_down, second_down, millis }),
    ensures
        philo.held == seq![second_down, first_down],
        second_down == philo.first(amount),
        first_down == philo.second(amount),
        meal_over_at(timing, philo.ts_eating, now),
        philo.after(now, timing, amount).held.len() == 0,
{
    assert(philo.held =~= seq![second_down, first_down]);
}

/// Nobody sleeps or thinks with a fork in hand: whenever the caller is
/// asked to wait for a time, the hands are empty.
pub proof fn lemma_hands_empty_while_waiting(
    philo: PhilosopherView,
    now: u128,
    timing: TimingPolicy,
    amount: nat,
)
    requires
        philo.wf(amount),
        philo.action(now, timing, amount) is Think || philo.action(now, timing, amount) is Sleep,
    ensures
        philo.after(now, timing, amount).held.len() == 0,
{
}

/// Forks change hands only through the two actions that name them: a pass
/// that asks for anything else leaves the hands as they were.
pub proof fn lemma_hands_change_only_by_action(
    philo: PhilosopherView,
    now: u128,
    timing: TimingPolicy,
    amount: nat,
)
    requires
        philo.wf(amount),
        !(philo.action(now, timing, amount) is TakeFork),
        !(philo.action(now, timing, amount) is Sleep),
    ensures
        philo.after(now, timing, amount).held == philo.held,
{
}

/// A starved philosopher is told so whatever the signal shows, and a living
/// one is dismissed exactly when the signal is raised.
pub proof fn lemma_verdict(philo: PhilosopherView, now: u128, signal_raised: bool, timing: TimingPolicy)
    ensures
        philo.verdict(now, signal_raised, timing) == Verdict::Starved <==> starved_at(
            timing,
            philo.ts_last_eat,
            now,
        ),
        signal_raised ==> philo.verdict(now, signal_raised, timing) != Verdict::Alive,
{
}

} // verus!
