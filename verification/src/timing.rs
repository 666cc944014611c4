//! The timing policy: how long a meal and a nap last, and how long a
//! philosopher survives without eating. All times are in milliseconds.

use vstd::prelude::*;

verus! {

/// The durations that govern one dinner.
#[derive(Clone, Copy, Debug, PartialEq, Eq, Structural)]
pub struct TimingPolicy {
    /// How long a meal lasts.
    pub time_eat: u128,
    /// How long a philosopher sleeps after a meal.
    pub time_sleep: u128,
    /// How long a philosopher survives after their last meal.
    pub time_die: u128,
    /// How long a philosopher thinks before reaching for the forks; may be zero.
    pub time_think: u128,
}

/// The time that has passed at `now` since `since`; zero where the clock has
/// gone backwards in between.
pub open spec fn elapsed_between(since: u128, now: u128) -> u128 {
    if now >= since {
        (now - since) as u128
    } else {
        0
    }
}

/// Whether someone who last ate at `ts_last_eat` has starved at `now`.
pub open spec fn starved_at(timing: TimingPolicy, ts_last_eat: u128, now: u128) -> bool {
    elapsed_between(ts_last_eat, now) >= timing.time_die
}

/// Whether a meal that began at `ts_eating` is over at `now`.
pub open spec fn meal_over_at(timing: TimingPolicy, ts_eating: u128, now: u128) -> bool {
    elapsed_between(ts_eating, now) > timing.time_eat
}

/// The time that has passed at `now` since `since`.
pub fn elapsed(since: u128, now: u128) -> (r: u128)
    ensures
        r == elapsed_between(since, now),
{
    if now >= since {
        now - since
    } else {
        0
    }
}

impl TimingPolicy {
    /// A policy with the three given durations, and no time spent thinking.
    pub fn new(time_eat: u128, time_sleep: u128, time_die: u128) -> (r: Self)
        ensures
            r.time_eat == time_eat,
            r.time_sleep == time_sleep,
            r.time_die == time_die,
            r.time_think == 0,
    {
        TimingPolicy { time_eat, time_sleep, time_die, time_think: 0 }
    }

    /// The same policy, with `time_think` spent on each thought.
    pub fn with_thinking(self, time_think: u128) -> (r: Self)
        ensures
            r.time_eat == self.time_eat,
            r.time_sleep == self.time_sleep,
            r.time_die == self.time_die,
            r.time_think == time_think,
    {
        TimingPolicy {
            time_eat: self.time_eat,
            time_sleep: self.time_sleep,
            time_die: self.time_die,
            time_think,
        }
    }

    /// A policy is sensible when a philosopher can finish a meal before
    /// starving: the caller is expected to choose one that is.
    pub open spec fn sensible(self) -> bool {
        self.time_die > self.time_eat
    }

    /// Whether a philosopher can finish a meal before starving.
    pub fn is_sensible(&self) -> (r: bool)
        ensures
            r == self.sensible(),
    {
        self.time_die > self.time_eat
    }

    /// Whether someone who last ate at `ts_last_eat` has starved at `now`.
    pub fn has_starved(&self, ts_last_eat: u128, now: u128) -> (r: bool)
        ensures
            r == starved_at(*self, ts_last_eat, now),
    {
        elapsed(ts_last_eat, now) >= self.time_die
    }

    /// Whether a meal that began at `ts_eating` is over at `now`.
    pub fn has_eaten_enough(&self, ts_eating: u128, now: u128) -> (r: bool)
        ensures
            r == meal_over_at(*self, ts_eating, now),
    {
        elapsed(ts_eating, now) > self.time_eat
    }
}

/// Once starved, always starved: as long as no meal ends in between, a later
/// reading of the clock finds the same philosopher starved again.
pub proof fn lemma_starvation_lasts(timing: TimingPolicy, ts_last_eat: u128, now: u128, later: u128)
    requires
        starved_at(timing, ts_last_eat, now),
        now <= later,
    ensures
        starved_at(timing, ts_last_eat, later),
{
}

} // verus!
