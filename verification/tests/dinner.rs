use dining_philosophers::dinner::Dinner;
use dining_philosophers::dinner::Turn;
use dining_philosophers::observation::observation_line;
use dining_philosophers::observation::Status;
use dining_philosophers::philosopher::Action;
use dining_philosophers::philosopher::Activity;
use dining_philosophers::philosopher::Verdict;
use dining_philosophers::timing::TimingPolicy;

/// What one run of a dinner on a clock of its own has shown.
struct Run {
    lines: Vec<String>,
    meals: usize,
    deaths: Vec<u128>,
    starved: usize,
    now: u128,
}

/// Asserts that no fork is in two hands and that the pool knows each holder.
fn assert_exclusion(dinner: &Dinner) {
    for fork in 0..dinner.pool.len() {
        let mut holders = Vec::new();
        for (seat, slot) in dinner.seats.iter().enumerate() {
            if let Some(philo) = slot {
                assert!(philo.held.len() <= 2);
                if philo.held.contains(&fork) {
                    holders.push(seat);
                }
            }
        }
        assert!(holders.len() <= 1);
        assert_eq!(dinner.pool.holder(fork), holders.first().copied());
    }
}

/// Lets everyone take turns, seat by seat, once every millisecond, until
/// the table is empty or the clock shows `until`.
fn run(dinner: &mut Dinner, from: u128, until: u128) -> Run {
    let amount = dinner.amount;
    let mut wake: Vec<u128> = vec![0; amount];
    let mut out = Run { lines: Vec::new(), meals: 0, deaths: Vec::new(), starved: 0, now: from };
    while out.now < until && dinner.seats.iter().any(|slot| slot.is_some()) {
        let now = out.now;
        let mut moved = 0;
        let mut able = 0;
        for seat in 0..amount {
            if wake[seat] > now {
                able += 1;
                continue;
            }
            let turn = dinner.turn(seat, now);
            assert_exclusion(dinner);
            let mut left = false;
            let action = match turn {
                Turn::Gone => continue,
                Turn::Blocked { fork } => {
                    let holder = dinner.pool.holder(fork);
                    assert!(holder.is_some());
                    assert_ne!(holder, Some(seat));
                    continue;
                }
                Turn::Moved { action } => action,
                Turn::Left { action, verdict } => {
                    assert_ne!(verdict, Verdict::Alive);
                    if verdict == Verdict::Starved {
                        out.starved += 1;
                    }
                    assert!(dinner.signal.is_set() || verdict == Verdict::Dismissed);
                    assert!(dinner.seats[seat].is_none());
                    out.deaths.push(now);
                    left = true;
                    action
                }
            };
            moved += 1;
            match action {
                Action::Think { millis } => {
                    out.lines.push(observation_line(now, seat, Status::Thinking));
                    wake[seat] = now + millis;
                }
                Action::TakeFork { fork } => {
                    out.lines.push(observation_line(now, seat, Status::TakenFork));
                    if dinner.seats[seat].is_some() {
                        assert_eq!(dinner.pool.holder(fork), Some(seat));
                    }
                }
                Action::Eat => {
                    out.lines.push(observation_line(now, seat, Status::Eating));
                    out.meals += 1;
                }
                Action::Sleep { first_down, second_down, millis } => {
                    out.lines.push(observation_line(now, seat, Status::Sleeping));
                    assert_eq!(dinner.pool.holder(first_down), None);
                    assert_eq!(dinner.pool.holder(second_down), None);
                    wake[seat] = now + millis;
                }
                Action::Pass | Action::Wait => {}
            }
            if left {
                out.lines.push(observation_line(now, seat, Status::Died));
            }
        }
        // As long as anyone is at the table, someone moves or will wake up.
        assert!(moved + able > 0 || dinner.seats.iter().all(|slot| slot.is_none()));
        out.now += 1;
    }
    out
}

fn count(lines: &[String], words: &str) -> usize {
    lines.iter().filter(|line| line.ends_with(words)).count()
}

fn last_meal(dinner: &Dinner) -> u128 {
    match &dinner.seats[0] {
        Some(philo) => philo.ts_last_eat,
        None => panic!("the philosopher left early"),
    }
}

#[test]
fn test_one_philosopher() {
    let timing = TimingPolicy::new(50, 50, 2000);
    let mut dinner = Dinner::new(1, timing, 0);
    assert_eq!(dinner.pool.len(), 2);

    // Fed at regular intervals, a lone philosopher goes round and round.
    let fed = run(&mut dinner, 0, 2000);
    assert!(fed.deaths.is_empty());
    assert!(fed.meals >= 15);
    assert_eq!(count(&fed.lines, "has taken a fork"), 2 * fed.meals);
    assert!(count(&fed.lines, "is sleeping") >= fed.meals - 1);
    assert!(count(&fed.lines, "is thinking") >= fed.meals);
    assert_eq!(fed.lines[0], "0 1 is thinking");
    assert!(!dinner.signal.is_set());

    // Kept from the table for the time to die, they starve and leave. A
    // meal that was under way ends first, and counts.
    let mut late = last_meal(&dinner) + 2000;
    let mut end = run(&mut dinner, late, late + 1);
    if end.deaths.is_empty() {
        assert_eq!(last_meal(&dinner), late);
        late = late + 2000;
        end = run(&mut dinner, late, late + 1);
    }
    assert_eq!(end.deaths, vec![late]);
    assert_eq!(end.starved, 1);
    assert_eq!(end.lines.last().map(|line| line.as_str()), Some(format!("{} 1 died", late).as_str()));
    assert!(dinner.signal.is_set());
    assert!(dinner.seats[0].is_none());
    assert_eq!(dinner.pool.holder(0), None);
    assert_eq!(dinner.pool.holder(1), None);
}

#[test]
fn test_two_philosopher() {
    let timing = TimingPolicy::new(50, 50, 2000);
    let mut dinner = Dinner::new(2, timing, 0);
    assert_eq!(dinner.pool.len(), 2);

    // Both share the same two forks: they eat in turn, and nobody starves.
    let fed = run(&mut dinner, 0, 3000);
    assert!(fed.deaths.is_empty());
    assert!(fed.meals >= 20);
    assert!(count(&fed.lines, "1 is eating") >= 10);
    assert!(count(&fed.lines, "2 is eating") >= 10);

    let late = fed.now + 2000;
    let end = run(&mut dinner, late, late + 100);
    assert_eq!(end.deaths.len(), 2);
    assert!(end.starved >= 1);
    assert!(dinner.signal.is_set());
    assert_eq!(dinner.pool.holder(0), None);
    assert_eq!(dinner.pool.holder(1), None);
}

#[test]
fn test_n_philosopher() {
    // A time to die so tight that a full round of meal and sleep overruns it.
    let timing = TimingPolicy::new(50, 50, 90);
    let mut dinner = Dinner::new(16, timing, 0);
    assert_eq!(dinner.pool.len(), 16);
    let end = run(&mut dinner, 0, 100_000);
    assert_eq!(end.deaths.len(), 16);
    assert!(end.starved >= 1);
    assert_eq!(count(&end.lines, "died"), 16);
    assert!(dinner.signal.is_set());
    assert!(dinner.seats.iter().all(|slot| slot.is_none()));
    // Everyone is gone within a meal and a sleep of the first death.
    let first = end.deaths[0];
    let last = end.deaths[end.deaths.len() - 1];
    assert!(last - first <= 101);
    for fork in 0..16 {
        assert_eq!(dinner.pool.holder(fork), None);
    }
}

#[test]
fn empty_table_has_two_forks_and_nobody() {
    let mut dinner = Dinner::new(0, TimingPolicy::new(50, 50, 2000), 0);
    assert_eq!(dinner.amount, 0);
    assert!(dinner.seats.is_empty());
    assert_eq!(dinner.pool.len(), 2);
    assert!(!dinner.signal.is_set());
    let end = run(&mut dinner, 0, 10);
    assert!(end.lines.is_empty());
}

#[test]
fn new_table_seats_everyone_at_the_start() {
    let dinner = Dinner::new(5, TimingPolicy::new(1, 2, 3), 77);
    assert_eq!(dinner.amount, 5);
    assert_eq!(dinner.timing, TimingPolicy::new(1, 2, 3));
    assert_eq!(dinner.seats.len(), 5);
    for (seat, slot) in dinner.seats.iter().enumerate() {
        match slot {
            Some(philo) => {
                assert_eq!(philo.table_position, seat);
                assert_eq!(philo.activity, Activity::Start);
                assert_eq!(philo.ts_last_eat, 77);
                assert_eq!(philo.ts_eating, 77);
                assert!(philo.held.is_empty());
            }
            None => panic!("an empty seat at the start"),
        }
    }
    for fork in 0..5 {
        assert_eq!(dinner.pool.holder(fork), None);
    }
}

#[test]
fn neighbour_waits_for_the_fork_in_use() {
    let timing = TimingPolicy::new(50, 50, 2000);
    let mut dinner = Dinner::new(2, timing, 0);
    assert_eq!(dinner.turn(0, 1), Turn::Moved { action: Action::Think { millis: 0 } });
    assert_eq!(dinner.turn(0, 2), Turn::Moved { action: Action::Pass });
    assert_eq!(dinner.turn(0, 3), Turn::Moved { action: Action::TakeFork { fork: 0 } });
    assert_eq!(dinner.pool.holder(0), Some(0));

    assert_eq!(dinner.turn(1, 3), Turn::Moved { action: Action::Think { millis: 0 } });
    assert_eq!(dinner.turn(1, 3), Turn::Moved { action: Action::Pass });
    assert_eq!(dinner.turn(1, 3), Turn::Blocked { fork: 0 });
    assert_eq!(dinner.turn(1, 5000), Turn::Blocked { fork: 0 });
    assert_eq!(dinner.pool.holder(0), Some(0));

    assert_eq!(dinner.turn(0, 4), Turn::Moved { action: Action::TakeFork { fork: 1 } });
    assert_eq!(dinner.turn(0, 5), Turn::Moved { action: Action::Eat });
    assert_eq!(dinner.turn(0, 55), Turn::Moved { action: Action::Wait });
    assert_eq!(dinner.turn(1, 55), Turn::Blocked { fork: 0 });
    assert_eq!(
        dinner.turn(0, 56),
        Turn::Moved { action: Action::Sleep { first_down: 1, second_down: 0, millis: 50 } }
    );
    assert_eq!(dinner.pool.holder(0), None);
    assert_eq!(dinner.pool.holder(1), None);
    assert_eq!(dinner.turn(1, 56), Turn::Moved { action: Action::TakeFork { fork: 0 } });
    assert_eq!(dinner.pool.holder(0), Some(1));
}

#[test]
fn starved_philosopher_raises_the_signal_and_all_leave() {
    let timing = TimingPolicy::new(50, 50, 2000);
    let mut dinner = Dinner::new(3, timing, 0);
    dinner.turn(0, 1);
    dinner.turn(0, 2);
    assert_eq!(dinner.turn(0, 3), Turn::Moved { action: Action::TakeFork { fork: 0 } });
    assert!(!dinner.signal.is_set());

    assert_eq!(
        dinner.turn(2, 2000),
        Turn::Left { action: Action::Think { millis: 0 }, verdict: Verdict::Starved }
    );
    assert!(dinner.signal.is_set());
    assert!(dinner.seats[2].is_none());
    assert_eq!(dinner.turn(2, 2001), Turn::Gone);

    // Seat 1 has not starved, and leaves on its first look at the signal.
    assert_eq!(
        dinner.turn(1, 10),
        Turn::Left { action: Action::Think { millis: 0 }, verdict: Verdict::Dismissed }
    );
    assert!(dinner.seats[1].is_none());

    // Seat 0 leaves with a fork in hand, and puts it down.
    assert_eq!(
        dinner.turn(0, 11),
        Turn::Left { action: Action::TakeFork { fork: 2 }, verdict: Verdict::Dismissed }
    );
    assert_eq!(dinner.pool.holder(0), None);
    assert_eq!(dinner.pool.holder(2), None);
    assert!(dinner.signal.is_set());
    assert!(dinner.seats.iter().all(|slot| slot.is_none()));
}

#[test]
fn someone_can_always_move() {
    // Many orders of turns, at tables of one to six seats.
    for amount in 1..7usize {
        for seed in 0..200u64 {
            let timing = TimingPolicy::new(3, 2, 1_000_000);
            let mut dinner = Dinner::new(amount, timing, 0);
            let mut state = seed * 2654435761 + 12345;
            for now in 0..300u128 {
                state = state.wrapping_mul(6364136223846793005).wrapping_add(1442695040888963407);
                let seat = ((state >> 33) as usize) % amount;
                let waited = dinner.waits_for(seat, now);
                let turn = dinner.turn(seat, now);
                match waited {
                    Some(fork) => assert_eq!(turn, Turn::Blocked { fork }),
                    None => assert!(matches!(turn, Turn::Moved { .. })),
                }
                assert_exclusion(&dinner);
                assert!((0..amount).any(|other| dinner.waits_for(other, now).is_none()));
            }
        }
    }
}

#[test]
fn waits_for_names_the_fork_in_another_hand() {
    let timing = TimingPolicy::new(50, 50, 2000);
    let mut dinner = Dinner::new(2, timing, 0);
    assert_eq!(dinner.waits_for(0, 0), None);
    for _ in 0..3 {
        dinner.turn(0, 0);
    }
    dinner.turn(1, 0);
    dinner.turn(1, 0);
    assert_eq!(dinner.waits_for(1, 0), Some(0));
    assert_eq!(dinner.waits_for(0, 0), None);
    dinner.turn(1, 5000);
    assert_eq!(dinner.waits_for(1, 0), Some(0));
    assert_eq!(dinner.turn(0, 5000), Turn::Left {
        action: Action::TakeFork { fork: 1 },
        verdict: Verdict::Starved,
    });
    assert_eq!(dinner.waits_for(0, 5000), None);
    assert_eq!(dinner.waits_for(1, 5000), None);
}

#[test]
fn wind_down_empties_the_table() {
    let timing = TimingPolicy::new(50, 50, 2000);
    for amount in 0..9usize {
        let mut dinner = Dinner::new(amount, timing, 0);
        // Let everyone reach for their forks, so that some are left waiting.
        for round in 0..4u128 {
            for seat in 0..amount {
                dinner.turn(seat, round);
            }
        }
        if amount > 1 {
            assert!((0..amount).any(|seat| dinner.waits_for(seat, 4).is_some()));
        }
        if amount > 0 {
            // The clock jumps: the first who can look at it starves.
            let mover = match (0..amount).find(|&seat| dinner.waits_for(seat, 2500).is_none()) {
                Some(seat) => seat,
                None => panic!("nobody can move"),
            };
            let turn = dinner.turn(mover, 2500);
            assert!(matches!(turn, Turn::Left { verdict: Verdict::Starved, .. }));
            assert!(dinner.signal.is_set());
            dinner.wind_down(5);
        }
        assert!(dinner.seats.iter().all(|slot| slot.is_none()));
        assert_eq!(dinner.seats.len(), amount);
        for fork in 0..dinner.pool.len() {
            assert_eq!(dinner.pool.holder(fork), None);
        }
    }
}
