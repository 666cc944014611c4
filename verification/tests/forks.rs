use dining_philosophers::forks::acquisition_order;
use dining_philosophers::forks::left_neighbour;
use dining_philosophers::forks::resource_count;

fn rank(fork: usize) -> u8 {
    if fork % 2 == 1 {
        2
    } else if fork == 0 {
        0
    } else {
        1
    }
}

#[test]
fn there_are_never_fewer_than_two_forks() {
    assert_eq!(resource_count(0), 2);
    assert_eq!(resource_count(1), 2);
    assert_eq!(resource_count(2), 2);
    assert_eq!(resource_count(3), 3);
    assert_eq!(resource_count(16), 16);
}

#[test]
fn left_neighbour_wraps_round_the_table() {
    assert_eq!(left_neighbour(0, 16), 15);
    assert_eq!(left_neighbour(1, 16), 0);
    assert_eq!(left_neighbour(15, 16), 14);
    assert_eq!(left_neighbour(0, 2), 1);
    assert_eq!(left_neighbour(1, 2), 0);
    assert_eq!(left_neighbour(0, 1), 1);
}

#[test]
fn left_neighbour_is_the_ring_formula() {
    for amount in 1..20usize {
        let n = resource_count(amount);
        for position in 0..amount {
            assert_eq!(left_neighbour(position, amount), (position + n - 1) % n);
        }
    }
}

#[test]
fn even_seats_take_their_own_fork_first() {
    assert_eq!(acquisition_order(0, 4), (0, 3));
    assert_eq!(acquisition_order(2, 4), (2, 1));
    assert_eq!(acquisition_order(4, 5), (4, 3));
}

#[test]
fn odd_seats_take_the_left_fork_first() {
    assert_eq!(acquisition_order(1, 4), (0, 1));
    assert_eq!(acquisition_order(3, 4), (2, 3));
    assert_eq!(acquisition_order(1, 2), (0, 1));
}

#[test]
fn lone_philosopher_reaches_two_distinct_forks() {
    assert_eq!(acquisition_order(0, 1), (0, 1));
}

#[test]
fn two_philosophers_take_the_same_fork_first() {
    assert_eq!(acquisition_order(0, 2), (0, 1));
    assert_eq!(acquisition_order(1, 2), (0, 1));
}

#[test]
fn forks_are_distinct_and_of_the_table() {
    for amount in 1..40usize {
        for position in 0..amount {
            let (first, second) = acquisition_order(position, amount);
            assert_ne!(first, second);
            assert!(first < resource_count(amount));
            assert!(second < resource_count(amount));
        }
    }
}

#[test]
fn forks_are_taken_in_rank_order() {
    for amount in 1..40usize {
        for position in 0..amount {
            let (first, second) = acquisition_order(position, amount);
            assert!(rank(first) < rank(second));
        }
    }
}

#[test]
fn each_fork_is_shared_by_two_neighbours() {
    for amount in 2..20usize {
        for fork in 0..amount {
            let mut reach = Vec::new();
            for position in 0..amount {
                let (first, second) = acquisition_order(position, amount);
                if first == fork || second == fork {
                    reach.push(position);
                }
            }
            assert_eq!(reach.len(), 2);
            assert!(reach.contains(&fork));
            assert!(reach.contains(&((fork + 1) % amount)));
        }
    }
}
