use dining_philosophers::table::ResourcePool;
use dining_philosophers::table::TerminationSignal;

#[test]
fn signal_starts_lowered_and_stays_raised() {
    let mut signal = TerminationSignal::new();
    assert!(!signal.is_set());
    signal.set();
    assert!(signal.is_set());
    signal.set();
    assert!(signal.is_set());
}

#[test]
fn pool_has_a_fork_per_seat_and_two_at_the_least() {
    assert_eq!(ResourcePool::new(0).len(), 2);
    assert_eq!(ResourcePool::new(1).len(), 2);
    assert_eq!(ResourcePool::new(2).len(), 2);
    assert_eq!(ResourcePool::new(16).len(), 16);
}

#[test]
fn pool_starts_with_every_fork_free() {
    let pool = ResourcePool::new(5);
    for fork in 0..5 {
        assert_eq!(pool.holder(fork), None);
    }
}

#[test]
fn fork_goes_to_one_hand_only() {
    let mut pool = ResourcePool::new(3);
    assert!(pool.try_acquire(1, 0));
    assert_eq!(pool.holder(1), Some(0));
    assert!(!pool.try_acquire(1, 2));
    assert_eq!(pool.holder(1), Some(0));
    assert!(!pool.try_acquire(1, 0));
    assert_eq!(pool.holder(0), None);
    assert_eq!(pool.holder(2), None);
}

#[test]
fn only_the_holder_puts_a_fork_down() {
    let mut pool = ResourcePool::new(3);
    assert!(!pool.release(1, 0));
    assert!(pool.try_acquire(1, 0));
    assert!(!pool.release(1, 2));
    assert_eq!(pool.holder(1), Some(0));
    assert!(pool.release(1, 0));
    assert_eq!(pool.holder(1), None);
    assert!(pool.try_acquire(1, 2));
    assert_eq!(pool.holder(1), Some(2));
}
