use typewriter::timer::TestTimer;

#[test]
fn unstarted_timer() {
    let t = TestTimer::new(Some(30_000_000_000));
    assert!(!t.is_started());
    assert_eq!(t.elapsed(99), 0);
    assert_eq!(t.remaining(99), Some(30_000_000_000));
    assert!(!t.expired(u128::MAX));
}

#[test]
fn started_timer_counts_from_the_first_start() {
    let mut t = TestTimer::new(Some(10));
    t.start(100);
    t.start(105);
    assert!(t.is_started());
    assert_eq!(t.elapsed(104), 4);
    assert_eq!(t.remaining(104), Some(6));
    assert!(!t.expired(109));
    assert!(t.expired(110));
    assert_eq!(t.remaining(500), Some(0));
    // A reading before the start counts as no time.
    assert_eq!(t.elapsed(50), 0);
}

#[test]
fn untimed_timer_never_expires() {
    let mut t = TestTimer::new(None);
    t.start(0);
    assert_eq!(t.remaining(1_000), None);
    assert!(!t.expired(u128::MAX));
    assert_eq!(t.elapsed(1_000), 1_000);
}
