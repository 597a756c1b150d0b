use ray_tracer::interval::Interval;

#[test]
fn test_interval_contains_and_surrounds() {
    let iv = Interval::new(-5, 10);
    assert!(iv.contains(-5));
    assert!(iv.contains(10));
    assert!(iv.contains(0));
    assert!(!iv.contains(-6));
    assert!(!iv.contains(11));
    assert!(!iv.surrounds(-5));
    assert!(!iv.surrounds(10));
    assert!(iv.surrounds(0));
}

#[test]
fn test_interval_size() {
    let iv = Interval::new(-5, 10);
    assert_eq!(iv.size(), 15);
}

#[test]
fn test_interval_clamp_in_range_and_idempotent() {
    let iv = Interval::new(-5, 10);
    assert_eq!(iv.clamp(-100), -5);
    assert_eq!(iv.clamp(100), 10);
    assert_eq!(iv.clamp(3), 3);
    for x in [-100i64, -5, 0, 3, 10, 100] {
        let once = iv.clamp(x);
        assert!(iv.min <= once && once <= iv.max);
        assert_eq!(iv.clamp(once), once);
    }
}

#[test]
fn test_interval_empty_contains_nothing() {
    let empty = Interval::default();
    assert!(!empty.contains(0));
    assert!(!empty.contains(i64::MIN));
    assert!(!empty.contains(i64::MAX));
    let universe = Interval::universe();
    assert!(universe.contains(0));
    assert!(universe.contains(i64::MIN));
    assert!(universe.contains(i64::MAX));
}
