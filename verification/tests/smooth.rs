use cgcore::smooth::SmoothValue;

#[test]
fn test_smooth_value() {
    let mut sv = SmoothValue::new(0);
    assert_eq!(sv.next(), 0);
    sv.set_target(1_000_000);
    // Step size is still zero so we can't move to target yet
    assert_eq!(sv.next(), 0);
    assert_eq!(sv.next(), 0);

    sv.set_distance(10, 400_000);
    sv.set_target(1_000_000);
    assert_eq!(sv.next(), 250_000);
    assert_eq!(sv.next(), 500_000);
    assert_eq!(sv.next(), 750_000);
    assert_eq!(sv.next(), 1_000_000);
    assert_eq!(sv.next(), 1_000_000);
    assert_eq!(sv.next(), 1_000_000);
    assert_eq!(sv.next(), 1_000_000);
}

#[test]
fn test_ramp_reaches_negative_target() {
    let mut sv = SmoothValue::new(7);
    sv.set_distance(1, 5_000_000);
    sv.set_target(-13);
    assert_eq!(sv.next(), 3);
    assert_eq!(sv.next(), -1);
    assert_eq!(sv.next(), -5);
    assert_eq!(sv.next(), -9);
    assert_eq!(sv.next(), -13);
    assert_eq!(sv.next(), -13);
    assert_eq!(sv.current(), -13);
}

#[test]
fn test_ramp_zero_steps_stays() {
    let mut sv = SmoothValue::new(42);
    sv.set_target(99);
    assert_eq!(sv.next(), 42);
    assert_eq!(sv.next(), 42);
    assert_eq!(sv.current(), 42);
}
