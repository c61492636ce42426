use cgcore::ringbuffer::Ringbuffer;
use cgcore::switch::TimedSwitch;
use cgcore::fade::{equal_power_fade, isqrt};

#[test]
fn test_gate_single_open_tick() {
    // A hundredth of a second at 100 Hz is exactly one open tick.
    let mut sw = TimedSwitch::new(100);
    sw.reset(10_000);
    assert!(sw.tick());
    assert!(!sw.tick());
    assert!(!sw.tick());
    assert!(!sw.tick());
}

#[test]
fn test_gate_reopens_after_reset() {
    let mut sw = TimedSwitch::new(1_000);
    assert!(!sw.tick());
    sw.reset(3_000);
    assert!(sw.tick());
    assert!(sw.tick());
    assert!(sw.tick());
    assert!(!sw.tick());
    sw.reset(1_000);
    assert!(sw.tick());
    assert!(!sw.tick());
}

#[test]
fn test_ring_round_trip() {
    let mut rb = Ringbuffer::new(4);
    rb.write(10);
    rb.write(20);
    rb.write(30);
    rb.write(40);
    assert_eq!(rb.read(), 10);
    assert_eq!(rb.read(), 20);
    assert_eq!(rb.read(), 30);
    assert_eq!(rb.read(), 40);
}

#[test]
fn test_read_offset_history() {
    let mut rb = Ringbuffer::new(8);
    let mut v: i32 = 1;
    while v <= 8 {
        rb.write(v);
        v = v + 1;
    }
    // Three positions before the write cursor is the third-most-recent
    // sample.
    rb.set_read_offset(3);
    assert_eq!(rb.read(), 6);
    // A full capacity back is the oldest surviving sample.
    rb.set_read_offset(8);
    assert_eq!(rb.read(), 1);
    rb.set_read_offset(1);
    assert_eq!(rb.read(), 8);
}

#[test]
fn test_read_offset_beyond_capacity_is_noop() {
    let mut rb = Ringbuffer::new(8);
    let mut v: i32 = 1;
    while v <= 8 {
        rb.write(v);
        v = v + 1;
    }
    rb.set_read_offset(3);
    assert_eq!(rb.read(), 6);
    // The cursor now sits one past the seek; an oversized seek leaves it.
    rb.set_read_offset(9);
    assert_eq!(rb.read(), 7);
}

#[test]
fn test_equal_power_endpoints() {
    assert_eq!(equal_power_fade(0), (1_000_000, 0));
    assert_eq!(equal_power_fade(1_000_000), (0, 1_000_000));
    // Out-of-range positions clamp to the endpoints.
    assert_eq!(equal_power_fade(-5), (1_000_000, 0));
    assert_eq!(equal_power_fade(2_000_000), (0, 1_000_000));
}

#[test]
fn test_equal_power_midpoint() {
    // At the midpoint both gains are the square root of half power.
    assert_eq!(equal_power_fade(500_000), (707_106, 707_106));
    assert_eq!(equal_power_fade(250_000), (923_548, 383_482));
    assert_eq!(equal_power_fade(750_000), (383_482, 923_548));
}

#[test]
fn test_equal_power_sum_of_squares() {
    // The squared gains sum to one (squared unit) within the rounding of
    // the integer square root.
    let mut mix: i64 = 0;
    while mix <= 1_000_000 {
        let (dry, wet) = equal_power_fade(mix);
        let sum: i64 = dry * dry + wet * wet;
        assert!(sum <= 1_000_000_000_000);
        assert!(sum > 1_000_000_000_000 - 4_000_002);
        mix = mix + 61_803;
    }
}

#[test]
fn test_isqrt_exact() {
    assert_eq!(isqrt(0), 0);
    assert_eq!(isqrt(1), 1);
    assert_eq!(isqrt(3), 1);
    assert_eq!(isqrt(4), 2);
    assert_eq!(isqrt(999_999_999_999), 999_999);
    assert_eq!(isqrt(1_000_000_000_000), 1_000_000);
    assert_eq!(isqrt(500_000_000_000), 707_106);
}
