//! Duration and instant behaviour: sentinel normalization, saturating
//! arithmetic, and the human-readable rendering.

use dandelion::printable::Printable;
use dandelion::time::{Duration, Instant};

fn printed(value: Duration) -> String {
    let mut buffer: Vec<u8> = Vec::new();
    value.print(&mut buffer);
    String::from_utf8(buffer).expect("rendering is UTF-8")
}

fn check(value: Duration, expect: &str) {
    assert_eq!(expect, printed(value));
}

fn check_both(value: Duration, pos: &str, neg: &str) {
    assert_eq!(pos, printed(value));
    assert_eq!(neg, printed(value.neg()));
}

#[test]
fn duration_print() {
    check(Duration::zero(), "0");
    check_both(Duration::max_value(), "+infinity", "-infinity");
    check_both(Duration::min_value(), "-infinity", "+infinity");
    check_both(Duration::max_value().neg(), "-infinity", "+infinity");
    check_both(Duration::from_nanoseconds(-1), "-[1ns]", "1ns");
    check_both(Duration::from_nanoseconds(1), "1ns", "-[1ns]");
    check_both(Duration::from_nanoseconds(37), "37ns", "-[37ns]");
    check_both(Duration::from_nanoseconds(131), "131ns", "-[131ns]");
    check_both(Duration::from_nanoseconds(997), "997ns", "-[997ns]");
    check_both(Duration::from_nanoseconds(10000079), "10000079ns", "-[10000079ns]");
    check_both(Duration::from_microseconds(1), "1\u{b5}s", "-[1\u{b5}s]");
    check_both(Duration::from_microseconds(37), "37\u{b5}s", "-[37\u{b5}s]");
    check_both(Duration::from_microseconds(131), "131\u{b5}s", "-[131\u{b5}s]");
    check_both(Duration::from_microseconds(997), "997\u{b5}s", "-[997\u{b5}s]");
    check_both(Duration::from_milliseconds(1), "1ms", "-[1ms]");
    check_both(Duration::from_milliseconds(37), "37ms", "-[37ms]");
    check_both(Duration::from_milliseconds(131), "131ms", "-[131ms]");
    check_both(Duration::from_milliseconds(997), "997ms", "-[997ms]");
    check_both(Duration::from_seconds(1), "1s", "-[1s]");
    check_both(Duration::from_seconds(37), "37s", "-[37s]");
    check_both(Duration::from_seconds(131), "2m 11s", "-[2m 11s]");
    check_both(Duration::from_seconds(997), "16m 37s", "-[16m 37s]");
    check_both(Duration::from_seconds(8423), "2h 20m 23s", "-[2h 20m 23s]");
    check_both(Duration::from_seconds(999809), "11d 13h 43m 29s", "-[11d 13h 43m 29s]");
    check_both(Duration::from_minutes(1), "1m", "-[1m]");
    check_both(Duration::from_minutes(37), "37m", "-[37m]");
    check_both(Duration::from_minutes(131), "2h 11m", "-[2h 11m]");
    check_both(Duration::from_minutes(997), "16h 37m", "-[16h 37m]");
    check_both(Duration::from_hours(1), "1h", "-[1h]");
    check_both(Duration::from_hours(37), "1d 13h", "-[1d 13h]");
    check_both(Duration::from_hours(131), "5d 11h", "-[5d 11h]");
    check_both(Duration::from_hours(997), "41d 13h", "-[41d 13h]");
    check_both(Duration::from_days(1), "1d", "-[1d]");
    check_both(Duration::from_days(37), "37d", "-[37d]");
    check_both(Duration::from_days(131), "131d", "-[131d]");
    check_both(Duration::from_days(997), "997d", "-[997d]");
}

#[test]
fn negative_max_normalizes_to_min() {
    assert_eq!(Duration::from_nanoseconds(-i64::MAX), Duration::min_value());
}

#[test]
fn saturating_add_pins_at_infinity() {
    let sum = Duration::max_value().add(Duration::max_value());
    assert_eq!(sum, Duration::max_value());
    let diff = Duration::min_value().sub(Duration::max_value());
    assert_eq!(diff, Duration::min_value());
}

#[test]
fn plain_arithmetic() {
    let a = Duration::from_seconds(90);
    let b = Duration::from_seconds(30);
    assert_eq!(a.add(b), Duration::from_seconds(120));
    assert_eq!(a.sub(b), Duration::from_seconds(60));
    assert_eq!(a.div(b), 3);
    assert_eq!(a.rem(b), Duration::zero());
    assert_eq!(a.scalar_mul(2), Duration::from_seconds(180));
    assert_eq!(a.scalar_div(3), Duration::from_seconds(30));
    assert_eq!(a.as_seconds(), 90);
    assert_eq!(a.as_milliseconds(), 90_000);
    assert_eq!(Duration::from_nanoseconds(-1500).as_microseconds(), -1);
    assert_eq!(a.abs(), a);
    assert_eq!(a.neg().abs(), a);
}

#[test]
fn predicates() {
    assert!(Duration::zero().is_zero());
    assert!(!Duration::zero().is_non_zero());
    assert!(Duration::from_seconds(1).is_positive());
    assert!(Duration::from_seconds(-1).is_negative());
    assert!(Duration::from_seconds(1).is_non_negative());
    assert!(Duration::max_value().is_pos_infinity());
    assert!(Duration::min_value().is_neg_infinity());
    assert!(Duration::max_value().is_infinity());
    assert!(!Duration::from_seconds(5).is_infinity());
    assert!(Duration::from_seconds(5).is_finite());
}

#[test]
fn instant_arithmetic() {
    let t = Instant::zero().add(Duration::from_seconds(10));
    let u = t.add(Duration::from_seconds(5));
    assert_eq!(u.diff(t), Duration::from_seconds(5));
    assert_eq!(t.sub(Duration::from_seconds(10)), Instant::zero());
    assert_eq!(Instant::max_value().add(Duration::from_seconds(1)), Instant::max_value());
}

#[test]
fn duration_wire_round_trip() {
    for v in [0i64, 1, -1, i64::MAX, i64::MIN, 1234567890123] {
        let d = Duration { nanoseconds: v };
        let encoded = dandelion::util::serialize(&d);
        assert_eq!(encoded.len(), 8);
        let back: Duration = dandelion::util::deserialize(encoded).expect("decode");
        assert_eq!(back, d);
    }
}

#[test]
fn duration_list_rendering() {
    let empty: Vec<Duration> = Vec::new();
    let mut out: Vec<u8> = Vec::new();
    empty.print(&mut out);
    assert_eq!(out, b"[]".to_vec());
    out.clear();
    let items = vec![Duration::from_seconds(1), Duration::zero(), Duration::from_milliseconds(5)];
    items.print(&mut out);
    assert_eq!(String::from_utf8(out).unwrap(), "[ 1s, 0, 5ms ]");
}
