use rust_order_book::utils::{current_timestamp_millis, safe_add, safe_add_sub, safe_sub};
use std::time::{SystemTime, UNIX_EPOCH};

#[test]
fn math_test_safe_add() {
    assert_eq!(safe_add(100, 50), 150);
    assert_eq!(safe_add(u64::MAX, 1), u64::MAX);
}

#[test]
fn math_test_safe_sub() {
    assert_eq!(safe_sub(100, 50), 50);
    assert_eq!(safe_sub(50, 100), 0);
}

#[test]
fn test_safe_add_sub() {
    assert_eq!(safe_add_sub(100, 50, 30), 120);
    assert_eq!(safe_add_sub(100, 50, 200), 0);
}

#[test]
fn utils_test_safe_add() {
    assert_eq!(safe_add(100, 50), 150);
    assert_eq!(safe_add(u64::MAX, 1), u64::MAX);
}

#[test]
fn utils_test_safe_sub() {
    assert_eq!(safe_sub(100, 50), 50);
    assert_eq!(safe_sub(50, 100), 0);
}

#[test]
fn timestamp_is_positive() {
    let ts = current_timestamp_millis();
    assert!(ts > 0);
}

#[test]
fn timestamp_is_close_to_systemtime_now() {
    let before = SystemTime::now().duration_since(UNIX_EPOCH).unwrap().as_millis() as i64;

    let ts = current_timestamp_millis();

    let after = SystemTime::now().duration_since(UNIX_EPOCH).unwrap().as_millis() as i64;

    assert!(ts >= before && ts <= after);
}

#[test]
fn timestamp_is_within_reasonable_delta() {
    let system_ts = SystemTime::now().duration_since(UNIX_EPOCH).unwrap().as_millis() as i64;

    let ts = current_timestamp_millis();

    let diff = (system_ts - ts).abs();
    assert!(diff < 20);
}

#[test]
fn saturating_arithmetic_at_the_bounds() {
    assert_eq!(safe_add(0, 0), 0);
    assert_eq!(safe_add(u64::MAX, u64::MAX), u64::MAX);
    assert_eq!(safe_add(u64::MAX - 1, 1), u64::MAX);
    assert_eq!(safe_sub(0, 1), 0);
    assert_eq!(safe_sub(u64::MAX, u64::MAX), 0);
    assert_eq!(safe_add_sub(u64::MAX, 1, 1), u64::MAX - 1);
    assert_eq!(safe_add_sub(0, 0, 1), 0);
}
