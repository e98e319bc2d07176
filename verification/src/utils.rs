//! Saturating arithmetic on quantities and prices, and the wall clock.

use vstd::prelude::*;

verus! {

/// `a + b`, clamped to `u64::MAX`.
pub open spec fn sat_add(a: u64, b: u64) -> u64 {
    if a + b > u64::MAX {
        u64::MAX
    } else {
        (a + b) as u64
    }
}

/// `a - b`, clamped to zero.
pub open spec fn sat_sub(a: u64, b: u64) -> u64 {
    if a < b {
        0
    } else {
        (a - b) as u64
    }
}

/// Adds two values, saturating at `u64::MAX`.
pub fn safe_add(a: u64, b: u64) -> (r: u64)
    ensures
        r == sat_add(a, b),
{
    a.saturating_add(b)
}

/// Subtracts `b` from `a`, saturating at zero.
pub fn safe_sub(a: u64, b: u64) -> (r: u64)
    ensures
        r == sat_sub(a, b),
{
    a.saturating_sub(b)
}

/// Computes `base + plus - minus`, saturating after each step.
pub fn safe_add_sub(base: u64, plus: u64, minus: u64) -> (r: u64)
    ensures
        r == sat_sub(sat_add(base, plus), minus),
{
    base.saturating_add(plus).saturating_sub(minus)
}

/// Milliseconds since the Unix epoch, read from `std::time::SystemTime::now`.
///
/// The body is not verified, and nothing is promised of the value: it
/// depends on the machine's clock, and is zero when that clock stands before
/// the epoch.
#[verifier::external_body]
pub fn current_timestamp_millis() -> i64 {
    std::time::SystemTime::now()
        .duration_since(std::time::UNIX_EPOCH)
        .map(|d| d.as_millis() as i64)
        .unwrap_or(0)
}

} // verus!
