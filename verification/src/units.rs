use vstd::prelude::*;

verus! {

/// Number of layout units in one CSS pixel. Every length in the engine is a
/// whole number of these units, so `12px` is stored as `12_000`.
pub const UNITS_PER_PX: i64 = 1000;

/// The value that bounded arithmetic yields for the exact result `v`: `v` itself
/// when it fits in an `i64`, otherwise the nearest bound.
pub open spec fn clamp(v: int) -> int {
    if v < i64::MIN {
        i64::MIN as int
    } else if v > i64::MAX {
        i64::MAX as int
    } else {
        v
    }
}

/// Saturating sum of two lengths.
pub fn sat_add(a: i64, b: i64) -> (r: i64)
    ensures
        r == clamp(a + b),
{
    match a.checked_add(b) {
        Some(v) => v,
        None => if a < 0 {
            i64::MIN
        } else {
            i64::MAX
        },
    }
}

/// Saturating difference of two lengths.
pub fn sat_sub(a: i64, b: i64) -> (r: i64)
    ensures
        r == clamp(a - b),
{
    match a.checked_sub(b) {
        Some(v) => v,
        None => if a < 0 {
            i64::MIN
        } else {
            i64::MAX
        },
    }
}

/// Half of a length, rounded towards negative infinity.
pub fn half(a: i64) -> (r: i64)
    ensures
        r == a / 2,
{
    if a >= 0 {
        a / 2
    } else if a % 2 == 0 {
        a / 2
    } else {
        a / 2 - 1
    }
}

} // verus!
