//! CPU usage values and their comparison.
use vstd::prelude::*;

verus! {

/// Two CPU readings are treated as the same when they are equal or when their
/// difference is under one percent of the first.
pub open spec fn approx_eq_spec(a: u64, b: u64) -> bool {
    a == b || (if a >= b { a - b } else { b - a }) * 100 < a
}

/// Whether two CPU readings are close enough to count as unchanged.
pub fn cpu_approx_eq(a: u64, b: u64) -> (r: bool)
    ensures
        r == approx_eq_spec(a, b),
{
    if a == b {
        return true;
    }
    let d: u64 = if a >= b { a - b } else { b - a };
    if d > u64::MAX / 100 {
        return false;
    }
    d * 100 < a
}

} // verus!
