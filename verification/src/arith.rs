//! Saturating and rational arithmetic on balances, as the pallets use it.
use vstd::prelude::*;

verus! {

/// `x * y`, clamped to `u128::MAX`.
pub open spec fn sat_mul(x: u128, y: u128) -> u128 {
    if x * y > u128::MAX { u128::MAX } else { (x * y) as u128 }
}

/// `x + y`, clamped to `u128::MAX`.
pub open spec fn sat_add(x: u128, y: u128) -> u128 {
    if x + y > u128::MAX { u128::MAX } else { (x + y) as u128 }
}

/// `x - y`, clamped at zero.
pub open spec fn sat_sub(x: u128, y: u128) -> u128 {
    if x < y { 0 } else { (x - y) as u128 }
}

/// `x + y` on `u32`, clamped to `u32::MAX`.
pub open spec fn sat_add_u32(x: u32, y: u32) -> u32 {
    if x + y > u32::MAX { u32::MAX } else { (x + y) as u32 }
}

/// `x - y` on `u32`, clamped at zero.
pub open spec fn sat_sub_u32(x: u32, y: u32) -> u32 {
    if x < y { 0 } else { (x - y) as u32 }
}

/// `x + y` on block numbers, clamped to `u64::MAX`.
pub open spec fn sat_add_u64(x: u64, y: u64) -> u64 {
    if x + y > u64::MAX { u64::MAX } else { (x + y) as u64 }
}

/// `x - y` on block numbers, clamped at zero.
pub open spec fn sat_sub_u64(x: u64, y: u64) -> u64 {
    if x < y { 0 } else { (x - y) as u64 }
}

/// The smaller of two balances.
pub open spec fn min_u128(x: u128, y: u128) -> u128 {
    if x <= y { x } else { y }
}

/// `floor(a * b / c)` when `c` is not zero and the quotient fits in a `u128`.
pub open spec fn mul_div_floor(a: u128, b: u128, c: u128) -> Option<u128> {
    if c == 0 {
        None
    } else if (a * b) / (c as int) > u128::MAX {
        None
    } else {
        Some(((a * b) / (c as int)) as u128)
    }
}

/// Saturating multiplication of two balances.
pub fn saturating_mul(x: u128, y: u128) -> (r: u128)
    ensures
        r == sat_mul(x, y),
{
    match x.checked_mul(y) {
        Some(v) => v,
        None => u128::MAX,
    }
}

/// The smaller of two balances.
pub fn min(x: u128, y: u128) -> (r: u128)
    ensures
        r == min_u128(x, y),
{
    if x <= y {
        x
    } else {
        y
    }
}

/// `pezsp_runtime::helpers_128bit::multiply_by_rational_with_rounding` with `Rounding::Down`.
///
/// Claims what its documentation and source say: `None` when `c` is zero or when the exact
/// quotient `a * b / c` does not fit in 128 bits, otherwise that quotient rounded down. The
/// product is formed in 256 bits, so it does not overflow on the way.
#[verifier::external_body]
pub(crate) fn multiply_by_rational_down(a: u128, b: u128, c: u128) -> (r: Option<u128>)
    ensures
        r == mul_div_floor(a, b, c),
{
    pezsp_runtime::helpers_128bit::multiply_by_rational_with_rounding(
        a,
        b,
        c,
        pezsp_runtime::Rounding::Down,
    )
}

/// `(x * p) / 100` with the multiplication saturating, as the pallets take a percentage.
pub open spec fn percent_of(x: u128, p: u128) -> u128 {
    sat_mul(x, p) / 100
}

/// `(x * p) / 100` with the multiplication saturating.
pub fn percent(x: u128, p: u128) -> (r: u128)
    ensures
        r == percent_of(x, p),
{
    saturating_mul(x, p) / 100
}

} // verus!
