//! Fixed-point arithmetic shared by every stage of the simulation.
use vstd::prelude::*;

verus! {

/// Sub-units in one world unit.
pub const UNIT: i64 = 1000;

/// Microseconds in one second; tick durations are given in microseconds.
pub const MICROS_PER_SECOND: i64 = 1_000_000;

/// The per-mille value that stands for a whole (1.0).
pub const FRACTION_ONE: i64 = 1000;

/// Largest magnitude a velocity component may have on entry to a stage.
pub const VELOCITY_LIMIT: i64 = 1_099_511_627_776;

/// Largest magnitude a position coordinate may have on entry to a stage.
pub const POSITION_LIMIT: i64 = 1_152_921_504_606_846_976;

/// Quotient rounded toward zero, so that `quotient(-n, d) == -quotient(n, d)`.
pub open spec fn quotient(num: int, den: int) -> int {
    if num >= 0 {
        num / den
    } else {
        -((-num) / den)
    }
}

pub open spec fn abs(v: int) -> int {
    if v < 0 {
        -v
    } else {
        v
    }
}

pub open spec fn fits_i64(v: int) -> bool {
    i64::MIN <= v <= i64::MAX
}

/// `quotient(num, den)` on machine integers.
pub fn divide(num: i128, den: i128) -> (r: i64)
    requires
        den > 0,
        num > i128::MIN,
        fits_i64(quotient(num as int, den as int)),
    ensures
        r == quotient(num as int, den as int),
{
    if num >= 0 {
        ((num as u128) / (den as u128)) as i64
    } else {
        let q = ((-num) as u128) / (den as u128);
        assert(q <= (-num) as u128) by (nonlinear_arith)
            requires q == ((-num) as u128) / (den as u128), den > 0, -num > 0;
        -(q as i128) as i64
    }
}

/// Lemma: rounding toward zero never increases the magnitude beyond `|num| / den`
/// and keeps the sign of `num`.
pub proof fn lemma_quotient_bounds(num: int, den: int)
    requires
        den > 0,
    ensures
        abs(quotient(num, den)) == abs(num) / den,
        num >= 0 ==> quotient(num, den) >= 0,
        num <= 0 ==> quotient(num, den) <= 0,
        abs(quotient(num, den)) <= abs(num),
{
    assert(abs(num) / den <= abs(num)) by (nonlinear_arith)
        requires den > 0, abs(num) >= 0;
    assert(abs(num) / den >= 0) by (nonlinear_arith)
        requires den > 0, abs(num) >= 0;
}

/// Largest `r` with `r * r <= n`.
pub fn integer_sqrt(n: u64) -> (r: u64)
    ensures
        r * r <= n,
        n < (r + 1) * (r + 1),
{
    let mut lo: u64 = 0;
    let mut hi: u64 = 4_294_967_296;
    assert(n < hi * hi) by (nonlinear_arith)
        requires hi == 4_294_967_296u64, n <= u64::MAX;
    while hi - lo > 1
        invariant
            lo < hi <= 4_294_967_296,
            lo * lo <= n,
            n < hi * hi,
        decreases hi - lo,
    {
        let mid = lo + (hi - lo) / 2;
        assert((mid as u128) * (mid as u128) <= 18_446_744_073_709_551_616u128) by (nonlinear_arith)
            requires mid <= 4_294_967_296u64;
        let square: u128 = (mid as u128) * (mid as u128);
        if square <= n as u128 {
            lo = mid;
        } else {
            hi = mid;
        }
    }
    lo
}

} // verus!
