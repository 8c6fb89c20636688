//! Scalar utilities: the random-number source, clamping, angle conversion
//! and the near-zero test used by the geometric routines.
use crate::fixed::{fdiv, fmul, fmul_s, SCALE};
use vstd::prelude::*;

verus! {

/// The circle constant at the crate's fixed-point scale (`pi * SCALE`,
/// rounded to the nearest quantum).
pub const PI_FX: i64 = 205887;

/// Relies on `rand::random_range` (rand 0.9): a uniformly drawn integer in
/// `[0, n)`; it panics only on an empty range, which `n > 0` rules out.
#[verifier::external_body]
fn random_below(n: u64) -> (r: u64)
    requires
        n > 0,
    ensures
        r < n,
{
    rand::random_range(0..n)
}

/// A random value in `[0, 1)` at scale (a whole unit is `SCALE` quanta).
pub fn rand_01() -> (r: i64)
    ensures
        0 <= r < SCALE,
{
    random_below(SCALE as u64) as i64
}

/// A random value in `[min, max)` at scale (`min` itself when the range is
/// empty).
pub fn rand_range(min: i64, max: i64) -> (r: i64)
    requires
        -0x2000_0000_0000_0000 <= min <= max <= 0x2000_0000_0000_0000,
    ensures
        min <= r,
        min < max ==> r < max,
        min == max ==> r == min,
{
    let u: i64 = rand_01();
    let span: i64 = max - min;
    proof {
        assert(span * u >= 0) by (nonlinear_arith)
            requires
                span >= 0 && u >= 0,
        ;
        crate::fixed::lemma_fdiv_bounds(span * u, SCALE as int);
        if span > 0 {
            assert(span * u <= span * (SCALE as int) - 1) by (nonlinear_arith)
                requires
                    0 <= u < SCALE && span > 0,
            ;
            crate::fixed::lemma_fdiv_mono(span * u, span * (SCALE as int) - 1, SCALE as int);
            assert(span * (SCALE as int) - 1 == (span - 1) * (SCALE as int) + ((SCALE as int)
                - 1)) by (nonlinear_arith);
            vstd::arithmetic::div_mod::lemma_fundamental_div_mod_converse(
                span * (SCALE as int) - 1,
                SCALE as int,
                span - 1,
                (SCALE as int) - 1,
            );
            assert(fmul_s(span as int, u as int) <= span - 1);
        } else {
            assert(span * u == 0) by (nonlinear_arith)
                requires
                    span == 0,
            ;
        }
        assert(0 <= fmul_s(span as int, u as int) <= span);
    }
    let f: i64 = fmul(span, u);
    min + f
}

/// Clamp `x` into `[min, max]`.
pub open spec fn clamp_s(x: int, min: int, max: int) -> int {
    if x < min {
        min
    } else if x > max {
        max
    } else {
        x
    }
}

/// Clamp a value into a closed interval.
pub fn clamp(x: i64, min: i64, max: i64) -> (r: i64)
    ensures
        r == clamp_s(x as int, min as int, max as int),
{
    if x < min {
        return min;
    }
    if x > max {
        return max;
    }
    x
}

/// Near-zero test for a scalar; at this scale anything smaller than one
/// quantum is not representable, so the threshold is exact zero.
pub fn near_zero(val: i64) -> (r: bool)
    ensures
        r <==> val == 0,
{
    val == 0
}

/// Degrees to radians at scale.
pub open spec fn degrees_to_radians_s(deg: int) -> int {
    fdiv(deg * (PI_FX as int), 180 * (SCALE as int))
}

/// Convert an angle in degrees (at scale) to radians (at scale).
pub fn degrees_to_radians(deg: i64) -> (r: i64)
    requires
        -0x100_0000_0000 <= deg <= 0x100_0000_0000,
    ensures
        r == degrees_to_radians_s(deg as int),
{
    let p: i128 = (deg as i128) * (PI_FX as i128);
    let q: i128 = crate::fixed::div_floor(p, 180 * (SCALE as i128));
    proof {
        crate::fixed::lemma_fdiv_bounds(deg * (PI_FX as int), 180 * (SCALE as int));
    }
    q as i64
}

} // verus!
