//! Scaled-integer arithmetic: floor division, fixed-point products and
//! quotients, and the integer square root that the intersection routines
//! build on.
use vstd::arithmetic::div_mod::{
    lemma_fundamental_div_mod, lemma_fundamental_div_mod_converse,
};
use vstd::prelude::*;

verus! {

/// Number of integer quanta per unit: every stored value `v` represents
/// the real number `v / SCALE`.
pub const SCALE: i64 = 65536;

/// Bound on the coordinates of well-formed scene data (about 16384 units):
/// keeps every intermediate product of the intersection routines inside
/// an `i128`.
pub const LIM: i64 = 0x4000_0000;

/// Largest ray parameter the intersection routines accept in place of an
/// unbounded search window.
pub const T_FAR: i64 = 0x100_0000_0000;

/// Floor division on mathematical integers (rounds toward minus infinity
/// for either sign of the divisor).
pub open spec fn fdiv(a: int, b: int) -> int
    recommends
        b != 0,
{
    if b > 0 {
        a / b
    } else {
        (-a) / (-b)
    }
}

/// Fixed-point product: the exact product carries scale `SCALE * SCALE`,
/// so one floor division restores it to scale `SCALE`.
pub open spec fn fmul_s(a: int, b: int) -> int {
    fdiv(a * b, SCALE as int)
}

/// Magnitude of an `i128` away from the extreme value, as a `u128`.
fn abs_u128(a: i128) -> (r: u128)
    ensures
        r == if a >= 0 {
            a as int
        } else {
            -a as int
        },
{
    if a >= 0 {
        a as u128
    } else {
        ((-(a + 1)) as u128) + 1
    }
}

/// Floor division on `i128`, matching `fdiv` exactly for either sign.
pub fn div_floor(a: i128, b: i128) -> (r: i128)
    requires
        b != 0,
        -0x2000_0000_0000_0000_0000_0000_0000_0000 < a
            < 0x2000_0000_0000_0000_0000_0000_0000_0000,
    ensures
        r == fdiv(a as int, b as int),
{
    let ua: u128 = abs_u128(a);
    let ub: u128 = abs_u128(b);
    let q: u128 = ua / ub;
    let rem: u128 = ua % ub;
    proof {
        assert(ua == ub * q + rem && rem < ub) by {
            lemma_fundamental_div_mod(ua as int, ub as int);
        }
        assert(q <= ua) by {
            assert(ub * q >= 1 * q) by (nonlinear_arith)
                requires
                    ub >= 1,
                    q >= 0,
            ;
        }
    }
    let neg: bool = (a < 0) != (b < 0);
    if !neg {
        proof {
            if b > 0 {
                lemma_fundamental_div_mod_converse(a as int, b as int, q as int, rem as int);
            } else {
                lemma_fundamental_div_mod_converse(-a as int, -b as int, q as int, rem as int);
            }
        }
        q as i128
    } else if rem == 0 {
        proof {
            if b > 0 {
                assert(a == -(q as int) * b) by (nonlinear_arith)
                    requires
                        ua == ub * q + rem && rem == 0 && ua == -a && ub == b,
                ;
                lemma_fundamental_div_mod_converse(a as int, b as int, -(q as int), 0);
            } else {
                assert(-a as int == -(q as int) * (-b as int)) by (nonlinear_arith)
                    requires
                        ua == ub * q + rem && rem == 0 && ua == a && ub == -b,
                ;
                lemma_fundamental_div_mod_converse(-a as int, -b as int, -(q as int), 0);
            }
        }
        -(q as i128)
    } else {
        proof {
            if b > 0 {
                assert(a == (-(q as int) - 1) * b + (ub - rem)) by (nonlinear_arith)
                    requires
                        ua == ub * q + rem && ua == -a && ub == b,
                ;
                lemma_fundamental_div_mod_converse(
                    a as int,
                    b as int,
                    -(q as int) - 1,
                    ub - rem,
                );
            } else {
                assert(-a as int == (-(q as int) - 1) * (-b as int) + (ub - rem))
                    by (nonlinear_arith)
                    requires
                        ua == ub * q + rem && ua == a && ub == -b,
                ;
                lemma_fundamental_div_mod_converse(
                    -a as int,
                    -b as int,
                    -(q as int) - 1,
                    ub - rem,
                );
            }
        }
        -(q as i128) - 1
    }
}

/// Fixed-point product of two scaled values.
pub fn fmul(a: i64, b: i64) -> (r: i64)
    requires
        i64::MIN <= fmul_s(a as int, b as int) <= i64::MAX,
    ensures
        r == fmul_s(a as int, b as int),
{
    let p: i128 = (a as i128) * (b as i128);
    let q: i128 = div_floor(p, SCALE as i128);
    q as i64
}

/// Fixed-point quotient of two scaled values (floor of `a / b` rescaled).
pub open spec fn fdiv_fx_s(a: int, b: int) -> int {
    fdiv(a * (SCALE as int), b)
}

/// Fixed-point quotient of two scaled values.
pub fn fdiv_fx(a: i64, b: i64) -> (r: i64)
    requires
        b != 0,
        i64::MIN <= fdiv_fx_s(a as int, b as int) <= i64::MAX,
    ensures
        r == fdiv_fx_s(a as int, b as int),
{
    let p: i128 = (a as i128) * (SCALE as i128);
    let q: i128 = div_floor(p, b as i128);
    q as i64
}

/// Floor division by a positive divisor shrinks magnitudes and keeps signs.
pub proof fn lemma_fdiv_bounds(x: int, d: int)
    requires
        d >= 1,
    ensures
        x >= 0 ==> 0 <= fdiv(x, d) <= x,
        x <= 0 ==> x <= fdiv(x, d) <= 0,
{
    lemma_fundamental_div_mod(x, d);
    let q = x / d;
    let r = x % d;
    assert(x == d * q + r && 0 <= r < d);
    if x >= 0 {
        assert(0 <= q <= x) by (nonlinear_arith)
            requires
                x == d * q + r && 0 <= r < d && d >= 1 && x >= 0,
        ;
    } else {
        assert(x <= q <= 0) by (nonlinear_arith)
            requires
                x == d * q + r && 0 <= r < d && d >= 1 && x <= 0,
        ;
    }
}

/// Bound a product by the product of the factors' bounds.
pub proof fn lemma_mul_bound(a: int, b: int, ba: int, bb: int)
    requires
        -ba <= a <= ba,
        -bb <= b <= bb,
        ba >= 0,
        bb >= 0,
    ensures
        -ba * bb <= a * b <= ba * bb,
{
    assert(-ba * bb <= a * b <= ba * bb) by (nonlinear_arith)
        requires
            -ba <= a <= ba && -bb <= b <= bb && ba >= 0 && bb >= 0,
    ;
}

/// Floor division by a positive divisor is monotone.
pub proof fn lemma_fdiv_mono(a: int, b: int, d: int)
    requires
        a <= b,
        d >= 1,
    ensures
        fdiv(a, d) <= fdiv(b, d),
{
    vstd::arithmetic::div_mod::lemma_div_is_ordered(a, b, d);
}

/// The minimum of two integers.
pub open spec fn min_i(a: int, b: int) -> int {
    if a < b {
        a
    } else {
        b
    }
}

/// The maximum of two integers.
pub open spec fn max_i(a: int, b: int) -> int {
    if a > b {
        a
    } else {
        b
    }
}

/// The magnitude of an integer.
pub open spec fn abs_i(a: int) -> int {
    if a >= 0 {
        a
    } else {
        -a
    }
}

/// Flipping the dividend's sign costs at most one quantum.
pub proof fn lemma_fdiv_neg(b: int, d: int)
    requires
        b >= 0,
        d >= 1,
    ensures
        fdiv(-b, d) >= -fdiv(b, d) - 1,
{
    lemma_fundamental_div_mod(b, d);
    let q = b / d;
    let r = b % d;
    if r == 0 {
        assert(-b == (-q) * d + 0) by (nonlinear_arith)
            requires
                b == d * q + r && r == 0,
        ;
        lemma_fundamental_div_mod_converse(-b, d, -q, 0);
    } else {
        assert(-b == (-q - 1) * d + (d - r)) by (nonlinear_arith)
            requires
                b == d * q + r,
        ;
        lemma_fundamental_div_mod_converse(-b, d, -q - 1, d - r);
    }
}

/// Bound a fixed-point product by its factors' bounds, rescaled.
pub proof fn lemma_fmul_bound(a: int, b: int, ba: int, bb: int)
    requires
        -ba <= a <= ba,
        -bb <= b <= bb,
        ba >= 0,
        bb >= 0,
    ensures
        -fdiv(ba * bb, SCALE as int) - 1 <= fmul_s(a, b) <= fdiv(ba * bb, SCALE as int),
{
    lemma_mul_bound(a, b, ba, bb);
    assert(ba * bb >= 0 && -(ba * bb) == -ba * bb) by (nonlinear_arith)
        requires
            ba >= 0 && bb >= 0,
    ;
    lemma_fdiv_mono(a * b, ba * bb, SCALE as int);
    lemma_fdiv_mono(-(ba * bb), a * b, SCALE as int);
    lemma_fdiv_neg(ba * bb, SCALE as int);
}

/// Floor division of an exact multiple recovers the factor.
pub proof fn lemma_fdiv_exact(x: int, d: int)
    requires
        d > 0,
    ensures
        fdiv(x * d, d) == x,
{
    vstd::arithmetic::div_mod::lemma_div_multiples_vanish(x, d);
    assert(x * d == d * x) by (nonlinear_arith);
}

/// The floor quotient, multiplied back by the divisor, lands within one
/// divisor of the dividend.
pub proof fn lemma_fdiv_mul_close(a: int, b: int)
    requires
        b != 0,
    ensures
        abs_i(fdiv(a, b) * b - a) < abs_i(b),
{
    if b > 0 {
        lemma_fundamental_div_mod(a, b);
        let q = a / b;
        let rm = a % b;
        assert(q * b - a == -rm) by (nonlinear_arith)
            requires
                a == b * q + rm,
        ;
    } else {
        lemma_fundamental_div_mod(-a, -b);
        let q = (-a) / (-b);
        let rm = (-a) % (-b);
        assert(q * b - a == rm) by (nonlinear_arith)
            requires
                -a == (-b) * q + rm,
        ;
    }
}

/// The root of the linear plane equation lands back on the plane: after
/// solving `t = -num * SCALE / den` by floor division, plugging `t` back
/// in leaves a residual of at most one quantum plus the denominator's
/// rescaled magnitude, on either side.
pub proof fn lemma_linear_root_residual(num: int, den: int)
    requires
        den != 0,
    ensures
        abs_i(num + fdiv(fdiv(-num * (SCALE as int), den) * den, SCALE as int)) <= fdiv(
            abs_i(den) - 1,
            SCALE as int,
        ) + 1,
        abs_i(num - fdiv(-(fdiv(-num * (SCALE as int), den) * den), SCALE as int)) <= fdiv(
            abs_i(den) - 1,
            SCALE as int,
        ) + 1,
{
    let s = SCALE as int;
    let m = abs_i(den);
    let q = fdiv(-num * s, den);
    let qd = q * den;
    let delta = qd + num * s;
    assert(-num * s == -(num * s)) by (nonlinear_arith);
    if den > 0 {
        lemma_fundamental_div_mod(-(num * s), den);
        let rho = (-(num * s)) % den;
        assert(qd == den * q) by (nonlinear_arith)
            requires
                qd == q * den,
        ;
        assert(delta == -rho);
        assert(-m < delta <= 0);
    } else {
        lemma_fundamental_div_mod(num * s, -den);
        let rho = (num * s) % (-den);
        assert(q == (num * s) / (-den));
        assert(qd == (-den) * q * -1) by (nonlinear_arith)
            requires
                qd == q * den,
        ;
        assert((-den) * q == num * s - rho) by {
            lemma_fundamental_div_mod(num * s, -den);
        }
        assert(qd == -(num * s) + rho) by (nonlinear_arith)
            requires
                qd == (-den) * q * -1 && (-den) * q == num * s - rho,
        ;
        assert(0 <= delta < m);
    }
    assert(qd == -(num * s) + delta);
    vstd::arithmetic::div_mod::lemma_hoist_over_denominator(delta, -num, s as nat);
    assert(delta + (-num) * s == qd) by (nonlinear_arith)
        requires
            qd == -(num * s) + delta,
    ;
    assert(fdiv(qd, s) == fdiv(delta, s) + (-num));
    assert(num + fdiv(qd, s) == fdiv(delta, s));
    lemma_fdiv_bounds(delta, s);
    lemma_fdiv_mono(delta, m - 1, s);
    lemma_fdiv_mono(-(m - 1), delta, s);
    lemma_fdiv_neg(m - 1, s);
    assert(abs_i(fdiv(delta, s)) <= fdiv(m - 1, s) + 1);
    vstd::arithmetic::div_mod::lemma_hoist_over_denominator(-delta, num, s as nat);
    assert(-delta + num * s == -(qd)) by (nonlinear_arith)
        requires
            qd == -(num * s) + delta,
    ;
    assert(fdiv(-(qd), s) == fdiv(-delta, s) + num);
    assert(num - fdiv(-(qd), s) == -fdiv(-delta, s));
    lemma_fdiv_bounds(-delta, s);
    lemma_fdiv_mono(-delta, m - 1, s);
    lemma_fdiv_mono(-(m - 1), -delta, s);
    assert(abs_i(-fdiv(-delta, s)) <= fdiv(m - 1, s) + 1);
}

/// `r` is the integer square root of `x`.
pub open spec fn is_sqrt(x: int, r: int) -> bool {
    &&& 0 <= r
    &&& r * r <= x
    &&& x < (r + 1) * (r + 1)
}

/// The integer square root of a nonnegative value, as a spec-level name;
/// `lemma_sqrt_exists` discharges the `choose`.
pub open spec fn sqrt_floor(x: int) -> int {
    choose|r: int| is_sqrt(x, r)
}

/// Every nonnegative integer has an integer square root.
pub proof fn lemma_sqrt_exists(x: nat)
    ensures
        is_sqrt(x as int, sqrt_floor(x as int)),
    decreases x,
{
    if x == 0 {
        assert(is_sqrt(0, 0));
    } else {
        lemma_sqrt_exists((x - 1) as nat);
        let r = sqrt_floor(x - 1);
        if x < (r + 1) * (r + 1) {
            assert(is_sqrt(x as int, r));
        } else {
            assert(x == (r + 1) * (r + 1));
            assert((r + 2) * (r + 2) > x) by (nonlinear_arith)
                requires
                    x == (r + 1) * (r + 1),
                    r >= 0,
            ;
            assert(is_sqrt(x as int, r + 1));
        }
    }
}

/// The integer square root is unique.
pub proof fn lemma_sqrt_unique(x: int, r: int)
    requires
        is_sqrt(x, r),
    ensures
        r == sqrt_floor(x),
{
    lemma_sqrt_exists(x as nat);
    let s = sqrt_floor(x);
    assert(r == s) by (nonlinear_arith)
        requires
            0 <= r,
            0 <= s,
            r * r <= x < (r + 1) * (r + 1),
            s * s <= x < (s + 1) * (s + 1),
    ;
}

/// Integer square root by binary search over the 64-bit candidates.
pub fn isqrt(x: u128) -> (r: u64)
    ensures
        r == sqrt_floor(x as int),
        is_sqrt(x as int, r as int),
{
    let mut lo: u128 = 0;
    let mut hi: u128 = 0x1_0000_0000_0000_0000;
    proof {
        assert(hi * hi > x) by (nonlinear_arith)
            requires
                hi == 0x1_0000_0000_0000_0000,
                x <= u128::MAX,
        ;
    }
    while lo + 1 < hi
        invariant
            0 <= lo < hi <= 0x1_0000_0000_0000_0000,
            lo * lo <= x,
            x < hi * hi,
        decreases hi - lo,
    {
        let mid: u128 = lo + (hi - lo) / 2;
        proof {
            assert(lo < mid < hi);
            assert(mid * mid <= u128::MAX) by (nonlinear_arith)
                requires
                    mid < 0x1_0000_0000_0000_0000,
            ;
        }
        if mid * mid <= x {
            lo = mid;
        } else {
            hi = mid;
        }
    }
    proof {
        assert(is_sqrt(x as int, lo as int));
        lemma_sqrt_unique(x as int, lo as int);
        assert(lo < 0x1_0000_0000_0000_0000);
    }
    lo as u64
}

} // verus!
