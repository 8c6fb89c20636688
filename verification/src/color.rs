//! Color output: averaging over samples, gamma correction by an exact
//! integer root, quantization to `[0, 255]` and decimal formatting.
use crate::fixed::{div_floor, fdiv, lemma_fdiv_bounds, lemma_fdiv_mono, SCALE};
use crate::utils::{clamp, clamp_s};
use crate::vec3::{Color, V3};
use vstd::arithmetic::power::{lemma_pow_increases, pow};
use vstd::prelude::*;

verus! {

/// The quantizer's upper clamp: just below one unit, so that full
/// intensity maps to 255 and not 256.
pub const CLAMP_TOP: i64 = 65470;

/// Relies on `String::push`: appends exactly one character at the end.
pub assume_specification [ String::push ](s: &mut String, c: char)
    ensures
        final(s)@ == old(s)@.push(c),
;

/// Raising a larger base to the same power gives at least as much.
pub proof fn lemma_pow_base_mono(a: int, b: int, g: nat)
    requires
        0 <= a <= b,
    ensures
        0 <= pow(a, g) <= pow(b, g),
    decreases g,
{
    reveal(vstd::arithmetic::power::pow);
    if g > 0 {
        lemma_pow_base_mono(a, b, (g - 1) as nat);
        assert(pow(a, g) == a * pow(a, (g - 1) as nat));
        assert(pow(b, g) == b * pow(b, (g - 1) as nat));
        assert(0 <= a * pow(a, (g - 1) as nat) <= b * pow(b, (g - 1) as nat))
            by (nonlinear_arith)
            requires
                0 <= a <= b && 0 <= pow(a, (g - 1) as nat) <= pow(b, (g - 1) as nat),
        ;
    }
}

/// Raising a strictly larger positive base to a positive power gives
/// strictly more.
pub proof fn lemma_pow_base_strict(a: int, b: int, g: nat)
    requires
        0 <= a < b,
        g >= 1,
    ensures
        pow(a, g) < pow(b, g),
    decreases g,
{
    reveal(vstd::arithmetic::power::pow);
    lemma_pow_base_mono(a, b, (g - 1) as nat);
    assert(pow(a, g) == a * pow(a, (g - 1) as nat));
    assert(pow(b, g) == b * pow(b, (g - 1) as nat));
    assert(pow(b, (g - 1) as nat) >= 1) by {
        vstd::arithmetic::power::lemma_pow_positive(b, (g - 1) as nat);
    }
    assert(a * pow(a, (g - 1) as nat) < b * pow(b, (g - 1) as nat)) by (nonlinear_arith)
        requires
            0 <= a < b && 0 <= pow(a, (g - 1) as nat) <= pow(b, (g - 1) as nat) && pow(
                b,
                (g - 1) as nat,
            ) >= 1,
    ;
}

/// `r` is the integer `g`-th root of `x`.
pub open spec fn is_root(x: int, g: nat, r: int) -> bool {
    &&& 0 <= r
    &&& pow(r, g) <= x
    &&& x < pow(r + 1, g)
}

/// The integer `g`-th root of a nonnegative value, as a spec-level name;
/// `lemma_root_exists` discharges the `choose`.
pub open spec fn root_floor(x: int, g: nat) -> int {
    choose|r: int| is_root(x, g, r)
}

/// Every nonnegative integer has a `g`-th root for positive `g`.
pub proof fn lemma_root_exists(x: nat, g: nat)
    requires
        g >= 1,
    ensures
        is_root(x as int, g, root_floor(x as int, g)),
    decreases x,
{
    if x == 0 {
        assert(pow(0, g) == 0) by {
            vstd::arithmetic::power::lemma0_pow(g);
        }
        assert(pow(1, g) == 1) by {
            vstd::arithmetic::power::lemma1_pow(g);
        }
        assert(is_root(0, g, 0));
    } else {
        lemma_root_exists((x - 1) as nat, g);
        let r = root_floor(x - 1, g);
        if x < pow(r + 1, g) {
            assert(is_root(x as int, g, r));
        } else {
            assert(x == pow(r + 1, g));
            lemma_pow_base_strict(r + 1, r + 2, g);
            assert(is_root(x as int, g, r + 1));
        }
    }
}

/// The integer `g`-th root is unique.
pub proof fn lemma_root_unique(x: int, g: nat, r: int)
    requires
        g >= 1,
        is_root(x, g, r),
    ensures
        r == root_floor(x, g),
{
    lemma_root_exists(x as nat, g);
    let s = root_floor(x, g);
    if r < s {
        lemma_pow_base_mono(r + 1, s, g);
    }
    if s < r {
        lemma_pow_base_mono(s + 1, r, g);
    }
}

/// A small power, kept exact in a `u128`.
fn pow_small(base: u64, e: u32) -> (r: u128)
    requires
        base <= 0x1_0000,
        e <= 7,
    ensures
        r == pow(base as int, e as nat),
        r <= pow(0x1_0000, e as nat),
{
    proof {
        vstd::arithmetic::power::lemma_pow0(base as int);
        vstd::arithmetic::power::lemma_pow0(0x1_0000);
    }
    let mut acc: u128 = 1;
    let mut k: u32 = 0;
    while k < e
        invariant
            k <= e <= 7,
            base <= 0x1_0000,
            acc == pow(base as int, k as nat),
            acc <= pow(0x1_0000, k as nat),
        decreases e - k,
    {
        proof {
            reveal_with_fuel(vstd::arithmetic::power::pow, 9);
            assert(pow(0x1_0000, 7) < u128::MAX);
            lemma_pow_increases(0x1_0000, (k + 1) as nat, 7);
            assert(pow(base as int, (k + 1) as nat) == base * pow(base as int, k as nat));
            assert(pow(0x1_0000, (k + 1) as nat) == 0x1_0000 * pow(0x1_0000, k as nat));
            assert(acc * base <= 0x1_0000 * pow(0x1_0000, k as nat)) by (nonlinear_arith)
                requires
                    0 <= acc <= pow(0x1_0000, k as nat) && 0 <= base <= 0x1_0000,
            ;
            assert(acc * base == base * acc) by (nonlinear_arith);
        }
        acc = acc * (base as u128);
        k = k + 1;
    }
    acc
}

/// The integer `g`-th root by binary search below one unit.
fn root_small(x: u128, g: u32) -> (r: u64)
    requires
        1 <= g <= 7,
        x < pow(0x1_0000, g as nat),
    ensures
        r == root_floor(x as int, g as nat),
        is_root(x as int, g as nat, r as int),
        r < 0x1_0000,
{
    let mut lo: u64 = 0;
    let mut hi: u64 = 0x1_0000;
    proof {
        vstd::arithmetic::power::lemma0_pow(g as nat);
    }
    while lo + 1 < hi
        invariant
            1 <= g <= 7,
            lo < hi <= 0x1_0000,
            pow(lo as int, g as nat) <= x,
            x < pow(hi as int, g as nat),
        decreases hi - lo,
    {
        let mid: u64 = lo + (hi - lo) / 2;
        let p: u128 = pow_small(mid, g);
        if p <= x {
            lo = mid;
        } else {
            hi = mid;
        }
    }
    proof {
        assert(is_root(x as int, g as nat, lo as int));
        lemma_root_unique(x as int, g as nat, lo as int);
    }
    lo
}

/// One channel quantized: averaged over the samples, gamma-corrected by
/// the exact integer root, clamped and scaled to `[0, 255]`.
pub open spec fn quant_s(v: int, spp: int, g: nat) -> int {
    let sc = fdiv(v, spp);
    let rt = if sc <= 0 {
        0int
    } else if sc >= SCALE {
        SCALE as int
    } else {
        root_floor(sc * pow(SCALE as int, (g - 1) as nat), g)
    };
    fdiv(256 * clamp_s(rt, 0, CLAMP_TOP as int), SCALE as int)
}

/// Quantize one accumulated channel to an integer in `[0, 255]`. The
/// gamma exponent is a whole number up to seven: fractional exponents are
/// not representable exactly at this scale, and the customary value of
/// two is covered.
pub fn quant_channel(v: i64, spp: i64, gamma: u32) -> (q: u8)
    requires
        spp >= 1,
        1 <= gamma <= 7,
    ensures
        q == quant_s(v as int, spp as int, gamma as nat),
{
    proof {
        lemma_fdiv_bounds(v as int, spp as int);
    }
    let sc128: i128 = div_floor(v as i128, spp as i128);
    let rt: i64 = if sc128 <= 0 {
        0
    } else if sc128 >= SCALE as i128 {
        SCALE
    } else {
        let sc: u64 = sc128 as u64;
        let scale_pow: u128 = pow_small(SCALE as u64, gamma - 1);
        proof {
            reveal_with_fuel(vstd::arithmetic::power::pow, 9);
            assert(pow(0x1_0000, (gamma - 1) as nat) <= pow(0x1_0000, 6)) by {
                lemma_pow_increases(0x1_0000, (gamma - 1) as nat, 6);
            }
            assert((sc as int) * (scale_pow as int) < pow(0x1_0000, gamma as nat)) by {
                assert(pow(0x1_0000, gamma as nat) == 0x1_0000 * pow(0x1_0000, (gamma - 1) as nat));
                assert((sc as int) * (scale_pow as int) < 0x1_0000 * pow(
                    0x1_0000,
                    (gamma - 1) as nat,
                )) by (nonlinear_arith)
                    requires
                        0 <= sc < 0x1_0000 && 0 < scale_pow == pow(0x1_0000, (gamma - 1) as nat),
                ;
            }
            assert(scale_pow > 0) by {
                vstd::arithmetic::power::lemma_pow_positive(0x1_0000, (gamma - 1) as nat);
            }
            assert(pow(SCALE as int, (gamma - 1) as nat) == pow(0x1_0000, (gamma - 1) as nat));
            assert(pow(0x1_0000, gamma as nat) <= pow(0x1_0000, 7)) by {
                lemma_pow_increases(0x1_0000, gamma as nat, 7);
            }
            assert((sc as int) * (scale_pow as int) >= 0) by (nonlinear_arith)
                requires
                    sc >= 0 && scale_pow >= 0,
            ;
        }
        let x: u128 = (sc as u128) * scale_pow;
        root_small(x, gamma) as i64
    };
    let cl: i64 = clamp(rt, 0, CLAMP_TOP);
    proof {
        assert(0 <= cl <= CLAMP_TOP);
        lemma_fdiv_bounds(256 * (cl as int), SCALE as int);
        lemma_fdiv_mono(256 * (cl as int), 256 * (CLAMP_TOP as int), SCALE as int);
        assert(fdiv(256 * (CLAMP_TOP as int), SCALE as int) == 255);
    }
    let q128: i128 = div_floor(256 * (cl as i128), SCALE as i128);
    q128 as u8
}

/// A decimal digit as a character.
pub open spec fn digit_c(d: int) -> char {
    (48 + d) as char
}

/// The decimal form of a value in `[0, 255]`: one to three digits, no
/// leading zeros.
pub open spec fn dec_s(n: int) -> Seq<char> {
    if n < 10 {
        seq![digit_c(n)]
    } else if n < 100 {
        seq![digit_c(fdiv(n, 10)), digit_c(n % 10)]
    } else {
        seq![digit_c(fdiv(n, 100)), digit_c(fdiv(n, 10) % 10), digit_c(n % 10)]
    }
}

/// One decimal digit as a character.
fn digit_char(d: u8) -> (c: char)
    requires
        d < 10,
    ensures
        c == digit_c(d as int),
{
    match d {
        0 => '0',
        1 => '1',
        2 => '2',
        3 => '3',
        4 => '4',
        5 => '5',
        6 => '6',
        7 => '7',
        8 => '8',
        _ => '9',
    }
}

/// Append the decimal form of a byte.
fn push_dec(s: &mut String, n: u8)
    ensures
        final(s)@ == old(s)@ + dec_s(n as int),
{
    if n < 10 {
        s.push(digit_char(n));
        proof {
            assert(s@ =~= old(s)@ + dec_s(n as int));
        }
    } else if n < 100 {
        s.push(digit_char(n / 10));
        s.push(digit_char(n % 10));
        proof {
            assert(s@ =~= old(s)@ + dec_s(n as int));
        }
    } else {
        s.push(digit_char(n / 100));
        s.push(digit_char((n / 10) % 10));
        s.push(digit_char(n % 10));
        proof {
            assert(s@ =~= old(s)@ + dec_s(n as int));
        }
    }
}

/// One output line for a pixel: the three quantized channels separated by
/// single spaces, with an exact-black short circuit.
pub open spec fn write_color_s(c: V3, spp: int, g: nat) -> Seq<char> {
    if c.x == 0 && c.y == 0 && c.z == 0 {
        seq!['0', ' ', '0', ' ', '0']
    } else {
        dec_s(quant_s(c.x, spp, g)) + seq![' '] + dec_s(quant_s(c.y, spp, g)) + seq![' ']
            + dec_s(quant_s(c.z, spp, g))
    }
}

/// Format one pixel's accumulated color as its output line.
pub fn write_color(pixel_color: Color, samples_per_pixel: i64, gamma: u32) -> (r: String)
    requires
        samples_per_pixel >= 1,
        1 <= gamma <= 7,
    ensures
        r@ == write_color_s(pixel_color@, samples_per_pixel as int, gamma as nat),
{
    let mut s: String = String::new();
    if pixel_color.near_zero() {
        s.push('0');
        s.push(' ');
        s.push('0');
        s.push(' ');
        s.push('0');
        proof {
            assert(s@ =~= seq!['0', ' ', '0', ' ', '0']);
        }
        return s;
    }
    let qx: u8 = quant_channel(pixel_color.x(), samples_per_pixel, gamma);
    let qy: u8 = quant_channel(pixel_color.y(), samples_per_pixel, gamma);
    let qz: u8 = quant_channel(pixel_color.z(), samples_per_pixel, gamma);
    push_dec(&mut s, qx);
    s.push(' ');
    push_dec(&mut s, qy);
    s.push(' ');
    push_dec(&mut s, qz);
    proof {
        assert(s@ =~= write_color_s(
            pixel_color@,
            samples_per_pixel as int,
            gamma as nat,
        ));
    }
    s
}

} // verus!
