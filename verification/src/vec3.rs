//! Three-component vectors at the crate's fixed-point scale, with the
//! exact integer model (`V3`) that every geometric contract is stated
//! over.
use crate::fixed::{
    div_floor, fdiv, fdiv_fx, fdiv_fx_s, fmul, fmul_s, is_sqrt, isqrt, lemma_fdiv_bounds,
    lemma_fdiv_exact, lemma_fdiv_mono, lemma_sqrt_unique, sqrt_floor, LIM, SCALE,
};
use crate::utils::{rand_01, rand_range};
use vstd::prelude::*;

verus! {

/// Largest coordinate magnitude the vector routines accept: keeps every
/// intermediate product inside an `i128`.
pub const VEC_MAX: i64 = 0x1000_0000_0000_0000;

/// The mathematical value of a vector: three unbounded integers, each at
/// scale `SCALE`.
pub ghost struct V3 {
    pub x: int,
    pub y: int,
    pub z: int,
}

/// All three components lie in `[-b, b]`.
pub open spec fn bounded_v(v: V3, b: int) -> bool {
    &&& -b <= v.x <= b
    &&& -b <= v.y <= b
    &&& -b <= v.z <= b
}

/// Well-formed scene data: coordinates within `LIM`.
pub open spec fn wf_v(v: V3) -> bool {
    bounded_v(v, LIM as int)
}

pub open spec fn add_v(u: V3, v: V3) -> V3 {
    V3 { x: u.x + v.x, y: u.y + v.y, z: u.z + v.z }
}

pub open spec fn sub_v(u: V3, v: V3) -> V3 {
    V3 { x: u.x - v.x, y: u.y - v.y, z: u.z - v.z }
}

pub open spec fn neg_v(v: V3) -> V3 {
    V3 { x: -v.x, y: -v.y, z: -v.z }
}

/// Scale a vector by a fixed-point factor.
pub open spec fn scale_v(t: int, v: V3) -> V3 {
    V3 { x: fmul_s(t, v.x), y: fmul_s(t, v.y), z: fmul_s(t, v.z) }
}

/// Component-wise fixed-point product (used for color attenuation).
pub open spec fn mul_comp_v(u: V3, v: V3) -> V3 {
    V3 { x: fmul_s(u.x, v.x), y: fmul_s(u.y, v.y), z: fmul_s(u.z, v.z) }
}

/// Divide a vector by a fixed-point factor.
pub open spec fn div_t_v(v: V3, t: int) -> V3 {
    V3 { x: fdiv_fx_s(v.x, t), y: fdiv_fx_s(v.y, t), z: fdiv_fx_s(v.z, t) }
}

/// The exact inner product of the raw components: at scale `SCALE * SCALE`.
pub open spec fn dot_raw(u: V3, v: V3) -> int {
    u.x * v.x + u.y * v.y + u.z * v.z
}

/// The inner product at scale `SCALE` (one floor division).
pub open spec fn dot_s(u: V3, v: V3) -> int {
    fdiv(dot_raw(u, v), SCALE as int)
}

/// The squared length of the raw components: at scale `SCALE * SCALE`,
/// never negative.
pub open spec fn norm2_raw(v: V3) -> int {
    dot_raw(v, v)
}

/// The length at scale `SCALE`: the integer square root of the raw
/// squared length.
pub open spec fn len_raw(v: V3) -> int {
    sqrt_floor(norm2_raw(v))
}

/// The cross product at scale `SCALE` (one floor division per component).
pub open spec fn cross_v(u: V3, v: V3) -> V3 {
    V3 {
        x: fdiv(u.y * v.z - u.z * v.y, SCALE as int),
        y: fdiv(u.z * v.x - u.x * v.z, SCALE as int),
        z: fdiv(u.x * v.y - u.y * v.x, SCALE as int),
    }
}

/// The unit vector along `v`: each component rescaled by the length.
pub open spec fn unit_v(v: V3) -> V3 {
    V3 {
        x: fdiv(v.x * (SCALE as int), len_raw(v)),
        y: fdiv(v.y * (SCALE as int), len_raw(v)),
        z: fdiv(v.z * (SCALE as int), len_raw(v)),
    }
}

/// The component-wise maximum of two vectors.
pub open spec fn max_v(a: V3, b: V3) -> V3 {
    V3 {
        x: crate::fixed::max_i(a.x, b.x),
        y: crate::fixed::max_i(a.y, b.y),
        z: crate::fixed::max_i(a.z, b.z),
    }
}

/// Mirror `v` about the plane with normal `n` (`v - 2 (v . n) n`).
pub open spec fn reflect_v(v: V3, n: V3) -> V3 {
    sub_v(v, scale_v(2 * dot_s(v, n), n))
}

/// A squared length is never negative.
pub proof fn lemma_norm2_nonneg(v: V3)
    ensures
        norm2_raw(v) >= 0,
{
    assert(v.x * v.x >= 0 && v.y * v.y >= 0 && v.z * v.z >= 0) by (nonlinear_arith);
}

/// Bound the inner product of two bounded vectors.
pub proof fn lemma_dot_bound(u: V3, v: V3, b: int)
    requires
        b >= 0,
        bounded_v(u, b),
        bounded_v(v, b),
    ensures
        -3 * b * b <= dot_raw(u, v) <= 3 * b * b,
        -3 * b * b <= dot_s(u, v) <= 3 * b * b,
        -fdiv(3 * b * b, SCALE as int) - 1 <= dot_s(u, v) <= fdiv(3 * b * b, SCALE as int),
{
    crate::fixed::lemma_mul_bound(u.x, v.x, b, b);
    crate::fixed::lemma_mul_bound(u.y, v.y, b, b);
    crate::fixed::lemma_mul_bound(u.z, v.z, b, b);
    assert(-3 * b * b <= dot_raw(u, v) <= 3 * b * b) by (nonlinear_arith)
        requires
            -b * b <= u.x * v.x <= b * b && -b * b <= u.y * v.y <= b * b && -b * b <= u.z * v.z
                <= b * b,
    ;
    assert(-3 * b * b <= 0 <= 3 * b * b) by (nonlinear_arith)
        requires
            b >= 0,
    ;
    lemma_fdiv_bounds(dot_raw(u, v), SCALE as int);
    lemma_fdiv_mono(dot_raw(u, v), 3 * b * b, SCALE as int);
    assert(-(3 * b * b) == -3 * b * b) by (nonlinear_arith);
    lemma_fdiv_mono(-(3 * b * b), dot_raw(u, v), SCALE as int);
    crate::fixed::lemma_fdiv_neg(3 * b * b, SCALE as int);
}

/// Bound the inner product of two vectors with different bounds.
pub proof fn lemma_dot_bound2(u: V3, v: V3, bu: int, bv: int)
    requires
        bu >= 0,
        bv >= 0,
        bounded_v(u, bu),
        bounded_v(v, bv),
    ensures
        -3 * bu * bv <= dot_raw(u, v) <= 3 * bu * bv,
        -3 * bu * bv <= dot_s(u, v) <= 3 * bu * bv,
        -fdiv(3 * bu * bv, SCALE as int) - 1 <= dot_s(u, v) <= fdiv(3 * bu * bv, SCALE as int),
{
    crate::fixed::lemma_mul_bound(u.x, v.x, bu, bv);
    crate::fixed::lemma_mul_bound(u.y, v.y, bu, bv);
    crate::fixed::lemma_mul_bound(u.z, v.z, bu, bv);
    assert(-3 * bu * bv <= dot_raw(u, v) <= 3 * bu * bv) by (nonlinear_arith)
        requires
            -bu * bv <= u.x * v.x <= bu * bv && -bu * bv <= u.y * v.y <= bu * bv && -bu * bv <= u.z
                * v.z <= bu * bv,
    ;
    assert(-3 * bu * bv <= 0 <= 3 * bu * bv) by (nonlinear_arith)
        requires
            bu >= 0 && bv >= 0,
    ;
    lemma_fdiv_bounds(dot_raw(u, v), SCALE as int);
    lemma_fdiv_mono(dot_raw(u, v), 3 * bu * bv, SCALE as int);
    assert(-(3 * bu * bv) == -3 * bu * bv) by (nonlinear_arith);
    lemma_fdiv_mono(-(3 * bu * bv), dot_raw(u, v), SCALE as int);
    crate::fixed::lemma_fdiv_neg(3 * bu * bv, SCALE as int);
}

/// Bound the cross product of two bounded vectors.
pub proof fn lemma_cross_bound(u: V3, v: V3, bu: int, bv: int)
    requires
        bu >= 0,
        bv >= 0,
        bounded_v(u, bu),
        bounded_v(v, bv),
    ensures
        bounded_v(cross_v(u, v), fdiv(2 * bu * bv, SCALE as int) + 1),
{
    crate::fixed::lemma_mul_bound(u.y, v.z, bu, bv);
    crate::fixed::lemma_mul_bound(u.z, v.y, bu, bv);
    crate::fixed::lemma_mul_bound(u.z, v.x, bu, bv);
    crate::fixed::lemma_mul_bound(u.x, v.z, bu, bv);
    crate::fixed::lemma_mul_bound(u.x, v.y, bu, bv);
    crate::fixed::lemma_mul_bound(u.y, v.x, bu, bv);
    assert(-(2 * bu * bv) == -2 * bu * bv && 2 * (bu * bv) == 2 * bu * bv) by (nonlinear_arith);
    assert(-(2 * bu * bv) <= u.y * v.z - u.z * v.y <= 2 * bu * bv && -(2 * bu * bv) <= u.z * v.x
        - u.x * v.z <= 2 * bu * bv && -(2 * bu * bv) <= u.x * v.y - u.y * v.x <= 2 * bu * bv)
        by (nonlinear_arith)
        requires
            -bu * bv <= u.y * v.z <= bu * bv && -bu * bv <= u.z * v.y <= bu * bv && -bu * bv <= u.z
                * v.x <= bu * bv && -bu * bv <= u.x * v.z <= bu * bv && -bu * bv <= u.x * v.y <= bu
                * bv && -bu * bv <= u.y * v.x <= bu * bv,
    ;
    lemma_fdiv_mono(u.y * v.z - u.z * v.y, 2 * bu * bv, SCALE as int);
    lemma_fdiv_mono(-(2 * bu * bv), u.y * v.z - u.z * v.y, SCALE as int);
    lemma_fdiv_mono(u.z * v.x - u.x * v.z, 2 * bu * bv, SCALE as int);
    lemma_fdiv_mono(-(2 * bu * bv), u.z * v.x - u.x * v.z, SCALE as int);
    lemma_fdiv_mono(u.x * v.y - u.y * v.x, 2 * bu * bv, SCALE as int);
    lemma_fdiv_mono(-(2 * bu * bv), u.x * v.y - u.y * v.x, SCALE as int);
    crate::fixed::lemma_fdiv_neg(2 * bu * bv, SCALE as int);
}

/// A point-like vector with three stored fixed-point components.
#[derive(Clone, Copy, PartialEq, Eq, Structural, Debug)]
pub struct Vec3 {
    pub x: i64,
    pub y: i64,
    pub z: i64,
}

/// A point in space is a vector from the origin.
pub type Point3 = Vec3;

/// A color is a red/green/blue triple at scale (one unit per channel is
/// full intensity before exposure).
pub type Color = Vec3;

impl View for Vec3 {
    type V = V3;

    open spec fn view(&self) -> V3 {
        V3 { x: self.x as int, y: self.y as int, z: self.z as int }
    }
}

impl Vec3 {
    pub fn new(x: i64, y: i64, z: i64) -> (r: Vec3)
        ensures
            r@ == (V3 { x: x as int, y: y as int, z: z as int }),
    {
        Vec3 { x, y, z }
    }

    /// A vector whose components are random values in `[0, 1)` at scale.
    pub fn rand() -> (r: Vec3)
        ensures
            bounded_v(r@, SCALE as int),
            r@.x >= 0 && r@.y >= 0 && r@.z >= 0,
    {
        Vec3::new(rand_01(), rand_01(), rand_01())
    }

    /// A vector whose components are random values in `[min, max)`.
    pub fn rand_range(min: i64, max: i64) -> (r: Vec3)
        requires
            -0x2000_0000_0000_0000 <= min <= max <= 0x2000_0000_0000_0000,
        ensures
            min <= r@.x && min <= r@.y && min <= r@.z,
            min < max ==> r@.x < max && r@.y < max && r@.z < max,
            min == max ==> r@.x == min && r@.y == min && r@.z == min,
    {
        Vec3::new(rand_range(min, max), rand_range(min, max), rand_range(min, max))
    }

    pub fn x(&self) -> (r: i64)
        ensures
            r == self@.x,
    {
        self.x
    }

    pub fn y(&self) -> (r: i64)
        ensures
            r == self@.y,
    {
        self.y
    }

    pub fn z(&self) -> (r: i64)
        ensures
            r == self@.z,
    {
        self.z
    }

    pub fn neg(&self) -> (r: Vec3)
        requires
            self@.x > i64::MIN,
            self@.y > i64::MIN,
            self@.z > i64::MIN,
        ensures
            r@ == neg_v(self@),
    {
        Vec3 { x: -self.x, y: -self.y, z: -self.z }
    }

    pub fn add(&self, v: &Vec3) -> (r: Vec3)
        requires
            i64::MIN <= self@.x + v@.x <= i64::MAX,
            i64::MIN <= self@.y + v@.y <= i64::MAX,
            i64::MIN <= self@.z + v@.z <= i64::MAX,
        ensures
            r@ == add_v(self@, v@),
    {
        Vec3 { x: self.x + v.x, y: self.y + v.y, z: self.z + v.z }
    }

    pub fn sub(&self, v: &Vec3) -> (r: Vec3)
        requires
            i64::MIN <= self@.x - v@.x <= i64::MAX,
            i64::MIN <= self@.y - v@.y <= i64::MAX,
            i64::MIN <= self@.z - v@.z <= i64::MAX,
        ensures
            r@ == sub_v(self@, v@),
    {
        Vec3 { x: self.x - v.x, y: self.y - v.y, z: self.z - v.z }
    }

    /// Scale by a fixed-point factor.
    pub fn scale(&self, t: i64) -> (r: Vec3)
        requires
            i64::MIN <= fmul_s(t as int, self@.x) <= i64::MAX,
            i64::MIN <= fmul_s(t as int, self@.y) <= i64::MAX,
            i64::MIN <= fmul_s(t as int, self@.z) <= i64::MAX,
        ensures
            r@ == scale_v(t as int, self@),
    {
        Vec3 { x: fmul(t, self.x), y: fmul(t, self.y), z: fmul(t, self.z) }
    }

    /// Component-wise fixed-point product.
    pub fn mul_comp(&self, v: &Vec3) -> (r: Vec3)
        requires
            i64::MIN <= fmul_s(self@.x, v@.x) <= i64::MAX,
            i64::MIN <= fmul_s(self@.y, v@.y) <= i64::MAX,
            i64::MIN <= fmul_s(self@.z, v@.z) <= i64::MAX,
        ensures
            r@ == mul_comp_v(self@, v@),
    {
        Vec3 { x: fmul(self.x, v.x), y: fmul(self.y, v.y), z: fmul(self.z, v.z) }
    }

    /// Divide by a fixed-point factor.
    pub fn div_t(&self, t: i64) -> (r: Vec3)
        requires
            t != 0,
            i64::MIN <= fdiv_fx_s(self@.x, t as int) <= i64::MAX,
            i64::MIN <= fdiv_fx_s(self@.y, t as int) <= i64::MAX,
            i64::MIN <= fdiv_fx_s(self@.z, t as int) <= i64::MAX,
        ensures
            r@ == div_t_v(self@, t as int),
    {
        Vec3 { x: fdiv_fx(self.x, t), y: fdiv_fx(self.y, t), z: fdiv_fx(self.z, t) }
    }

    /// The squared length at scale `SCALE`.
    pub fn length_squared(&self) -> (r: i64)
        requires
            bounded_v(self@, 0x40_0000_0000),
        ensures
            r == dot_s(self@, self@),
            r >= 0,
    {
        proof {
            lemma_norm2_nonneg(self@);
            lemma_dot_bound(self@, self@, 0x40_0000_0000);
        }
        dot(*self, *self)
    }

    /// The length at scale `SCALE`.
    pub fn length(&self) -> (r: i64)
        requires
            bounded_v(self@, VEC_MAX as int),
        ensures
            r == len_raw(self@),
            r >= 0,
            is_sqrt(norm2_raw(self@), r as int),
    {
        proof {
            lemma_norm2_nonneg(self@);
            crate::fixed::lemma_mul_bound(self@.x, self@.x, VEC_MAX as int, VEC_MAX as int);
            crate::fixed::lemma_mul_bound(self@.y, self@.y, VEC_MAX as int, VEC_MAX as int);
            crate::fixed::lemma_mul_bound(self@.z, self@.z, VEC_MAX as int, VEC_MAX as int);
        }
        let n2: i128 = (self.x as i128) * (self.x as i128) + (self.y as i128) * (self.y as i128)
            + (self.z as i128) * (self.z as i128);
        let r: u64 = isqrt(n2 as u128);
        proof {
            assert((r as int) * (r as int) <= norm2_raw(self@) < ((r as int) + 1) * ((
            r as int) + 1));
            assert(r < 0x2000_0000_0000_0000) by (nonlinear_arith)
                requires
                    (r as int) * (r as int) <= norm2_raw(self@) <= 3 * (VEC_MAX as int) * (
                    VEC_MAX as int) && r >= 0 && VEC_MAX == 0x1000_0000_0000_0000,
            ;
        }
        r as i64
    }

    /// All three components are exactly zero; at this scale anything
    /// smaller than one quantum is not representable.
    pub fn near_zero(&self) -> (r: bool)
        ensures
            r <==> (self@.x == 0 && self@.y == 0 && self@.z == 0),
    {
        self.x == 0 && self.y == 0 && self.z == 0
    }
}

/// The inner product at scale `SCALE`.
pub fn dot(u: Vec3, v: Vec3) -> (r: i64)
    requires
        bounded_v(u@, VEC_MAX as int),
        bounded_v(v@, VEC_MAX as int),
        i64::MIN <= dot_s(u@, v@) <= i64::MAX,
    ensures
        r == dot_s(u@, v@),
{
    proof {
        crate::fixed::lemma_mul_bound(u@.x, v@.x, VEC_MAX as int, VEC_MAX as int);
        crate::fixed::lemma_mul_bound(u@.y, v@.y, VEC_MAX as int, VEC_MAX as int);
        crate::fixed::lemma_mul_bound(u@.z, v@.z, VEC_MAX as int, VEC_MAX as int);
    }
    let s: i128 = (u.x as i128) * (v.x as i128) + (u.y as i128) * (v.y as i128) + (u.z as i128)
        * (v.z as i128);
    let q: i128 = div_floor(s, SCALE as i128);
    q as i64
}

/// The exact inner product of the raw components, kept at scale
/// `SCALE * SCALE` with no floor division.
pub fn dot_raw_wide(u: &Vec3, v: &Vec3) -> (r: i128)
    requires
        bounded_v(u@, VEC_MAX as int),
        bounded_v(v@, VEC_MAX as int),
    ensures
        r == dot_raw(u@, v@),
{
    proof {
        crate::fixed::lemma_mul_bound(u@.x, v@.x, VEC_MAX as int, VEC_MAX as int);
        crate::fixed::lemma_mul_bound(u@.y, v@.y, VEC_MAX as int, VEC_MAX as int);
        crate::fixed::lemma_mul_bound(u@.z, v@.z, VEC_MAX as int, VEC_MAX as int);
    }
    (u.x as i128) * (v.x as i128) + (u.y as i128) * (v.y as i128) + (u.z as i128) * (v.z as i128)
}

/// The cross product at scale `SCALE`.
pub fn cross(u: Vec3, v: Vec3) -> (r: Vec3)
    requires
        bounded_v(u@, VEC_MAX as int),
        bounded_v(v@, VEC_MAX as int),
        i64::MIN <= cross_v(u@, v@).x <= i64::MAX,
        i64::MIN <= cross_v(u@, v@).y <= i64::MAX,
        i64::MIN <= cross_v(u@, v@).z <= i64::MAX,
    ensures
        r@ == cross_v(u@, v@),
{
    proof {
        crate::fixed::lemma_mul_bound(u@.y, v@.z, VEC_MAX as int, VEC_MAX as int);
        crate::fixed::lemma_mul_bound(u@.z, v@.y, VEC_MAX as int, VEC_MAX as int);
        crate::fixed::lemma_mul_bound(u@.z, v@.x, VEC_MAX as int, VEC_MAX as int);
        crate::fixed::lemma_mul_bound(u@.x, v@.z, VEC_MAX as int, VEC_MAX as int);
        crate::fixed::lemma_mul_bound(u@.x, v@.y, VEC_MAX as int, VEC_MAX as int);
        crate::fixed::lemma_mul_bound(u@.y, v@.x, VEC_MAX as int, VEC_MAX as int);
    }
    let cx: i128 = (u.y as i128) * (v.z as i128) - (u.z as i128) * (v.y as i128);
    let cy: i128 = (u.z as i128) * (v.x as i128) - (u.x as i128) * (v.z as i128);
    let cz: i128 = (u.x as i128) * (v.y as i128) - (u.y as i128) * (v.x as i128);
    Vec3 {
        x: div_floor(cx, SCALE as i128) as i64,
        y: div_floor(cy, SCALE as i128) as i64,
        z: div_floor(cz, SCALE as i128) as i64,
    }
}

/// Rescale a nonzero vector to (approximately) unit length; the result is
/// exactly `unit_v` of the argument, whose components stay within `SCALE`.
pub fn unit_vec(v: Vec3) -> (r: Vec3)
    requires
        bounded_v(v@, VEC_MAX as int),
        norm2_raw(v@) >= 1,
    ensures
        r@ == unit_v(v@),
        bounded_v(r@, SCALE as int),
{
    let l: i64 = v.length();
    proof {
        if l == 0 {
            assert(norm2_raw(v@) < 1) by (nonlinear_arith)
                requires
                    l == 0 && norm2_raw(v@) < ((l as int) + 1) * ((l as int) + 1),
            ;
        }
        lemma_norm2_nonneg(v@);
        assert(v@.x * v@.x <= norm2_raw(v@) && v@.y * v@.y <= norm2_raw(v@) && v@.z * v@.z
            <= norm2_raw(v@)) by (nonlinear_arith)
            requires
                norm2_raw(v@) == v@.x * v@.x + v@.y * v@.y + v@.z * v@.z,
        ;
        assert(-(l as int) <= v@.x <= l as int) by (nonlinear_arith)
            requires
                v@.x * v@.x <= norm2_raw(v@) && norm2_raw(v@) < ((l as int) + 1) * ((
                l as int) + 1) && l >= 0,
        ;
        assert(-(l as int) <= v@.y <= l as int) by (nonlinear_arith)
            requires
                v@.y * v@.y <= norm2_raw(v@) && norm2_raw(v@) < ((l as int) + 1) * ((
                l as int) + 1) && l >= 0,
        ;
        assert(-(l as int) <= v@.z <= l as int) by (nonlinear_arith)
            requires
                v@.z * v@.z <= norm2_raw(v@) && norm2_raw(v@) < ((l as int) + 1) * ((
                l as int) + 1) && l >= 0,
        ;
        assert(v@.x * (SCALE as int) <= (l as int) * (SCALE as int) && -((l as int) * (
        SCALE as int)) <= v@.x * (SCALE as int)) by (nonlinear_arith)
            requires
                -(l as int) <= v@.x <= l as int,
        ;
        assert(v@.y * (SCALE as int) <= (l as int) * (SCALE as int) && -((l as int) * (
        SCALE as int)) <= v@.y * (SCALE as int)) by (nonlinear_arith)
            requires
                -(l as int) <= v@.y <= l as int,
        ;
        assert(v@.z * (SCALE as int) <= (l as int) * (SCALE as int) && -((l as int) * (
        SCALE as int)) <= v@.z * (SCALE as int)) by (nonlinear_arith)
            requires
                -(l as int) <= v@.z <= l as int,
        ;
        lemma_fdiv_mono(v@.x * (SCALE as int), (l as int) * (SCALE as int), l as int);
        lemma_fdiv_mono(v@.y * (SCALE as int), (l as int) * (SCALE as int), l as int);
        lemma_fdiv_mono(v@.z * (SCALE as int), (l as int) * (SCALE as int), l as int);
        lemma_fdiv_mono(-((l as int) * (SCALE as int)), v@.x * (SCALE as int), l as int);
        lemma_fdiv_mono(-((l as int) * (SCALE as int)), v@.y * (SCALE as int), l as int);
        lemma_fdiv_mono(-((l as int) * (SCALE as int)), v@.z * (SCALE as int), l as int);
        lemma_fdiv_exact(SCALE as int, l as int);
        assert((l as int) * (SCALE as int) == (SCALE as int) * (l as int)) by (nonlinear_arith);
        assert(-((l as int) * (SCALE as int)) == (-(SCALE as int)) * (l as int))
            by (nonlinear_arith);
        lemma_fdiv_exact(-(SCALE as int), l as int);
    }
    Vec3 {
        x: div_floor((v.x as i128) * (SCALE as i128), l as i128) as i64,
        y: div_floor((v.y as i128) * (SCALE as i128), l as i128) as i64,
        z: div_floor((v.z as i128) * (SCALE as i128), l as i128) as i64,
    }
}

/// Mirror `v` about the plane with normal `n` (both roughly unit-sized).
pub fn reflect(v: Vec3, n: Vec3) -> (r: Vec3)
    requires
        bounded_v(v@, 4 * (SCALE as int)),
        bounded_v(n@, 4 * (SCALE as int)),
    ensures
        r@ == reflect_v(v@, n@),
        bounded_v(r@, 0x200_0000),
{
    proof {
        lemma_dot_bound(v@, n@, 4 * (SCALE as int));
    }
    let d: i64 = dot(v, n);
    proof {
        crate::fixed::lemma_fmul_bound(2 * (d as int), n@.x, 0x620002, 0x40000);
        crate::fixed::lemma_fmul_bound(2 * (d as int), n@.y, 0x620002, 0x40000);
        crate::fixed::lemma_fmul_bound(2 * (d as int), n@.z, 0x620002, 0x40000);
    }
    let s: Vec3 = n.scale(2 * d);
    v.sub(&s)
}

/// The untruncated mirror image, kept at scale `SCALE^3` so that no floor
/// division intervenes: the form the involution law is stated over.
pub open spec fn reflect_raw(v: V3, n: V3) -> V3 {
    V3 {
        x: (SCALE as int) * (SCALE as int) * v.x - 2 * dot_raw(v, n) * n.x,
        y: (SCALE as int) * (SCALE as int) * v.y - 2 * dot_raw(v, n) * n.y,
        z: (SCALE as int) * (SCALE as int) * v.z - 2 * dot_raw(v, n) * n.z,
    }
}

/// Reflection about an exactly-unit normal is an involution: mirroring the
/// untruncated image again returns the original vector, rescaled by the two
/// exact passes.
pub proof fn lemma_reflect_involution(v: V3, n: V3)
    requires
        norm2_raw(n) == (SCALE as int) * (SCALE as int),
    ensures
        reflect_raw(reflect_raw(v, n), n) == (V3 {
            x: (SCALE as int) * (SCALE as int) * (SCALE as int) * (SCALE as int) * v.x,
            y: (SCALE as int) * (SCALE as int) * (SCALE as int) * (SCALE as int) * v.y,
            z: (SCALE as int) * (SCALE as int) * (SCALE as int) * (SCALE as int) * v.z,
        }),
{
    let s2 = (SCALE as int) * (SCALE as int);
    let d = dot_raw(v, n);
    let w = reflect_raw(v, n);
    let e = s2 * d;
    assert((s2 * v.x - 2 * d * n.x) * n.x == s2 * (v.x * n.x) - 2 * d * (n.x * n.x))
        by (nonlinear_arith);
    assert((s2 * v.y - 2 * d * n.y) * n.y == s2 * (v.y * n.y) - 2 * d * (n.y * n.y))
        by (nonlinear_arith);
    assert((s2 * v.z - 2 * d * n.z) * n.z == s2 * (v.z * n.z) - 2 * d * (n.z * n.z))
        by (nonlinear_arith);
    assert(s2 * (v.x * n.x) + s2 * (v.y * n.y) + s2 * (v.z * n.z) == e) by (nonlinear_arith)
        requires
            d == v.x * n.x + v.y * n.y + v.z * n.z && e == s2 * d,
    ;
    assert(2 * d * (n.x * n.x) + 2 * d * (n.y * n.y) + 2 * d * (n.z * n.z) == 2 * e)
        by (nonlinear_arith)
        requires
            n.x * n.x + n.y * n.y + n.z * n.z == s2 && e == s2 * d,
    ;
    assert(dot_raw(w, n) == -e);
    assert(s2 * w.x == s2 * (s2 * v.x) - s2 * (2 * d * n.x)) by (nonlinear_arith)
        requires
            w.x == s2 * v.x - 2 * d * n.x,
    ;
    assert(s2 * w.y == s2 * (s2 * v.y) - s2 * (2 * d * n.y)) by (nonlinear_arith)
        requires
            w.y == s2 * v.y - 2 * d * n.y,
    ;
    assert(s2 * w.z == s2 * (s2 * v.z) - s2 * (2 * d * n.z)) by (nonlinear_arith)
        requires
            w.z == s2 * v.z - 2 * d * n.z,
    ;
    assert(s2 * (2 * d * n.x) == 2 * e * n.x) by (nonlinear_arith)
        requires
            e == s2 * d,
    ;
    assert(s2 * (2 * d * n.y) == 2 * e * n.y) by (nonlinear_arith)
        requires
            e == s2 * d,
    ;
    assert(s2 * (2 * d * n.z) == 2 * e * n.z) by (nonlinear_arith)
        requires
            e == s2 * d,
    ;
    assert(2 * (-e) * n.x == -(2 * e * n.x)) by (nonlinear_arith);
    assert(2 * (-e) * n.y == -(2 * e * n.y)) by (nonlinear_arith);
    assert(2 * (-e) * n.z == -(2 * e * n.z)) by (nonlinear_arith);
    assert(reflect_raw(w, n).x == s2 * (s2 * v.x));
    assert(reflect_raw(w, n).y == s2 * (s2 * v.y));
    assert(reflect_raw(w, n).z == s2 * (s2 * v.z));
    assert(s2 * (s2 * v.x) == (SCALE as int) * (SCALE as int) * (SCALE as int) * (SCALE as int)
        * v.x) by (nonlinear_arith)
        requires
            s2 == (SCALE as int) * (SCALE as int),
    ;
    assert(s2 * (s2 * v.y) == (SCALE as int) * (SCALE as int) * (SCALE as int) * (SCALE as int)
        * v.y) by (nonlinear_arith)
        requires
            s2 == (SCALE as int) * (SCALE as int),
    ;
    assert(s2 * (s2 * v.z) == (SCALE as int) * (SCALE as int) * (SCALE as int) * (SCALE as int)
        * v.z) by (nonlinear_arith)
        requires
            s2 == (SCALE as int) * (SCALE as int),
    ;
}

/// A normal aligned with one coordinate axis, of exactly unit length.
pub open spec fn axis_unit(n: V3) -> bool {
    ||| ((n.x == SCALE || n.x == -(SCALE as int)) && n.y == 0 && n.z == 0)
    ||| ((n.y == SCALE || n.y == -(SCALE as int)) && n.x == 0 && n.z == 0)
    ||| ((n.z == SCALE || n.z == -(SCALE as int)) && n.x == 0 && n.y == 0)
}

/// Against an axis-aligned unit normal every division in `reflect_v` is
/// exact: the mirror image just flips the aligned component.
pub proof fn lemma_reflect_axis_once(v: V3, n: V3)
    requires
        axis_unit(n),
    ensures
        (n.y == 0 && n.z == 0) ==> reflect_v(v, n) == (V3 { x: -v.x, y: v.y, z: v.z }),
        (n.x == 0 && n.z == 0) ==> reflect_v(v, n) == (V3 { x: v.x, y: -v.y, z: v.z }),
        (n.x == 0 && n.y == 0) ==> reflect_v(v, n) == (V3 { x: v.x, y: v.y, z: -v.z }),
{
    let s = SCALE as int;
    if n.y == 0 && n.z == 0 {
        if n.x == s {
            lemma_fdiv_exact(v.x, s);
            assert(dot_s(v, n) == v.x);
            lemma_fdiv_exact(2 * v.x, s);
            assert(fmul_s(2 * v.x, s) == 2 * v.x);
            lemma_fdiv_exact(0, s);
            assert(fmul_s(2 * v.x, 0) == 0) by {
                assert(2 * v.x * 0 == 0 * s) by (nonlinear_arith);
            }
        } else {
            assert(v.x * n.x == (-v.x) * s) by (nonlinear_arith)
                requires
                    n.x == -s,
            ;
            lemma_fdiv_exact(-v.x, s);
            assert(dot_s(v, n) == -v.x);
            assert(2 * (-v.x) * n.x == (2 * v.x) * s) by (nonlinear_arith)
                requires
                    n.x == -s,
            ;
            lemma_fdiv_exact(2 * v.x, s);
            assert(fmul_s(2 * dot_s(v, n), n.x) == 2 * v.x);
            lemma_fdiv_exact(0, s);
            assert(fmul_s(2 * dot_s(v, n), 0) == 0) by {
                assert(2 * (-v.x) * 0 == 0 * s) by (nonlinear_arith);
            }
        }
    } else if n.x == 0 && n.z == 0 {
        if n.y == s {
            lemma_fdiv_exact(v.y, s);
            lemma_fdiv_exact(2 * v.y, s);
            lemma_fdiv_exact(0, s);
            assert(fmul_s(2 * v.y, 0) == 0) by {
                assert(2 * v.y * 0 == 0 * s) by (nonlinear_arith);
            }
        } else {
            assert(v.y * n.y == (-v.y) * s) by (nonlinear_arith)
                requires
                    n.y == -s,
            ;
            lemma_fdiv_exact(-v.y, s);
            assert(2 * (-v.y) * n.y == (2 * v.y) * s) by (nonlinear_arith)
                requires
                    n.y == -s,
            ;
            lemma_fdiv_exact(2 * v.y, s);
            lemma_fdiv_exact(0, s);
            assert(fmul_s(2 * dot_s(v, n), 0) == 0) by {
                assert(2 * (-v.y) * 0 == 0 * s) by (nonlinear_arith);
            }
        }
    } else {
        if n.z == s {
            lemma_fdiv_exact(v.z, s);
            lemma_fdiv_exact(2 * v.z, s);
            lemma_fdiv_exact(0, s);
            assert(fmul_s(2 * v.z, 0) == 0) by {
                assert(2 * v.z * 0 == 0 * s) by (nonlinear_arith);
            }
        } else {
            assert(v.z * n.z == (-v.z) * s) by (nonlinear_arith)
                requires
                    n.z == -s,
            ;
            lemma_fdiv_exact(-v.z, s);
            assert(2 * (-v.z) * n.z == (2 * v.z) * s) by (nonlinear_arith)
                requires
                    n.z == -s,
            ;
            lemma_fdiv_exact(2 * v.z, s);
            lemma_fdiv_exact(0, s);
            assert(fmul_s(2 * dot_s(v, n), 0) == 0) by {
                assert(2 * (-v.z) * 0 == 0 * s) by (nonlinear_arith);
            }
        }
    }
}

/// The executable mirror is an exact involution against any axis-aligned
/// unit normal: reflecting twice returns the original vector unchanged.
pub proof fn lemma_reflect_involution_axis(v: V3, n: V3)
    requires
        axis_unit(n),
    ensures
        reflect_v(reflect_v(v, n), n) == v,
{
    lemma_reflect_axis_once(v, n);
    lemma_reflect_axis_once(reflect_v(v, n), n);
}

/// Bend `uv` through a boundary with normal `n` by Snell's law, with the
/// ratio of refraction indices given at scale.
pub open spec fn refract_v(uv: V3, n: V3, ratio: int) -> V3 {
    let cos = crate::fixed::min_i(dot_s(neg_v(uv), n), SCALE as int);
    let perp = scale_v(ratio, add_v(uv, scale_v(cos, n)));
    let k = (SCALE as int) - dot_s(perp, perp);
    let c = sqrt_floor(crate::fixed::abs_i(k) * (SCALE as int));
    add_v(perp, scale_v(-c, n))
}

/// Refract a unit direction at a boundary.
pub fn refract(uv: Vec3, n: Vec3, ratio: i64) -> (r: Vec3)
    requires
        bounded_v(uv@, 4 * (SCALE as int)),
        bounded_v(n@, 4 * (SCALE as int)),
        0 <= ratio <= 16 * SCALE,
    ensures
        r@ == refract_v(uv@, n@, ratio as int),
        bounded_v(r@, 0x2_0000_0000),
{
    let nuv: Vec3 = uv.neg();
    proof {
        lemma_dot_bound(nuv@, n@, 4 * (SCALE as int));
    }
    let d: i64 = dot(nuv, n);
    let cos: i64 = if d < SCALE {
        d
    } else {
        SCALE
    };
    proof {
        crate::fixed::lemma_fmul_bound(cos as int, n@.x, 0x310001, 0x40000);
        crate::fixed::lemma_fmul_bound(cos as int, n@.y, 0x310001, 0x40000);
        crate::fixed::lemma_fmul_bound(cos as int, n@.z, 0x310001, 0x40000);
    }
    let cn: Vec3 = n.scale(cos);
    let inner: Vec3 = uv.add(&cn);
    proof {
        crate::fixed::lemma_fmul_bound(ratio as int, inner@.x, 0x10_0000, 0xD0_0000);
        crate::fixed::lemma_fmul_bound(ratio as int, inner@.y, 0x10_0000, 0xD0_0000);
        crate::fixed::lemma_fmul_bound(ratio as int, inner@.z, 0x10_0000, 0xD0_0000);
    }
    let perp: Vec3 = inner.scale(ratio);
    proof {
        assert(bounded_v(perp@, 0xD00_0001));
    }
    let ls: i64 = perp.length_squared();
    proof {
        lemma_dot_bound(perp@, perp@, 0xD00_0001);
        lemma_norm2_nonneg(perp@);
        lemma_fdiv_bounds(norm2_raw(perp@), SCALE as int);
    }
    let k: i64 = SCALE - ls;
    let ak: i64 = if k >= 0 {
        k
    } else {
        -k
    };
    let c64: u64 = isqrt((ak as u128) * (SCALE as u128));
    proof {
        assert((c64 as int) * (c64 as int) <= (ak as int) * (SCALE as int) < ((c64 as int) + 1) * ((
        c64 as int) + 1));
        assert(c64 < 0x4000_0000) by (nonlinear_arith)
            requires
                (c64 as int) * (c64 as int) <= (ak as int) * (SCALE as int) && 0 <= ak
                    < 0x800_0000_0000 && SCALE == 0x1_0000 && c64 >= 0,
        ;
        lemma_sqrt_unique((ak as int) * (SCALE as int), c64 as int);
    }
    let c: i64 = c64 as i64;
    proof {
        crate::fixed::lemma_fmul_bound(-(c as int), n@.x, 0x4000_0000, 0x40000);
        crate::fixed::lemma_fmul_bound(-(c as int), n@.y, 0x4000_0000, 0x40000);
        crate::fixed::lemma_fmul_bound(-(c as int), n@.z, 0x4000_0000, 0x40000);
    }
    let par: Vec3 = n.scale(-c);
    perp.add(&par)
}

/// A random vector drawn from strictly inside the unit sphere.
pub fn rand_in_unit_sphere() -> (r: Vec3)
    ensures
        0 <= dot_s(r@, r@) < SCALE as int,
        bounded_v(r@, SCALE as int),
{
    let mut tries: u32 = 0;
    while tries < 64
        invariant
            true,
        decreases 64 - tries,
    {
        let p: Vec3 = Vec3::rand_range(-SCALE, SCALE);
        let ls: i64 = p.length_squared();
        if ls < SCALE {
            return p;
        }
        tries = tries + 1;
    }
    let fallback: Vec3 = Vec3::new(0x8000, 0, 0);
    proof {
        assert(dot_raw(fallback@, fallback@) == 0x4000_0000) by (nonlinear_arith)
            requires
                fallback@.x == 0x8000 && fallback@.y == 0 && fallback@.z == 0,
        ;
        assert(dot_s(fallback@, fallback@) == 0x4000);
    }
    fallback
}

/// A random direction of (approximately) unit length: an in-ball sample
/// of length at least one half, rescaled — smaller draws are rejected so
/// the rescaling floors keep the result within a few quanta of unit.
pub fn rand_unit_vec() -> (r: Vec3)
    ensures
        bounded_v(r@, SCALE as int),
        exists|p: V3|
            bounded_v(p, SCALE as int) && norm2_raw(p) >= 0x4000_0000 && r@ == unit_v(p),
{
    let mut tries: u32 = 0;
    while tries < 64
        invariant
            true,
        decreases 64 - tries,
    {
        let p: Vec3 = rand_in_unit_sphere();
        let ls: i64 = p.length_squared();
        if ls >= 16384 {
            proof {
                lemma_norm2_nonneg(p@);
                vstd::arithmetic::div_mod::lemma_fundamental_div_mod(
                    norm2_raw(p@),
                    SCALE as int,
                );
                assert(norm2_raw(p@) >= 0x4000_0000) by (nonlinear_arith)
                    requires
                        norm2_raw(p@) == (SCALE as int) * (ls as int) + norm2_raw(p@) % (
                        SCALE as int) && ls >= 16384 && norm2_raw(p@) % (SCALE as int) >= 0
                            && SCALE == 0x1_0000,
                ;
            }
            let u: Vec3 = unit_vec(p);
            proof {
                assert(bounded_v(p@, SCALE as int) && norm2_raw(p@) >= 0x4000_0000 && u@
                    == unit_v(p@));
            }
            return u;
        }
        tries = tries + 1;
    }
    let p: Vec3 = Vec3::new(SCALE, 0, 0);
    proof {
        assert(norm2_raw(p@) == (SCALE as int) * (SCALE as int));
        assert(is_sqrt(norm2_raw(p@), SCALE as int)) by (nonlinear_arith)
            requires
                norm2_raw(p@) == (SCALE as int) * (SCALE as int) && SCALE == 0x1_0000,
        ;
    }
    let u: Vec3 = unit_vec(p);
    proof {
        assert(bounded_v(p@, SCALE as int) && norm2_raw(p@) >= 1 && u@ == unit_v(p@));
    }
    u
}

} // verus!
