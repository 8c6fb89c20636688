//! The open cylindrical tube: the quadratic of the ray projected onto the
//! plane orthogonal to the axis, clipped to the axial span.
use crate::fixed::{div_floor, fdiv, fmul, fmul_s, lemma_fmul_bound, sqrt_floor, LIM, SCALE,
    T_FAR};
use crate::hittable::{face_front_s, face_normal_s, rec_matches, HitG, HitRecord};
use crate::material::{wf_material, Material};
use crate::ray::{ray_at_s, wf_ray, Ray, RayV};
use crate::vec3::{axis_unit, bounded_v, dot, dot_raw, dot_s, lemma_dot_bound2, norm2_raw,
    scale_v, sub_v, unit_v, unit_vec, wf_v, Point3, Vec3, V3};
use vstd::prelude::*;

verus! {

/// The infinite lateral surface of a cylinder, clipped to `[0, length]`
/// along the axis.
#[derive(Clone, Copy)]
pub struct CylinderTube {
    pub base: Point3,
    pub orientation: Vec3,
    pub length: i64,
    pub radius: i64,
    pub mat: Material,
}

/// Stored fields a hit test can run on.
pub open spec fn wf_tube(tb: CylinderTube) -> bool {
    &&& bounded_v(tb.base@, LIM as int)
    &&& bounded_v(tb.orientation@, 2 * (SCALE as int))
    &&& 0 <= tb.length <= LIM
    &&& 1 <= tb.radius <= LIM
    &&& wf_material(tb.mat)
}

/// The quadratic coefficients of the projected ray: `a t^2 + 2 b t + c`.
pub open spec fn tube_coeffs_s(tb: CylinderTube, r: RayV) -> (int, int, int) {
    let x = sub_v(r.ori, tb.base@);
    let da = dot_s(r.dir, tb.orientation@);
    let xa = dot_s(x, tb.orientation@);
    let a = dot_s(r.dir, r.dir) - fmul_s(da, da);
    let half_b = dot_s(r.dir, x) - fmul_s(da, xa);
    let c = dot_s(x, x) - fmul_s(xa, xa) - fmul_s(tb.radius as int, tb.radius as int);
    (a, half_b, c)
}

/// The nearest intersection with the tube inside the window: the projected
/// quadratic, smaller root preferred, clipped to the axial span, with
/// degenerate directions rejected.
pub open spec fn tube_hit_s(tb: CylinderTube, r: RayV, t_min: int, t_max: int) -> Option<HitG> {
    let x = sub_v(r.ori, tb.base@);
    let (a, half_b, c) = tube_coeffs_s(tb, r);
    let disc = half_b * half_b - a * c;
    if a == 0 || disc < 0 {
        None
    } else {
        let sq = sqrt_floor(disc);
        let root1 = fdiv((-half_b - sq) * (SCALE as int), a);
        let root2 = fdiv((-half_b + sq) * (SCALE as int), a);
        let root = if root1 <= t_min || t_max < root1 {
            root2
        } else {
            root1
        };
        if root <= t_min || t_max < root {
            None
        } else {
            let m = dot_s(r.dir, scale_v(root, tb.orientation@)) + dot_s(x, tb.orientation@);
            if m < 0 || m > tb.length {
                None
            } else {
                let p = ray_at_s(r, root);
                let od = sub_v(sub_v(p, tb.base@), scale_v(m, tb.orientation@));
                if od.x == 0 && od.y == 0 && od.z == 0 {
                    None
                } else {
                    let outward = unit_v(od);
                    Some(
                        HitG {
                            t: root,
                            p,
                            normal: face_normal_s(r.dir, outward),
                            front: face_front_s(r.dir, outward),
                            mat: tb.mat,
                        },
                    )
                }
            }
        }
    }
}

impl CylinderTube {
    /// Build a tube from any nonzero axis direction: the axis is rescaled
    /// to unit length.
    pub fn new(base: Point3, length: i64, radius: i64, orientation: Vec3, mat: Material) -> (r:
        CylinderTube)
        requires
            bounded_v(base@, LIM as int),
            wf_v(orientation@),
            norm2_raw(orientation@) >= 1,
            0 <= length <= LIM,
            1 <= radius <= LIM,
            wf_material(mat),
        ensures
            r.base == base,
            r.orientation@ == unit_v(orientation@),
            r.length == length,
            r.radius == radius,
            r.mat == mat,
            wf_tube(r),
    {
        CylinderTube { base, length, radius, orientation: unit_vec(orientation), mat }
    }

    /// Report the nearest intersection inside `(t_min, t_max]`, filling the
    /// record only on success.
    pub fn hit(&self, r: &Ray, t_min: i64, t_max: i64, rec: &mut HitRecord) -> (b: bool)
        requires
            wf_tube(*self),
            wf_ray(r@),
            -T_FAR <= t_min <= t_max <= T_FAR,
        ensures
            b <==> tube_hit_s(*self, r@, t_min as int, t_max as int) is Some,
            tube_hit_s(*self, r@, t_min as int, t_max as int) matches Some(h) ==> rec_matches(
                final(rec)@,
                h,
            ),
            b ==> t_min < final(rec)@.t <= t_max,
            !b ==> *final(rec) == *old(rec),
    {
        let x: Vec3 = r.origin().sub(&self.base);
        proof {
            lemma_dot_bound2(r@.dir, self.orientation@, 0x4000_0000, 0x2_0000);
            lemma_dot_bound2(x@, self.orientation@, 0x8000_0000, 0x2_0000);
            lemma_dot_bound2(r@.dir, r@.dir, 0x4000_0000, 0x4000_0000);
            lemma_dot_bound2(r@.dir, x@, 0x4000_0000, 0x8000_0000);
            lemma_dot_bound2(x@, x@, 0x8000_0000, 0x8000_0000);
        }
        let da: i64 = dot(r.direction(), self.orientation);
        let xa: i64 = dot(x, self.orientation);
        proof {
            lemma_fmul_bound(da as int, da as int, 0x1_8000_0001, 0x1_8000_0001);
            lemma_fmul_bound(da as int, xa as int, 0x1_8000_0001, 0x3_0000_0001);
            lemma_fmul_bound(xa as int, xa as int, 0x3_0000_0001, 0x3_0000_0001);
            lemma_fmul_bound(self.radius as int, self.radius as int, 0x4000_0000, 0x4000_0000);
        }
        let a: i64 = dot(r.direction(), r.direction()) - fmul(da, da);
        let half_b: i64 = dot(r.direction(), x) - fmul(da, xa);
        let c: i64 = dot(x, x) - fmul(xa, xa) - fmul(self.radius, self.radius);
        if a == 0 {
            return false;
        }
        proof {
            crate::fixed::lemma_mul_bound(
                half_b as int,
                half_b as int,
                0x5_0000_0000_0000,
                0x5_0000_0000_0000,
            );
            crate::fixed::lemma_mul_bound(a as int, c as int, 0x3_0000_0000_0000, 0xA_0000_0000_0000);
        }
        let disc: i128 = (half_b as i128) * (half_b as i128) - (a as i128) * (c as i128);
        if disc < 0 {
            return false;
        }
        let sq128: u64 = crate::fixed::isqrt(disc as u128);
        proof {
            assert((sq128 as int) * (sq128 as int) <= disc < ((sq128 as int) + 1) * ((
            sq128 as int) + 1));
            assert(sq128 < 0x10_0000_0000_0000) by (nonlinear_arith)
                requires
                    (sq128 as int) * (sq128 as int) <= disc
                        < 0x100_0000_0000_0000_0000_0000_0000 && sq128 >= 0,
            ;
        }
        let sq: i128 = sq128 as i128;
        proof {
            assert(-0x20_0000_0000_0000 * 0x1_0000 <= (-(half_b as int) - (sq as int)) * (
            SCALE as int) <= 0x20_0000_0000_0000 * 0x1_0000) by (nonlinear_arith)
                requires
                    -0x5_0000_0000_0000 <= half_b <= 0x5_0000_0000_0000 && 0 <= sq
                        < 0x10_0000_0000_0000 && SCALE == 0x1_0000,
            ;
            assert(-0x20_0000_0000_0000 * 0x1_0000 <= (-(half_b as int) + (sq as int)) * (
            SCALE as int) <= 0x20_0000_0000_0000 * 0x1_0000) by (nonlinear_arith)
                requires
                    -0x5_0000_0000_0000 <= half_b <= 0x5_0000_0000_0000 && 0 <= sq
                        < 0x10_0000_0000_0000 && SCALE == 0x1_0000,
            ;
        }
        let root1: i128 = div_floor((-(half_b as i128) - sq) * (SCALE as i128), a as i128);
        let root2: i128 = div_floor((-(half_b as i128) + sq) * (SCALE as i128), a as i128);
        let root128: i128 = if root1 <= t_min as i128 || (t_max as i128) < root1 {
            root2
        } else {
            root1
        };
        if root128 <= t_min as i128 || (t_max as i128) < root128 {
            return false;
        }
        let root: i64 = root128 as i64;
        proof {
            lemma_fmul_bound(root as int, self.orientation@.x, 0x100_0000_0000, 0x2_0000);
            lemma_fmul_bound(root as int, self.orientation@.y, 0x100_0000_0000, 0x2_0000);
            lemma_fmul_bound(root as int, self.orientation@.z, 0x100_0000_0000, 0x2_0000);
        }
        let axial: Vec3 = self.orientation.scale(root);
        proof {
            lemma_dot_bound2(r@.dir, axial@, 0x4000_0000, 0x200_0000_0001);
        }
        let m: i64 = dot(r.direction(), axial) + xa;
        if m < 0 || m > self.length {
            return false;
        }
        let p: Point3 = r.at(root);
        proof {
            lemma_fmul_bound(m as int, self.orientation@.x, 0x4000_0000, 0x2_0000);
            lemma_fmul_bound(m as int, self.orientation@.y, 0x4000_0000, 0x2_0000);
            lemma_fmul_bound(m as int, self.orientation@.z, 0x4000_0000, 0x2_0000);
        }
        let od: Vec3 = p.sub(&self.base).sub(&self.orientation.scale(m));
        if od.near_zero() {
            return false;
        }
        proof {
            crate::vec3::lemma_norm2_nonneg(od@);
            assert(norm2_raw(od@) >= 1) by (nonlinear_arith)
                requires
                    (od@.x != 0 || od@.y != 0 || od@.z != 0) && norm2_raw(od@) == od@.x * od@.x
                        + od@.y * od@.y + od@.z * od@.z,
            ;
        }
        let outward: Vec3 = unit_vec(od);
        rec.t = root;
        rec.p = p;
        rec.set_face_normal(r, outward);
        rec.mat = Some(self.mat);
        true
    }
}

/// A ray running exactly along an axis-aligned tube's axis never strikes
/// the lateral surface: the projected quadratic degenerates to zero. The
/// statement is restricted to axis-aligned unit axes on purpose: there
/// the floored projections cancel exactly, while for an arbitrary unit
/// axis the cancellation can miss by a few quanta and leave a nonzero
/// leading coefficient.
pub proof fn lemma_tube_axis_parallel(tb: CylinderTube, r: RayV, t_min: int, t_max: int)
    requires
        axis_unit(tb.orientation@),
        (tb.orientation@.y == 0 && tb.orientation@.z == 0) ==> (r.dir.y == 0 && r.dir.z == 0),
        (tb.orientation@.x == 0 && tb.orientation@.z == 0) ==> (r.dir.x == 0 && r.dir.z == 0),
        (tb.orientation@.x == 0 && tb.orientation@.y == 0) ==> (r.dir.x == 0 && r.dir.y == 0),
    ensures
        tube_hit_s(tb, r, t_min, t_max) is None,
{
    let s = SCALE as int;
    let u = tb.orientation@;
    let d = r.dir;
    if u.y == 0 && u.z == 0 {
        assert(dot_raw(d, d) == d.x * d.x) by (nonlinear_arith)
            requires
                d.y == 0 && d.z == 0 && dot_raw(d, d) == d.x * d.x + d.y * d.y + d.z * d.z,
        ;
        assert(d.x * u.x == d.x * u.x + d.y * u.y + d.z * u.z) by (nonlinear_arith)
            requires
                d.y == 0 && d.z == 0 && u.y == 0 && u.z == 0,
        ;
        if u.x == s {
            assert(d.x * u.x == d.x * s) by (nonlinear_arith)
                requires
                    u.x == s,
            ;
            crate::fixed::lemma_fdiv_exact(d.x, s);
            assert(dot_s(d, u) == d.x);
            assert(fmul_s(d.x, d.x) == fdiv(d.x * d.x, s));
        } else {
            assert(d.x * u.x == (-d.x) * s) by (nonlinear_arith)
                requires
                    u.x == -s,
            ;
            crate::fixed::lemma_fdiv_exact(-d.x, s);
            assert(dot_s(d, u) == -d.x);
            assert((-d.x) * (-d.x) == d.x * d.x) by (nonlinear_arith);
            assert(fmul_s(-d.x, -d.x) == fdiv(d.x * d.x, s));
        }
        assert(tube_coeffs_s(tb, r).0 == 0);
    } else if u.x == 0 && u.z == 0 {
        assert(dot_raw(d, d) == d.y * d.y) by (nonlinear_arith)
            requires
                d.x == 0 && d.z == 0 && dot_raw(d, d) == d.x * d.x + d.y * d.y + d.z * d.z,
        ;
        assert(d.y * u.y == d.x * u.x + d.y * u.y + d.z * u.z) by (nonlinear_arith)
            requires
                d.x == 0 && d.z == 0 && u.x == 0 && u.z == 0,
        ;
        if u.y == s {
            assert(d.y * u.y == d.y * s) by (nonlinear_arith)
                requires
                    u.y == s,
            ;
            crate::fixed::lemma_fdiv_exact(d.y, s);
            assert(fmul_s(d.y, d.y) == fdiv(d.y * d.y, s));
        } else {
            assert(d.y * u.y == (-d.y) * s) by (nonlinear_arith)
                requires
                    u.y == -s,
            ;
            crate::fixed::lemma_fdiv_exact(-d.y, s);
            assert((-d.y) * (-d.y) == d.y * d.y) by (nonlinear_arith);
            assert(fmul_s(-d.y, -d.y) == fdiv(d.y * d.y, s));
        }
        assert(tube_coeffs_s(tb, r).0 == 0);
    } else {
        assert(dot_raw(d, d) == d.z * d.z) by (nonlinear_arith)
            requires
                d.x == 0 && d.y == 0 && dot_raw(d, d) == d.x * d.x + d.y * d.y + d.z * d.z,
        ;
        assert(d.z * u.z == d.x * u.x + d.y * u.y + d.z * u.z) by (nonlinear_arith)
            requires
                d.x == 0 && d.y == 0 && u.x == 0 && u.y == 0,
        ;
        if u.z == s {
            assert(d.z * u.z == d.z * s) by (nonlinear_arith)
                requires
                    u.z == s,
            ;
            crate::fixed::lemma_fdiv_exact(d.z, s);
            assert(fmul_s(d.z, d.z) == fdiv(d.z * d.z, s));
        } else {
            assert(d.z * u.z == (-d.z) * s) by (nonlinear_arith)
                requires
                    u.z == -s,
            ;
            crate::fixed::lemma_fdiv_exact(-d.z, s);
            assert((-d.z) * (-d.z) == d.z * d.z) by (nonlinear_arith);
            assert(fmul_s(-d.z, -d.z) == fdiv(d.z * d.z, s));
        }
        assert(tube_coeffs_s(tb, r).0 == 0);
    }
}

} // verus!
