//! The square: a plane hit clipped to an oriented box in the plane,
//! spanned by a rotated in-plane basis.
use crate::fixed::{abs_i, div_floor, fdiv, fdiv_fx, fdiv_fx_s, lemma_fdiv_bounds,
    lemma_fmul_bound, LIM, SCALE, T_FAR};
use crate::hittable::{face_front_s, face_normal_s, rec_matches, HitG, HitRecord};
use crate::material::{wf_material, Material};
use crate::ray::{ray_at_s, wf_ray, Ray, RayV};
use crate::utils::near_zero;
use crate::vec3::{add_v, bounded_v, cross, cross_v, dot, dot_s, lemma_cross_bound,
    lemma_dot_bound2, len_raw, neg_v, norm2_raw, scale_v, sub_v, unit_v, unit_vec, wf_v, Point3,
    Vec3, V3};
use vstd::prelude::*;

verus! {

/// The threshold on a unit normal's first component (nine tenths of a
/// unit) above which the fallback axis switches from x to y.
pub const AXIS_SWITCH: i64 = 58982;

/// A square: the part of a plane within `size` of an anchor point along
/// both of two in-plane basis vectors.
#[derive(Clone, Copy)]
pub struct Square {
    pub norm: Vec3,
    pub dist: i64,
    pub proj: Point3,
    pub size: i64,
    pub base_u: Vec3,
    pub base_v: Vec3,
    pub mat: Material,
}

/// Stored fields a hit test can run on.
pub open spec fn wf_square(sq: Square) -> bool {
    &&& bounded_v(sq.norm@, 2 * (SCALE as int))
    &&& -0x4000_0000_0000 <= sq.dist <= 0x4000_0000_0000
    &&& bounded_v(sq.proj@, 0x8000_0000_0000)
    &&& 0 <= sq.size <= LIM
    &&& bounded_v(sq.base_u@, 0x8_0000)
    &&& bounded_v(sq.base_v@, 0x8_0000)
    &&& wf_material(sq.mat)
}

/// The fallback axis used to seed the in-plane basis: y when the normal
/// leans along x, x otherwise.
pub open spec fn fallback_axis_s(un: V3) -> V3 {
    if abs_i(un.x) > AXIS_SWITCH {
        V3 { x: 0, y: SCALE as int, z: 0 }
    } else {
        V3 { x: SCALE as int, y: 0, z: 0 }
    }
}

/// The first in-plane basis vector before rotation: the normalized cross
/// of the normal with the fallback axis, or the fallback axis itself in
/// the degenerate parallel case.
pub open spec fn base_u0_s(un: V3) -> V3 {
    let cr = cross_v(un, fallback_axis_s(un));
    if cr.x == 0 && cr.y == 0 && cr.z == 0 {
        fallback_axis_s(un)
    } else {
        unit_v(cr)
    }
}

/// The nearest intersection with the square inside the window: the plane
/// solve, then the oriented two-dimensional bounding test.
pub open spec fn square_hit_s(sq: Square, r: RayV, t_min: int, t_max: int) -> Option<HitG> {
    let num = dot_s(sq.norm@, r.ori) + sq.dist;
    let den = dot_s(sq.norm@, r.dir);
    if den == 0 {
        None
    } else {
        let root = fdiv(-num * (SCALE as int), den);
        if root <= t_min || root > t_max {
            None
        } else {
            let p = ray_at_s(r, root);
            let rel = sub_v(p, sq.proj@);
            let x = dot_s(rel, sq.base_u@);
            let y = dot_s(rel, sq.base_v@);
            if abs_i(x) > sq.size || abs_i(y) > sq.size {
                None
            } else {
                Some(
                    HitG {
                        t: root,
                        p,
                        normal: face_normal_s(r.dir, sq.norm@),
                        front: face_front_s(r.dir, sq.norm@),
                        mat: sq.mat,
                    },
                )
            }
        }
    }
}

impl Square {
    /// Build a square from any nonzero normal, an anchor point, a
    /// half-size, and an in-plane rotation given by its cosine and sine at
    /// scale (computed by the caller from the angle).
    pub fn new(
        norm: Vec3,
        dist: i64,
        point: Point3,
        size: i64,
        cos_t: i64,
        sin_t: i64,
        mat: Material,
    ) -> (r: Square)
        requires
            wf_v(norm@),
            norm2_raw(norm@) >= 1,
            -LIM <= dist <= LIM,
            bounded_v(point@, 0x1_0000_0000),
            0 <= size <= LIM,
            -SCALE <= cos_t <= SCALE,
            -SCALE <= sin_t <= SCALE,
            wf_material(mat),
        ensures
            r.norm@ == unit_v(norm@),
            r.dist == fdiv_fx_s(dist as int, len_raw(norm@)),
            r.proj@ == sub_v(
                point@,
                scale_v(dot_s(unit_v(norm@), point@) + r.dist, unit_v(norm@)),
            ),
            r.size == size,
            r.base_u@ == add_v(
                scale_v(cos_t as int, base_u0_s(unit_v(norm@))),
                scale_v(sin_t as int, cross_v(unit_v(norm@), base_u0_s(unit_v(norm@)))),
            ),
            r.base_v@ == add_v(
                scale_v(-(sin_t as int), base_u0_s(unit_v(norm@))),
                scale_v(cos_t as int, cross_v(unit_v(norm@), base_u0_s(unit_v(norm@)))),
            ),
            r.mat == mat,
            wf_square(r),
    {
        let un: Vec3 = unit_vec(norm);
        let l: i64 = norm.length();
        proof {
            if l == 0 {
                assert(norm2_raw(norm@) < 1) by (nonlinear_arith)
                    requires
                        l == 0 && norm2_raw(norm@) < ((l as int) + 1) * ((l as int) + 1),
                ;
            }
            lemma_fdiv_bounds((dist as int) * (SCALE as int), l as int);
        }
        let ud: i64 = fdiv_fx(dist, l);
        proof {
            lemma_dot_bound2(un@, point@, 0x1_0000, 0x1_0000_0000);
        }
        let signed: i64 = dot(un, point) + ud;
        proof {
            lemma_fmul_bound(signed as int, un@.x, 0x4004_0000_0001, 0x1_0000);
            lemma_fmul_bound(signed as int, un@.y, 0x4004_0000_0001, 0x1_0000);
            lemma_fmul_bound(signed as int, un@.z, 0x4004_0000_0001, 0x1_0000);
        }
        let proj: Point3 = point.sub(&un.scale(signed));
        let ax: i64 = if un.x >= 0 {
            un.x
        } else {
            -un.x
        };
        let temp: Vec3 = if ax > AXIS_SWITCH {
            Vec3::new(0, SCALE, 0)
        } else {
            Vec3::new(SCALE, 0, 0)
        };
        proof {
            lemma_cross_bound(un@, temp@, 0x1_0000, 0x1_0000);
        }
        let cr: Vec3 = cross(un, temp);
        let u0: Vec3 = if cr.near_zero() {
            temp
        } else {
            proof {
                crate::vec3::lemma_norm2_nonneg(cr@);
                assert(norm2_raw(cr@) >= 1) by (nonlinear_arith)
                    requires
                        (cr@.x != 0 || cr@.y != 0 || cr@.z != 0) && norm2_raw(cr@) == cr@.x * cr@.x
                            + cr@.y * cr@.y + cr@.z * cr@.z,
                ;
            }
            unit_vec(cr)
        };
        proof {
            assert(u0@ == base_u0_s(unit_v(norm@)));
            lemma_cross_bound(un@, u0@, 0x1_0000, 0x2_0001);
        }
        let v0: Vec3 = cross(un, u0);
        proof {
            lemma_fmul_bound(cos_t as int, u0@.x, 0x1_0000, 0x2_0001);
            lemma_fmul_bound(cos_t as int, u0@.y, 0x1_0000, 0x2_0001);
            lemma_fmul_bound(cos_t as int, u0@.z, 0x1_0000, 0x2_0001);
            lemma_fmul_bound(sin_t as int, v0@.x, 0x1_0000, 0x4_0003);
            lemma_fmul_bound(sin_t as int, v0@.y, 0x1_0000, 0x4_0003);
            lemma_fmul_bound(sin_t as int, v0@.z, 0x1_0000, 0x4_0003);
            lemma_fmul_bound(-(sin_t as int), u0@.x, 0x1_0000, 0x2_0001);
            lemma_fmul_bound(-(sin_t as int), u0@.y, 0x1_0000, 0x2_0001);
            lemma_fmul_bound(-(sin_t as int), u0@.z, 0x1_0000, 0x2_0001);
            lemma_fmul_bound(cos_t as int, v0@.x, 0x1_0000, 0x4_0003);
            lemma_fmul_bound(cos_t as int, v0@.y, 0x1_0000, 0x4_0003);
            lemma_fmul_bound(cos_t as int, v0@.z, 0x1_0000, 0x4_0003);
        }
        let base_u: Vec3 = u0.scale(cos_t).add(&v0.scale(sin_t));
        let base_v: Vec3 = u0.scale(-sin_t).add(&v0.scale(cos_t));
        Square { norm: un, dist: ud, proj, size, base_u, base_v, mat }
    }

    /// Report the nearest intersection inside `(t_min, t_max]`, filling the
    /// record only on success.
    pub fn hit(&self, r: &Ray, t_min: i64, t_max: i64, rec: &mut HitRecord) -> (b: bool)
        requires
            wf_square(*self),
            wf_ray(r@),
            -T_FAR <= t_min <= t_max <= T_FAR,
        ensures
            b <==> square_hit_s(*self, r@, t_min as int, t_max as int) is Some,
            square_hit_s(*self, r@, t_min as int, t_max as int) matches Some(h) ==> rec_matches(
                final(rec)@,
                h,
            ),
            b ==> t_min < final(rec)@.t <= t_max,
            !b ==> *final(rec) == *old(rec),
    {
        proof {
            lemma_dot_bound2(self.norm@, r@.ori, 0x2_0000, 0x4000_0000);
            lemma_dot_bound2(self.norm@, r@.dir, 0x2_0000, 0x4000_0000);
        }
        let num: i64 = dot(self.norm, r.origin()) + self.dist;
        let den: i64 = dot(self.norm, r.direction());
        if near_zero(den) {
            return false;
        }
        proof {
            assert(-0x8000_0000_0000_0000 <= -(num as int) * (SCALE as int)
                <= 0x8000_0000_0000_0000) by (nonlinear_arith)
                requires
                    -0x8000_0000_0000 <= num <= 0x8000_0000_0000 && SCALE == 0x1_0000,
            ;
        }
        let root128: i128 = div_floor(-(num as i128) * (SCALE as i128), den as i128);
        if root128 <= t_min as i128 || root128 > t_max as i128 {
            return false;
        }
        let root: i64 = root128 as i64;
        let p: Point3 = r.at(root);
        let rel: Vec3 = p.sub(&self.proj);
        proof {
            lemma_dot_bound2(rel@, self.base_u@, 0x100_8000_0000_0000, 0x8_0000);
            lemma_dot_bound2(rel@, self.base_v@, 0x100_8000_0000_0000, 0x8_0000);
        }
        let x: i64 = dot(rel, self.base_u);
        let y: i64 = dot(rel, self.base_v);
        let axv: i64 = if x >= 0 {
            x
        } else {
            -x
        };
        let ayv: i64 = if y >= 0 {
            y
        } else {
            -y
        };
        if axv > self.size || ayv > self.size {
            return false;
        }
        rec.t = root;
        rec.p = p;
        rec.set_face_normal(r, self.norm);
        rec.mat = Some(self.mat);
        true
    }
}

} // verus!
