//! The disk: a plane hit clipped to a radius around a center.
use crate::fixed::{div_floor, fdiv, fdiv_fx, fdiv_fx_s, lemma_fdiv_bounds, lemma_fmul_bound, LIM,
    SCALE, T_FAR};
use crate::hittable::{face_front_s, face_normal_s, rec_matches, HitG, HitRecord};
use crate::material::{wf_material, Material};
use crate::ray::{ray_at_s, wf_ray, Ray, RayV};
use crate::utils::near_zero;
use crate::vec3::{bounded_v, dot, dot_raw, dot_raw_wide, dot_s, lemma_dot_bound2, len_raw,
    norm2_raw, scale_v, sub_v, unit_v, unit_vec, wf_v, Point3, Vec3};
use vstd::prelude::*;

verus! {

/// A flat disk: the part of a plane within `radius` of `center`.
#[derive(Clone, Copy)]
pub struct Disk {
    pub norm: Vec3,
    pub dist: i64,
    pub center: Point3,
    pub radius: i64,
    pub mat: Material,
}

/// Stored fields a hit test can run on.
pub open spec fn wf_disk(d: Disk) -> bool {
    &&& bounded_v(d.norm@, 2 * (SCALE as int))
    &&& -0x4000_0000_0000 <= d.dist <= 0x4000_0000_0000
    &&& bounded_v(d.center@, 0x8000_0000_0000)
    &&& 0 <= d.radius <= LIM
    &&& wf_material(d.mat)
}

/// The nearest intersection with the disk inside the window: the plane
/// solve, then the exact squared-distance test against the radius.
pub open spec fn disk_hit_s(dk: Disk, r: RayV, t_min: int, t_max: int) -> Option<HitG> {
    let num = dot_s(dk.norm@, r.ori) + dk.dist;
    let den = dot_s(dk.norm@, r.dir);
    if den == 0 {
        None
    } else {
        let root = fdiv(-num * (SCALE as int), den);
        if root <= t_min || root > t_max {
            None
        } else {
            let p = ray_at_s(r, root);
            let v = sub_v(p, dk.center@);
            if dot_raw(v, v) > dk.radius * dk.radius {
                None
            } else {
                Some(
                    HitG {
                        t: root,
                        p,
                        normal: face_normal_s(r.dir, dk.norm@),
                        front: face_front_s(r.dir, dk.norm@),
                        mat: dk.mat,
                    },
                )
            }
        }
    }
}

impl Disk {
    /// Build a disk from any nonzero normal and any point: the normal and
    /// distance are normalized, and the center is the point's projection
    /// onto the plane.
    pub fn new(norm: Vec3, dist: i64, point: Point3, radius: i64, mat: Material) -> (r: Disk)
        requires
            wf_v(norm@),
            norm2_raw(norm@) >= 1,
            -LIM <= dist <= LIM,
            bounded_v(point@, 0x1_0000_0000),
            0 <= radius <= LIM,
            wf_material(mat),
        ensures
            r.norm@ == unit_v(norm@),
            r.dist == fdiv_fx_s(dist as int, len_raw(norm@)),
            r.center@ == sub_v(point@, scale_v(dot_s(unit_v(norm@), point@) + r.dist, unit_v(norm@))),
            r.radius == radius,
            r.mat == mat,
            wf_disk(r),
    {
        let un: Vec3 = unit_vec(norm);
        let l: i64 = norm.length();
        proof {
            if l == 0 {
                assert(norm2_raw(norm@) < 1) by (nonlinear_arith)
                    requires
                        l == 0 && norm2_raw(norm@) < ((l as int) + 1) * ((l as int) + 1),
                ;
            }
            lemma_fdiv_bounds((dist as int) * (SCALE as int), l as int);
        }
        let ud: i64 = fdiv_fx(dist, l);
        proof {
            lemma_dot_bound2(un@, point@, 0x1_0000, 0x1_0000_0000);
        }
        let signed: i64 = dot(un, point) + ud;
        proof {
            lemma_fmul_bound(signed as int, un@.x, 0x4004_0000_0001, 0x1_0000);
            lemma_fmul_bound(signed as int, un@.y, 0x4004_0000_0001, 0x1_0000);
            lemma_fmul_bound(signed as int, un@.z, 0x4004_0000_0001, 0x1_0000);
        }
        let center: Point3 = point.sub(&un.scale(signed));
        Disk { norm: un, dist: ud, center, radius, mat }
    }

    /// Report the nearest intersection inside `(t_min, t_max]`, filling the
    /// record only on success.
    pub fn hit(&self, r: &Ray, t_min: i64, t_max: i64, rec: &mut HitRecord) -> (b: bool)
        requires
            wf_disk(*self),
            wf_ray(r@),
            -T_FAR <= t_min <= t_max <= T_FAR,
        ensures
            b <==> disk_hit_s(*self, r@, t_min as int, t_max as int) is Some,
            disk_hit_s(*self, r@, t_min as int, t_max as int) matches Some(h) ==> rec_matches(
                final(rec)@,
                h,
            ),
            b ==> t_min < final(rec)@.t <= t_max,
            !b ==> *final(rec) == *old(rec),
    {
        proof {
            lemma_dot_bound2(self.norm@, r@.ori, 0x2_0000, 0x4000_0000);
            lemma_dot_bound2(self.norm@, r@.dir, 0x2_0000, 0x4000_0000);
        }
        let num: i64 = dot(self.norm, r.origin()) + self.dist;
        let den: i64 = dot(self.norm, r.direction());
        if near_zero(den) {
            return false;
        }
        proof {
            assert(-0x8000_0000_0000_0000 <= -(num as int) * (SCALE as int)
                <= 0x8000_0000_0000_0000) by (nonlinear_arith)
                requires
                    -0x8000_0000_0000 <= num <= 0x8000_0000_0000 && SCALE == 0x1_0000,
            ;
        }
        let root128: i128 = div_floor(-(num as i128) * (SCALE as i128), den as i128);
        if root128 <= t_min as i128 || root128 > t_max as i128 {
            return false;
        }
        let root: i64 = root128 as i64;
        let p: Point3 = r.at(root);
        let v: Vec3 = p.sub(&self.center);
        let n2: i128 = dot_raw_wide(&v, &v);
        proof {
            crate::fixed::lemma_mul_bound(
                self.radius as int,
                self.radius as int,
                0x4000_0000,
                0x4000_0000,
            );
        }
        if n2 > (self.radius as i128) * (self.radius as i128) {
            return false;
        }
        rec.t = root;
        rec.p = p;
        rec.set_face_normal(r, self.norm);
        rec.mat = Some(self.mat);
        true
    }
}

} // verus!
