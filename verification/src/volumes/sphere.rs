//! The sphere: the classic quadratic solve, preferring the nearer root.
use crate::fixed::{div_floor, fdiv, fmul_s, lemma_fmul_bound, lemma_sqrt_unique, sqrt_floor,
    LIM, SCALE, T_FAR};
use crate::hittable::{face_front_s, face_normal_s, rec_matches, HitG, HitRecord};
use crate::material::{wf_material, Material};
use crate::ray::{ray_at_s, wf_ray, Ray, RayV};
use crate::vec3::{bounded_v, div_t_v, dot, dot_s, lemma_dot_bound2, sub_v, Point3, Vec3, V3};
use vstd::prelude::*;

verus! {

/// A sphere given by its center and radius.
#[derive(Clone, Copy)]
pub struct Sphere {
    pub center: Point3,
    pub radius: i64,
    pub mat: Material,
}

/// Stored fields a hit test can run on; the radius is at least one
/// quantum so the outward normal's division is defined.
pub open spec fn wf_sphere(s: Sphere) -> bool {
    &&& bounded_v(s.center@, LIM as int)
    &&& 1 <= s.radius <= LIM
    &&& wf_material(s.mat)
}

/// The quadratic's discriminant, kept exact at scale `SCALE * SCALE`.
pub open spec fn sphere_disc_s(s: Sphere, r: RayV) -> int {
    let oc = sub_v(r.ori, s.center@);
    let a = dot_s(r.dir, r.dir);
    let half_b = dot_s(oc, r.dir);
    let c = dot_s(oc, oc) - fmul_s(s.radius as int, s.radius as int);
    half_b * half_b - a * c
}

/// The nearest intersection with the sphere inside the window: the
/// quadratic solve, smaller root preferred, with degenerate directions
/// and out-of-range normals rejected.
pub open spec fn sphere_hit_s(s: Sphere, r: RayV, t_min: int, t_max: int) -> Option<HitG> {
    let oc = sub_v(r.ori, s.center@);
    let a = dot_s(r.dir, r.dir);
    let half_b = dot_s(oc, r.dir);
    let disc = sphere_disc_s(s, r);
    if a == 0 || disc < 0 {
        None
    } else {
        let sq = sqrt_floor(disc);
        let root1 = fdiv((-half_b - sq) * (SCALE as int), a);
        let root2 = fdiv((-half_b + sq) * (SCALE as int), a);
        let root = if root1 <= t_min || t_max < root1 {
            root2
        } else {
            root1
        };
        if root <= t_min || t_max < root {
            None
        } else {
            let p = ray_at_s(r, root);
            let outward = div_t_v(sub_v(p, s.center@), s.radius as int);
            if !bounded_v(outward, LIM as int) {
                None
            } else {
                Some(
                    HitG {
                        t: root,
                        p,
                        normal: face_normal_s(r.dir, outward),
                        front: face_front_s(r.dir, outward),
                        mat: s.mat,
                    },
                )
            }
        }
    }
}

impl Sphere {
    pub fn new(center: Point3, radius: i64, mat: Material) -> (r: Sphere)
        requires
            bounded_v(center@, LIM as int),
            1 <= radius <= LIM,
            wf_material(mat),
        ensures
            r.center == center,
            r.radius == radius,
            r.mat == mat,
            wf_sphere(r),
    {
        Sphere { center, radius, mat }
    }

    /// Report the nearest intersection inside `(t_min, t_max]`, filling the
    /// record only on success.
    pub fn hit(&self, r: &Ray, t_min: i64, t_max: i64, rec: &mut HitRecord) -> (b: bool)
        requires
            wf_sphere(*self),
            wf_ray(r@),
            -T_FAR <= t_min <= t_max <= T_FAR,
        ensures
            b <==> sphere_hit_s(*self, r@, t_min as int, t_max as int) is Some,
            sphere_hit_s(*self, r@, t_min as int, t_max as int) matches Some(h) ==> rec_matches(
                final(rec)@,
                h,
            ),
            b ==> t_min < final(rec)@.t <= t_max,
            !b ==> *final(rec) == *old(rec),
    {
        let oc: Vec3 = r.origin().sub(&self.center);
        proof {
            lemma_dot_bound2(r@.dir, r@.dir, 0x4000_0000, 0x4000_0000);
            lemma_dot_bound2(oc@, r@.dir, 0x8000_0000, 0x4000_0000);
            lemma_dot_bound2(oc@, oc@, 0x8000_0000, 0x8000_0000);
            lemma_fmul_bound(self.radius as int, self.radius as int, 0x4000_0000, 0x4000_0000);
        }
        let a: i64 = dot(r.direction(), r.direction());
        let half_b: i64 = dot(oc, r.direction());
        let c: i64 = dot(oc, oc) - crate::fixed::fmul(self.radius, self.radius);
        if a == 0 {
            return false;
        }
        proof {
            crate::fixed::lemma_mul_bound(
                half_b as int,
                half_b as int,
                0x6000_0000_0001,
                0x6000_0000_0001,
            );
            crate::fixed::lemma_mul_bound(a as int, c as int, 0x3000_0000_0001, 0x1_4000_0000_0002);
        }
        let disc: i128 = (half_b as i128) * (half_b as i128) - (a as i128) * (c as i128);
        if disc < 0 {
            return false;
        }
        let sq128: u64 = crate::fixed::isqrt(disc as u128);
        proof {
            assert((sq128 as int) * (sq128 as int) <= disc < ((sq128 as int) + 1) * ((
            sq128 as int) + 1));
            assert(sq128 < 0x10_0000_0000_0000) by (nonlinear_arith)
                requires
                    (sq128 as int) * (sq128 as int) <= disc
                        < 0x8000_0000_0000_0000_0000_0000 && sq128 >= 0,
            ;
            lemma_sqrt_unique(disc as int, sq128 as int);
        }
        let sq: i128 = sq128 as i128;
        proof {
            assert(-0x20_0000_0000_0000 * 0x1_0000 <= (-(half_b as int) - (sq as int)) * (
            SCALE as int) <= 0x20_0000_0000_0000 * 0x1_0000) by (nonlinear_arith)
                requires
                    -0x6000_0000_0001 <= half_b <= 0x6000_0000_0001 && 0 <= sq
                        < 0x10_0000_0000_0000 && SCALE == 0x1_0000,
            ;
            assert(-0x20_0000_0000_0000 * 0x1_0000 <= (-(half_b as int) + (sq as int)) * (
            SCALE as int) <= 0x20_0000_0000_0000 * 0x1_0000) by (nonlinear_arith)
                requires
                    -0x6000_0000_0001 <= half_b <= 0x6000_0000_0001 && 0 <= sq
                        < 0x10_0000_0000_0000 && SCALE == 0x1_0000,
            ;
        }
        let root1: i128 = div_floor((-(half_b as i128) - sq) * (SCALE as i128), a as i128);
        let root2: i128 = div_floor((-(half_b as i128) + sq) * (SCALE as i128), a as i128);
        let root128: i128 = if root1 <= t_min as i128 || (t_max as i128) < root1 {
            root2
        } else {
            root1
        };
        if root128 <= t_min as i128 || (t_max as i128) < root128 {
            return false;
        }
        let root: i64 = root128 as i64;
        let p: Point3 = r.at(root);
        let off: Vec3 = p.sub(&self.center);
        proof {
            crate::fixed::lemma_mul_bound(off@.x, SCALE as int, 0x100_8000_0000_0000, 0x1_0000);
            crate::fixed::lemma_mul_bound(off@.y, SCALE as int, 0x100_8000_0000_0000, 0x1_0000);
            crate::fixed::lemma_mul_bound(off@.z, SCALE as int, 0x100_8000_0000_0000, 0x1_0000);
        }
        let nx: i128 = div_floor((off.x() as i128) * (SCALE as i128), self.radius as i128);
        let ny: i128 = div_floor((off.y() as i128) * (SCALE as i128), self.radius as i128);
        let nz: i128 = div_floor((off.z() as i128) * (SCALE as i128), self.radius as i128);
        if nx < -(LIM as i128) || nx > LIM as i128 || ny < -(LIM as i128) || ny > LIM as i128 || nz
            < -(LIM as i128) || nz > LIM as i128 {
            return false;
        }
        let outward: Vec3 = Vec3::new(nx as i64, ny as i64, nz as i64);
        rec.t = root;
        rec.p = p;
        rec.set_face_normal(r, outward);
        rec.mat = Some(self.mat);
        true
    }
}

} // verus!
