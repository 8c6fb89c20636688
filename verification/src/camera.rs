//! The camera: an orthonormal-ish basis built once from the eye, the
//! look-at point and the up direction, and the primary rays it casts.
use crate::fixed::{fmul, fmul_s, LIM, SCALE};
use crate::ray::{wf_ray, Ray};
use crate::vec3::{add_v, bounded_v, cross, cross_v, div_t_v, lemma_cross_bound, norm2_raw,
    scale_v, sub_v, unit_v, unit_vec, Point3, Vec3, V3};
use vstd::prelude::*;

verus! {

/// The basis vector the camera falls back on when the up direction runs
/// parallel to the view direction.
pub open spec fn camera_u_s(vup: V3, w: V3) -> V3 {
    let cr = cross_v(vup, w);
    if cr.x == 0 && cr.y == 0 && cr.z == 0 {
        V3 { x: SCALE as int, y: 0, z: 0 }
    } else {
        unit_v(cr)
    }
}

/// A camera: an origin and a viewport frame, immutable once built.
#[derive(Clone, Copy)]
pub struct Camera {
    pub ori: Point3,
    pub lower_left_corner: Point3,
    pub horizontal: Vec3,
    pub vertical: Vec3,
}

/// Stored fields a ray generator can run on.
pub open spec fn wf_camera(c: Camera) -> bool {
    &&& bounded_v(c.ori@, 0x800_0000)
    &&& bounded_v(c.lower_left_corner@, 0x800_0000)
    &&& bounded_v(c.horizontal@, 0x800_0000)
    &&& bounded_v(c.vertical@, 0x800_0000)
}

impl Camera {
    /// Build a camera from the aspect ratio, the tangent of half the
    /// vertical field of view (both at scale; the caller evaluates the
    /// tangent from the angle), the eye, the look-at point and the up
    /// direction.
    pub fn new(aspect_ratio: i64, half_tan_vfov: i64, from: Point3, to: Point3, vup: Vec3) -> (r:
        Camera)
        requires
            0 <= aspect_ratio <= 16 * SCALE,
            0 <= half_tan_vfov <= 16 * SCALE,
            bounded_v(from@, 0x100_0000),
            bounded_v(to@, 0x100_0000),
            bounded_v(vup@, 4 * (SCALE as int)),
            norm2_raw(sub_v(from@, to@)) >= 1,
        ensures
            r.ori == from,
            r.horizontal@ == scale_v(
                fmul_s(aspect_ratio as int, 2 * half_tan_vfov),
                camera_u_s(vup@, unit_v(sub_v(from@, to@))),
            ),
            r.vertical@ == scale_v(
                2 * half_tan_vfov,
                cross_v(unit_v(sub_v(from@, to@)), camera_u_s(vup@, unit_v(sub_v(from@, to@)))),
            ),
            r.lower_left_corner@ == sub_v(
                sub_v(
                    sub_v(from@, div_t_v(r.horizontal@, 2 * (SCALE as int))),
                    div_t_v(r.vertical@, 2 * (SCALE as int)),
                ),
                unit_v(sub_v(from@, to@)),
            ),
            wf_camera(r),
    {
        let viewport_height: i64 = 2 * half_tan_vfov;
        proof {
            crate::fixed::lemma_fmul_bound(
                aspect_ratio as int,
                viewport_height as int,
                0x10_0000,
                0x20_0000,
            );
        }
        let viewport_width: i64 = fmul(aspect_ratio, viewport_height);
        let dir: Vec3 = from.sub(&to);
        let w: Vec3 = unit_vec(dir);
        proof {
            lemma_cross_bound(vup@, w@, 0x4_0000, 0x1_0000);
        }
        let cr: Vec3 = cross(vup, w);
        let u: Vec3 = if cr.near_zero() {
            Vec3::new(SCALE, 0, 0)
        } else {
            proof {
                crate::vec3::lemma_norm2_nonneg(cr@);
                assert(norm2_raw(cr@) >= 1) by (nonlinear_arith)
                    requires
                        (cr@.x != 0 || cr@.y != 0 || cr@.z != 0) && norm2_raw(cr@) == cr@.x * cr@.x
                            + cr@.y * cr@.y + cr@.z * cr@.z,
                ;
            }
            unit_vec(cr)
        };
        proof {
            assert(u@ == camera_u_s(vup@, w@));
            lemma_cross_bound(w@, u@, 0x1_0000, 0x1_0000);
        }
        let v: Vec3 = cross(w, u);
        proof {
            crate::fixed::lemma_fmul_bound(viewport_width as int, u@.x, 0x200_0000, 0x1_0000);
            crate::fixed::lemma_fmul_bound(viewport_width as int, u@.y, 0x200_0000, 0x1_0000);
            crate::fixed::lemma_fmul_bound(viewport_width as int, u@.z, 0x200_0000, 0x1_0000);
            crate::fixed::lemma_fmul_bound(viewport_height as int, v@.x, 0x20_0000, 0x2_0001);
            crate::fixed::lemma_fmul_bound(viewport_height as int, v@.y, 0x20_0000, 0x2_0001);
            crate::fixed::lemma_fmul_bound(viewport_height as int, v@.z, 0x20_0000, 0x2_0001);
        }
        let horizontal: Vec3 = u.scale(viewport_width);
        let vertical: Vec3 = v.scale(viewport_height);
        proof {
            crate::fixed::lemma_fdiv_bounds(horizontal@.x * (SCALE as int), 2 * (SCALE as int));
            crate::fixed::lemma_fdiv_bounds(horizontal@.y * (SCALE as int), 2 * (SCALE as int));
            crate::fixed::lemma_fdiv_bounds(horizontal@.z * (SCALE as int), 2 * (SCALE as int));
            crate::fixed::lemma_fdiv_bounds(vertical@.x * (SCALE as int), 2 * (SCALE as int));
            crate::fixed::lemma_fdiv_bounds(vertical@.y * (SCALE as int), 2 * (SCALE as int));
            crate::fixed::lemma_fdiv_bounds(vertical@.z * (SCALE as int), 2 * (SCALE as int));
            crate::fixed::lemma_mul_bound(horizontal@.x, SCALE as int, 0x200_0201, 0x1_0000);
            crate::fixed::lemma_mul_bound(horizontal@.y, SCALE as int, 0x200_0201, 0x1_0000);
            crate::fixed::lemma_mul_bound(horizontal@.z, SCALE as int, 0x200_0201, 0x1_0000);
            crate::fixed::lemma_mul_bound(vertical@.x, SCALE as int, 0x40_0301, 0x1_0000);
            crate::fixed::lemma_mul_bound(vertical@.y, SCALE as int, 0x40_0301, 0x1_0000);
            crate::fixed::lemma_mul_bound(vertical@.z, SCALE as int, 0x40_0301, 0x1_0000);
        }
        let hh: Vec3 = horizontal.div_t(2 * SCALE);
        let vh: Vec3 = vertical.div_t(2 * SCALE);
        let lower_left_corner: Point3 = from.sub(&hh).sub(&vh).sub(&w);
        Camera { ori: from, lower_left_corner, horizontal, vertical }
    }

    /// The primary ray toward the viewport position `(s, t)`, both given
    /// in `[0, 1]` at scale (a little slack is allowed for the jitter).
    pub fn get_ray(&self, s: i64, t: i64) -> (r: Ray)
        requires
            wf_camera(*self),
            0 <= s <= 2 * SCALE,
            0 <= t <= 2 * SCALE,
        ensures
            r@.ori == self.ori@,
            r@.dir == sub_v(
                add_v(
                    add_v(self.lower_left_corner@, scale_v(s as int, self.horizontal@)),
                    scale_v(t as int, self.vertical@),
                ),
                self.ori@,
            ),
            wf_ray(r@),
    {
        proof {
            crate::fixed::lemma_fmul_bound(s as int, self.horizontal@.x, 0x2_0000, 0x800_0000);
            crate::fixed::lemma_fmul_bound(s as int, self.horizontal@.y, 0x2_0000, 0x800_0000);
            crate::fixed::lemma_fmul_bound(s as int, self.horizontal@.z, 0x2_0000, 0x800_0000);
            crate::fixed::lemma_fmul_bound(t as int, self.vertical@.x, 0x2_0000, 0x800_0000);
            crate::fixed::lemma_fmul_bound(t as int, self.vertical@.y, 0x2_0000, 0x800_0000);
            crate::fixed::lemma_fmul_bound(t as int, self.vertical@.z, 0x2_0000, 0x800_0000);
        }
        let hs: Vec3 = self.horizontal.scale(s);
        let vt: Vec3 = self.vertical.scale(t);
        let dir: Vec3 = self.lower_left_corner.add(&hs).add(&vt).sub(&self.ori);
        Ray::new(self.ori, dir)
    }
}

} // verus!
