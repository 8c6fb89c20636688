//! The closed cylinder: the union of a tube and two end disks, the
//! nearest of the three intersections winning.
use crate::fixed::{fdiv_fx_s, LIM, SCALE, T_FAR};
use crate::hittable::{rec_matches, HitG, HitRecord};
use crate::material::{wf_material, Material};
use crate::ray::{wf_ray, Ray, RayV};
use crate::vec3::{add_v, bounded_v, dot, dot_s, lemma_dot_bound2, len_raw, norm2_raw, scale_v,
    sub_v, unit_v, unit_vec, Point3, Vec3};
use crate::volumes::cylinder_t::{tube_hit_s, wf_tube, CylinderTube};
use crate::volumes::subplane_d::{disk_hit_s, wf_disk, Disk};
use vstd::prelude::*;

verus! {

/// A closed cylinder: a lateral tube plus a base disk and a top disk.
#[derive(Clone, Copy)]
pub struct Cylinder {
    pub tube: CylinderTube,
    pub bottom: Disk,
    pub top: Disk,
}

/// Stored parts a hit test can run on.
pub open spec fn wf_cyl(cy: Cylinder) -> bool {
    &&& wf_tube(cy.tube)
    &&& wf_disk(cy.bottom)
    &&& wf_disk(cy.top)
}

/// The nearest of the three sub-primitives' intersections, found by
/// shrinking the search window part by part.
pub open spec fn cyl_hit_s(cy: Cylinder, r: RayV, t_min: int, t_max: int) -> Option<HitG> {
    let h1 = tube_hit_s(cy.tube, r, t_min, t_max);
    let w1 = match h1 {
        Some(h) => h.t,
        None => t_max,
    };
    let h2 = match disk_hit_s(cy.bottom, r, t_min, w1) {
        Some(h) => Some(h),
        None => h1,
    };
    let w2 = match h2 {
        Some(h) => h.t,
        None => t_max,
    };
    match disk_hit_s(cy.top, r, t_min, w2) {
        Some(h) => Some(h),
        None => h2,
    }
}

impl Cylinder {
    /// Build a closed cylinder from a base point, an axial length, a
    /// radius and any nonzero axis direction.
    pub fn new(center: Point3, length: i64, radius: i64, orientation: Vec3, mat: Material) -> (r:
        Cylinder)
        requires
            bounded_v(center@, 0x400_0000),
            bounded_v(orientation@, SCALE as int),
            norm2_raw(orientation@) >= 1,
            0 <= length <= 0x400_0000,
            1 <= radius <= LIM,
            wf_material(mat),
        ensures
            r.tube.base == center,
            r.tube.orientation@ == unit_v(orientation@),
            r.bottom.norm@ == unit_v(orientation@),
            r.top.norm@ == unit_v(orientation@),
            r.tube.length == length,
            r.tube.radius == radius,
            r.tube.mat == mat,
            r.bottom.radius == radius,
            r.bottom.mat == mat,
            r.top.radius == radius,
            r.top.mat == mat,
            r.bottom.dist == fdiv_fx_s(-dot_s(orientation@, center@), len_raw(orientation@)),
            r.bottom.center@ == sub_v(
                center@,
                scale_v(dot_s(unit_v(orientation@), center@) + r.bottom.dist, unit_v(orientation@)),
            ),
            r.top.dist == fdiv_fx_s(
                -dot_s(orientation@, add_v(center@, scale_v(length as int, unit_v(orientation@)))),
                len_raw(orientation@),
            ),
            r.top.center@ == sub_v(
                add_v(center@, scale_v(length as int, unit_v(orientation@))),
                scale_v(
                    dot_s(
                        unit_v(orientation@),
                        add_v(center@, scale_v(length as int, unit_v(orientation@))),
                    ) + r.top.dist,
                    unit_v(orientation@),
                ),
            ),
            wf_cyl(r),
    {
        let u: Vec3 = unit_vec(orientation);
        let tube: CylinderTube = CylinderTube::new(center, length, radius, orientation, mat);
        proof {
            lemma_dot_bound2(orientation@, center@, 0x1_0000, 0x400_0000);
        }
        let db: i64 = -dot(orientation, center);
        let bottom: Disk = Disk::new(orientation, db, center, radius, mat);
        proof {
            crate::fixed::lemma_fmul_bound(length as int, u@.x, 0x400_0000, 0x1_0000);
            crate::fixed::lemma_fmul_bound(length as int, u@.y, 0x400_0000, 0x1_0000);
            crate::fixed::lemma_fmul_bound(length as int, u@.z, 0x400_0000, 0x1_0000);
        }
        let top_point: Point3 = center.add(&u.scale(length));
        proof {
            lemma_dot_bound2(orientation@, top_point@, 0x1_0000, 0xC00_0001);
        }
        let dt: i64 = -dot(orientation, top_point);
        let top: Disk = Disk::new(orientation, dt, top_point, radius, mat);
        Cylinder { tube, bottom, top }
    }

    /// Report the nearest intersection with any of the three parts inside
    /// the window, filling the record only on success.
    pub fn hit(&self, r: &Ray, t_min: i64, t_max: i64, rec: &mut HitRecord) -> (b: bool)
        requires
            wf_cyl(*self),
            wf_ray(r@),
            -T_FAR <= t_min <= t_max <= T_FAR,
        ensures
            b <==> cyl_hit_s(*self, r@, t_min as int, t_max as int) is Some,
            cyl_hit_s(*self, r@, t_min as int, t_max as int) matches Some(h) ==> rec_matches(
                final(rec)@,
                h,
            ),
            b ==> t_min < final(rec)@.t <= t_max,
            !b ==> *final(rec) == *old(rec),
    {
        let mut hit_any: bool = self.tube.hit(r, t_min, t_max, rec);
        let mut closest: i64 = if hit_any {
            rec.t
        } else {
            t_max
        };
        if self.bottom.hit(r, t_min, closest, rec) {
            hit_any = true;
            closest = rec.t;
        }
        if self.top.hit(r, t_min, closest, rec) {
            hit_any = true;
        }
        hit_any
    }
}

} // verus!
