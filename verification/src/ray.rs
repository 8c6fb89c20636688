//! Rays: an origin and a direction, with the parameterized point along
//! the ray.
use crate::fixed::{LIM, T_FAR};
use crate::vec3::{add_v, bounded_v, scale_v, wf_v, Point3, Vec3, V3};
use vstd::prelude::*;

verus! {

/// The mathematical value of a ray.
pub ghost struct RayV {
    pub ori: V3,
    pub dir: V3,
}

/// The point `t` of the way along a ray.
pub open spec fn ray_at_s(r: RayV, t: int) -> V3 {
    add_v(r.ori, scale_v(t, r.dir))
}

/// A half-line: all points `origin + t * direction` for `t >= 0`.
#[derive(Clone, Copy, PartialEq, Eq, Structural, Debug)]
pub struct Ray {
    pub ori: Point3,
    pub dir: Vec3,
}

impl View for Ray {
    type V = RayV;

    open spec fn view(&self) -> RayV {
        RayV { ori: self.ori@, dir: self.dir@ }
    }
}

/// A ray whose origin and direction both carry well-formed coordinates.
pub open spec fn wf_ray(r: RayV) -> bool {
    wf_v(r.ori) && wf_v(r.dir)
}

impl Ray {
    pub fn new(ori: Point3, dir: Vec3) -> (r: Ray)
        ensures
            r@.ori == ori@,
            r@.dir == dir@,
    {
        Ray { ori, dir }
    }

    /// The all-zero ray, handed to scatter routines as a placeholder.
    pub fn zero() -> (r: Ray)
        ensures
            r@.ori == (V3 { x: 0, y: 0, z: 0 }),
            r@.dir == (V3 { x: 0, y: 0, z: 0 }),
    {
        Ray { ori: Vec3::new(0, 0, 0), dir: Vec3::new(0, 0, 0) }
    }

    pub fn origin(&self) -> (r: Point3)
        ensures
            r@ == self@.ori,
    {
        self.ori
    }

    pub fn direction(&self) -> (r: Vec3)
        ensures
            r@ == self@.dir,
    {
        self.dir
    }

    /// The point `t` of the way along the ray.
    pub fn at(&self, t: i64) -> (r: Point3)
        requires
            wf_ray(self@),
            -T_FAR <= t <= T_FAR,
        ensures
            r@ == ray_at_s(self@, t as int),
            bounded_v(r@, 0x80_0000_0000_0000),
    {
        proof {
            crate::fixed::lemma_fmul_bound(t as int, self@.dir.x, T_FAR as int, LIM as int);
            crate::fixed::lemma_fmul_bound(t as int, self@.dir.y, T_FAR as int, LIM as int);
            crate::fixed::lemma_fmul_bound(t as int, self@.dir.z, T_FAR as int, LIM as int);
        }
        let step: Vec3 = self.dir.scale(t);
        self.ori.add(&step)
    }
}

} // verus!
