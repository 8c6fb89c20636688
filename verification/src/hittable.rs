//! The record a successful ray-primitive intersection fills in, and the
//! face-orientation rule every primitive applies to its outward normal.
use crate::fixed::LIM;
use crate::material::Material;
use crate::ray::Ray;
use crate::vec3::{bounded_v, dot_s, neg_v, Point3, Vec3, V3};
use vstd::prelude::*;

verus! {

/// The surface faces the ray when the outward normal points against the
/// ray's direction.
pub open spec fn face_front_s(dir: V3, outward: V3) -> bool {
    dot_s(dir, outward) < 0
}

/// The stored normal: the outward normal, flipped when the ray strikes
/// the back face, so that it always opposes the incoming ray.
pub open spec fn face_normal_s(dir: V3, outward: V3) -> V3 {
    if face_front_s(dir, outward) {
        outward
    } else {
        neg_v(outward)
    }
}

/// The mathematical value of one intersection: parameter, point, oriented
/// normal, orientation flag and the material struck.
pub ghost struct HitG {
    pub t: int,
    pub p: V3,
    pub normal: V3,
    pub front: bool,
    pub mat: Material,
}

/// The mathematical value of a `HitRecord`.
pub ghost struct HitRecV {
    pub p: V3,
    pub normal: V3,
    pub t: int,
    pub front: bool,
    pub mat: Option<Material>,
}

/// A filled record carries exactly the fields of one intersection.
pub open spec fn rec_matches(rec: HitRecV, h: HitG) -> bool {
    &&& rec.t == h.t
    &&& rec.p == h.p
    &&& rec.normal == h.normal
    &&& rec.front == h.front
    &&& rec.mat == Some(h.mat)
}

/// The result of a successful intersection; a primitive either fills every
/// field before reporting success or leaves the record untouched.
#[derive(Clone, Copy)]
pub struct HitRecord {
    pub p: Point3,
    pub normal: Vec3,
    pub t: i64,
    pub front: bool,
    pub mat: Option<Material>,
}

impl View for HitRecord {
    type V = HitRecV;

    open spec fn view(&self) -> HitRecV {
        HitRecV { p: self.p@, normal: self.normal@, t: self.t as int, front: self.front, mat: self.mat }
    }
}

impl HitRecord {
    /// An empty record, to be overwritten by the first accepted hit.
    pub fn new() -> (r: HitRecord)
        ensures
            r@.mat is None,
            r@.t == 0,
    {
        HitRecord {
            p: Vec3::new(0, 0, 0),
            normal: Vec3::new(0, 0, 0),
            t: 0,
            front: false,
            mat: None,
        }
    }

    /// Store `outward`, flipped if need be, so the record's normal always
    /// opposes the incoming ray.
    pub fn set_face_normal(&mut self, r: &Ray, outward: Vec3)
        requires
            bounded_v(r@.dir, LIM as int),
            bounded_v(outward@, LIM as int),
        ensures
            final(self).front == face_front_s(r@.dir, outward@),
            final(self).normal@ == face_normal_s(r@.dir, outward@),
            final(self).p == old(self).p,
            final(self).t == old(self).t,
            final(self).mat == old(self).mat,
    {
        proof {
            crate::vec3::lemma_dot_bound(r@.dir, outward@, LIM as int);
        }
        let d: i64 = crate::vec3::dot(r.direction(), outward);
        self.front = d < 0;
        self.normal = if self.front {
            outward
        } else {
            outward.neg()
        };
    }
}

} // verus!
