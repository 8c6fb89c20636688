//! The scene: an ordered list of primitives, resolved to the nearest
//! intersection by a shrinking search window.
use crate::fixed::T_FAR;
use crate::hittable::{rec_matches, HitG, HitRecord};
use crate::ray::{wf_ray, Ray, RayV};
use crate::volumes::cube::{cube_hit_s, wf_cube, Cube};
use crate::volumes::cylinder::{cyl_hit_s, wf_cyl, Cylinder};
use crate::volumes::cylinder_t::{tube_hit_s, wf_tube, CylinderTube};
use crate::volumes::plane::{plane_hit_s, wf_plane, Plane};
use crate::volumes::sphere::{sphere_hit_s, wf_sphere, Sphere};
use crate::volumes::subplane_d::{disk_hit_s, wf_disk, Disk};
use crate::volumes::subplane_s::{square_hit_s, wf_square, Square};
use vstd::prelude::*;

verus! {

/// The closed set of primitives a scene can hold.
#[derive(Clone, Copy)]
pub enum Primitive {
    Plane(Plane),
    Disk(Disk),
    Square(Square),
    Sphere(Sphere),
    Cube(Cube),
    Tube(CylinderTube),
    Cylinder(Cylinder),
}

/// A primitive whose stored fields its hit test can run on.
pub open spec fn wf_prim(p: Primitive) -> bool {
    match p {
        Primitive::Plane(x) => wf_plane(x),
        Primitive::Disk(x) => wf_disk(x),
        Primitive::Square(x) => wf_square(x),
        Primitive::Sphere(x) => wf_sphere(x),
        Primitive::Cube(x) => wf_cube(x),
        Primitive::Tube(x) => wf_tube(x),
        Primitive::Cylinder(x) => wf_cyl(x),
    }
}

/// The nearest intersection of a ray with one primitive.
pub open spec fn prim_hit_s(p: Primitive, r: RayV, t_min: int, t_max: int) -> Option<HitG> {
    match p {
        Primitive::Plane(x) => plane_hit_s(x, r, t_min, t_max),
        Primitive::Disk(x) => disk_hit_s(x, r, t_min, t_max),
        Primitive::Square(x) => square_hit_s(x, r, t_min, t_max),
        Primitive::Sphere(x) => sphere_hit_s(x, r, t_min, t_max),
        Primitive::Cube(x) => cube_hit_s(x, r, t_min, t_max),
        Primitive::Tube(x) => tube_hit_s(x, r, t_min, t_max),
        Primitive::Cylinder(x) => cyl_hit_s(x, r, t_min, t_max),
    }
}

impl Primitive {
    /// Report the nearest intersection inside the window, filling the
    /// record only on success.
    pub fn hit(&self, r: &Ray, t_min: i64, t_max: i64, rec: &mut HitRecord) -> (b: bool)
        requires
            wf_prim(*self),
            wf_ray(r@),
            -T_FAR <= t_min <= t_max <= T_FAR,
        ensures
            b <==> prim_hit_s(*self, r@, t_min as int, t_max as int) is Some,
            prim_hit_s(*self, r@, t_min as int, t_max as int) matches Some(h) ==> rec_matches(
                final(rec)@,
                h,
            ),
            b ==> t_min < final(rec)@.t <= t_max,
            !b ==> *final(rec) == *old(rec),
    {
        match self {
            Primitive::Plane(x) => x.hit(r, t_min, t_max, rec),
            Primitive::Disk(x) => x.hit(r, t_min, t_max, rec),
            Primitive::Square(x) => x.hit(r, t_min, t_max, rec),
            Primitive::Sphere(x) => x.hit(r, t_min, t_max, rec),
            Primitive::Cube(x) => x.hit(r, t_min, t_max, rec),
            Primitive::Tube(x) => x.hit(r, t_min, t_max, rec),
            Primitive::Cylinder(x) => x.hit(r, t_min, t_max, rec),
        }
    }
}

/// Every primitive of the scene is runnable.
pub open spec fn wf_scene(objs: Seq<Primitive>) -> bool {
    forall|i: int| 0 <= i < objs.len() ==> wf_prim(#[trigger] objs[i])
}

/// Walk the remaining primitives left to right, keeping the best hit seen
/// so far and shrinking the window to its parameter.
pub open spec fn scene_hit_loop(
    objs: Seq<Primitive>,
    r: RayV,
    t_min: int,
    closest: int,
    cur: Option<HitG>,
) -> Option<HitG>
    decreases objs.len(),
{
    if objs.len() == 0 {
        cur
    } else {
        match prim_hit_s(objs[0], r, t_min, closest) {
            Some(h) => scene_hit_loop(objs.subrange(1, objs.len() as int), r, t_min, h.t, Some(h)),
            None => scene_hit_loop(objs.subrange(1, objs.len() as int), r, t_min, closest, cur),
        }
    }
}

/// The nearest intersection of a ray with the whole scene.
pub open spec fn scene_hit_s(objs: Seq<Primitive>, r: RayV, t_min: int, t_max: int) -> Option<
    HitG,
> {
    scene_hit_loop(objs, r, t_min, t_max, None)
}

/// Each channel a material can radiate, floored at zero.
pub open spec fn mat_emax(m: crate::material::Material) -> crate::vec3::V3 {
    crate::vec3::max_v(crate::material::emitted_s(m), crate::vec3::V3 { x: 0, y: 0, z: 0 })
}

/// Each channel any of one primitive's materials can radiate.
pub open spec fn prim_emax(p: Primitive) -> crate::vec3::V3 {
    match p {
        Primitive::Plane(x) => mat_emax(x.mat),
        Primitive::Disk(x) => mat_emax(x.mat),
        Primitive::Square(x) => mat_emax(x.mat),
        Primitive::Sphere(x) => mat_emax(x.mat),
        Primitive::Cube(x) => mat_emax(x.mat),
        Primitive::Tube(x) => mat_emax(x.mat),
        Primitive::Cylinder(x) => crate::vec3::max_v(
            mat_emax(x.tube.mat),
            crate::vec3::max_v(mat_emax(x.bottom.mat), mat_emax(x.top.mat)),
        ),
    }
}

/// Each channel anything in the scene can radiate.
pub open spec fn scene_emax(objs: Seq<Primitive>) -> crate::vec3::V3
    decreases objs.len(),
{
    if objs.len() == 0 {
        crate::vec3::V3 { x: 0, y: 0, z: 0 }
    } else {
        crate::vec3::max_v(
            prim_emax(objs[0]),
            scene_emax(objs.subrange(1, objs.len() as int)),
        )
    }
}

/// Every channel of `a` is at most the matching channel of `b`.
pub open spec fn le_v(a: crate::vec3::V3, b: crate::vec3::V3) -> bool {
    a.x <= b.x && a.y <= b.y && a.z <= b.z
}

/// Whatever one primitive reports was struck, its material radiates no
/// more than the primitive's cap in any channel.
pub proof fn lemma_prim_hit_emax(p: Primitive, r: RayV, t_min: int, t_max: int)
    ensures
        prim_emax(p).x >= 0 && prim_emax(p).y >= 0 && prim_emax(p).z >= 0,
        prim_hit_s(p, r, t_min, t_max) matches Some(h) ==> le_v(
            crate::material::emitted_s(h.mat),
            prim_emax(p),
        ),
{
}

/// Whatever the scene walk reports was struck, its material radiates no
/// more than the scene's cap in any channel.
pub proof fn lemma_scene_hit_emax(
    objs: Seq<Primitive>,
    r: RayV,
    t_min: int,
    closest: int,
    cur: Option<HitG>,
    bound: crate::vec3::V3,
)
    requires
        le_v(scene_emax(objs), bound),
        cur matches Some(c0) ==> le_v(crate::material::emitted_s(c0.mat), bound),
    ensures
        scene_hit_loop(objs, r, t_min, closest, cur) matches Some(h) ==> le_v(
            crate::material::emitted_s(h.mat),
            bound,
        ),
    decreases objs.len(),
{
    if objs.len() > 0 {
        let rest = objs.subrange(1, objs.len() as int);
        lemma_prim_hit_emax(objs[0], r, t_min, closest);
        match prim_hit_s(objs[0], r, t_min, closest) {
            Some(h1) => {
                lemma_scene_hit_emax(rest, r, t_min, h1.t, Some(h1), bound);
            },
            None => {
                lemma_scene_hit_emax(rest, r, t_min, closest, cur, bound);
            },
        }
    }
}

/// An ordered collection of primitives.
pub struct HittableList {
    pub objects: Vec<Primitive>,
}

impl HittableList {
    /// An empty scene.
    pub fn new() -> (r: HittableList)
        ensures
            r.objects@.len() == 0,
    {
        HittableList { objects: Vec::new() }
    }

    /// Append a primitive; insertion order does not change which hit wins.
    pub fn add(&mut self, obj: Primitive)
        ensures
            final(self).objects@ == old(self).objects@.push(obj),
    {
        self.objects.push(obj);
    }

    /// Report the nearest intersection of the ray with any primitive
    /// inside the window, filling the record only on success.
    pub fn hit(&self, r: &Ray, t_min: i64, t_max: i64, rec: &mut HitRecord) -> (b: bool)
        requires
            wf_scene(self.objects@),
            wf_ray(r@),
            -T_FAR <= t_min <= t_max <= T_FAR,
        ensures
            b <==> scene_hit_s(self.objects@, r@, t_min as int, t_max as int) is Some,
            scene_hit_s(self.objects@, r@, t_min as int, t_max as int) matches Some(h)
                ==> rec_matches(final(rec)@, h),
            b ==> t_min < final(rec)@.t <= t_max,
            !b ==> *final(rec) == *old(rec),
    {
        let ghost objs = self.objects@;
        let ghost goal = scene_hit_s(objs, r@, t_min as int, t_max as int);
        let mut local: HitRecord = *rec;
        let mut hit_any: bool = false;
        let mut closest: i64 = t_max;
        let ghost mut cur: Option<HitG> = None;
        let mut i: usize = 0;
        proof {
            assert(objs.subrange(0, objs.len() as int) =~= objs);
        }
        while i < self.objects.len()
            invariant
                objs == self.objects@,
                wf_scene(objs),
                wf_ray(r@),
                -T_FAR <= t_min <= closest <= t_max <= T_FAR,
                0 <= i <= objs.len(),
                goal == scene_hit_loop(
                    objs.subrange(i as int, objs.len() as int),
                    r@,
                    t_min as int,
                    closest as int,
                    cur,
                ),
                hit_any <==> cur is Some,
                cur matches Some(h) ==> rec_matches(local@, h) && t_min < h.t <= t_max && closest
                    == h.t,
            decreases objs.len() - i,
        {
            let ghost pre = objs.subrange(i as int, objs.len() as int);
            let o: Primitive = self.objects[i];
            proof {
                assert(pre[0] == objs[i as int]);
                assert(pre.subrange(1, pre.len() as int) =~= objs.subrange(
                    i + 1,
                    objs.len() as int,
                ));
            }
            if o.hit(r, t_min, closest, &mut local) {
                hit_any = true;
                closest = local.t;
                proof {
                    cur = Some(
                        HitG {
                            t: local@.t,
                            p: local@.p,
                            normal: local@.normal,
                            front: local@.front,
                            mat: local.mat->0,
                        },
                    );
                }
            }
            i = i + 1;
        }
        if hit_any {
            *rec = local;
        }
        hit_any
    }
}

} // verus!
