//! The cube: an axis-aligned slab test run in the cube's local frame,
//! with the outward normal picked from the six face normals.
use crate::fixed::{div_floor, fdiv, fmul, fmul_s, lemma_fmul_bound, min_i, LIM, SCALE, T_FAR};
use crate::hittable::{face_front_s, face_normal_s, rec_matches, HitG, HitRecord};
use crate::material::{wf_material, Material};
use crate::ray::{ray_at_s, wf_ray, Ray, RayV};
use crate::vec3::{add_v, bounded_v, dot, dot_s, lemma_dot_bound2, sub_v, Point3, Vec3, V3};
use vstd::prelude::*;

verus! {

/// One planar rotation, given by its cosine and sine at scale.
#[derive(Clone, Copy, PartialEq, Eq, Structural, Debug)]
pub struct Rot2 {
    pub c: i64,
    pub s: i64,
}

/// A rotation about the three coordinate axes in turn (x, then y, then z).
#[derive(Clone, Copy, PartialEq, Eq, Structural, Debug)]
pub struct Rot3 {
    pub x: Rot2,
    pub y: Rot2,
    pub z: Rot2,
}

/// Stored cosines and sines within one unit either way.
pub open spec fn wf_rot3(rt: Rot3) -> bool {
    &&& -SCALE <= rt.x.c <= SCALE && -SCALE <= rt.x.s <= SCALE
    &&& -SCALE <= rt.y.c <= SCALE && -SCALE <= rt.y.s <= SCALE
    &&& -SCALE <= rt.z.c <= SCALE && -SCALE <= rt.z.s <= SCALE
}

/// Rotate about the x, y and z axes in turn by the given cosine and sine
/// pairs.
pub open spec fn rotate_v(v: V3, cx: int, sx: int, cy: int, sy: int, cz: int, sz: int) -> V3 {
    let a = V3 {
        x: v.x,
        y: fmul_s(cx, v.y) - fmul_s(sx, v.z),
        z: fmul_s(sx, v.y) + fmul_s(cx, v.z),
    };
    let b = V3 {
        x: fmul_s(cy, a.x) + fmul_s(sy, a.z),
        y: a.y,
        z: -fmul_s(sy, a.x) + fmul_s(cy, a.z),
    };
    V3 { x: fmul_s(cz, b.x) - fmul_s(sz, b.y), y: fmul_s(sz, b.x) + fmul_s(cz, b.y), z: b.z }
}

/// Apply the three-axis rotation to a vector.
pub fn rotate(v: Vec3, rt: Rot3) -> (r: Vec3)
    requires
        bounded_v(v@, 0x100_0000_0000),
        wf_rot3(rt),
    ensures
        r@ == rotate_v(
            v@,
            rt.x.c as int,
            rt.x.s as int,
            rt.y.c as int,
            rt.y.s as int,
            rt.z.c as int,
            rt.z.s as int,
        ),
        bounded_v(r@, 0x800_0000_0010),
        bounded_v(v@, 0x8000_0000) ==> bounded_v(r@, 0x4_0000_0010),
{
    proof {
        lemma_fmul_bound(rt.x.c as int, v@.y, 0x1_0000, 0x100_0000_0000);
        lemma_fmul_bound(rt.x.s as int, v@.z, 0x1_0000, 0x100_0000_0000);
        lemma_fmul_bound(rt.x.s as int, v@.y, 0x1_0000, 0x100_0000_0000);
        lemma_fmul_bound(rt.x.c as int, v@.z, 0x1_0000, 0x100_0000_0000);
    }
    let ay: i64 = fmul(rt.x.c, v.y()) - fmul(rt.x.s, v.z());
    let az: i64 = fmul(rt.x.s, v.y()) + fmul(rt.x.c, v.z());
    let ax: i64 = v.x();
    proof {
        if bounded_v(v@, 0x8000_0000) {
            lemma_fmul_bound(rt.x.c as int, v@.y, 0x1_0000, 0x8000_0000);
            lemma_fmul_bound(rt.x.s as int, v@.z, 0x1_0000, 0x8000_0000);
            lemma_fmul_bound(rt.x.s as int, v@.y, 0x1_0000, 0x8000_0000);
            lemma_fmul_bound(rt.x.c as int, v@.z, 0x1_0000, 0x8000_0000);
        }
        lemma_fmul_bound(rt.y.c as int, ax as int, 0x1_0000, 0x200_0000_0002);
        lemma_fmul_bound(rt.y.s as int, az as int, 0x1_0000, 0x200_0000_0002);
        lemma_fmul_bound(rt.y.s as int, ax as int, 0x1_0000, 0x200_0000_0002);
        lemma_fmul_bound(rt.y.c as int, az as int, 0x1_0000, 0x200_0000_0002);
    }
    let bx: i64 = fmul(rt.y.c, ax) + fmul(rt.y.s, az);
    let bz: i64 = -fmul(rt.y.s, ax) + fmul(rt.y.c, az);
    let by: i64 = ay;
    proof {
        if bounded_v(v@, 0x8000_0000) {
            lemma_fmul_bound(rt.y.c as int, ax as int, 0x1_0000, 0x1_0000_0002);
            lemma_fmul_bound(rt.y.s as int, az as int, 0x1_0000, 0x1_0000_0002);
            lemma_fmul_bound(rt.y.s as int, ax as int, 0x1_0000, 0x1_0000_0002);
            lemma_fmul_bound(rt.y.c as int, az as int, 0x1_0000, 0x1_0000_0002);
        }
        lemma_fmul_bound(rt.z.c as int, bx as int, 0x1_0000, 0x400_0000_0006);
        lemma_fmul_bound(rt.z.s as int, by as int, 0x1_0000, 0x400_0000_0006);
        lemma_fmul_bound(rt.z.s as int, bx as int, 0x1_0000, 0x400_0000_0006);
        lemma_fmul_bound(rt.z.c as int, by as int, 0x1_0000, 0x400_0000_0006);
        if bounded_v(v@, 0x8000_0000) {
            lemma_fmul_bound(rt.z.c as int, bx as int, 0x1_0000, 0x2_0000_0006);
            lemma_fmul_bound(rt.z.s as int, by as int, 0x1_0000, 0x2_0000_0006);
            lemma_fmul_bound(rt.z.s as int, bx as int, 0x1_0000, 0x2_0000_0006);
            lemma_fmul_bound(rt.z.c as int, by as int, 0x1_0000, 0x2_0000_0006);
        }
    }
    Vec3::new(
        fmul(rt.z.c, bx) - fmul(rt.z.s, by),
        fmul(rt.z.s, bx) + fmul(rt.z.c, by),
        bz,
    )
}

/// The same rotation with every sine negated: undoes a single-axis turn
/// exactly, and only approximately undoes a compound one — a known
/// limitation of the cube's normal selection, kept on purpose.
pub fn rot_neg(rt: Rot3) -> (r: Rot3)
    requires
        wf_rot3(rt),
    ensures
        r.x.c == rt.x.c && r.x.s == -rt.x.s,
        r.y.c == rt.y.c && r.y.s == -rt.y.s,
        r.z.c == rt.z.c && r.z.s == -rt.z.s,
        wf_rot3(r),
{
    Rot3 {
        x: Rot2 { c: rt.x.c, s: -rt.x.s },
        y: Rot2 { c: rt.y.c, s: -rt.y.s },
        z: Rot2 { c: rt.z.c, s: -rt.z.s },
    }
}

/// One axis of the slab test: where the ray meets the two bounding planes,
/// a free pass when it runs parallel between them, or a miss.
pub ghost enum AxisSlab {
    Miss,
    Free,
    Span(int, int),
}

/// The slab interval of one axis.
pub open spec fn axis_slab_s(o: int, d: int, low: int, high: int) -> AxisSlab {
    if d == 0 {
        if o < low || o > high {
            AxisSlab::Miss
        } else {
            AxisSlab::Free
        }
    } else {
        let t1 = fdiv((low - o) * (SCALE as int), d);
        let t2 = fdiv((high - o) * (SCALE as int), d);
        if t1 < t2 {
            AxisSlab::Span(t1, t2)
        } else {
            AxisSlab::Span(t2, t1)
        }
    }
}

/// Intersect two axis intervals.
pub open spec fn merge_slab_s(a: AxisSlab, b: AxisSlab) -> AxisSlab {
    match a {
        AxisSlab::Miss => AxisSlab::Miss,
        AxisSlab::Free => b,
        AxisSlab::Span(c1, f1) => match b {
            AxisSlab::Miss => AxisSlab::Miss,
            AxisSlab::Free => AxisSlab::Span(c1, f1),
            AxisSlab::Span(c2, f2) => AxisSlab::Span(
                if c1 < c2 {
                    c2
                } else {
                    c1
                },
                min_i(f1, f2),
            ),
        },
    }
}

/// The six face normals, tried in a fixed order; the collision offset's
/// best-aligned normal wins, the front face by default.
pub open spec fn cube_outward_s(coll: V3) -> V3 {
    let front = V3 { x: 0, y: 0, z: SCALE as int };
    let back = V3 { x: 0, y: 0, z: -(SCALE as int) };
    let top = V3 { x: 0, y: SCALE as int, z: 0 };
    let bottom = V3 { x: 0, y: -(SCALE as int), z: 0 };
    let right = V3 { x: SCALE as int, y: 0, z: 0 };
    let left = V3 { x: -(SCALE as int), y: 0, z: 0 };
    let d0 = dot_s(coll, front);
    let d1 = dot_s(coll, back);
    let d2 = dot_s(coll, top);
    let d3 = dot_s(coll, bottom);
    let d4 = dot_s(coll, right);
    let d5 = dot_s(coll, left);
    let n0 = front;
    let b0 = if d0 > 0 {
        d0
    } else {
        0
    };
    let n1 = if d1 > b0 {
        back
    } else {
        n0
    };
    let b1 = if d1 > b0 {
        d1
    } else {
        b0
    };
    let n2 = if d2 > b1 {
        top
    } else {
        n1
    };
    let b2 = if d2 > b1 {
        d2
    } else {
        b1
    };
    let n3 = if d3 > b2 {
        bottom
    } else {
        n2
    };
    let b3 = if d3 > b2 {
        d3
    } else {
        b2
    };
    let n4 = if d4 > b3 {
        right
    } else {
        n3
    };
    let b4 = if d4 > b3 {
        d4
    } else {
        b3
    };
    if d5 > b4 {
        left
    } else {
        n4
    }
}

/// A cube given by its center, half-size and rotation.
#[derive(Clone, Copy)]
pub struct Cube {
    pub center: Point3,
    pub size: i64,
    pub rotation: Rot3,
    pub mat: Material,
}

/// Stored fields a hit test can run on.
pub open spec fn wf_cube(cb: Cube) -> bool {
    &&& bounded_v(cb.center@, LIM as int)
    &&& 0 <= cb.size <= LIM
    &&& wf_rot3(cb.rotation)
    &&& wf_material(cb.mat)
}

/// The ray carried into the cube's local frame: the origin's offset from
/// the center is rotated, the direction likewise.
pub open spec fn cube_local_ray_s(cb: Cube, r: RayV) -> RayV {
    let rt = cb.rotation;
    RayV {
        ori: add_v(
            cb.center@,
            rotate_v(
                sub_v(r.ori, cb.center@),
                rt.x.c as int,
                rt.x.s as int,
                rt.y.c as int,
                rt.y.s as int,
                rt.z.c as int,
                rt.z.s as int,
            ),
        ),
        dir: rotate_v(
            r.dir,
            rt.x.c as int,
            rt.x.s as int,
            rt.y.c as int,
            rt.y.s as int,
            rt.z.c as int,
            rt.z.s as int,
        ),
    }
}

/// The nearest intersection with the cube inside the window: the slab test
/// in the local frame, the entry parameter winning, with the normal chosen
/// among the six faces and rotated back out.
pub open spec fn cube_hit_s(cb: Cube, r: RayV, t_min: int, t_max: int) -> Option<HitG> {
    let lr = cube_local_ray_s(cb, r);
    let sx = axis_slab_s(lr.ori.x, lr.dir.x, cb.center@.x - cb.size, cb.center@.x + cb.size);
    let sy = axis_slab_s(lr.ori.y, lr.dir.y, cb.center@.y - cb.size, cb.center@.y + cb.size);
    let sz = axis_slab_s(lr.ori.z, lr.dir.z, cb.center@.z - cb.size, cb.center@.z + cb.size);
    let m = merge_slab_s(merge_slab_s(sx, sy), sz);
    match m {
        AxisSlab::Miss => None,
        AxisSlab::Free => None,
        AxisSlab::Span(tc, tf) => {
            if tc <= tf && tf > 0 && t_min < tc && tc <= t_max {
                let p = ray_at_s(r, tc);
                let lp = ray_at_s(lr, tc);
                let rt = cb.rotation;
                let ow = rotate_v(
                    cube_outward_s(sub_v(lp, cb.center@)),
                    rt.x.c as int,
                    -(rt.x.s as int),
                    rt.y.c as int,
                    -(rt.y.s as int),
                    rt.z.c as int,
                    -(rt.z.s as int),
                );
                if !bounded_v(ow, LIM as int) {
                    None
                } else {
                    Some(
                        HitG {
                            t: tc,
                            p,
                            normal: face_normal_s(r.dir, ow),
                            front: face_front_s(r.dir, ow),
                            mat: cb.mat,
                        },
                    )
                }
            } else {
                None
            }
        },
    }
}

impl Cube {
    /// Build a cube; the rotation is given by the cosine and sine of the
    /// angle about each axis (computed by the caller from the angles).
    pub fn new(center: Point3, size: i64, rotation: Rot3, mat: Material) -> (r: Cube)
        requires
            bounded_v(center@, LIM as int),
            0 <= size <= LIM,
            wf_rot3(rotation),
            wf_material(mat),
        ensures
            r.center == center,
            r.size == size,
            r.rotation == rotation,
            r.mat == mat,
            wf_cube(r),
    {
        Cube { center, size, rotation, mat }
    }

    /// The face normal the cube reports for a hit point: the one of the six
    /// canonical normals best aligned with the offset from the center (an
    /// approximation once a rotation is applied, kept on purpose).
    pub fn outward_normal(&self, point: Point3) -> (r: Vec3)
        requires
            wf_cube(*self),
            bounded_v(point@, 0xFF0_0000_0000_0000),
        ensures
            r@ == cube_outward_s(sub_v(point@, self.center@)),
    {
        let coll: Vec3 = point.sub(&self.center);
        proof {
            lemma_dot_bound2(coll@, V3 { x: 0, y: 0, z: SCALE as int }, 0x1004_0000_0000_0000,
                0x1_0000);
            lemma_dot_bound2(coll@, V3 { x: 0, y: 0, z: -(SCALE as int) }, 0x1004_0000_0000_0000,
                0x1_0000);
            lemma_dot_bound2(coll@, V3 { x: 0, y: SCALE as int, z: 0 }, 0x1004_0000_0000_0000,
                0x1_0000);
            lemma_dot_bound2(coll@, V3 { x: 0, y: -(SCALE as int), z: 0 }, 0x1004_0000_0000_0000,
                0x1_0000);
            lemma_dot_bound2(coll@, V3 { x: SCALE as int, y: 0, z: 0 }, 0x1004_0000_0000_0000,
                0x1_0000);
            lemma_dot_bound2(coll@, V3 { x: -(SCALE as int), y: 0, z: 0 }, 0x1004_0000_0000_0000,
                0x1_0000);
        }
        let d0: i64 = dot(coll, Vec3::new(0, 0, SCALE));
        let d1: i64 = dot(coll, Vec3::new(0, 0, -SCALE));
        let d2: i64 = dot(coll, Vec3::new(0, SCALE, 0));
        let d3: i64 = dot(coll, Vec3::new(0, -SCALE, 0));
        let d4: i64 = dot(coll, Vec3::new(SCALE, 0, 0));
        let d5: i64 = dot(coll, Vec3::new(-SCALE, 0, 0));
        let mut best: Vec3 = Vec3::new(0, 0, SCALE);
        let mut bd: i64 = 0;
        if d0 > bd {
            bd = d0;
        }
        if d1 > bd {
            best = Vec3::new(0, 0, -SCALE);
            bd = d1;
        }
        if d2 > bd {
            best = Vec3::new(0, SCALE, 0);
            bd = d2;
        }
        if d3 > bd {
            best = Vec3::new(0, -SCALE, 0);
            bd = d3;
        }
        if d4 > bd {
            best = Vec3::new(SCALE, 0, 0);
            bd = d4;
        }
        if d5 > bd {
            best = Vec3::new(-SCALE, 0, 0);
        }
        best
    }

    /// Report the nearest intersection inside `(t_min, t_max]`, filling the
    /// record only on success.
    #[verifier::rlimit(100)]
    pub fn hit(&self, r: &Ray, t_min: i64, t_max: i64, rec: &mut HitRecord) -> (b: bool)
        requires
            wf_cube(*self),
            wf_ray(r@),
            -T_FAR <= t_min <= t_max <= T_FAR,
        ensures
            b <==> cube_hit_s(*self, r@, t_min as int, t_max as int) is Some,
            cube_hit_s(*self, r@, t_min as int, t_max as int) matches Some(h) ==> rec_matches(
                final(rec)@,
                h,
            ),
            b ==> t_min < final(rec)@.t <= t_max,
            !b ==> *final(rec) == *old(rec),
    {
        let oc: Vec3 = r.origin().sub(&self.center);
        let lo: Point3 = self.center.add(&rotate(oc, self.rotation));
        let ld: Vec3 = rotate(r.direction(), self.rotation);
        let low_x: i64 = self.center.x() - self.size;
        let high_x: i64 = self.center.x() + self.size;
        let low_y: i64 = self.center.y() - self.size;
        let high_y: i64 = self.center.y() + self.size;
        let low_z: i64 = self.center.z() - self.size;
        let high_z: i64 = self.center.z() + self.size;
        let sx: Option<(i128, i128)> = Self::axis_slab(lo.x(), ld.x(), low_x, high_x);
        let sy: Option<(i128, i128)> = Self::axis_slab(lo.y(), ld.y(), low_y, high_y);
        let sz: Option<(i128, i128)> = Self::axis_slab(lo.z(), ld.z(), low_z, high_z);
        if ld.x() == 0 && (lo.x() < low_x || lo.x() > high_x) {
            return false;
        }
        if ld.y() == 0 && (lo.y() < low_y || lo.y() > high_y) {
            return false;
        }
        if ld.z() == 0 && (lo.z() < low_z || lo.z() > high_z) {
            return false;
        }
        let merged: Option<(i128, i128)> = Self::merge_slab(Self::merge_slab(sx, sy), sz);
        match merged {
            None => false,
            Some((tc128, tf128)) => {
                if !(tc128 <= tf128 && tf128 > 0 && (t_min as i128) < tc128 && tc128
                    <= t_max as i128) {
                    return false;
                }
                let tc: i64 = tc128 as i64;
                let p: Point3 = r.at(tc);
                proof {
                    lemma_fmul_bound(tc as int, ld@.x, 0x100_0000_0000, 0x4_0000_0010);
                    lemma_fmul_bound(tc as int, ld@.y, 0x100_0000_0000, 0x4_0000_0010);
                    lemma_fmul_bound(tc as int, ld@.z, 0x100_0000_0000, 0x4_0000_0010);
                }
                let lp: Point3 = lo.add(&ld.scale(tc));
                let ow0: Vec3 = self.outward_normal(lp);
                let ow: Vec3 = rotate(ow0, rot_neg(self.rotation));
                if ow.x() < -LIM || ow.x() > LIM || ow.y() < -LIM || ow.y() > LIM || ow.z() < -LIM
                    || ow.z() > LIM {
                    return false;
                }
                rec.t = tc;
                rec.p = p;
                rec.set_face_normal(r, ow);
                rec.mat = Some(self.mat);
                true
            },
        }
    }

    /// One axis of the slab test; `None` stands for an unconstrained axis
    /// (the caller rejects the parallel-and-outside case separately).
    fn axis_slab(o: i64, d: i64, low: i64, high: i64) -> (r: Option<(i128, i128)>)
        requires
            -0x2000_0000_0000 <= o <= 0x2000_0000_0000,
            -0x2000_0000_0000 <= d <= 0x2000_0000_0000,
            -0x2000_0000_0000 <= low <= 0x2000_0000_0000,
            -0x2000_0000_0000 <= high <= 0x2000_0000_0000,
        ensures
            r is Some <==> axis_slab_s(o as int, d as int, low as int, high as int) is Span,
            axis_slab_s(o as int, d as int, low as int, high as int) matches AxisSlab::Span(
                tc,
                tf,
            ) ==> (r matches Some(q) && q.0 == tc && q.1 == tf),
    {
        if d == 0 {
            return None;
        }
        proof {
            assert(-0x4000_0000_0000_0000 <= ((low as int) - (o as int)) * (SCALE as int)
                <= 0x4000_0000_0000_0000) by (nonlinear_arith)
                requires
                    -0x4000_0000_0000 <= (low as int) - (o as int) <= 0x4000_0000_0000 && SCALE
                        == 0x1_0000,
            ;
            assert(-0x4000_0000_0000_0000 <= ((high as int) - (o as int)) * (SCALE as int)
                <= 0x4000_0000_0000_0000) by (nonlinear_arith)
                requires
                    -0x4000_0000_0000 <= (high as int) - (o as int) <= 0x4000_0000_0000 && SCALE
                        == 0x1_0000,
            ;
        }
        let t1: i128 = div_floor(((low as i128) - (o as i128)) * (SCALE as i128), d as i128);
        let t2: i128 = div_floor(((high as i128) - (o as i128)) * (SCALE as i128), d as i128);
        if t1 < t2 {
            Some((t1, t2))
        } else {
            Some((t2, t1))
        }
    }

    /// Intersect two axis intervals (`None` is an unconstrained axis).
    fn merge_slab(a: Option<(i128, i128)>, b: Option<(i128, i128)>) -> (r: Option<(i128, i128)>)
        ensures
            a is None ==> r == b,
            b is None ==> r == a,
            a matches Some((c1, f1)) ==> b matches Some((c2, f2)) ==> r == Some(
                (
                    if c1 < c2 {
                        c2
                    } else {
                        c1
                    },
                    if f1 < f2 {
                        f1
                    } else {
                        f2
                    },
                ),
            ),
    {
        match (a, b) {
            (None, bb) => bb,
            (aa, None) => aa,
            (Some((c1, f1)), Some((c2, f2))) => Some(
                (
                    if c1 < c2 {
                        c2
                    } else {
                        c1
                    },
                    if f1 < f2 {
                        f1
                    } else {
                        f2
                    },
                ),
            ),
        }
    }
}

} // verus!
