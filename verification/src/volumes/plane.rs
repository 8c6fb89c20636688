//! The infinite plane: normal and signed distance, normalized at
//! construction.
use crate::fixed::{div_floor, fdiv, fdiv_fx, fdiv_fx_s, fmul_s, lemma_fdiv_bounds,
    lemma_fdiv_exact,
    LIM, SCALE, T_FAR};
use crate::hittable::{face_front_s, face_normal_s, rec_matches, HitG, HitRecord};
use crate::material::{wf_material, Material};
use crate::ray::{ray_at_s, wf_ray, Ray, RayV};
use crate::utils::near_zero;
use crate::vec3::{bounded_v, dot, dot_raw, dot_s, lemma_dot_bound, len_raw, norm2_raw, unit_v,
    unit_vec,
    wf_v, Vec3};
use vstd::prelude::*;

verus! {

/// A plane `dot(N, P) + d == 0`, with `N` stored at unit length.
#[derive(Clone, Copy)]
pub struct Plane {
    pub norm: Vec3,
    pub dist: i64,
    pub mat: Material,
}

/// Stored fields a hit test can run on: a roughly-unit normal, a distance
/// within range, and a runnable material.
pub open spec fn wf_plane(pl: Plane) -> bool {
    &&& bounded_v(pl.norm@, 2 * (SCALE as int))
    &&& -0x4000_0000_0000 <= pl.dist <= 0x4000_0000_0000
    &&& wf_material(pl.mat)
}

/// The nearest intersection of a ray with the plane inside the window, if
/// any: the single root of the linear equation, rejected when the ray runs
/// parallel to the surface.
pub open spec fn plane_hit_s(pl: Plane, r: RayV, t_min: int, t_max: int) -> Option<HitG> {
    let num = dot_s(pl.norm@, r.ori) + pl.dist;
    let den = dot_s(pl.norm@, r.dir);
    if den == 0 {
        None
    } else {
        let root = fdiv(-num * (SCALE as int), den);
        if root <= t_min || root > t_max {
            None
        } else {
            Some(
                HitG {
                    t: root,
                    p: ray_at_s(r, root),
                    normal: face_normal_s(r.dir, pl.norm@),
                    front: face_front_s(r.dir, pl.norm@),
                    mat: pl.mat,
                },
            )
        }
    }
}

/// Every accepted hit point lands back on the plane: for an exactly
/// axis-aligned unit normal the residual `dot(N, P) + d` is at most one
/// quantum plus the direction's aligned component rescaled — the
/// fixed-point counterpart of the plane equation holding at the hit.
pub proof fn lemma_plane_hit_residual(pl: Plane, r: RayV, t_min: int, t_max: int)
    requires
        crate::vec3::axis_unit(pl.norm@),
        plane_hit_s(pl, r, t_min, t_max) is Some,
    ensures
        plane_hit_s(pl, r, t_min, t_max) matches Some(h) ==> crate::fixed::abs_i(
            dot_s(pl.norm@, h.p) + pl.dist,
        ) <= fdiv(crate::fixed::abs_i(dot_s(pl.norm@, r.dir)) - 1, SCALE as int) + 1,
{
    let s = SCALE as int;
    let n = pl.norm@;
    let o = r.ori;
    let dd = r.dir;
    let num = dot_s(n, o) + pl.dist;
    let den = dot_s(n, dd);
    let root = fdiv(-num * s, den);
    let p = ray_at_s(r, root);
    let h = plane_hit_s(pl, r, t_min, t_max)->Some_0;
    assert(h.p == p && den != 0);
    crate::fixed::lemma_linear_root_residual(num, den);
    if n.y == 0 && n.z == 0 {
        assert(dot_raw_eq_x(n, o) && dot_raw_eq_x(n, dd) && dot_raw_eq_x(n, p))
            by (nonlinear_arith)
            requires
                n.y == 0 && n.z == 0 && dot_raw_eq_x_defs(n, o, dd, p),
        ;
        if n.x == s {
            lemma_fdiv_exact(o.x, s);
            lemma_fdiv_exact(dd.x, s);
            lemma_fdiv_exact(p.x, s);
            assert(o.x * n.x == o.x * s && dd.x * n.x == dd.x * s && p.x * n.x == p.x * s)
                by (nonlinear_arith)
                requires
                    n.x == s,
            ;
            assert(root * dd.x == root * den) by (nonlinear_arith)
                requires
                    dd.x == den,
            ;
        } else {
            lemma_fdiv_exact(-o.x, s);
            lemma_fdiv_exact(-dd.x, s);
            lemma_fdiv_exact(-p.x, s);
            assert(o.x * n.x == (-o.x) * s && dd.x * n.x == (-dd.x) * s && p.x * n.x == (-p.x)
                * s) by (nonlinear_arith)
                requires
                    n.x == -s,
            ;
            assert(root * dd.x == -(root * den)) by (nonlinear_arith)
                requires
                    -dd.x == den,
            ;
        }
    } else if n.x == 0 && n.z == 0 {
        assert(dot_raw_eq_y(n, o) && dot_raw_eq_y(n, dd) && dot_raw_eq_y(n, p))
            by (nonlinear_arith)
            requires
                n.x == 0 && n.z == 0 && dot_raw_eq_x_defs(n, o, dd, p),
        ;
        if n.y == s {
            lemma_fdiv_exact(o.y, s);
            lemma_fdiv_exact(dd.y, s);
            lemma_fdiv_exact(p.y, s);
            assert(o.y * n.y == o.y * s && dd.y * n.y == dd.y * s && p.y * n.y == p.y * s)
                by (nonlinear_arith)
                requires
                    n.y == s,
            ;
            assert(root * dd.y == root * den) by (nonlinear_arith)
                requires
                    dd.y == den,
            ;
        } else {
            lemma_fdiv_exact(-o.y, s);
            lemma_fdiv_exact(-dd.y, s);
            lemma_fdiv_exact(-p.y, s);
            assert(o.y * n.y == (-o.y) * s && dd.y * n.y == (-dd.y) * s && p.y * n.y == (-p.y)
                * s) by (nonlinear_arith)
                requires
                    n.y == -s,
            ;
            assert(root * dd.y == -(root * den)) by (nonlinear_arith)
                requires
                    -dd.y == den,
            ;
        }
    } else {
        assert(dot_raw_eq_z(n, o) && dot_raw_eq_z(n, dd) && dot_raw_eq_z(n, p))
            by (nonlinear_arith)
            requires
                n.x == 0 && n.y == 0 && dot_raw_eq_x_defs(n, o, dd, p),
        ;
        if n.z == s {
            lemma_fdiv_exact(o.z, s);
            lemma_fdiv_exact(dd.z, s);
            lemma_fdiv_exact(p.z, s);
            assert(o.z * n.z == o.z * s && dd.z * n.z == dd.z * s && p.z * n.z == p.z * s)
                by (nonlinear_arith)
                requires
                    n.z == s,
            ;
            assert(root * dd.z == root * den) by (nonlinear_arith)
                requires
                    dd.z == den,
            ;
        } else {
            lemma_fdiv_exact(-o.z, s);
            lemma_fdiv_exact(-dd.z, s);
            lemma_fdiv_exact(-p.z, s);
            assert(o.z * n.z == (-o.z) * s && dd.z * n.z == (-dd.z) * s && p.z * n.z == (-p.z)
                * s) by (nonlinear_arith)
                requires
                    n.z == -s,
            ;
            assert(root * dd.z == -(root * den)) by (nonlinear_arith)
                requires
                    -dd.z == den,
            ;
        }
    }
}

/// Every accepted hit point lands back on the plane, for any normal whose
/// components lie within one unit — which every plane the constructor
/// builds satisfies: the residual `dot(N, P) + d` is within a handful of
/// quanta plus the denominator's and the parameter's rescaled magnitudes,
/// the fixed-point counterpart of the plane equation holding at the hit.
pub proof fn lemma_plane_hit_residual_bounded(pl: Plane, r: RayV, t_min: int, t_max: int)
    requires
        bounded_v(pl.norm@, SCALE as int),
        plane_hit_s(pl, r, t_min, t_max) is Some,
    ensures
        plane_hit_s(pl, r, t_min, t_max) matches Some(h) ==> crate::fixed::abs_i(
            dot_s(pl.norm@, h.p) + pl.dist,
        ) <= fdiv(
            crate::fixed::abs_i(dot_s(pl.norm@, r.dir)) + crate::fixed::abs_i(h.t),
            SCALE as int,
        ) + 5,
{
    let s = SCALE as int;
    let n = pl.norm@;
    let o = r.ori;
    let dd = r.dir;
    let d = pl.dist as int;
    let num = dot_s(n, o) + d;
    let den = dot_s(n, dd);
    let root = fdiv(-num * s, den);
    let p = ray_at_s(r, root);
    let h = plane_hit_s(pl, r, t_min, t_max)->Some_0;
    assert(h.p == p && h.t == root && den != 0);
    assert(-s <= n.x <= s && -s <= n.y <= s && -s <= n.z <= s);
    // Per component: the rescaled step and its floor remainder.
    let qx = fmul_s(root, dd.x);
    let qy = fmul_s(root, dd.y);
    let qz = fmul_s(root, dd.z);
    vstd::arithmetic::div_mod::lemma_fundamental_div_mod(root * dd.x, s);
    vstd::arithmetic::div_mod::lemma_fundamental_div_mod(root * dd.y, s);
    vstd::arithmetic::div_mod::lemma_fundamental_div_mod(root * dd.z, s);
    let rx = (root * dd.x) % s;
    let ry = (root * dd.y) % s;
    let rz = (root * dd.z) % s;
    assert(root * dd.x == s * qx + rx && root * dd.y == s * qy + ry && root * dd.z == s * qz + rz);
    // Fold the normal into each component, then sum the three.
    let sq = n.x * qx + n.y * qy + n.z * qz;
    let sr = n.x * rx + n.y * ry + n.z * rz;
    assert(n.x * (root * dd.x) == s * (n.x * qx) + n.x * rx) by (nonlinear_arith)
        requires
            root * dd.x == s * qx + rx,
    ;
    assert(n.y * (root * dd.y) == s * (n.y * qy) + n.y * ry) by (nonlinear_arith)
        requires
            root * dd.y == s * qy + ry,
    ;
    assert(n.z * (root * dd.z) == s * (n.z * qz) + n.z * rz) by (nonlinear_arith)
        requires
            root * dd.z == s * qz + rz,
    ;
    assert(root * dot_raw(n, dd) == n.x * (root * dd.x) + n.y * (root * dd.y) + n.z * (root
        * dd.z)) by (nonlinear_arith)
        requires
            dot_raw(n, dd) == n.x * dd.x + n.y * dd.y + n.z * dd.z,
    ;
    assert(s * sq == s * (n.x * qx) + s * (n.y * qy) + s * (n.z * qz)) by (nonlinear_arith)
        requires
            sq == n.x * qx + n.y * qy + n.z * qz,
    ;
    assert(root * dot_raw(n, dd) == s * sq + sr);
    // The denominator's own floor remainder.
    vstd::arithmetic::div_mod::lemma_fundamental_div_mod(dot_raw(n, dd), s);
    let g = dot_raw(n, dd) % s;
    assert(dot_raw(n, dd) == s * den + g && 0 <= g < s);
    assert(root * dot_raw(n, dd) == s * (root * den) + root * g) by (nonlinear_arith)
        requires
            dot_raw(n, dd) == s * den + g,
    ;
    // The root times the denominator misses the numerator by less than one
    // denominator.
    crate::fixed::lemma_fdiv_mul_close(-num * s, den);
    let delta = root * den + num * s;
    assert(crate::fixed::abs_i(delta) < crate::fixed::abs_i(den)) by {
        assert(root * den - (-num * s) == delta) by (nonlinear_arith)
            requires
                delta == root * den + num * s,
        ;
    }
    // The hit point's inner product, unfolded component by component.
    assert(dot_raw(n, p) == dot_raw(n, o) + sq) by (nonlinear_arith)
        requires
            p.x == o.x + qx && p.y == o.y + qy && p.z == o.z + qz && dot_raw(n, p) == n.x * p.x
                + n.y * p.y + n.z * p.z && dot_raw(n, o) == n.x * o.x + n.y * o.y + n.z * o.z && sq
                == n.x * qx + n.y * qy + n.z * qz,
    ;
    // The origin's own floor remainder.
    vstd::arithmetic::div_mod::lemma_fundamental_div_mod(dot_raw(n, o), s);
    let e = dot_raw(n, o) % s;
    assert(dot_raw(n, o) == s * (num - d) + e && 0 <= e < s);
    // Assemble: the residual's numerator, rescaled once more, collapses to
    // remainder terms alone.
    let xx = dot_raw(n, p) + s * d;
    assert(s * xx == s * dot_raw(n, p) + (s * s) * d) by (nonlinear_arith)
        requires
            xx == dot_raw(n, p) + s * d,
    ;
    assert(s * dot_raw(n, p) == s * dot_raw(n, o) + s * sq) by (nonlinear_arith)
        requires
            dot_raw(n, p) == dot_raw(n, o) + sq,
    ;
    assert(s * dot_raw(n, o) == (s * s) * num - (s * s) * d + s * e) by (nonlinear_arith)
        requires
            dot_raw(n, o) == s * (num - d) + e,
    ;
    assert(s * (root * den) == s * delta - (s * s) * num) by (nonlinear_arith)
        requires
            root * den == delta - num * s,
    ;
    assert(s * sq == s * (root * den) + root * g - sr);
    assert(s * xx == s * e + s * delta + root * g - sr);
    // Bound each remainder term.
    let aden = crate::fixed::abs_i(den);
    let aroot = crate::fixed::abs_i(root);
    assert(0 <= s * e <= s * s) by (nonlinear_arith)
        requires
            0 <= e < s && s > 0,
    ;
    assert(-(s * aden) <= s * delta <= s * aden) by (nonlinear_arith)
        requires
            -aden <= delta <= aden && s > 0,
    ;
    assert(-(s * aroot) <= root * g <= s * aroot) by (nonlinear_arith)
        requires
            0 <= g < s && aroot == crate::fixed::abs_i(root),
    ;
    assert(-(s * s) <= n.x * rx <= s * s && -(s * s) <= n.y * ry <= s * s && -(s * s) <= n.z * rz
        <= s * s) by (nonlinear_arith)
        requires
            -s <= n.x <= s && -s <= n.y <= s && -s <= n.z <= s && 0 <= rx < s && 0 <= ry < s && 0
                <= rz < s && s > 0,
    ;
    let bb = aden + aroot + 4 * s;
    assert(s * bb == s * aden + s * aroot + 4 * (s * s)) by (nonlinear_arith)
        requires
            bb == aden + aroot + 4 * s,
    ;
    assert(-(s * bb) <= s * xx <= s * bb);
    assert(-bb <= xx <= bb) by (nonlinear_arith)
        requires
            -(s * bb) <= s * xx <= s * bb && s > 0,
    ;
    // The residual is the rescaled numerator, so the bound rescales too.
    vstd::arithmetic::div_mod::lemma_hoist_over_denominator(dot_raw(n, p), d, s as nat);
    assert(dot_raw(n, p) + d * s == xx) by (nonlinear_arith)
        requires
            xx == dot_raw(n, p) + s * d,
    ;
    assert(dot_s(n, p) + d == fdiv(xx, s));
    crate::fixed::lemma_fdiv_mono(xx, bb, s);
    crate::fixed::lemma_fdiv_mono(-bb, xx, s);
    crate::fixed::lemma_fdiv_neg(bb, s);
    vstd::arithmetic::div_mod::lemma_hoist_over_denominator(aden + aroot, 4, s as nat);
    assert(fdiv(bb, s) == fdiv(aden + aroot, s) + 4);
}

/// The raw inner product against a normal whose off-x components vanish
/// collapses to the x term.
pub open spec fn dot_raw_eq_x(n: crate::vec3::V3, v: crate::vec3::V3) -> bool {
    crate::vec3::dot_raw(n, v) == v.x * n.x
}

/// The same collapse along y.
pub open spec fn dot_raw_eq_y(n: crate::vec3::V3, v: crate::vec3::V3) -> bool {
    crate::vec3::dot_raw(n, v) == v.y * n.y
}

/// The same collapse along z.
pub open spec fn dot_raw_eq_z(n: crate::vec3::V3, v: crate::vec3::V3) -> bool {
    crate::vec3::dot_raw(n, v) == v.z * n.z
}

/// The expanded inner products handed to the collapse steps.
pub open spec fn dot_raw_eq_x_defs(
    n: crate::vec3::V3,
    o: crate::vec3::V3,
    dd: crate::vec3::V3,
    p: crate::vec3::V3,
) -> bool {
    &&& crate::vec3::dot_raw(n, o) == n.x * o.x + n.y * o.y + n.z * o.z
    &&& crate::vec3::dot_raw(n, dd) == n.x * dd.x + n.y * dd.y + n.z * dd.z
    &&& crate::vec3::dot_raw(n, p) == n.x * p.x + n.y * p.y + n.z * p.z
}

impl Plane {
    /// Build a plane from any nonzero normal: the normal is rescaled to
    /// unit length and the distance rescaled to match.
    pub fn new(norm: Vec3, dist: i64, mat: Material) -> (r: Plane)
        requires
            wf_v(norm@),
            norm2_raw(norm@) >= 1,
            -LIM <= dist <= LIM,
            wf_material(mat),
        ensures
            r.norm@ == unit_v(norm@),
            bounded_v(r.norm@, SCALE as int),
            r.dist == fdiv_fx_s(dist as int, len_raw(norm@)),
            r.mat == mat,
            wf_plane(r),
    {
        let un: Vec3 = unit_vec(norm);
        let l: i64 = norm.length();
        proof {
            if l == 0 {
                assert(norm2_raw(norm@) < 1) by (nonlinear_arith)
                    requires
                        l == 0 && norm2_raw(norm@) < ((l as int) + 1) * ((l as int) + 1),
                ;
            }
            lemma_fdiv_bounds((dist as int) * (SCALE as int), l as int);
        }
        let ud: i64 = fdiv_fx(dist, l);
        Plane { norm: un, dist: ud, mat }
    }

    /// Report the nearest intersection inside `(t_min, t_max]`, filling the
    /// record only on success.
    pub fn hit(&self, r: &Ray, t_min: i64, t_max: i64, rec: &mut HitRecord) -> (b: bool)
        requires
            wf_plane(*self),
            wf_ray(r@),
            -T_FAR <= t_min <= t_max <= T_FAR,
        ensures
            b <==> plane_hit_s(*self, r@, t_min as int, t_max as int) is Some,
            plane_hit_s(*self, r@, t_min as int, t_max as int) matches Some(h) ==> rec_matches(
                final(rec)@,
                h,
            ),
            b ==> t_min < final(rec)@.t <= t_max,
            !b ==> *final(rec) == *old(rec),
    {
        proof {
            lemma_dot_bound(self.norm@, r@.ori, 0x4000_0000);
            lemma_dot_bound(self.norm@, r@.dir, 0x4000_0000);
        }
        let num: i64 = dot(self.norm, r.origin()) + self.dist;
        let den: i64 = dot(self.norm, r.direction());
        if near_zero(den) {
            return false;
        }
        proof {
            assert(-0x8000_0000_0000_0000 <= -(num as int) * (SCALE as int)
                <= 0x8000_0000_0000_0000) by (nonlinear_arith)
                requires
                    -0x8000_0000_0000 <= num <= 0x8000_0000_0000 && SCALE == 0x1_0000,
            ;
        }
        let root128: i128 = div_floor(-(num as i128) * (SCALE as i128), den as i128);
        if root128 <= t_min as i128 || root128 > t_max as i128 {
            return false;
        }
        let root: i64 = root128 as i64;
        rec.t = root;
        rec.p = r.at(root);
        rec.set_face_normal(r, self.norm);
        rec.mat = Some(self.mat);
        true
    }
}

} // verus!
