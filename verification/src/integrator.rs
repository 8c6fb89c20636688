//! The recursive radiance estimate: intersect, scatter, recurse, with the
//! recursion bounded by the depth alone.
use crate::fixed::{fdiv, fmul, fmul_s, lemma_fdiv_bounds, lemma_fdiv_exact, lemma_fdiv_mono,
    lemma_mul_bound, LIM, SCALE, T_FAR};
use crate::hittable::HitRecord;
use crate::material::{emitted_s, Material};
use crate::ray::{wf_ray, Ray};
use crate::utils::clamp;
use crate::vec3::{bounded_v, norm2_raw, unit_v, unit_vec, Color, Vec3, V3};
use crate::volumes::hittable_list::{lemma_scene_hit_emax, scene_emax, scene_hit_s, wf_scene,
    HittableList, Primitive};
use vstd::prelude::*;

verus! {

/// The window floor for every scene query: keeps a bounced ray from
/// striking the surface it just left.
pub const HIT_EPS: i64 = 65;

/// Radiance cap per channel: what a single sample may report.
pub const EMIT_MAX: i64 = 0x1000_0000_0000;

/// The radiance a ray that escapes the scene picks up.
#[derive(Clone, Copy, PartialEq, Eq, Structural, Debug)]
pub enum Background {
    Black,
    Sky,
}

/// What an escaping ray sees: black, or a vertical white-to-blue gradient
/// driven by the unit direction's height.
pub open spec fn background_s(bg: Background, dir: V3) -> V3 {
    match bg {
        Background::Black => V3 { x: 0, y: 0, z: 0 },
        Background::Sky => {
            if norm2_raw(dir) < 1 {
                V3 { x: 0, y: 0, z: 0 }
            } else {
                let s = SCALE as int;
                let t = fdiv(unit_v(dir).y + s, 2);
                V3 {
                    x: fmul_s(s - t, s) + fmul_s(t, 0x8000),
                    y: fmul_s(s - t, s) + fmul_s(t, 45875),
                    z: fmul_s(s - t, s) + fmul_s(t, s),
                }
            }
        },
    }
}

/// Evaluate the configured background for a ray direction.
pub fn background(bg: Background, dir: Vec3) -> (c: Color)
    requires
        bounded_v(dir@, LIM as int),
    ensures
        c@ == background_s(bg, dir@),
        0 <= c@.x <= SCALE && 0 <= c@.y <= SCALE && 0 <= c@.z <= SCALE,
{
    match bg {
        Background::Black => Vec3::new(0, 0, 0),
        Background::Sky => {
            if dir.near_zero() {
                proof {
                    crate::vec3::lemma_norm2_nonneg(dir@);
                    assert(norm2_raw(dir@) == 0) by (nonlinear_arith)
                        requires
                            dir@.x == 0 && dir@.y == 0 && dir@.z == 0 && norm2_raw(dir@) == dir@.x
                                * dir@.x + dir@.y * dir@.y + dir@.z * dir@.z,
                    ;
                }
                Vec3::new(0, 0, 0)
            } else {
                proof {
                    crate::vec3::lemma_norm2_nonneg(dir@);
                    assert(norm2_raw(dir@) >= 1) by (nonlinear_arith)
                        requires
                            (dir@.x != 0 || dir@.y != 0 || dir@.z != 0) && norm2_raw(dir@) == dir@.x
                                * dir@.x + dir@.y * dir@.y + dir@.z * dir@.z,
                    ;
                }
                let ud: Vec3 = unit_vec(dir);
                let t: i64 = (ud.y() + SCALE) / 2;
                proof {
                    assert(t == fdiv(unit_v(dir@).y + (SCALE as int), 2));
                    lemma_fdiv_bounds(unit_v(dir@).y + (SCALE as int), 2);
                    lemma_fdiv_mono(unit_v(dir@).y + (SCALE as int), 2 * (SCALE as int), 2);
                    lemma_fdiv_exact(SCALE as int, 2);
                    assert(2 * (SCALE as int) == (SCALE as int) * 2) by (nonlinear_arith);
                    assert(0 <= t <= SCALE);
                    lemma_fdiv_exact((SCALE as int) - (t as int), SCALE as int);
                    assert(((SCALE as int) - (t as int)) * (SCALE as int) == (SCALE as int) * ((
                    SCALE as int) - (t as int))) by (nonlinear_arith);
                    crate::fixed::lemma_fmul_bound(t as int, 0x8000, 0x1_0000, 0x8000);
                    crate::fixed::lemma_fmul_bound(t as int, 45875, 0x1_0000, 45875);
                    crate::fixed::lemma_fmul_bound(t as int, SCALE as int, 0x1_0000, 0x1_0000);
                    assert(fmul_s(t as int, 0x8000) >= 0 && fmul_s(t as int, 45875) >= 0 && fmul_s(
                        t as int,
                        SCALE as int,
                    ) >= 0) by {
                        assert((t as int) * 0x8000 >= 0 && (t as int) * 45875 >= 0 && (t as int) * (
                        SCALE as int) >= 0) by (nonlinear_arith)
                            requires
                                t >= 0,
                        ;
                        lemma_fdiv_bounds((t as int) * 0x8000, SCALE as int);
                        lemma_fdiv_bounds((t as int) * 45875, SCALE as int);
                        lemma_fdiv_bounds((t as int) * (SCALE as int), SCALE as int);
                    }
                    assert(fmul_s(t as int, 0x8000) <= t && fmul_s(t as int, 45875) <= t && fmul_s(
                        t as int,
                        SCALE as int,
                    ) <= t) by {
                        assert((t as int) * 0x8000 <= (t as int) * (SCALE as int) && (t as int)
                            * 45875 <= (t as int) * (SCALE as int)) by (nonlinear_arith)
                            requires
                                t >= 0 && SCALE == 0x1_0000,
                        ;
                        lemma_fdiv_mono((t as int) * 0x8000, (t as int) * (SCALE as int),
                            SCALE as int);
                        lemma_fdiv_mono((t as int) * 45875, (t as int) * (SCALE as int),
                            SCALE as int);
                        lemma_fdiv_exact(t as int, SCALE as int);
                        assert((t as int) * (SCALE as int) == (SCALE as int) * (t as int))
                            by (nonlinear_arith);
                    }
                }
                let base: i64 = fmul(SCALE - t, SCALE);
                Vec3::new(
                    base + fmul(t, 0x8000),
                    base + fmul(t, 45875),
                    base + fmul(t, SCALE),
                )
            }
        },
    }
}

/// The most any single sample can report for a scene, per channel: the
/// largest emission the scene holds, or one unit for what the background
/// contributes.
pub open spec fn scene_bound(objs: Seq<Primitive>) -> V3 {
    crate::vec3::max_v(
        scene_emax(objs),
        V3 { x: SCALE as int, y: SCALE as int, z: SCALE as int },
    )
}

/// The scene's emission cap is never negative in any channel.
pub proof fn lemma_scene_emax_nonneg(objs: Seq<Primitive>)
    ensures
        scene_emax(objs).x >= 0 && scene_emax(objs).y >= 0 && scene_emax(objs).z >= 0,
    decreases objs.len(),
{
    if objs.len() > 0 {
        lemma_scene_emax_nonneg(objs.subrange(1, objs.len() as int));
    }
}

/// Each channel clamped into the radiance cap.
pub open spec fn clamp_color_s(c: V3) -> V3 {
    V3 {
        x: crate::utils::clamp_s(c.x, 0, EMIT_MAX as int),
        y: crate::utils::clamp_s(c.y, 0, EMIT_MAX as int),
        z: crate::utils::clamp_s(c.z, 0, EMIT_MAX as int),
    }
}

/// The attenuation a successful scatter reports, material by material;
/// a light never scatters.
pub open spec fn scatter_attenuation_s(m: Material, att: V3) -> bool {
    match m {
        Material::Lambertian(l) => att == l.albedo@,
        Material::Metal(mt) => att == mt.albedo@,
        Material::Dielectric(_) => att == (V3 {
            x: SCALE as int,
            y: SCALE as int,
            z: SCALE as int,
        }),
        Material::DiffuseLight(_) => false,
    }
}

/// Every channel of a color lies in `[0, EMIT_MAX]`.
pub open spec fn color_in_range(c: V3) -> bool {
    &&& 0 <= c.x <= EMIT_MAX
    &&& 0 <= c.y <= EMIT_MAX
    &&& 0 <= c.z <= EMIT_MAX
}

/// The radiance carried back along one ray: black once the depth runs
/// out, the background when nothing is struck, and otherwise the struck
/// material's own light plus its attenuated bounce.
pub fn ray_color(r: &Ray, world: &HittableList, bg: Background, depth: i32) -> (c: Color)
    requires
        wf_scene(world.objects@),
        wf_ray(r@),
        norm2_raw(r@.dir) >= 1,
    ensures
        color_in_range(c@),
        c@.x <= scene_bound(world.objects@).x,
        c@.y <= scene_bound(world.objects@).y,
        c@.z <= scene_bound(world.objects@).z,
        depth <= 0 ==> c@ == (V3 { x: 0, y: 0, z: 0 }),
        depth > 0 && scene_hit_s(world.objects@, r@, HIT_EPS as int, T_FAR as int) is None ==> c@
            == background_s(bg, r@.dir),
        depth > 0 ==> (scene_hit_s(world.objects@, r@, HIT_EPS as int, T_FAR as int) matches Some(
            h,
        ) ==> (h.mat matches Material::DiffuseLight(l) ==> (color_in_range(l.emit@) ==> c@
            == l.emit@))),
        depth > 0 ==> (scene_hit_s(world.objects@, r@, HIT_EPS as int, T_FAR as int) matches Some(
            h,
        ) ==> (c@ == clamp_color_s(emitted_s(h.mat)) || (exists|att: V3, bounce: V3|
            scatter_attenuation_s(h.mat, att) && 0 <= att.x <= SCALE && 0 <= att.y <= SCALE && 0
                <= att.z <= SCALE && color_in_range(bounce) && bounce.x <= scene_bound(
                world.objects@,
            ).x && bounce.y <= scene_bound(world.objects@).y && bounce.z <= scene_bound(
                world.objects@,
            ).z && c@ == (V3 {
                x: clamp_color_s(emitted_s(h.mat)).x + fmul_s(att.x, bounce.x),
                y: clamp_color_s(emitted_s(h.mat)).y + fmul_s(att.y, bounce.y),
                z: clamp_color_s(emitted_s(h.mat)).z + fmul_s(att.z, bounce.z),
            })))),
        depth > 0 ==> (scene_hit_s(world.objects@, r@, HIT_EPS as int, T_FAR as int) matches Some(
            h,
        ) ==> (h.mat matches Material::Lambertian(l) ==> (bounded_v(l.albedo@, SCALE as int)
            && l.albedo@.x >= 0 && l.albedo@.y >= 0 && l.albedo@.z >= 0 ==> (c@.x <= fmul_s(
            l.albedo@.x,
            scene_bound(world.objects@).x,
        ) && c@.y <= fmul_s(l.albedo@.y, scene_bound(world.objects@).y) && c@.z <= fmul_s(
            l.albedo@.z,
            scene_bound(world.objects@).z,
        ))))),
    decreases depth,
{
    if depth <= 0 {
        return Vec3::new(0, 0, 0);
    }
    let mut rec: HitRecord = HitRecord::new();
    if !world.hit(r, HIT_EPS, T_FAR, &mut rec) {
        return background(bg, r.direction());
    }
    let m: Material = match rec.mat {
        Some(m) => m,
        None => {
            proof {
                assert(false);
            }
            Material::DiffuseLight(crate::material::DiffuseLight { emit: Vec3::new(0, 0, 0) })
        },
    };
    let e0: Color = m.emitted();
    let emitted: Color = Vec3::new(
        clamp(e0.x(), 0, EMIT_MAX),
        clamp(e0.y(), 0, EMIT_MAX),
        clamp(e0.z(), 0, EMIT_MAX),
    );
    proof {
        lemma_scene_emax_nonneg(world.objects@);
        lemma_scene_hit_emax(
            world.objects@,
            r@,
            HIT_EPS as int,
            T_FAR as int,
            None,
            scene_emax(world.objects@),
        );
        if let Material::Lambertian(l) = m {
            if 0 <= l.albedo@.x <= SCALE && 0 <= l.albedo@.y <= SCALE && 0 <= l.albedo@.z
                <= SCALE {
                lemma_attenuate_bound(l.albedo@.x, 0);
                lemma_attenuate_bound(l.albedo@.y, 0);
                lemma_attenuate_bound(l.albedo@.z, 0);
                lemma_fmul_mono_arg(l.albedo@.x, 0, scene_bound(world.objects@).x);
                lemma_fmul_mono_arg(l.albedo@.y, 0, scene_bound(world.objects@).y);
                lemma_fmul_mono_arg(l.albedo@.z, 0, scene_bound(world.objects@).z);
            }
        }
    }
    if !m.is_wf() {
        return emitted;
    }
    if rec.normal.x < -4 * SCALE || rec.normal.x > 4 * SCALE || rec.normal.y < -4 * SCALE
        || rec.normal.y > 4 * SCALE || rec.normal.z < -4 * SCALE || rec.normal.z > 4 * SCALE {
        return emitted;
    }
    let mut attenuation: Color = Vec3::new(0, 0, 0);
    let mut scattered: Ray = Ray::zero();
    if !m.scatter(r, &rec, &mut attenuation, &mut scattered) {
        return emitted;
    }
    if attenuation.x < 0 || attenuation.x > SCALE || attenuation.y < 0 || attenuation.y > SCALE
        || attenuation.z < 0 || attenuation.z > SCALE {
        return emitted;
    }
    let so: Vec3 = scattered.origin();
    let sd: Vec3 = scattered.direction();
    if so.x < -LIM || so.x > LIM || so.y < -LIM || so.y > LIM || so.z < -LIM || so.z > LIM {
        return emitted;
    }
    if sd.x < -LIM || sd.x > LIM || sd.y < -LIM || sd.y > LIM || sd.z < -LIM || sd.z > LIM {
        return emitted;
    }
    if sd.near_zero() {
        return emitted;
    }
    proof {
        crate::vec3::lemma_norm2_nonneg(sd@);
        assert(norm2_raw(sd@) >= 1) by (nonlinear_arith)
            requires
                (sd@.x != 0 || sd@.y != 0 || sd@.z != 0) && norm2_raw(sd@) == sd@.x * sd@.x + sd@.y
                    * sd@.y + sd@.z * sd@.z,
        ;
    }
    let bounce: Color = ray_color(&scattered, world, bg, depth - 1);
    proof {
        lemma_attenuate_bound(attenuation@.x, bounce@.x);
        lemma_attenuate_bound(attenuation@.y, bounce@.y);
        lemma_attenuate_bound(attenuation@.z, bounce@.z);
        assert(emitted_s(m) == (V3 { x: 0, y: 0, z: 0 }));
        if let Material::Lambertian(l) = m {
            lemma_fmul_mono_arg(attenuation@.x, bounce@.x, scene_bound(world.objects@).x);
            lemma_fmul_mono_arg(attenuation@.y, bounce@.y, scene_bound(world.objects@).y);
            lemma_fmul_mono_arg(attenuation@.z, bounce@.z, scene_bound(world.objects@).z);
        }
    }
    let gathered: Color = Vec3::new(
        emitted.x() + fmul(attenuation.x, bounce.x),
        emitted.y() + fmul(attenuation.y, bounce.y),
        emitted.z() + fmul(attenuation.z, bounce.z),
    );
    proof {
        assert(scatter_attenuation_s(m, attenuation@) && color_in_range(bounce@) && gathered@
            == (V3 {
            x: clamp_color_s(emitted_s(m)).x + fmul_s(attenuation@.x, bounce@.x),
            y: clamp_color_s(emitted_s(m)).y + fmul_s(attenuation@.y, bounce@.y),
            z: clamp_color_s(emitted_s(m)).z + fmul_s(attenuation@.z, bounce@.z),
        }));
    }
    gathered
}

/// A fixed-point product by a nonnegative factor is monotone in the
/// other factor.
pub proof fn lemma_fmul_mono_arg(a: int, b1: int, b2: int)
    requires
        0 <= a,
        b1 <= b2,
    ensures
        fmul_s(a, b1) <= fmul_s(a, b2),
{
    assert(a * b1 <= a * b2) by (nonlinear_arith)
        requires
            0 <= a && b1 <= b2,
    ;
    lemma_fdiv_mono(a * b1, a * b2, SCALE as int);
}

/// Attenuating a nonnegative radiance by a factor of at most one keeps
/// it bounded by itself.
proof fn lemma_attenuate_bound(a: int, x: int)
    requires
        0 <= a <= SCALE,
        0 <= x,
    ensures
        0 <= fmul_s(a, x) <= x,
{
    assert(0 <= a * x <= (SCALE as int) * x) by (nonlinear_arith)
        requires
            0 <= a <= SCALE && x >= 0,
    ;
    lemma_fdiv_bounds(a * x, SCALE as int);
    lemma_fdiv_mono(a * x, (SCALE as int) * x, SCALE as int);
    lemma_fdiv_exact(x, SCALE as int);
    assert(x * (SCALE as int) == (SCALE as int) * x) by (nonlinear_arith);
}

} // verus!
