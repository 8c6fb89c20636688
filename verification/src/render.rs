//! The per-pixel sampling unit of the renderer: jittered camera rays,
//! accumulated radiance, and the post-accumulation color filter.
use crate::camera::{wf_camera, Camera};
use crate::fixed::{div_floor, fdiv, fmul, fmul_s, lemma_fdiv_bounds, lemma_fdiv_exact,
    lemma_fdiv_mono, lemma_mul_bound, SCALE, T_FAR};
use crate::integrator::{color_in_range, lemma_fmul_mono_arg, lemma_scene_emax_nonneg, ray_color,
    scene_bound, Background, EMIT_MAX, HIT_EPS};
use crate::material::Material;
use crate::ray::{Ray, RayV};
use crate::utils::rand_01;
use crate::vec3::{add_v, bounded_v, norm2_raw, scale_v, sub_v, Color, Vec3, V3};
use crate::volumes::hittable_list::{scene_hit_s, wf_scene, HittableList, Primitive};
use vstd::prelude::*;

verus! {

/// The primary ray a camera casts toward the viewport position `(u, v)`:
/// exactly what `get_ray` returns there.
pub open spec fn camera_ray_s(cam: Camera, u: int, v: int) -> RayV {
    RayV {
        ori: cam.ori@,
        dir: sub_v(
            add_v(
                add_v(cam.lower_left_corner@, scale_v(u, cam.horizontal@)),
                scale_v(v, cam.vertical@),
            ),
            cam.ori@,
        ),
    }
}

/// The lower edge of the viewport window one pixel index samples from.
pub open spec fn coord_window_lo(i: int, extent: int) -> int {
    fdiv(i * (SCALE as int), extent - 1)
}

/// The upper edge of the viewport window one pixel index samples from.
pub open spec fn coord_window_hi(i: int, extent: int) -> int {
    fdiv(i * (SCALE as int) + SCALE - 1, extent - 1)
}

/// Every jittered ray of one pixel's viewport window has a usable
/// direction and strikes, nearest, the same light with emission `emit`.
pub open spec fn pixel_sees_light_s(
    cam: Camera,
    objs: Seq<Primitive>,
    i: int,
    j: int,
    width: int,
    height: int,
    emit: V3,
) -> bool {
    forall|u: int, v: int|
        #![trigger camera_ray_s(cam, u, v)]
        coord_window_lo(i, width) <= u <= coord_window_hi(i, width) && coord_window_lo(j, height)
            <= v <= coord_window_hi(j, height) ==> {
            let ray = camera_ray_s(cam, u, v);
            &&& ray.dir != (V3 { x: 0, y: 0, z: 0 })
            &&& scene_hit_s(objs, ray, HIT_EPS as int, T_FAR as int) matches Some(h) && h.mat
                matches Material::DiffuseLight(l) && l.emit@ == emit
        }
}

/// Accumulate the radiance of one pixel over jittered samples and apply
/// the color filter. Every channel of the result stays within
/// `samples * EMIT_MAX` and within the filter-scaled scene emission cap;
/// and when every jittered ray of the pixel's own viewport window strikes
/// the same in-range light, the result is exactly the filtered sum of
/// that emission — the draw-free case is pinned down.
pub fn render_pixel(
    cam: &Camera,
    world: &HittableList,
    bg: Background,
    i: u32,
    j: u32,
    width: u32,
    height: u32,
    samples_per_pixel: u32,
    max_depth: i32,
    color_filter: Color,
) -> (c: Color)
    requires
        wf_camera(*cam),
        wf_scene(world.objects@),
        2 <= width <= 0x4000,
        2 <= height <= 0x4000,
        i < width,
        j < height,
        1 <= samples_per_pixel <= 0x1_0000,
        0 <= color_filter@.x <= SCALE,
        0 <= color_filter@.y <= SCALE,
        0 <= color_filter@.z <= SCALE,
    ensures
        0 <= c@.x <= (samples_per_pixel as int) * (EMIT_MAX as int),
        0 <= c@.y <= (samples_per_pixel as int) * (EMIT_MAX as int),
        0 <= c@.z <= (samples_per_pixel as int) * (EMIT_MAX as int),
        c@.x <= fmul_s(
            color_filter@.x,
            (samples_per_pixel as int) * scene_bound(world.objects@).x,
        ),
        c@.y <= fmul_s(
            color_filter@.y,
            (samples_per_pixel as int) * scene_bound(world.objects@).y,
        ),
        c@.z <= fmul_s(
            color_filter@.z,
            (samples_per_pixel as int) * scene_bound(world.objects@).z,
        ),
        forall|emit: V3|
            max_depth >= 1 && color_in_range(emit) && #[trigger] pixel_sees_light_s(
                *cam,
                world.objects@,
                i as int,
                j as int,
                width as int,
                height as int,
                emit,
            ) ==> c@ == (V3 {
                x: fmul_s(color_filter@.x, (samples_per_pixel as int) * emit.x),
                y: fmul_s(color_filter@.y, (samples_per_pixel as int) * emit.y),
                z: fmul_s(color_filter@.z, (samples_per_pixel as int) * emit.z),
            }),
{
    let mut sx: i64 = 0;
    let mut sy: i64 = 0;
    let mut sz: i64 = 0;
    let mut k: u32 = 0;
    proof {
        lemma_mul_bound(samples_per_pixel as int, EMIT_MAX as int, 0x1_0000, EMIT_MAX as int);
        lemma_scene_emax_nonneg(world.objects@);
    }
    let ghost sb = scene_bound(world.objects@);
    proof {
        assert(sb.x >= SCALE && sb.y >= SCALE && sb.z >= SCALE);
    }
    while k < samples_per_pixel
        invariant
            wf_camera(*cam),
            wf_scene(world.objects@),
            2 <= width <= 0x4000,
            2 <= height <= 0x4000,
            i < width,
            j < height,
            1 <= samples_per_pixel <= 0x1_0000,
            k <= samples_per_pixel,
            0 <= sx <= (k as int) * (EMIT_MAX as int),
            0 <= sy <= (k as int) * (EMIT_MAX as int),
            0 <= sz <= (k as int) * (EMIT_MAX as int),
            sb == scene_bound(world.objects@),
            sb.x >= SCALE && sb.y >= SCALE && sb.z >= SCALE,
            sx <= (k as int) * sb.x,
            sy <= (k as int) * sb.y,
            sz <= (k as int) * sb.z,
            forall|emit: V3|
                max_depth >= 1 && color_in_range(emit) && #[trigger] pixel_sees_light_s(
                    *cam,
                    world.objects@,
                    i as int,
                    j as int,
                    width as int,
                    height as int,
                    emit,
                ) ==> sx == (k as int) * emit.x && sy == (k as int) * emit.y && sz == (k as int)
                    * emit.z,
        decreases samples_per_pixel - k,
    {
        let u: i64 = pixel_coord(i, width);
        let v: i64 = pixel_coord(j, height);
        let r: Ray = cam.get_ray(u, v);
        let degenerate: bool = r.direction().near_zero();
        let sample: Color = if degenerate {
            Vec3::new(0, 0, 0)
        } else {
            proof {
                crate::vec3::lemma_norm2_nonneg(r@.dir);
                assert(norm2_raw(r@.dir) >= 1) by (nonlinear_arith)
                    requires
                        (r@.dir.x != 0 || r@.dir.y != 0 || r@.dir.z != 0) && norm2_raw(r@.dir)
                            == r@.dir.x * r@.dir.x + r@.dir.y * r@.dir.y + r@.dir.z * r@.dir.z,
                ;
            }
            ray_color(&r, world, bg, max_depth)
        };
        proof {
            assert forall|emit: V3|
                max_depth >= 1 && color_in_range(emit) && #[trigger] pixel_sees_light_s(
                    *cam,
                    world.objects@,
                    i as int,
                    j as int,
                    width as int,
                    height as int,
                    emit,
                ) implies sample@ == emit && (k as int) * emit.x + emit.x == ((k as int) + 1)
                * emit.x && (k as int) * emit.y + emit.y == ((k as int) + 1) * emit.y && (k as int)
                * emit.z + emit.z == ((k as int) + 1) * emit.z by {
                assert(camera_ray_s(*cam, u as int, v as int) == r@);
                assert(!degenerate);
                assert((k as int) * emit.x + emit.x == ((k as int) + 1) * emit.x && (k as int)
                    * emit.y + emit.y == ((k as int) + 1) * emit.y && (k as int) * emit.z + emit.z
                    == ((k as int) + 1) * emit.z) by (nonlinear_arith);
            }
            assert((k as int) * (EMIT_MAX as int) + EMIT_MAX == ((k as int) + 1) * (
            EMIT_MAX as int)) by (nonlinear_arith);
            assert(((k as int) + 1) * (EMIT_MAX as int) <= (samples_per_pixel as int) * (
            EMIT_MAX as int)) by (nonlinear_arith)
                requires
                    k + 1 <= samples_per_pixel,
            ;
            assert((k as int) * sb.x + sb.x == ((k as int) + 1) * sb.x && (k as int) * sb.y + sb.y
                == ((k as int) + 1) * sb.y && (k as int) * sb.z + sb.z == ((k as int) + 1) * sb.z)
                by (nonlinear_arith);
            assert(((k as int) + 1) * sb.x <= (samples_per_pixel as int) * sb.x && ((k as int) + 1)
                * sb.y <= (samples_per_pixel as int) * sb.y && ((k as int) + 1) * sb.z <= (
            samples_per_pixel as int) * sb.z) by (nonlinear_arith)
                requires
                    k + 1 <= samples_per_pixel && sb.x >= 0 && sb.y >= 0 && sb.z >= 0,
            ;
        }
        sx = sx + sample.x();
        sy = sy + sample.y();
        sz = sz + sample.z();
        k = k + 1;
    }
    proof {
        lemma_filter_bound(color_filter@.x, sx as int, (samples_per_pixel as int) * (
        EMIT_MAX as int));
        lemma_filter_bound(color_filter@.y, sy as int, (samples_per_pixel as int) * (
        EMIT_MAX as int));
        lemma_filter_bound(color_filter@.z, sz as int, (samples_per_pixel as int) * (
        EMIT_MAX as int));
        lemma_fmul_mono_arg(color_filter@.x, sx as int, (samples_per_pixel as int) * sb.x);
        lemma_fmul_mono_arg(color_filter@.y, sy as int, (samples_per_pixel as int) * sb.y);
        lemma_fmul_mono_arg(color_filter@.z, sz as int, (samples_per_pixel as int) * sb.z);
        assert forall|emit: V3|
            max_depth >= 1 && color_in_range(emit) && #[trigger] pixel_sees_light_s(
                *cam,
                world.objects@,
                i as int,
                j as int,
                width as int,
                height as int,
                emit,
            ) implies sx == (samples_per_pixel as int) * emit.x && sy == (samples_per_pixel as int)
            * emit.y && sz == (samples_per_pixel as int) * emit.z by {
        }
    }
    Vec3::new(fmul(color_filter.x, sx), fmul(color_filter.y, sy), fmul(color_filter.z, sz))
}

/// The jittered viewport coordinate of one pixel index: the index plus a
/// uniform draw in `[0, 1)`, divided by the axis extent less one — so the
/// result stays inside the index's own window of the viewport.
fn pixel_coord(i: u32, extent: u32) -> (u: i64)
    requires
        2 <= extent <= 0x4000,
        i < extent,
    ensures
        0 <= u <= 2 * SCALE,
        coord_window_lo(i as int, extent as int) <= u <= coord_window_hi(i as int, extent as int),
{
    let jitter: i64 = rand_01();
    let base: i64 = (i as i64) * SCALE + jitter;
    proof {
        assert(0 <= base <= ((extent as int) - 1) * (SCALE as int) + SCALE) by (nonlinear_arith)
            requires
                0 <= i <= extent - 1 && 0 <= jitter < SCALE && SCALE == 0x1_0000 && base == (
                i as int) * (SCALE as int) + jitter,
        ;
        lemma_fdiv_bounds(base as int, (extent as int) - 1);
        assert(((extent as int) - 1) * (SCALE as int) + SCALE <= ((extent as int) - 1) * (2 * (
        SCALE as int))) by (nonlinear_arith)
            requires
                extent >= 2 && SCALE == 0x1_0000,
        ;
        lemma_fdiv_mono(
            base as int,
            ((extent as int) - 1) * (2 * (SCALE as int)),
            (extent as int) - 1,
        );
        lemma_fdiv_exact(2 * (SCALE as int), (extent as int) - 1);
        assert(((extent as int) - 1) * (2 * (SCALE as int)) == (2 * (SCALE as int)) * ((
        extent as int) - 1)) by (nonlinear_arith);
        lemma_fdiv_mono((i as int) * (SCALE as int), base as int, (extent as int) - 1);
        lemma_fdiv_mono(
            base as int,
            (i as int) * (SCALE as int) + SCALE - 1,
            (extent as int) - 1,
        );
    }
    div_floor(base as i128, (extent as i128) - 1) as i64
}

/// Filtering a bounded nonnegative channel by a factor of at most one
/// keeps it bounded.
proof fn lemma_filter_bound(f: int, x: int, bound: int)
    requires
        0 <= f <= SCALE,
        0 <= x <= bound,
    ensures
        0 <= fmul_s(f, x) <= bound,
{
    assert(0 <= f * x <= (SCALE as int) * x) by (nonlinear_arith)
        requires
            0 <= f <= SCALE && x >= 0,
    ;
    lemma_fdiv_bounds(f * x, SCALE as int);
    lemma_fdiv_mono(f * x, (SCALE as int) * x, SCALE as int);
    lemma_fdiv_exact(x, SCALE as int);
    assert(x * (SCALE as int) == (SCALE as int) * x) by (nonlinear_arith);
}

} // verus!
