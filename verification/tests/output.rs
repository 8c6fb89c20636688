//! The camera, the quantizer and the pixel sampler.
use rt::camera::Camera;
use rt::color::{quant_channel, write_color};
use rt::fixed::SCALE;
use rt::integrator::{Background, EMIT_MAX};
use rt::material::{DiffuseLight, Material};
use rt::render::render_pixel;
use rt::vec3::Vec3;
use rt::volumes::hittable_list::{HittableList, Primitive};
use rt::volumes::sphere::Sphere;

#[test]
fn camera_center_ray_points_at_the_target() {
    // Ninety-degree field of view (the tangent of half of it is one),
    // square aspect, looking down the positive z axis.
    let cam = Camera::new(
        SCALE,
        SCALE,
        Vec3::new(0, 0, -SCALE),
        Vec3::new(0, 0, SCALE),
        Vec3::new(0, SCALE, 0),
    );
    let r = cam.get_ray(SCALE / 2, SCALE / 2);
    assert_eq!((r.ori.x(), r.ori.y(), r.ori.z()), (0, 0, -SCALE));
    assert_eq!((r.dir.x(), r.dir.y(), r.dir.z()), (0, 0, SCALE));
}

#[test]
fn camera_corner_rays_span_the_viewport() {
    let cam = Camera::new(
        SCALE,
        SCALE,
        Vec3::new(0, 0, -SCALE),
        Vec3::new(0, 0, SCALE),
        Vec3::new(0, SCALE, 0),
    );
    let r = cam.get_ray(0, 0);
    // The lower-left corner sits one unit right (the basis mirrors x),
    // one down, one forward of the eye.
    assert_eq!((r.dir.x(), r.dir.y(), r.dir.z()), (SCALE, -SCALE, SCALE));
    let r2 = cam.get_ray(SCALE, SCALE);
    assert_eq!((r2.dir.x(), r2.dir.y(), r2.dir.z()), (-SCALE, SCALE, SCALE));
}

#[test]
fn write_color_full_white_one_sample_gamma_two() {
    let s = write_color(Vec3::new(SCALE, SCALE, SCALE), 1, 2);
    assert_eq!(s, "255 255 255");
}

#[test]
fn write_color_black_short_circuits() {
    let s = write_color(Vec3::new(0, 0, 0), 1, 2);
    assert_eq!(s, "0 0 0");
}

#[test]
fn write_color_quarter_gray_gamma_two() {
    // A quarter at gamma two is a half: 128 per channel.
    let q = SCALE / 4;
    let s = write_color(Vec3::new(q, q, q), 1, 2);
    assert_eq!(s, "128 128 128");
}

#[test]
fn write_color_mixed_digits_gamma_one() {
    // At gamma one the quantizer is linear: chosen inputs land on one,
    // two and three digit outputs.
    let s = write_color(Vec3::new(1792, 10752, 65535), 1, 1);
    assert_eq!(s, "7 42 255");
}

#[test]
fn write_color_averages_over_samples() {
    // Four samples of full white average back to full white.
    let s = write_color(Vec3::new(4 * SCALE, 4 * SCALE, 4 * SCALE), 4, 2);
    assert_eq!(s, "255 255 255");
}

#[test]
fn quant_channel_clamps_overrange_values() {
    assert_eq!(quant_channel(100 * SCALE, 1, 2), 255);
    assert_eq!(quant_channel(-5 * SCALE, 1, 2), 0);
}

#[test]
fn render_pixel_of_a_light_is_capped_and_positive() {
    let emit = Vec3::new(10 * SCALE, 10 * SCALE, 10 * SCALE);
    let mut world = HittableList::new();
    world.add(Primitive::Sphere(Sphere::new(
        Vec3::new(0, 0, 4 * SCALE),
        3 * SCALE,
        Material::DiffuseLight(DiffuseLight::new(emit)),
    )));
    let cam = Camera::new(
        SCALE,
        SCALE,
        Vec3::new(0, 0, 0),
        Vec3::new(0, 0, 4 * SCALE),
        Vec3::new(0, SCALE, 0),
    );
    let spp: u32 = 16;
    let white = Vec3::new(SCALE, SCALE, SCALE);
    let c = render_pixel(&cam, &world, Background::Black, 50, 50, 101, 101, spp, 8, white);
    assert!(c.x() >= 0 && c.x() <= (spp as i64) * EMIT_MAX);
    assert!(c.y() >= 0 && c.y() <= (spp as i64) * EMIT_MAX);
    // The center pixel faces the light dead on: every sample lands on it,
    // so the average recovers the emission exactly.
    assert_eq!(c.x(), (spp as i64) * emit.x());
}
