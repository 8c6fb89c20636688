//! Materials, the solid primitives, the scene and the integrator.
use rt::fixed::SCALE;
use rt::hittable::HitRecord;
use rt::integrator::{ray_color, Background, EMIT_MAX};
use rt::material::{
    dielectric_direction, Dielectric, DiffuseLight, Lambertian, Material, Metal,
};
use rt::ray::Ray;
use rt::vec3::{dot, unit_vec, Vec3};
use rt::volumes::cube::{Cube, Rot2, Rot3};
use rt::volumes::cylinder::Cylinder;
use rt::volumes::cylinder_t::CylinderTube;
use rt::volumes::hittable_list::{HittableList, Primitive};
use rt::volumes::sphere::Sphere;

fn no_rotation() -> Rot3 {
    Rot3 {
        x: Rot2 { c: SCALE, s: 0 },
        y: Rot2 { c: SCALE, s: 0 },
        z: Rot2 { c: SCALE, s: 0 },
    }
}

fn gray() -> Material {
    Material::Lambertian(Lambertian::new(Vec3::new(SCALE / 2, SCALE / 2, SCALE / 2)))
}

#[test]
fn sphere_hit_straight_on() {
    let sp = Sphere::new(Vec3::new(0, 0, 3 * SCALE), SCALE, gray());
    let ray = Ray::new(Vec3::new(0, 0, 0), Vec3::new(0, 0, SCALE));
    let mut rec = HitRecord::new();
    assert!(sp.hit(&ray, 0, 100 * SCALE, &mut rec));
    assert_eq!(rec.t, 2 * SCALE);
    assert_eq!((rec.p.x(), rec.p.y(), rec.p.z()), (0, 0, 2 * SCALE));
    assert_eq!((rec.normal.x(), rec.normal.y(), rec.normal.z()), (0, 0, -SCALE));
    assert!(rec.front);
}

#[test]
fn sphere_prefers_the_near_root() {
    // From inside the window both roots exist; the smaller one wins.
    let sp = Sphere::new(Vec3::new(0, 0, 5 * SCALE), 2 * SCALE, gray());
    let ray = Ray::new(Vec3::new(0, 0, 0), Vec3::new(0, 0, SCALE));
    let mut rec = HitRecord::new();
    assert!(sp.hit(&ray, 0, 100 * SCALE, &mut rec));
    assert_eq!(rec.t, 3 * SCALE);
}

#[test]
fn tube_hit_on_the_side() {
    let tb = CylinderTube::new(
        Vec3::new(0, -SCALE, 3 * SCALE),
        2 * SCALE,
        SCALE,
        Vec3::new(0, SCALE, 0),
        gray(),
    );
    let ray = Ray::new(Vec3::new(0, 0, 0), Vec3::new(0, 0, SCALE));
    let mut rec = HitRecord::new();
    assert!(tb.hit(&ray, 0, 100 * SCALE, &mut rec));
    assert_eq!(rec.t, 2 * SCALE);
    assert_eq!((rec.normal.x(), rec.normal.y(), rec.normal.z()), (0, 0, -SCALE));
}

#[test]
fn cylinder_axial_ray_strikes_only_the_near_cap() {
    // Fired along the axis from outside the base cap: exactly one hit, at
    // the base disk, never the tube.
    let cy = Cylinder::new(
        Vec3::new(0, 0, 0),
        2 * SCALE,
        SCALE,
        Vec3::new(0, SCALE, 0),
        gray(),
    );
    let ray = Ray::new(Vec3::new(0, -2 * SCALE, 0), Vec3::new(0, SCALE, 0));
    let mut rec = HitRecord::new();
    assert!(cy.hit(&ray, 0, 100 * SCALE, &mut rec));
    // The base cap lies in the plane y = 0, two units along the ray.
    assert_eq!(rec.t, 2 * SCALE);
    assert_eq!(rec.p.y(), 0);
    // The cap's normal opposes the ray: it is the flipped axis.
    assert_eq!((rec.normal.x(), rec.normal.y(), rec.normal.z()), (0, -SCALE, 0));
    // The tube itself reports nothing for the axial ray.
    let mut rec2 = HitRecord::new();
    assert!(!cy.tube.hit(&ray, 0, 100 * SCALE, &mut rec2));
}

#[test]
fn cube_hit_straight_on() {
    let cb = Cube::new(Vec3::new(0, 0, 3 * SCALE), SCALE, no_rotation(), gray());
    let ray = Ray::new(Vec3::new(0, 0, 0), Vec3::new(0, 0, SCALE));
    let mut rec = HitRecord::new();
    assert!(cb.hit(&ray, 0, 100 * SCALE, &mut rec));
    assert_eq!(rec.t, 2 * SCALE);
    assert_eq!((rec.normal.x(), rec.normal.y(), rec.normal.z()), (0, 0, -SCALE));
    assert!(rec.front);
    let miss = Ray::new(Vec3::new(3 * SCALE, 0, 0), Vec3::new(0, 0, SCALE));
    let mut rec2 = HitRecord::new();
    assert!(!cb.hit(&miss, 0, 100 * SCALE, &mut rec2));
}

#[test]
fn rotated_cube_is_still_struck_head_on() {
    // Cosine and sine of a forty-five degree turn about y, at scale.
    let rot = Rot3 {
        x: Rot2 { c: SCALE, s: 0 },
        y: Rot2 { c: 46341, s: 46341 },
        z: Rot2 { c: SCALE, s: 0 },
    };
    let cb = Cube::new(Vec3::new(0, 0, 3 * SCALE), SCALE, rot, gray());
    let ray = Ray::new(Vec3::new(0, 0, 0), Vec3::new(0, 0, SCALE));
    let mut rec = HitRecord::new();
    assert!(cb.hit(&ray, 0, 100 * SCALE, &mut rec));
    assert!(rec.t > 0 && rec.t < 3 * SCALE);
}

#[test]
fn scene_nearest_hit_wins_either_insertion_order() {
    let near = Primitive::Sphere(Sphere::new(Vec3::new(0, 0, 3 * SCALE), SCALE, gray()));
    let far = Primitive::Sphere(Sphere::new(Vec3::new(0, 0, 8 * SCALE), SCALE, gray()));
    let ray = Ray::new(Vec3::new(0, 0, 0), Vec3::new(0, 0, SCALE));
    for order in 0..2 {
        let mut world = HittableList::new();
        if order == 0 {
            world.add(near);
            world.add(far);
        } else {
            world.add(far);
            world.add(near);
        }
        let mut rec = HitRecord::new();
        assert!(world.hit(&ray, 0, 100 * SCALE, &mut rec));
        assert_eq!(rec.t, 2 * SCALE);
    }
}

#[test]
fn fuzz_is_clamped_into_the_unit_interval() {
    let white = Vec3::new(SCALE, SCALE, SCALE);
    assert_eq!(Metal::new(white, -5).fuzz, 0);
    assert_eq!(Metal::new(white, SCALE / 4).fuzz, SCALE / 4);
    assert_eq!(Metal::new(white, 2 * SCALE).fuzz, SCALE);
    assert_eq!(Dielectric::new(3 * SCALE / 2, -SCALE).fuzz, 0);
    assert_eq!(Dielectric::new(3 * SCALE / 2, 2 * SCALE).fuzz, SCALE);
}

#[test]
fn metal_mirror_reflection_without_fuzz() {
    let m = Material::Metal(Metal::new(Vec3::new(SCALE, SCALE, SCALE), 0));
    let ray = Ray::new(Vec3::new(0, SCALE, 0), Vec3::new(0, -SCALE, 0));
    let mut rec = HitRecord::new();
    rec.p = Vec3::new(0, 0, 0);
    rec.normal = Vec3::new(0, SCALE, 0);
    rec.front = true;
    let mut att = Vec3::new(0, 0, 0);
    let mut scat = Ray::zero();
    assert!(m.scatter(&ray, &rec, &mut att, &mut scat));
    assert_eq!((att.x(), att.y(), att.z()), (SCALE, SCALE, SCALE));
    assert_eq!((scat.dir.x(), scat.dir.y(), scat.dir.z()), (0, SCALE, 0));
    assert_eq!((scat.ori.x(), scat.ori.y(), scat.ori.z()), (0, 0, 0));
}

#[test]
fn light_never_scatters_and_emits_its_color() {
    let emit = Vec3::new(10 * SCALE, 10 * SCALE, 10 * SCALE);
    let m = Material::DiffuseLight(DiffuseLight::new(emit));
    let e = m.emitted();
    assert_eq!((e.x(), e.y(), e.z()), (emit.x(), emit.y(), emit.z()));
    let ray = Ray::new(Vec3::new(0, SCALE, 0), Vec3::new(0, -SCALE, 0));
    let mut rec = HitRecord::new();
    rec.normal = Vec3::new(0, SCALE, 0);
    let mut att = Vec3::new(0, 0, 0);
    let mut scat = Ray::zero();
    assert!(!m.scatter(&ray, &rec, &mut att, &mut scat));
}

#[test]
fn total_internal_reflection_always_reflects() {
    // Incident at forty-five degrees against a ratio of 1.5: the sine
    // times the ratio exceeds one, so every draw reflects.
    let unit_in = unit_vec(Vec3::new(SCALE, -SCALE, 0));
    let n = Vec3::new(0, SCALE, 0);
    let ratio = 3 * SCALE / 2;
    let ir = 3 * SCALE / 2;
    for draw in [0, 1, SCALE / 2, SCALE - 1] {
        let (dir, reflected) = dielectric_direction(unit_in, n, ratio, ir, draw);
        assert!(reflected);
        // The mirror image of the incoming direction.
        assert!(dir.y() > 0);
    }
}

#[test]
fn shallow_ratio_refracts_on_a_high_draw() {
    let unit_in = unit_vec(Vec3::new(SCALE, -SCALE, 0));
    let n = Vec3::new(0, SCALE, 0);
    // Entering the denser medium: ratio 1/1.5.
    let ratio = 2 * SCALE / 3;
    let ir = 3 * SCALE / 2;
    let (dir, reflected) = dielectric_direction(unit_in, n, ratio, ir, SCALE - 1);
    assert!(!reflected);
    assert!(dir.y() < 0);
}

#[test]
fn dielectric_scatter_is_opaque_white() {
    let m = Material::Dielectric(Dielectric::new(3 * SCALE / 2, 0));
    let ray = Ray::new(Vec3::new(0, SCALE, 0), Vec3::new(0, -SCALE, 0));
    let mut rec = HitRecord::new();
    rec.p = Vec3::new(0, 0, 0);
    rec.normal = Vec3::new(0, SCALE, 0);
    rec.front = true;
    let mut att = Vec3::new(0, 0, 0);
    let mut scat = Ray::zero();
    assert!(m.scatter(&ray, &rec, &mut att, &mut scat));
    assert_eq!((att.x(), att.y(), att.z()), (SCALE, SCALE, SCALE));
}

#[test]
fn ray_color_at_depth_zero_is_black() {
    let mut world = HittableList::new();
    world.add(Primitive::Sphere(Sphere::new(
        Vec3::new(0, 0, 3 * SCALE),
        SCALE,
        Material::DiffuseLight(DiffuseLight::new(Vec3::new(SCALE, SCALE, SCALE))),
    )));
    let ray = Ray::new(Vec3::new(0, 0, 0), Vec3::new(0, 0, SCALE));
    let c = ray_color(&ray, &world, Background::Sky, 0);
    assert_eq!((c.x(), c.y(), c.z()), (0, 0, 0));
}

#[test]
fn light_struck_head_on_returns_exactly_its_emission() {
    // A single emissive sphere dead ahead: every surviving sample reports
    // the light's color itself, since the light never scatters.
    let emit = Vec3::new(10 * SCALE, 10 * SCALE, 10 * SCALE);
    let mut world = HittableList::new();
    world.add(Primitive::Sphere(Sphere::new(
        Vec3::new(0, 0, 4 * SCALE),
        2 * SCALE,
        Material::DiffuseLight(DiffuseLight::new(emit)),
    )));
    let ray = Ray::new(Vec3::new(0, 0, 0), Vec3::new(0, 0, SCALE));
    for depth in [1, 2, 50] {
        let c = ray_color(&ray, &world, Background::Black, depth);
        assert_eq!((c.x(), c.y(), c.z()), (emit.x(), emit.y(), emit.z()));
    }
}

#[test]
fn lambertian_lit_by_a_light_stays_between_black_and_the_light() {
    // A diffuse sphere ahead, a light above: the sampled radiance never
    // goes negative and never exceeds the radiance cap.
    let emit = Vec3::new(10 * SCALE, 10 * SCALE, 10 * SCALE);
    let mut world = HittableList::new();
    world.add(Primitive::Sphere(Sphere::new(
        Vec3::new(0, 0, 4 * SCALE),
        SCALE,
        gray(),
    )));
    world.add(Primitive::Sphere(Sphere::new(
        Vec3::new(0, 6 * SCALE, 4 * SCALE),
        2 * SCALE,
        Material::DiffuseLight(DiffuseLight::new(emit)),
    )));
    let ray = Ray::new(Vec3::new(0, 0, 0), Vec3::new(0, 0, SCALE));
    for _ in 0..50 {
        let c = ray_color(&ray, &world, Background::Black, 8);
        assert!(c.x() >= 0 && c.x() <= EMIT_MAX);
        assert!(c.y() >= 0 && c.y() <= EMIT_MAX);
        assert!(c.z() >= 0 && c.z() <= EMIT_MAX);
        // The first bounce is the half-gray sphere, so no sample exceeds
        // the light's emission scaled by the albedo.
        assert!(c.x() <= 5 * SCALE);
        assert!(c.y() <= 5 * SCALE);
        assert!(c.z() <= 5 * SCALE);
    }
}

#[test]
fn missing_everything_returns_the_background() {
    let world = HittableList::new();
    let ray = Ray::new(Vec3::new(0, 0, 0), Vec3::new(0, 0, SCALE));
    let black = ray_color(&ray, &world, Background::Black, 5);
    assert_eq!((black.x(), black.y(), black.z()), (0, 0, 0));
    // Straight along z the sky gradient sits halfway between white and
    // the horizon blue.
    let sky = ray_color(&ray, &world, Background::Sky, 5);
    assert!(sky.z() > 0);
    assert!(sky.x() > 0 && sky.x() <= SCALE);
}
