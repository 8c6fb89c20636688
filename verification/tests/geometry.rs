//! Vector algebra, scalar helpers and the flat primitives.
use rt::fixed::SCALE;
use rt::hittable::HitRecord;
use rt::material::{Lambertian, Material};
use rt::ray::Ray;
use rt::utils::{clamp, degrees_to_radians, near_zero, rand_01, rand_range};
use rt::vec3::{cross, dot, rand_in_unit_sphere, rand_unit_vec, reflect, refract, unit_vec, Vec3};
use rt::volumes::plane::Plane;
use rt::volumes::subplane_d::Disk;
use rt::volumes::subplane_s::Square;

fn gray() -> Material {
    Material::Lambertian(Lambertian::new(Vec3::new(SCALE / 2, SCALE / 2, SCALE / 2)))
}

#[test]
fn vec3_accessors_and_ops() {
    let v = Vec3::new(1, -2, 3);
    assert_eq!(v.x(), 1);
    assert_eq!(v.y(), -2);
    assert_eq!(v.z(), 3);
    let w = v.add(&Vec3::new(10, 10, 10));
    assert_eq!((w.x(), w.y(), w.z()), (11, 8, 13));
    let s = w.sub(&v);
    assert_eq!((s.x(), s.y(), s.z()), (10, 10, 10));
    let n = v.neg();
    assert_eq!((n.x(), n.y(), n.z()), (-1, 2, -3));
}

#[test]
fn dot_is_exact_on_unit_axes() {
    let x = Vec3::new(SCALE, 0, 0);
    let y = Vec3::new(0, SCALE, 0);
    assert_eq!(dot(x, x), SCALE);
    assert_eq!(dot(x, y), 0);
    let v = Vec3::new(3 * SCALE, 4 * SCALE, 0);
    assert_eq!(dot(v, x), 3 * SCALE);
}

#[test]
fn cross_of_axes_gives_third_axis() {
    let x = Vec3::new(SCALE, 0, 0);
    let y = Vec3::new(0, SCALE, 0);
    let z = cross(x, y);
    assert_eq!((z.x(), z.y(), z.z()), (0, 0, SCALE));
    let mz = cross(y, x);
    assert_eq!((mz.x(), mz.y(), mz.z()), (0, 0, -SCALE));
}

#[test]
fn length_of_three_four_five() {
    let v = Vec3::new(3 * SCALE, 4 * SCALE, 0);
    assert_eq!(v.length(), 5 * SCALE);
    assert_eq!(v.length_squared(), 25 * SCALE);
}

#[test]
fn unit_vec_rescales_exactly_on_axis() {
    let v = Vec3::new(0, 7 * SCALE, 0);
    let u = unit_vec(v);
    assert_eq!((u.x(), u.y(), u.z()), (0, SCALE, 0));
}

#[test]
fn reflect_flips_the_normal_component() {
    let v = Vec3::new(2 * SCALE, -3 * SCALE, SCALE);
    let n = Vec3::new(0, SCALE, 0);
    let r = reflect(v, n);
    assert_eq!((r.x(), r.y(), r.z()), (2 * SCALE, 3 * SCALE, SCALE));
    // Reflection is an involution (the law proved in the library; checked
    // here on values).
    let rr = reflect(r, n);
    assert_eq!((rr.x(), rr.y(), rr.z()), (v.x(), v.y(), v.z()));
}

#[test]
fn refract_straight_through_at_unit_ratio() {
    // Head-on at ratio one: the direction continues straight.
    let uv = Vec3::new(0, -SCALE, 0);
    let n = Vec3::new(0, SCALE, 0);
    let r = refract(uv, n, SCALE);
    assert_eq!(r.x(), 0);
    assert!(r.y() < 0);
    assert_eq!(r.z(), 0);
}

#[test]
fn near_zero_is_exact_zero_test() {
    assert!(near_zero(0));
    assert!(!near_zero(1));
    assert!(!near_zero(-1));
    assert!(Vec3::new(0, 0, 0).near_zero());
    assert!(!Vec3::new(0, 1, 0).near_zero());
}

#[test]
fn clamp_matches_its_contract() {
    assert_eq!(clamp(5, 0, 10), 5);
    assert_eq!(clamp(-5, 0, 10), 0);
    assert_eq!(clamp(50, 0, 10), 10);
}

#[test]
fn degrees_to_radians_at_180() {
    // 180 degrees is pi: 205887 quanta at this scale.
    assert_eq!(degrees_to_radians(180 * SCALE), 205887);
    assert_eq!(degrees_to_radians(90 * SCALE), 102943);
    assert_eq!(degrees_to_radians(0), 0);
}

#[test]
fn random_draws_stay_in_range() {
    for _ in 0..200 {
        let r = rand_01();
        assert!(0 <= r && r < SCALE);
        let s = rand_range(-3 * SCALE, 3 * SCALE);
        assert!(-3 * SCALE <= s && s < 3 * SCALE);
        let p = rand_in_unit_sphere();
        assert!(p.length_squared() < SCALE);
        let u = rand_unit_vec();
        // Unit up to the rescaling floors: the in-ball draw is at least
        // half a unit long, so the length stays within a few quanta.
        let l = u.length();
        assert!(l <= SCALE + 64);
        assert!(l >= SCALE - 64);
    }
}

#[test]
fn plane_hit_solves_the_linear_equation() {
    // The plane y = 1, struck straight on from the origin.
    let pl = Plane::new(Vec3::new(0, SCALE, 0), -SCALE, gray());
    let ray = Ray::new(Vec3::new(0, 0, 0), Vec3::new(0, SCALE, 0));
    let mut rec = HitRecord::new();
    assert!(pl.hit(&ray, 0, 100 * SCALE, &mut rec));
    assert_eq!(rec.t, SCALE);
    assert_eq!((rec.p.x(), rec.p.y(), rec.p.z()), (0, SCALE, 0));
    // The hit point satisfies the plane equation exactly here.
    assert_eq!(dot(pl.norm, rec.p) + pl.dist, 0);
    // The stored normal opposes the ray.
    assert_eq!((rec.normal.x(), rec.normal.y(), rec.normal.z()), (0, -SCALE, 0));
    assert!(!rec.front);
}

#[test]
fn plane_rejects_parallel_rays() {
    let pl = Plane::new(Vec3::new(0, SCALE, 0), -SCALE, gray());
    let ray = Ray::new(Vec3::new(0, 0, 0), Vec3::new(SCALE, 0, 0));
    let mut rec = HitRecord::new();
    assert!(!pl.hit(&ray, 0, 100 * SCALE, &mut rec));
}

#[test]
fn disk_clips_the_plane_by_radius() {
    // A unit-radius disk in the plane z = 3, centered on the axis.
    let mat = gray();
    let dk = Disk::new(Vec3::new(0, 0, SCALE), -3 * SCALE, Vec3::new(0, 0, 3 * SCALE), SCALE, mat);
    let mut rec = HitRecord::new();
    let through = Ray::new(Vec3::new(0, 0, 0), Vec3::new(0, 0, SCALE));
    assert!(dk.hit(&through, 0, 100 * SCALE, &mut rec));
    assert_eq!(rec.t, 3 * SCALE);
    let outside = Ray::new(Vec3::new(2 * SCALE, 0, 0), Vec3::new(0, 0, SCALE));
    assert!(!dk.hit(&outside, 0, 100 * SCALE, &mut rec));
}

#[test]
fn square_clips_the_plane_by_half_size() {
    let mat = gray();
    let sq = Square::new(
        Vec3::new(0, 0, SCALE),
        -3 * SCALE,
        Vec3::new(0, 0, 3 * SCALE),
        SCALE,
        SCALE,
        0,
        mat,
    );
    let mut rec = HitRecord::new();
    let through = Ray::new(Vec3::new(0, 0, 0), Vec3::new(0, 0, SCALE));
    assert!(sq.hit(&through, 0, 100 * SCALE, &mut rec));
    assert_eq!(rec.t, 3 * SCALE);
    let outside = Ray::new(Vec3::new(3 * SCALE, 0, 0), Vec3::new(0, 0, SCALE));
    assert!(!sq.hit(&outside, 0, 100 * SCALE, &mut rec));
}
