//! The material set: Lambertian diffuse, fuzzy metal, Schlick dielectric
//! and diffuse lights, with the scattering rule of each.
use crate::fixed::{
    abs_i, fdiv, fdiv_fx, fdiv_fx_s, fmul, fmul_s, isqrt, lemma_fdiv_bounds, lemma_fmul_bound,
    lemma_sqrt_unique, min_i, sqrt_floor, SCALE,
};
use crate::hittable::HitRecord;
use crate::ray::Ray;
use crate::utils::{clamp, clamp_s, rand_01};
use crate::vec3::{
    add_v, bounded_v, dot_s, lemma_dot_bound, neg_v, norm2_raw, rand_in_unit_sphere,
    rand_unit_vec, reflect, reflect_v, refract, refract_v, scale_v, unit_v, unit_vec, Color, Vec3,
    V3,
};
use vstd::prelude::*;

verus! {

/// A diffusely reflecting material.
#[derive(Clone, Copy, PartialEq, Eq, Structural, Debug)]
pub struct Lambertian {
    pub albedo: Color,
}

impl Lambertian {
    pub fn new(a: Color) -> (r: Lambertian)
        ensures
            r.albedo == a,
    {
        Lambertian { albedo: a }
    }
}

/// A reflecting material with an optional fuzz radius.
#[derive(Clone, Copy, PartialEq, Eq, Structural, Debug)]
pub struct Metal {
    pub albedo: Color,
    pub fuzz: i64,
}

impl Metal {
    /// Fuzz radii are clamped into `[0, 1]`.
    pub fn new(a: Color, f: i64) -> (r: Metal)
        ensures
            r.albedo == a,
            r.fuzz == clamp_s(f as int, 0, SCALE as int),
    {
        Metal { albedo: a, fuzz: clamp(f, 0, SCALE) }
    }
}

/// A refracting material with an index of refraction and an optional fuzz
/// radius.
#[derive(Clone, Copy, PartialEq, Eq, Structural, Debug)]
pub struct Dielectric {
    pub ir: i64,
    pub fuzz: i64,
}

impl Dielectric {
    /// Fuzz radii are clamped into `[0, 1]`; the index of refraction must
    /// lie in `[1/16, 16]` so that the refraction ratio stays
    /// representable.
    pub fn new(ir: i64, f: i64) -> (r: Dielectric)
        requires
            0x1000 <= ir <= 0x10_0000,
        ensures
            r.ir == ir,
            r.fuzz == clamp_s(f as int, 0, SCALE as int),
    {
        Dielectric { ir, fuzz: clamp(f, 0, SCALE) }
    }
}

/// A material that only emits light and never scatters.
#[derive(Clone, Copy, PartialEq, Eq, Structural, Debug)]
pub struct DiffuseLight {
    pub emit: Color,
}

impl DiffuseLight {
    pub fn new(c: Color) -> (r: DiffuseLight)
        ensures
            r.emit == c,
    {
        DiffuseLight { emit: c }
    }
}

/// The closed set of materials a primitive can carry.
#[derive(Clone, Copy, PartialEq, Eq, Structural, Debug)]
pub enum Material {
    Lambertian(Lambertian),
    Metal(Metal),
    Dielectric(Dielectric),
    DiffuseLight(DiffuseLight),
}

/// What a material radiates on its own: the light's color, or black.
pub open spec fn emitted_s(m: Material) -> V3 {
    match m {
        Material::DiffuseLight(l) => l.emit@,
        _ => V3 { x: 0, y: 0, z: 0 },
    }
}

/// A material whose stored parameters the scattering routine can run on.
pub open spec fn wf_material(m: Material) -> bool {
    match m {
        Material::Lambertian(_) => true,
        Material::Metal(mt) => 0 <= mt.fuzz <= SCALE,
        Material::Dielectric(d) => 0x1000 <= d.ir <= 0x10_0000 && 0 <= d.fuzz <= SCALE,
        Material::DiffuseLight(_) => true,
    }
}

/// The Schlick reflectance approximation at scale.
pub open spec fn schlick_s(cos_theta: int, ref_idx: int) -> int {
    let r0a = fdiv_fx_s((SCALE as int) - ref_idx, (SCALE as int) + ref_idx);
    let r0 = fmul_s(r0a, r0a);
    let p1 = (SCALE as int) - cos_theta;
    let p2 = fmul_s(p1, p1);
    let p4 = fmul_s(p2, p2);
    let p5 = fmul_s(p4, p1);
    r0 + fmul_s((SCALE as int) - r0, p5)
}

/// The Schlick approximation of angle-dependent reflectance.
fn reflectance(cos_theta: i64, ref_idx: i64) -> (r: i64)
    requires
        -SCALE <= cos_theta <= SCALE,
        0x1000 <= ref_idx <= 0x10_0000,
    ensures
        r == schlick_s(cos_theta as int, ref_idx as int),
{
    proof {
        assert(-0xF_0000_0000 <= ((SCALE as int) - ref_idx) * (SCALE as int) <= 0xF000_0000)
            by (nonlinear_arith)
            requires
                0x1000 <= ref_idx <= 0x10_0000 && SCALE == 0x1_0000,
        ;
        lemma_fdiv_bounds(((SCALE as int) - ref_idx) * (SCALE as int), (SCALE as int) + ref_idx);
    }
    let r0a: i64 = fdiv_fx(SCALE - ref_idx, SCALE + ref_idx);
    proof {
        lemma_fmul_bound(r0a as int, r0a as int, 0xF_0000_0000, 0xF_0000_0000);
    }
    let r0: i64 = fmul(r0a, r0a);
    proof {
        assert(r0 >= 0) by {
            assert((r0a as int) * (r0a as int) >= 0) by (nonlinear_arith);
            lemma_fdiv_bounds((r0a as int) * (r0a as int), SCALE as int);
        }
    }
    let p1: i64 = SCALE - cos_theta;
    proof {
        lemma_fmul_bound(p1 as int, p1 as int, 0x2_0000, 0x2_0000);
    }
    let p2: i64 = fmul(p1, p1);
    proof {
        lemma_fmul_bound(p2 as int, p2 as int, 0x4_0001, 0x4_0001);
    }
    let p4: i64 = fmul(p2, p2);
    proof {
        lemma_fmul_bound(p4 as int, p1 as int, 0x10_000A, 0x2_0000);
    }
    let p5: i64 = fmul(p4, p1);
    proof {
        lemma_fmul_bound((SCALE as int) - (r0 as int), p5 as int, 0xE2_0000_0000_0000, 0x20_0016);
    }
    r0 + fmul(SCALE - r0, p5)
}

/// The cosine the dielectric rule works with: the unit incoming direction
/// against the stored normal, clamped into one unit either way.
pub open spec fn cos_theta_s(unit_in: V3, n: V3) -> int {
    clamp_s(dot_s(neg_v(unit_in), n), -(SCALE as int), SCALE as int)
}

/// The matching sine, by one exact square root (zero when the cosine's
/// square overshoots one from rounding).
pub open spec fn sin_theta_s(unit_in: V3, n: V3) -> int {
    let c = cos_theta_s(unit_in, n);
    let s2 = (SCALE as int) - fmul_s(c, c);
    if s2 <= 0 {
        0
    } else {
        sqrt_floor(s2 * (SCALE as int))
    }
}

/// Total internal reflection: the refraction ratio times the sine exceeds
/// one, so Snell's law has no solution.
pub open spec fn cannot_refract_s(unit_in: V3, n: V3, ratio: int) -> bool {
    fmul_s(ratio, sin_theta_s(unit_in, n)) > SCALE as int
}

/// The ratio of refraction indices across the boundary being crossed.
pub open spec fn dielectric_ratio_s(front: bool, ir: int) -> int {
    if front {
        fdiv_fx_s(SCALE as int, ir)
    } else {
        ir
    }
}

/// Decide between mirror reflection and Snell refraction for a dielectric
/// boundary, given one uniform draw in `[0, SCALE)`. Under total internal
/// reflection the choice is reflection for every draw.
pub fn dielectric_direction(unit_in: Vec3, n: Vec3, ratio: i64, ir: i64, draw: i64) -> (r: (
    Vec3,
    bool,
))
    requires
        bounded_v(unit_in@, 4 * (SCALE as int)),
        bounded_v(n@, 4 * (SCALE as int)),
        0 <= ratio <= 16 * SCALE,
        0x1000 <= ir <= 0x10_0000,
    ensures
        r.1 == (cannot_refract_s(unit_in@, n@, ratio as int) || schlick_s(
            cos_theta_s(unit_in@, n@),
            ir as int,
        ) > draw),
        cannot_refract_s(unit_in@, n@, ratio as int) ==> r.1,
        r.1 ==> r.0@ == reflect_v(unit_in@, n@),
        !r.1 ==> r.0@ == refract_v(unit_in@, n@, ratio as int),
        bounded_v(r.0@, 0x2_0000_0000),
{
    let nuv: Vec3 = unit_in.neg();
    proof {
        lemma_dot_bound(nuv@, n@, 0x4_0000);
    }
    let d: i64 = crate::vec3::dot(nuv, n);
    let cos: i64 = clamp(d, -SCALE, SCALE);
    proof {
        lemma_fmul_bound(cos as int, cos as int, 0x1_0000, 0x1_0000);
        assert((cos as int) * (cos as int) >= 0) by (nonlinear_arith);
        lemma_fdiv_bounds((cos as int) * (cos as int), SCALE as int);
    }
    let cc: i64 = fmul(cos, cos);
    let s2: i64 = SCALE - cc;
    let sin: i64 = if s2 <= 0 {
        0
    } else {
        let sq: u64 = isqrt((s2 as u128) * (SCALE as u128));
        proof {
            assert((sq as int) * (sq as int) <= (s2 as int) * (SCALE as int) < ((sq as int) + 1) * (
            (sq as int) + 1));
            assert(sq <= 2 * SCALE) by (nonlinear_arith)
                requires
                    (sq as int) * (sq as int) <= (s2 as int) * (SCALE as int) && 0 <= s2 <= SCALE
                        && SCALE == 0x1_0000 && sq >= 0,
            ;
            lemma_sqrt_unique((s2 as int) * (SCALE as int), sq as int);
        }
        sq as i64
    };
    proof {
        assert(sin == sin_theta_s(unit_in@, n@));
        lemma_fmul_bound(ratio as int, sin as int, 0x10_0000, 0x2_0000);
    }
    let cannot_refract: bool = fmul(ratio, sin) > SCALE;
    let chose_reflect: bool = cannot_refract || reflectance(cos, ir) > draw;
    if chose_reflect {
        let dir: Vec3 = reflect(unit_in, n);
        (dir, true)
    } else {
        let dir: Vec3 = refract(unit_in, n, ratio);
        (dir, false)
    }
}

impl Material {
    /// Decide at run time whether the stored parameters are ones the
    /// scattering routine can run on.
    pub fn is_wf(&self) -> (r: bool)
        ensures
            r <==> wf_material(*self),
    {
        match self {
            Material::Lambertian(_) => true,
            Material::Metal(m) => 0 <= m.fuzz && m.fuzz <= SCALE,
            Material::Dielectric(d) => 0x1000 <= d.ir && d.ir <= 0x10_0000 && 0 <= d.fuzz
                && d.fuzz <= SCALE,
            Material::DiffuseLight(_) => true,
        }
    }

    /// What the material radiates on its own.
    pub fn emitted(&self) -> (r: Color)
        ensures
            r@ == emitted_s(*self),
    {
        match self {
            Material::DiffuseLight(l) => l.emit,
            _ => Vec3::new(0, 0, 0),
        }
    }

    /// Scatter an incoming ray at a hit point: reports whether the ray
    /// continues, and if so fills in the attenuation and the outgoing ray.
    pub fn scatter(
        &self,
        r_in: &Ray,
        rec: &HitRecord,
        attenuation: &mut Color,
        scattered: &mut Ray,
    ) -> (b: bool)
        requires
            wf_material(*self),
            bounded_v(r_in@.dir, crate::fixed::LIM as int),
            norm2_raw(r_in@.dir) >= 1,
            bounded_v(rec@.normal, 4 * (SCALE as int)),
        ensures
            (*self) matches Material::Lambertian(l) ==> b && final(attenuation)@ == l.albedo@ && final(scattered)@.ori == rec@.p && (rec@.normal != (V3 { x: 0, y: 0, z: 0 }) ==> final(scattered)@.dir != (V3 { x: 0, y: 0, z: 0 })) && (exists|u: V3|
                bounded_v(u, SCALE as int) && final(scattered)@.dir == (if add_v(rec@.normal, u)
                    == (V3 { x: 0, y: 0, z: 0 }) {
                    rec@.normal
                } else {
                    add_v(rec@.normal, u)
                })),
            (*self) matches Material::Metal(m) ==> final(attenuation)@ == m.albedo@ && final(scattered)@.ori == rec@.p && (b <==> dot_s(final(scattered)@.dir, rec@.normal) > 0) && (exists|
                s: V3,
            |
                bounded_v(s, SCALE as int) && 0 <= dot_s(s, s) < SCALE && final(scattered)@.dir
                    == add_v(
                    reflect_v(unit_v(r_in@.dir), rec@.normal),
                    scale_v(m.fuzz as int, s),
                )),
            (*self) matches Material::Dielectric(d) ==> b && final(attenuation)@ == (V3 {
                x: SCALE as int,
                y: SCALE as int,
                z: SCALE as int,
            }) && final(scattered)@.ori == rec@.p && (exists|s: V3|
                bounded_v(s, SCALE as int) && 0 <= dot_s(s, s) < SCALE && (final(scattered)@.dir
                    == add_v(
                    reflect_v(unit_v(r_in@.dir), rec@.normal),
                    scale_v(d.fuzz as int, s),
                ) || final(scattered)@.dir == add_v(
                    refract_v(
                        unit_v(r_in@.dir),
                        rec@.normal,
                        dielectric_ratio_s(rec@.front, d.ir as int),
                    ),
                    scale_v(d.fuzz as int, s),
                ))),
            (*self) matches Material::Dielectric(d) ==> (cannot_refract_s(
                unit_v(r_in@.dir),
                rec@.normal,
                dielectric_ratio_s(rec@.front, d.ir as int),
            ) ==> (exists|s: V3|
                bounded_v(s, SCALE as int) && 0 <= dot_s(s, s) < SCALE && final(scattered)@.dir
                    == add_v(
                    reflect_v(unit_v(r_in@.dir), rec@.normal),
                    scale_v(d.fuzz as int, s),
                ))),
            (*self) matches Material::DiffuseLight(_) ==> !b && *final(attenuation) == *old(
                attenuation,
            ) && *final(scattered) == *old(scattered),
    {
        match self {
            Material::Lambertian(l) => {
                let u: Vec3 = rand_unit_vec();
                let mut dir: Vec3 = rec.normal.add(&u);
                if dir.near_zero() {
                    dir = rec.normal;
                }
                *attenuation = l.albedo;
                *scattered = Ray::new(rec.p, dir);
                proof {
                    assert(bounded_v(u@, SCALE as int) && final(scattered)@.dir == (
                    if add_v(rec@.normal, u@) == (V3 { x: 0, y: 0, z: 0 }) {
                        rec@.normal
                    } else {
                        add_v(rec@.normal, u@)
                    }));
                }
                true
            },
            Material::Metal(m) => {
                let ud: Vec3 = unit_vec(r_in.direction());
                let reflected: Vec3 = reflect(ud, rec.normal);
                let s: Vec3 = rand_in_unit_sphere();
                proof {
                    lemma_fmul_bound(m.fuzz as int, s@.x, 0x1_0000, 0x1_0000);
                    lemma_fmul_bound(m.fuzz as int, s@.y, 0x1_0000, 0x1_0000);
                    lemma_fmul_bound(m.fuzz as int, s@.z, 0x1_0000, 0x1_0000);
                }
                let fs: Vec3 = s.scale(m.fuzz);
                let dir: Vec3 = reflected.add(&fs);
                *attenuation = m.albedo;
                *scattered = Ray::new(rec.p, dir);
                proof {
                    lemma_dot_bound(dir@, rec@.normal, 0x300_0000);
                }
                let keep: bool = crate::vec3::dot(scattered.direction(), rec.normal) > 0;
                proof {
                    assert(bounded_v(s@, SCALE as int) && 0 <= dot_s(s@, s@) < SCALE && final(scattered)@.dir == add_v(
                        reflect_v(unit_v(r_in@.dir), rec@.normal),
                        scale_v(m.fuzz as int, s@),
                    ));
                }
                keep
            },
            Material::Dielectric(d) => {
                let ratio: i64 = if rec.front {
                    proof {
                        lemma_fdiv_bounds((SCALE as int) * (SCALE as int), d.ir as int);
                        crate::fixed::lemma_fdiv_mono(
                            (SCALE as int) * (SCALE as int),
                            0x1_0000_0000,
                            d.ir as int,
                        );
                        assert(fdiv(0x1_0000_0000, d.ir as int) <= 16 * (SCALE as int))
                            by (nonlinear_arith)
                            requires
                                d.ir >= 0x1000,
                        ;
                    }
                    fdiv_fx(SCALE, d.ir)
                } else {
                    d.ir
                };
                let ud: Vec3 = unit_vec(r_in.direction());
                let draw: i64 = rand_01();
                let (dir0, _chose) = dielectric_direction(ud, rec.normal, ratio, d.ir, draw);
                let s: Vec3 = rand_in_unit_sphere();
                proof {
                    lemma_fmul_bound(d.fuzz as int, s@.x, 0x1_0000, 0x1_0000);
                    lemma_fmul_bound(d.fuzz as int, s@.y, 0x1_0000, 0x1_0000);
                    lemma_fmul_bound(d.fuzz as int, s@.z, 0x1_0000, 0x1_0000);
                }
                let fs: Vec3 = s.scale(d.fuzz);
                let dir: Vec3 = dir0.add(&fs);
                *attenuation = Vec3::new(SCALE, SCALE, SCALE);
                *scattered = Ray::new(rec.p, dir);
                proof {
                    assert(bounded_v(s@, SCALE as int) && 0 <= dot_s(s@, s@) < SCALE && (final(scattered)@.dir == add_v(
                        reflect_v(unit_v(r_in@.dir), rec@.normal),
                        scale_v(d.fuzz as int, s@),
                    ) || final(scattered)@.dir == add_v(
                        refract_v(
                            unit_v(r_in@.dir),
                            rec@.normal,
                            dielectric_ratio_s(rec@.front, d.ir as int),
                        ),
                        scale_v(d.fuzz as int, s@),
                    )));
                }
                true
            },
            Material::DiffuseLight(_) => false,
        }
    }
}

} // verus!
