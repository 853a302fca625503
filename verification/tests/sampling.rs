//! Scalar-kernel, material and density tests.

use pathtracer::fixed::{isqrt_u128, Fx, PI_RAW, SCALE};
use pathtracer::materials::{
    schlick, Dielectric, DiffuseLight, Lambertian, Material, Metal, ScatterRecord,
};
use pathtracer::object::HitRecord;
use pathtracer::onb::Onb;
use pathtracer::pdf::{Cosine, Mixture, Pdf};
use pathtracer::ray::Ray;
use pathtracer::rng::{random_pm_fx, random_unit_fx};
use pathtracer::textures::{ConstantTexture, Texture};
use pathtracer::util::{
    one_by_one, random_cosine_dir, random_in_unit_disk, random_in_unit_sphere, sixteen_by_nine,
    two_by_one, vector_reflect, vector_refract,
};
use pathtracer::vector3::Vector;

fn fx(raw: i64) -> Fx {
    Fx { raw }
}

fn vec(x: i64, y: i64, z: i64) -> Vector {
    Vector { x: fx(x), y: fx(y), z: fx(z) }
}

fn hit_up() -> HitRecord {
    HitRecord { t: fx(SCALE), p: vec(0, 0, 0), normal: vec(0, SCALE, 0) }
}

#[test]
fn fixed_arithmetic_basics() {
    assert_eq!(fx(3 * SCALE).add(fx(-SCALE)).raw, 2 * SCALE);
    assert_eq!(fx(3 * SCALE).mul(fx(SCALE / 2)).raw, 3 * SCALE / 2);
    assert_eq!(fx(SCALE).div(fx(4 * SCALE)).raw, SCALE / 4);
    assert_eq!(fx(-3 * SCALE).mul(fx(SCALE / 2)).raw, -3 * SCALE / 2);
    assert_eq!(fx(4 * SCALE).sqrt().raw, 2 * SCALE);
}

#[test]
fn integer_square_root_brackets() {
    assert_eq!(isqrt_u128(0), 0);
    assert_eq!(isqrt_u128(1), 1);
    assert_eq!(isqrt_u128(3), 1);
    assert_eq!(isqrt_u128(4), 2);
    assert_eq!(isqrt_u128(1 << 62), 1 << 31);
    let n: u128 = 123456789123456789;
    let r = isqrt_u128(n);
    assert!(r * r <= n && (r + 1) * (r + 1) > n);
}

#[test]
fn aspect_helpers() {
    assert_eq!(sixteen_by_nine(1920), 1080);
    assert_eq!(two_by_one(640), 320);
    assert_eq!(one_by_one(300), 300);
}

#[test]
fn random_samples_stay_in_range() {
    for _ in 0..200 {
        let u = random_unit_fx();
        assert!(0 <= u.raw && u.raw < SCALE);
        let p = random_pm_fx();
        assert!(-SCALE <= p.raw && p.raw < SCALE);
        let d = random_in_unit_disk();
        assert_eq!(d.z.raw, 0);
        assert!(d.x.raw * d.x.raw + d.y.raw * d.y.raw < SCALE * SCALE);
        let s = random_in_unit_sphere();
        assert!(s.x.raw * s.x.raw + s.y.raw * s.y.raw + s.z.raw * s.z.raw < SCALE * SCALE);
        let c = random_cosine_dir();
        assert!(c.z.raw >= 0);
    }
}

#[test]
fn reflect_flips_against_normal() {
    let r = vector_reflect(vec(0, -SCALE, 0), vec(0, SCALE, 0));
    assert_eq!((r.x.raw, r.y.raw, r.z.raw), (0, SCALE, 0));
}

#[test]
fn refract_straight_through() {
    let r = vector_refract(vec(0, 0, -SCALE), vec(0, 0, SCALE), fx(SCALE))
        .expect("head-on refraction exists");
    assert_eq!((r.x.raw, r.y.raw, r.z.raw), (0, 0, -SCALE));
}

#[test]
fn refract_total_internal_reflection() {
    // A grazing ray against a dense-to-thin interface has a negative
    // discriminant: no refracted direction.
    assert!(vector_refract(vec(SCALE, -8000, 0), vec(0, SCALE, 0), fx(2 * SCALE)).is_none());
}

#[test]
fn schlick_head_on_value() {
    // cos = 1, index 1.5: r0 = ((1-n)/(1+n))^2 with the fifth-power term
    // vanishing.
    assert_eq!(schlick(fx(SCALE), fx(3 * SCALE / 2)).raw, 2621);
}

#[test]
fn onb_around_y_axis() {
    let o = Onb::build_from_w(vec(0, 2 * SCALE, 0));
    assert_eq!((o.w().x.raw, o.w().y.raw, o.w().z.raw), (0, SCALE, 0));
    let local = o.local(vec(0, 0, SCALE));
    assert_eq!((local.x.raw, local.y.raw, local.z.raw), (0, SCALE, 0));
}

#[test]
fn lambertian_scattering_density() {
    // Normal (0,1,0): outgoing (0,1,0) yields 1/pi; outgoing (0,-1,0)
    // yields zero.
    let m = Material::Lambertian(Lambertian::new(Texture::Constant(ConstantTexture::new(vec(
        SCALE / 2,
        SCALE / 2,
        SCALE / 2,
    )))));
    let r_in = Ray { a: vec(0, SCALE, 0), b: vec(0, -SCALE, 0), time: fx(0) };
    let up = Ray { a: vec(0, 0, 0), b: vec(0, SCALE, 0), time: fx(0) };
    let down = Ray { a: vec(0, 0, 0), b: vec(0, -SCALE, 0), time: fx(0) };
    assert_eq!(m.scattering_pdf(r_in, hit_up(), up).raw, 20860);
    assert_eq!(m.scattering_pdf(r_in, hit_up(), down).raw, 0);
    // 20860 is the fixed-point floor of 1/pi.
    assert_eq!(20860, (SCALE as i128 * SCALE as i128 / PI_RAW as i128) as i64);
}

#[test]
fn specular_scattering_density_is_one() {
    let m = Material::Metal(Metal::new(vec(SCALE / 2, SCALE / 2, SCALE / 2), fx(0)));
    let out = Ray { a: vec(0, 0, 0), b: vec(0, SCALE, 0), time: fx(0) };
    let r_in = Ray { a: vec(0, SCALE, 0), b: vec(0, -SCALE, 0), time: fx(0) };
    assert_eq!(m.scattering_pdf(r_in, hit_up(), out).raw, SCALE);
}

#[test]
fn metal_mirror_with_zero_fuzz() {
    let m = Material::Metal(Metal::new(vec(SCALE / 2, SCALE / 4, SCALE / 8), fx(0)));
    let r_in = Ray { a: vec(0, SCALE, 0), b: vec(0, -SCALE, 0), time: fx(0) };
    let s = m.scatter(r_in, hit_up()).expect("head-on metal reflection leaves the surface");
    assert_eq!(
        (s.specular_ray.b.x.raw, s.specular_ray.b.y.raw, s.specular_ray.b.z.raw),
        (0, SCALE, 0),
    );
    assert_eq!(s.attenuation.x.raw, SCALE / 2);
    assert!(s.pdf.is_none());
}

#[test]
fn metal_absorbs_grazing_reflection() {
    let m = Material::Metal(Metal::new(vec(SCALE / 2, SCALE / 2, SCALE / 2), fx(0)));
    // Incoming along the normal from below: the mirror direction points
    // into the surface.
    let r_in = Ray { a: vec(0, -SCALE, 0), b: vec(0, SCALE, 0), time: fx(0) };
    let flipped = HitRecord { t: fx(SCALE), p: vec(0, 0, 0), normal: vec(0, SCALE, 0) };
    assert!(m.scatter(r_in, flipped).is_none());
}

#[test]
fn dielectric_attenuation_always_white() {
    let r_in = Ray { a: vec(0, SCALE, 0), b: vec(2000, -SCALE, 500), time: fx(0) };
    for &idx in &[SCALE / 8, SCALE, 3 * SCALE / 2, 8 * SCALE] {
        let m = Material::Dielectric(Dielectric::new(fx(idx)));
        for _ in 0..20 {
            let s: ScatterRecord = m.scatter(r_in, hit_up()).expect("dielectric always leaves");
            assert_eq!(s.attenuation.x.raw, SCALE);
            assert_eq!(s.attenuation.y.raw, SCALE);
            assert_eq!(s.attenuation.z.raw, SCALE);
            assert!(s.pdf.is_none());
        }
    }
}

#[test]
fn diffuse_light_never_scatters_and_emits_one_sided() {
    let m = Material::DiffuseLight(DiffuseLight::new(Texture::Constant(ConstantTexture::new(
        vec(52428, 45875, 39321),
    ))));
    let toward = Ray { a: vec(0, SCALE, 0), b: vec(0, -SCALE, 0), time: fx(0) };
    let away = Ray { a: vec(0, -SCALE, 0), b: vec(0, SCALE, 0), time: fx(0) };
    assert!(m.scatter(toward, hit_up()).is_none());
    let lit = m.emitted(toward, hit_up());
    assert_eq!((lit.x.raw, lit.y.raw, lit.z.raw), (52428, 45875, 39321));
    let dark = m.emitted(away, hit_up());
    assert_eq!((dark.x.raw, dark.y.raw, dark.z.raw), (0, 0, 0));
}

#[test]
fn cosine_density_values() {
    let c = Cosine::new(vec(0, SCALE, 0));
    assert_eq!(c.value(vec(0, 2 * SCALE, 0)).raw, 20860);
    assert_eq!(c.value(vec(0, -SCALE, 0)).raw, 0);
    assert_eq!(c.value(vec(SCALE, 0, 0)).raw, 0);
}

#[test]
fn mixture_value_is_mean_of_parts() {
    let c1 = Cosine::new(vec(0, SCALE, 0));
    let c2 = Cosine::new(vec(SCALE, 0, 0));
    let m = Mixture { pdf1: Pdf::Cosine(c1), pdf2: Pdf::Cosine(c2) };
    // Along y: the first density is 1/pi, the second zero.
    let dir = vec(0, SCALE, 0);
    let v1 = Pdf::Cosine(c1).value(dir).raw;
    let v2 = Pdf::Cosine(c2).value(dir).raw;
    assert_eq!(m.value(dir).raw, (v1 + v2) / 2);
    assert_eq!(m.value(dir).raw, 10430);
    // Along the diagonal both parts agree, and the mean equals them.
    let diag = vec(SCALE, SCALE, 0);
    let w1 = Pdf::Cosine(c1).value(diag).raw;
    let w2 = Pdf::Cosine(c2).value(diag).raw;
    assert_eq!(m.value(diag).raw, (w1 + w2) / 2);
    assert_eq!(w1, w2);
}

#[test]
fn mixture_generates_within_both_parts() {
    let c1 = Cosine::new(vec(0, SCALE, 0));
    let c2 = Cosine::new(vec(SCALE, 0, 0));
    let m = Mixture { pdf1: Pdf::Cosine(c1), pdf2: Pdf::Cosine(c2) };
    for _ in 0..50 {
        let g = m.generate();
        assert!(g.x.raw.abs() <= 0x20_0000);
        assert!(g.y.raw.abs() <= 0x20_0000);
        assert!(g.z.raw.abs() <= 0x20_0000);
    }
}

#[test]
fn normalize_handles_degenerate_and_exact_inputs() {
    let z = vec(0, 0, 0).normalize();
    assert_eq!((z.x.raw, z.y.raw, z.z.raw), (0, 0, 0));
    let u = vec(2 * SCALE, 0, 0).normalize();
    assert_eq!((u.x.raw, u.y.raw, u.z.raw), (SCALE, 0, 0));
    let d = vec(SCALE, SCALE, 0).normalize();
    // The length of the diagonal truncates to the floor square root.
    assert_eq!(d.x.raw, d.y.raw);
    assert!(46340 <= d.x.raw && d.x.raw <= 46341);
    assert_eq!(fx(2 * SCALE).sqrt().raw, 92681);
}
