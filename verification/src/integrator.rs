//! The recursive Monte Carlo radiance estimator, and the per-pixel
//! sampling loop that feeds it.

use vstd::prelude::*;

use crate::aabb::{COORD_LIMIT, T_LIMIT};
use crate::fixed::{
    div_down, lemma_div_down_bound, lemma_mul_down_bound, lemma_tdiv_mag, mag, mul_down,
    sqrt_floor, Fx, PI_RAW, SCALE,
};
use crate::materials::{
    color_ok, emitted_spec, material_wf, scattering_pdf_spec, Material, COLOR_LIMIT, NORM_LIMIT,
};
use crate::object::{object_wf, ray_ok, HitRecord, Object};
use crate::pdf::{HittablePDF, Mixture, Pdf};
use crate::ray::Ray;
use crate::rng::random_unit_fx;
use crate::scene::{scan_hit, scene_wf, Scene};
use crate::vector3::{dot_down, normalize_spec, vec_bounded, Vector};

verus! {

/// Hard recursion-depth cap of the estimator.
pub const MAX_RECURSIVE_DEPTH: u32 = 50;

/// Raw near-plane epsilon for primary and secondary rays.
pub const T_MIN_RAW: i64 = 328;

/// Raw bound on any radiance channel the estimator returns.
pub const RAD_LIMIT: i64 = 0x1000_0000;

/// A finished 8-bit pixel with its film coordinates.
pub struct Pixel {
    pub r: u8,
    pub g: u8,
    pub b: u8,
    pub x: usize,
    pub y: usize,
}

/// One radiance term: `emitted + attenuation * spdf * incoming / pdf`,
/// channelwise in fixed point, clamped to the radiance range.
pub open spec fn combine_channel(e: int, a: int, spdf: int, rec: int, pdf: int) -> int {
    let t1 = mul_down(a, spdf);
    let t2 = mul_down(t1, rec);
    let t3 = div_down(t2, pdf);
    let sum = e + t3;
    if sum < 0 {
        0
    } else if sum > RAD_LIMIT {
        RAD_LIMIT as int
    } else {
        sum
    }
}

/// The channelwise combination of one scattering event.
pub open spec fn combine_spec(emitted: Vector, att: Vector, spdf: int, rec: Vector, pdf: int) -> Vector {
    Vector {
        x: Fx { raw: combine_channel(emitted.x.raw as int, att.x.raw as int, spdf, rec.x.raw as int, pdf) as i64 },
        y: Fx { raw: combine_channel(emitted.y.raw as int, att.y.raw as int, spdf, rec.y.raw as int, pdf) as i64 },
        z: Fx { raw: combine_channel(emitted.z.raw as int, att.z.raw as int, spdf, rec.z.raw as int, pdf) as i64 },
    }
}

/// Combines one scattering event's radiance.
fn combine(emitted: Vector, att: Vector, spdf: Fx, rec: Vector, pdf: Fx) -> (res: Vector)
    requires
        color_ok(emitted, COLOR_LIMIT as int),
        color_ok(att, COLOR_LIMIT as int),
        0 <= spdf.raw <= 262144,
        color_ok(rec, RAD_LIMIT as int),
        1 <= pdf.raw <= 0x1_0000_0000,
    ensures
        res == combine_spec(emitted, att, spdf.raw as int, rec, pdf.raw as int),
        color_ok(res, RAD_LIMIT as int),
        res.x.raw >= emitted.x.raw,
        res.y.raw >= emitted.y.raw,
        res.z.raw >= emitted.z.raw,
{
    let x = combine_one(emitted.x, att.x, spdf, rec.x, pdf);
    let y = combine_one(emitted.y, att.y, spdf, rec.y, pdf);
    let z = combine_one(emitted.z, att.z, spdf, rec.z, pdf);
    Vector { x, y, z }
}

/// Combines one channel.
fn combine_one(e: Fx, a: Fx, spdf: Fx, rec: Fx, pdf: Fx) -> (res: Fx)
    requires
        0 <= e.raw <= COLOR_LIMIT,
        0 <= a.raw <= COLOR_LIMIT,
        0 <= spdf.raw <= 262144,
        0 <= rec.raw <= RAD_LIMIT,
        1 <= pdf.raw <= 0x1_0000_0000,
    ensures
        res.raw == combine_channel(
            e.raw as int,
            a.raw as int,
            spdf.raw as int,
            rec.raw as int,
            pdf.raw as int,
        ),
        0 <= res.raw <= RAD_LIMIT,
        res.raw >= e.raw,
{
    proof {
        lemma_mul_down_bound(a.raw as int, spdf.raw as int, 0x100_0000, 262144);
        lemma_mul_down_bound(
            mul_down(a.raw as int, spdf.raw as int),
            rec.raw as int,
            0x4_0000_0000,
            0x1000_0000,
        );
        lemma_div_down_bound(
            mul_down(mul_down(a.raw as int, spdf.raw as int), rec.raw as int),
            pdf.raw as int,
            0x40_0000_0000_0000,
        );
    }
    let t1 = a.mul(spdf);
    let t2 = t1.mul(rec);
    let t3 = t2.div(pdf);
    proof {
        // Every factor is nonnegative, so the added term is too.
        assert(t1.raw >= 0);
        assert(t2.raw >= 0);
        assert(t3.raw >= 0);
    }
    let sum = e.raw + t3.raw;
    if sum < 0 {
        Fx { raw: 0 }
    } else if sum > RAD_LIMIT {
        Fx { raw: RAD_LIMIT }
    } else {
        Fx { raw: sum }
    }
}

/// The scattering density is small: one for specular materials, at most
/// a few units for the diffuse cosine weight.
proof fn lemma_spdf_bound(m: Material, hit: HitRecord, scattered: Ray)
    requires
        vec_bounded(hit.normal, NORM_LIMIT as int),
    ensures
        0 <= scattering_pdf_spec(m, hit, scattered) <= 262144,
{
    match m {
        Material::Lambertian(_) => {
            let u = normalize_spec(scattered.b);
            crate::vector3::lemma_normalize_bound(scattered.b);
            lemma_mul_down_bound(hit.normal.x.raw as int, u.x.raw as int, 262144, 65536);
            lemma_mul_down_bound(hit.normal.y.raw as int, u.y.raw as int, 262144, 65536);
            lemma_mul_down_bound(hit.normal.z.raw as int, u.z.raw as int, 262144, 65536);
            let d = dot_down(hit.normal, u);
            if d >= 0 {
                lemma_tdiv_mag(d * SCALE as int, PI_RAW as int);
                crate::fixed::lemma_mag_scale(d, SCALE as int);
                let q = mag(d) * 65536;
                assert(q / 205887 <= 262144) by (nonlinear_arith)
                    requires
                        0 <= q <= 786432 * 65536,
                ;
            }
        },
        _ => {},
    }
}

/// The recursive radiance estimate of one ray.
///
/// A miss everywhere returns the configured background radiance exactly.
/// At the recursion cap only the hit surface's emission is returned,
/// with no recursive contribution.  Otherwise the material's scatter
/// decides: absorption keeps the emission, a specular ray recurses with
/// the scatter weight fixed at one, and a diffuse ray is importance
/// sampled through the balanced mixture of the light-shape density and
/// the material's own density, guarding a zero mixture density as
/// absorption.
pub fn color(r: Ray, scene: &Scene, light_shape: &Object, background: Vector, depth: u32) -> (res:
    Vector)
    requires
        scene_wf(*scene),
        object_wf(*light_shape),
        ray_ok(r),
        mag(r.time.raw as int) <= T_LIMIT as int,
        color_ok(background, COLOR_LIMIT as int),
    ensures
        color_ok(res, RAD_LIMIT as int),
        scan_hit(scene.objects@, r, T_MIN_RAW as int, T_LIMIT as int) is None ==> res
            == background,
        depth >= MAX_RECURSIVE_DEPTH ==> res == (match scan_hit(
            scene.objects@,
            r,
            T_MIN_RAW as int,
            T_LIMIT as int,
        ) {
            Some((h, m)) => emitted_spec(m, r, h),
            None => background,
        }),
        match scan_hit(scene.objects@, r, T_MIN_RAW as int, T_LIMIT as int) {
            // A hit on a material that never scatters keeps exactly its
            // emission, at every depth; any other hit only adds to it.
            Some((h, m)) => (m is DiffuseLight ==> res == emitted_spec(m, r, h))
                && res.x.raw >= emitted_spec(m, r, h).x.raw && res.y.raw >= emitted_spec(
                m,
                r,
                h,
            ).y.raw && res.z.raw >= emitted_spec(m, r, h).z.raw,
            None => true,
        },
    decreases
            (if depth < MAX_RECURSIVE_DEPTH {
                (MAX_RECURSIVE_DEPTH - depth) as int
            } else {
                0
            }),
{
    let hit0 = scene.hit(r, Fx { raw: T_MIN_RAW }, Fx { raw: T_LIMIT });
    match hit0 {
        None => background,
        Some((hit, mat)) => {
            let emitted = mat.emitted(r, hit);
            proof {
                assert(color_ok(emitted, COLOR_LIMIT as int));
            }
            if depth >= MAX_RECURSIVE_DEPTH {
                return emitted;
            }
            match mat.scatter(r, hit) {
                None => emitted,
                Some(srec) => {
                    let plim = COORD_LIMIT;
                    if !(-plim <= hit.p.x.raw && hit.p.x.raw <= plim && -plim <= hit.p.y.raw
                        && hit.p.y.raw <= plim && -plim <= hit.p.z.raw && hit.p.z.raw <= plim) {
                        // The hit point left the kernel's coordinate range:
                        // a degenerate interaction, kept as pure emission.
                        return emitted;
                    }
                    match srec.pdf {
                        None => {
                            let spdf = mat.scattering_pdf(r, hit, srec.specular_ray);
                            proof {
                                lemma_spdf_bound(mat, hit, srec.specular_ray);
                            }
                            let rec = color(
                                srec.specular_ray,
                                scene,
                                light_shape,
                                background,
                                depth + 1,
                            );
                            combine(emitted, srec.attenuation, spdf, rec, Fx { raw: SCALE })
                        },
                        Some(cpdf) => {
                            let hp = HittablePDF { o: hit.p, inner: light_shape };
                            let mixed = Mixture { pdf1: Pdf::Hittable(hp), pdf2: Pdf::Cosine(cpdf) };
                            let gen = mixed.generate();
                            let scattered = Ray { a: hit.p, b: gen, time: r.time };
                            let pdf_val = mixed.value(gen);
                            if pdf_val.raw <= 0 {
                                // A direction the mixture cannot account for
                                // (a grazing light cosine): treated as absorbed.
                                return emitted;
                            }
                            let spdf = mat.scattering_pdf(r, hit, scattered);
                            proof {
                                lemma_spdf_bound(mat, hit, scattered);
                            }
                            let rec = color(scattered, scene, light_shape, background, depth + 1);
                            combine(emitted, srec.attenuation, spdf, rec, pdf_val)
                        },
                    }
                },
            }
        },
    }
}

/// Clamps an averaged radiance channel to the unit interval,
/// gamma-corrects it with a square root, and quantizes to 8 bits.
pub fn finalize_channel(avg: Fx) -> (res: u8)
    requires
        avg.raw >= 0,
    ensures
        res as int == {
            let clamped = if avg.raw > SCALE {
                SCALE as int
            } else {
                avg.raw as int
            };
            let root = sqrt_floor(clamped * SCALE);
            if root / 256 > 255 {
                255
            } else {
                root / 256
            }
        },
{
    let clamped = if avg.raw > SCALE {
        Fx { raw: SCALE }
    } else {
        avg
    };
    let root = clamped.sqrt();
    proof {
        crate::fixed::lemma_sqrt_floor(clamped.raw * SCALE);
    }
    let q = (root.raw as u64) / 256;
    if q > 255 {
        255u8
    } else {
        q as u8
    }
}

/// Renders one pixel: the average of `samples` independent radiance
/// estimates through jittered film coordinates, clamped, gamma-corrected
/// and quantized.
pub fn render_pixel(
    scene: &Scene,
    light_shape: &Object,
    background: Vector,
    x: usize,
    y: usize,
    width: usize,
    height: usize,
    samples: u32,
) -> (res: Pixel)
    requires
        scene_wf(*scene),
        object_wf(*light_shape),
        color_ok(background, COLOR_LIMIT as int),
        0 < width <= 0x10000,
        0 < height <= 0x10000,
        x < width,
        y < height,
        1 <= samples <= 0x10000,
    ensures
        res.x == x,
        res.y == y,
{
    let mut sum_r: i64 = 0;
    let mut sum_g: i64 = 0;
    let mut sum_b: i64 = 0;
    let mut s: u32 = 0;
    while s < samples
        invariant
            scene_wf(*scene),
            object_wf(*light_shape),
            color_ok(background, COLOR_LIMIT as int),
            0 < width <= 0x10000,
            0 < height <= 0x10000,
            x < width,
            y < height,
            1 <= samples <= 0x10000,
            0 <= s <= samples,
            0 <= sum_r <= s * 0x1000_0000,
            0 <= sum_g <= s * 0x1000_0000,
            0 <= sum_b <= s * 0x1000_0000,
        decreases samples - s,
    {
        let ju = random_unit_fx();
        let jv = random_unit_fx();
        let un = ((x as u64) * 65536 + (ju.raw as u64)) / (width as u64);
        let vn = ((y as u64) * 65536 + (jv.raw as u64)) / (height as u64);
        proof {
            lemma_film_coord(x as int, ju.raw as int, width as int);
            lemma_film_coord(y as int, jv.raw as int, height as int);
        }
        let u = Fx { raw: un as i64 };
        let v = Fx { raw: vn as i64 };
        let ray = scene.camera.get_ray(u, v);
        let c = color(ray, scene, light_shape, background, 0);
        sum_r = sum_r + c.x.raw;
        sum_g = sum_g + c.y.raw;
        sum_b = sum_b + c.z.raw;
        s = s + 1;
    }
    let n = samples as u64;
    let avg_r = Fx { raw: ((sum_r as u64) / n) as i64 };
    let avg_g = Fx { raw: ((sum_g as u64) / n) as i64 };
    let avg_b = Fx { raw: ((sum_b as u64) / n) as i64 };
    Pixel {
        r: finalize_channel(avg_r),
        g: finalize_channel(avg_g),
        b: finalize_channel(avg_b),
        x,
        y,
    }
}

/// A jittered film coordinate stays within the unit interval.
proof fn lemma_film_coord(x: int, j: int, w: int)
    requires
        0 <= x < w,
        0 <= j < 65536,
        0 < w,
    ensures
        0 <= (x * 65536 + j) / w < 65536,
{
    assert((x * 65536 + j) / w < 65536 && (x * 65536 + j) / w >= 0) by (nonlinear_arith)
        requires
            0 <= x < w,
            0 <= j < 65536,
            0 < w,
    ;
}

} // verus!
