//! Materials: attenuation, outgoing rays and scattering densities.

use vstd::prelude::*;

use crate::fixed::{
    div_down, lemma_div_down_bound, lemma_mul_down_bound, lemma_tdiv_mag, mag, mul_down, tdiv,
    Fx, PI_RAW, SCALE,
};
use crate::object::HitRecord;
use crate::onb::Onb;
use crate::pdf::Cosine;
use crate::ray::Ray;
use crate::rng::random_unit_fx;
use crate::textures::{texture_value_spec, Texture};
use crate::util::{
    random_in_unit_sphere, reflect_spec, refract_spec, vector_reflect, vector_refract,
};
use crate::vector3::{dot_down, dot_wide, normalize_spec, vec_bounded, Vector};

verus! {

/// Raw magnitude bound on the normals of hit records.
pub const NORM_LIMIT: i64 = 0x4_0000;

/// Raw magnitude bound on colour channels handled by materials.
pub const COLOR_LIMIT: i64 = 0x100_0000;

/// A colour with nonnegative channels below `lim`.
pub open spec fn color_ok(v: Vector, lim: int) -> bool {
    &&& 0 <= v.x.raw <= lim
    &&& 0 <= v.y.raw <= lim
    &&& 0 <= v.z.raw <= lim
}

/// What the kernel assumes of a texture: its colour is a colour.
pub open spec fn texture_wf(t: Texture) -> bool {
    match t {
        Texture::Constant(c) => color_ok(c.color, COLOR_LIMIT as int),
    }
}

/// Lambertian material: an ideal diffuse reflector.
#[derive(Clone, Copy, PartialEq, Eq, Structural, Debug)]
pub struct Lambertian {
    pub texture: Texture,
}

impl Lambertian {
    /// Builds the material over its albedo texture.
    pub fn new(texture: Texture) -> (r: Lambertian)
        ensures
            r.texture == texture,
    {
        Lambertian { texture }
    }
}

/// Metal: a surface that reflects all light, perturbed by a fuzz radius.
#[derive(Clone, Copy, PartialEq, Eq, Structural, Debug)]
pub struct Metal {
    pub albedo: Vector,
    pub fuzz: Fx,
}

impl Metal {
    /// Builds the material from an albedo colour and fuzz radius.
    pub fn new(albedo: Vector, fuzz: Fx) -> (r: Metal)
        ensures
            r.albedo == albedo,
            r.fuzz == fuzz,
    {
        Metal { albedo, fuzz }
    }
}

/// Dielectric: partially reflects and refracts according to Schlick's
/// approximation of the Fresnel factor.
#[derive(Clone, Copy, PartialEq, Eq, Structural, Debug)]
pub struct Dielectric {
    pub ref_idx: Fx,
}

impl Dielectric {
    /// Builds the material from its refractive index.
    pub fn new(ref_idx: Fx) -> (r: Dielectric)
        ensures
            r.ref_idx == ref_idx,
    {
        Dielectric { ref_idx }
    }
}

/// Diffuse light: never scatters, emits on its outward side.
#[derive(Clone, Copy, PartialEq, Eq, Structural, Debug)]
pub struct DiffuseLight {
    pub emit: Texture,
}

impl DiffuseLight {
    /// Builds the emitter over its radiance texture.
    pub fn new(emit: Texture) -> (r: DiffuseLight)
        ensures
            r.emit == emit,
    {
        DiffuseLight { emit }
    }
}

/// The closed family of materials.
#[derive(Clone, Copy, PartialEq, Eq, Structural, Debug)]
pub enum Material {
    Lambertian(Lambertian),
    Metal(Metal),
    Dielectric(Dielectric),
    DiffuseLight(DiffuseLight),
}

/// A scatter interaction: the outgoing ray, the attenuation colour, and,
/// for diffuse surfaces, the importance-sampling density around the
/// normal.
#[derive(Clone, Copy, PartialEq, Eq, Structural, Debug)]
pub struct ScatterRecord {
    pub specular_ray: Ray,
    pub attenuation: Vector,
    pub pdf: Option<Cosine>,
}

/// Schlick's approximation of the Fresnel reflectance, in fixed point:
/// `r0 + (1 - r0) (1 - cos)^5` with `r0 = ((1 - n)/(1 + n))^2`.
pub open spec fn schlick_spec(cosine: int, ref_idx: int) -> int {
    let r0a = div_down(SCALE - ref_idx, SCALE + ref_idx);
    let r0 = mul_down(r0a, r0a);
    let c1 = SCALE - cosine;
    let c2 = mul_down(c1, c1);
    let c4 = mul_down(c2, c2);
    let c5 = mul_down(c4, c1);
    r0 + mul_down(SCALE - r0, c5)
}

/// Evaluates Schlick's approximation; the cosine is already clamped to
/// the unit interval.
pub fn schlick(cosine: Fx, ref_idx: Fx) -> (r: Fx)
    requires
        0 <= cosine.raw <= SCALE,
        SCALE / 16 <= ref_idx.raw <= 16 * SCALE,
    ensures
        r.raw == schlick_spec(cosine.raw as int, ref_idx.raw as int),
{
    proof {
        lemma_schlick_bounds(cosine.raw as int, ref_idx.raw as int);
    }
    let num = Fx { raw: SCALE - ref_idx.raw };
    let den = Fx { raw: SCALE + ref_idx.raw };
    let r0a = num.div(den);
    let r0 = r0a.mul(r0a);
    let c1 = Fx { raw: SCALE - cosine.raw };
    let c2 = c1.mul(c1);
    let c4 = c2.mul(c2);
    let c5 = c4.mul(c1);
    let tail = Fx { raw: SCALE - r0.raw };
    Fx { raw: r0.raw + tail.mul(c5).raw }
}

/// Every intermediate of the Schlick formula is small.
proof fn lemma_schlick_bounds(cosine: int, ref_idx: int)
    requires
        0 <= cosine <= SCALE,
        SCALE / 16 <= ref_idx <= 16 * SCALE,
    ensures
        mag(div_down(SCALE - ref_idx, SCALE + ref_idx)) <= 15 * SCALE,
        mag(mul_down(div_down(SCALE - ref_idx, SCALE + ref_idx), div_down(
            SCALE - ref_idx,
            SCALE + ref_idx,
        ))) <= 225 * SCALE,
        0 <= mul_down(SCALE - cosine, SCALE - cosine) <= SCALE,
        0 <= mul_down(mul_down(SCALE - cosine, SCALE - cosine), mul_down(
            SCALE - cosine,
            SCALE - cosine,
        )) <= SCALE,
        0 <= mul_down(
            mul_down(mul_down(SCALE - cosine, SCALE - cosine), mul_down(
                SCALE - cosine,
                SCALE - cosine,
            )),
            SCALE - cosine,
        ) <= SCALE,
        mag(mul_down(
            SCALE - mul_down(div_down(SCALE - ref_idx, SCALE + ref_idx), div_down(
                SCALE - ref_idx,
                SCALE + ref_idx,
            )),
            mul_down(
                mul_down(mul_down(SCALE - cosine, SCALE - cosine), mul_down(
                    SCALE - cosine,
                    SCALE - cosine,
                )),
                SCALE - cosine,
            ),
        )) <= 226 * SCALE,
{
    let s = SCALE as int;
    let r0a = div_down(SCALE - ref_idx, SCALE + ref_idx);
    lemma_tdiv_mag((SCALE - ref_idx) * SCALE as int, SCALE + ref_idx);
    crate::fixed::lemma_mag_scale(SCALE - ref_idx, s);
    let mn = mag(s - ref_idx);
    let md = mag(s + ref_idx);
    assert(mn * 65536 / md <= 15 * 65536) by (nonlinear_arith)
        requires
            0 <= mn <= 15 * 65536,
            md >= 65536,
    ;
    lemma_mul_down_bound(r0a, r0a, 983040, 983040);
    let c1 = SCALE - cosine;
    lemma_unit_mul(c1, c1);
    let c2 = mul_down(c1, c1);
    lemma_unit_mul(c2, c2);
    let c4 = mul_down(c2, c2);
    lemma_unit_mul(c4, c1);
    let c5 = mul_down(c4, c1);
    let r0 = mul_down(r0a, r0a);
    lemma_mul_down_bound(SCALE as int - r0, c5, 14811136, 65536);
}

/// A fixed-point product of unit-interval factors stays in the unit
/// interval.
pub proof fn lemma_unit_mul(a: int, b: int)
    requires
        0 <= a <= SCALE,
        0 <= b <= SCALE,
    ensures
        0 <= mul_down(a, b) <= SCALE,
        mul_down(a, b) <= a,
        mul_down(a, b) <= b,
{
    let s = SCALE as int;
    assert(0 <= a * b && a * b <= a * s && a * b <= s * b) by (nonlinear_arith)
        requires
            0 <= a <= s,
            0 <= b <= s,
    ;
    let p = a * b;
    assert(mul_down(a, b) == p / s);
    assert(p / s <= a && p / s <= b && p / s >= 0 && p / s <= s) by (nonlinear_arith)
        requires
            0 <= p,
            p <= a * s,
            p <= s * b,
            0 <= a <= s,
            0 <= b <= s,
            s >= 1,
    ;
}

/// The Lambertian scattering density: `max(0, cos) / pi` where `cos` is
/// taken against the normalized outgoing direction.
pub open spec fn scattering_pdf_spec(m: Material, hit: HitRecord, scattered: Ray) -> int {
    match m {
        Material::Lambertian(_) => {
            let d = dot_down(hit.normal, normalize_spec(scattered.b));
            if d < 0 {
                0
            } else {
                div_down(d, PI_RAW as int)
            }
        },
        _ => SCALE as int,
    }
}

/// The emitted radiance: a diffuse light emits its texture colour toward
/// the side its outward normal faces, black elsewhere; all other
/// materials emit black.
pub open spec fn emitted_spec(m: Material, r_in: Ray, hit: HitRecord) -> Vector {
    match m {
        Material::DiffuseLight(l) => {
            if dot_down(hit.normal, r_in.b) < 0 {
                texture_value_spec(l.emit, hit.p)
            } else {
                Vector { x: Fx { raw: 0 }, y: Fx { raw: 0 }, z: Fx { raw: 0 } }
            }
        },
        _ => Vector { x: Fx { raw: 0 }, y: Fx { raw: 0 }, z: Fx { raw: 0 } },
    }
}

impl Material {
    /// The value of the material's scattering density for the given
    /// outgoing ray.  Diffuse surfaces weight by the projected cosine over
    /// pi; specular surfaces weight by exactly one, so the integrator's
    /// weighting reduces to plain attenuation.
    pub fn scattering_pdf(&self, _r_in: Ray, hit: HitRecord, scattered: Ray) -> (r: Fx)
        requires
            vec_bounded(hit.normal, NORM_LIMIT as int),
            vec_bounded(scattered.b, 0x1000_0000_0000_0000),
        ensures
            r.raw == scattering_pdf_spec(*self, hit, scattered),
    {
        match self {
            Material::Lambertian(_) => {
                let u = scattered.b.normalize();
                proof {
                    crate::util::lemma_dot_small(hit.normal, u);
                    lemma_div_down_bound(dot_down(hit.normal, u), PI_RAW as int, 3145728);
                }
                let d = Vector::dot(hit.normal, u);
                if d.raw < 0 {
                    Fx { raw: 0 }
                } else {
                    d.div(Fx { raw: PI_RAW })
                }
            },
            _ => Fx { raw: SCALE },
        }
    }

    /// The radiance the material emits toward the incoming ray.
    pub fn emitted(&self, r_in: Ray, hit: HitRecord) -> (r: Vector)
        requires
            vec_bounded(hit.normal, NORM_LIMIT as int),
            vec_bounded(r_in.b, 0x40_0000_0000),
        ensures
            r == emitted_spec(*self, r_in, hit),
    {
        match self {
            Material::DiffuseLight(l) => {
                let d = Vector::dot(hit.normal, r_in.b);
                if d.raw < 0 {
                    l.emit.value(hit.p)
                } else {
                    Vector::zeros()
                }
            },
            _ => Vector::zeros(),
        }
    }
}

/// Everything the kernel assumes of a scene's materials.
pub open spec fn material_wf(m: Material) -> bool {
    match m {
        Material::Lambertian(l) => texture_wf(l.texture),
        Material::Metal(mt) => 0 <= mt.fuzz.raw <= SCALE && color_ok(mt.albedo, COLOR_LIMIT as int),
        Material::Dielectric(d) => SCALE / 16 <= d.ref_idx.raw <= 16 * SCALE,
        Material::DiffuseLight(l) => texture_wf(l.emit),
    }
}

/// The outward normal and index ratio a dielectric refracts with: the
/// ray enters or exits the medium according to the side its direction
/// makes with the surface normal.
pub open spec fn dielectric_branch(d: Dielectric, r_in: Ray, hit: HitRecord) -> (Vector, int) {
    let u = normalize_spec(r_in.b);
    if dot_down(u, hit.normal) > 0 {
        (
            Vector {
                x: Fx { raw: -hit.normal.x.raw as i64 },
                y: Fx { raw: -hit.normal.y.raw as i64 },
                z: Fx { raw: -hit.normal.z.raw as i64 },
            },
            d.ref_idx.raw as int,
        )
    } else {
        (hit.normal, div_down(SCALE as int, d.ref_idx.raw as int))
    }
}

/// What a Lambertian scatter always produces: the texture's colour, a
/// cosine density around the normal, and a unit-scale outgoing ray from
/// the hit point at the incoming time.
pub open spec fn lambertian_scatter_ok(l: Lambertian, r_in: Ray, hit: HitRecord, s: ScatterRecord) -> bool {
    &&& s.attenuation == texture_value_spec(l.texture, hit.p)
    &&& s.pdf == Some(Cosine { uvw: crate::onb::build_from_w_spec(hit.normal) })
    &&& (s.pdf matches Some(c) ==> crate::onb::onb_bounded(c.uvw))
    &&& s.specular_ray.a == hit.p
    &&& s.specular_ray.time == r_in.time
    &&& vec_bounded(s.specular_ray.b, SCALE as int)
}

/// The mirror direction perturbed by a ball sample scaled by the fuzz
/// radius, componentwise in fixed point.
pub open spec fn metal_fuzzed_dir(mirror: Vector, f: Vector, fuzz: int) -> Vector {
    Vector {
        x: Fx { raw: (mirror.x.raw + mul_down(f.x.raw as int, fuzz)) as i64 },
        y: Fx { raw: (mirror.y.raw + mul_down(f.y.raw as int, fuzz)) as i64 },
        z: Fx { raw: (mirror.z.raw + mul_down(f.z.raw as int, fuzz)) as i64 },
    }
}

/// What any metal scatter satisfies: constant albedo, no density, a ray
/// from the hit point pointing off the surface; every outcome is the
/// mirror direction perturbed by some unit-ball sample, and absorption
/// happens only when such a perturbed direction points into the
/// surface.  With zero fuzz the outgoing direction is exactly the
/// mirror reflection, and the scatter exists exactly when that
/// reflection leaves the surface.
pub open spec fn metal_scatter_ok(mt: Metal, r_in: Ray, hit: HitRecord, res: Option<ScatterRecord>) -> bool {
    let mirror = reflect_spec(normalize_spec(r_in.b), hit.normal);
    &&& match res {
        Some(s) => {
            &&& s.attenuation == mt.albedo
            &&& s.pdf is None
            &&& s.specular_ray.a == hit.p
            &&& s.specular_ray.time == r_in.time
            &&& dot_down(s.specular_ray.b, hit.normal) > 0
            &&& vec_bounded(s.specular_ray.b, 0x2000_0000)
            &&& exists|f: Vector|
                #[trigger] metal_fuzzed_dir(mirror, f, mt.fuzz.raw as int) == s.specular_ray.b
                    && vec_bounded(f, SCALE as int) && dot_wide(f, f) < 4294967296
        },
        None => exists|f: Vector|
            vec_bounded(f, SCALE as int) && dot_wide(f, f) < 4294967296 && dot_down(
                #[trigger] metal_fuzzed_dir(mirror, f, mt.fuzz.raw as int),
                hit.normal,
            ) <= 0,
    }
    &&& mt.fuzz.raw == 0 ==> {
        &&& (res is Some <==> dot_down(mirror, hit.normal) > 0)
        &&& (res matches Some(s) ==> s.specular_ray.b == mirror)
    }
}

/// What a dielectric scatter always produces: attenuation exactly white,
/// no density, and an outgoing ray from the hit point that is either the
/// mirror reflection of the (normalized) incoming direction or its
/// refraction through the side-dependent outward normal.
pub open spec fn dielectric_scatter_ok(d: Dielectric, r_in: Ray, hit: HitRecord, s: ScatterRecord) -> bool {
    let u = normalize_spec(r_in.b);
    let branch = dielectric_branch(d, r_in, hit);
    &&& s.attenuation == (Vector {
        x: Fx { raw: SCALE },
        y: Fx { raw: SCALE },
        z: Fx { raw: SCALE },
    })
    &&& s.pdf is None
    &&& s.specular_ray.a == hit.p
    &&& s.specular_ray.time == r_in.time
    &&& (s.specular_ray.b == reflect_spec(u, hit.normal) || refract_spec(u, branch.0, branch.1)
        == Some(s.specular_ray.b))
    &&& vec_bounded(s.specular_ray.b, 0x2000_0000)
}

impl Material {
    /// Produces the material's scatter interaction, if any: a Lambertian
    /// always scatters diffusely, a metal reflects unless the fuzzed
    /// mirror direction points into the surface, a dielectric always
    /// leaves (splitting between reflection and refraction), and a light
    /// never scatters.
    pub fn scatter(&self, r_in: Ray, hit: HitRecord) -> (res: Option<ScatterRecord>)
        requires
            material_wf(*self),
            vec_bounded(hit.normal, NORM_LIMIT as int),
            vec_bounded(r_in.b, 0x2000_0000),
        ensures
            match *self {
                Material::Lambertian(l) => res matches Some(s) && lambertian_scatter_ok(
                    l,
                    r_in,
                    hit,
                    s,
                ),
                Material::Metal(mt) => metal_scatter_ok(mt, r_in, hit, res),
                Material::Dielectric(d) => res matches Some(s) && dielectric_scatter_ok(
                    d,
                    r_in,
                    hit,
                    s,
                ),
                Material::DiffuseLight(_) => res is None,
            },
    {
        match self {
            Material::Lambertian(l) => {
                let uvw = Onb::build_from_w(hit.normal);
                let sample = crate::util::random_cosine_dir();
                let dir = uvw.local(sample);
                let dirn = dir.normalize();
                let scattered = Ray { a: hit.p, b: dirn, time: r_in.time };
                Some(
                    ScatterRecord {
                        specular_ray: scattered,
                        attenuation: l.texture.value(hit.p),
                        pdf: Some(Cosine { uvw }),
                    },
                )
            },
            Material::Metal(mt) => {
                let u = r_in.b.normalize();
                let reflected = vector_reflect(u, hit.normal);
                let f = random_in_unit_sphere();
                proof {
                    lemma_mul_down_bound(f.x.raw as int, mt.fuzz.raw as int, 65536, 65536);
                    lemma_mul_down_bound(f.y.raw as int, mt.fuzz.raw as int, 65536, 65536);
                    lemma_mul_down_bound(f.z.raw as int, mt.fuzz.raw as int, 65536, 65536);
                }
                let fuzzed = f.scale(mt.fuzz);
                let dirv = Vector {
                    x: Fx { raw: reflected.x.raw + fuzzed.x.raw },
                    y: Fx { raw: reflected.y.raw + fuzzed.y.raw },
                    z: Fx { raw: reflected.z.raw + fuzzed.z.raw },
                };
                proof {
                    if mt.fuzz.raw == 0 {
                        assert(f.x.raw as int * 0 == 0) by (nonlinear_arith);
                        assert(f.y.raw as int * 0 == 0) by (nonlinear_arith);
                        assert(f.z.raw as int * 0 == 0) by (nonlinear_arith);
                        assert(tdiv(0, SCALE as int) == 0);
                    }
                }
                proof {
                    assert(metal_fuzzed_dir(
                        reflect_spec(normalize_spec(r_in.b), hit.normal),
                        f,
                        mt.fuzz.raw as int,
                    ) == dirv);
                }
                let dd = Vector::dot(dirv, hit.normal);
                if dd.raw > 0 {
                    Some(
                        ScatterRecord {
                            specular_ray: Ray { a: hit.p, b: dirv, time: r_in.time },
                            attenuation: mt.albedo,
                            pdf: None,
                        },
                    )
                } else {
                    None
                }
            },
            Material::Dielectric(d) => {
                let u = r_in.b.normalize();
                let reflected = vector_reflect(u, hit.normal);
                proof {
                    crate::util::lemma_dot_small(u, hit.normal);
                }
                let dd = Vector::dot(u, hit.normal);
                let (outward, eta): (Vector, Fx) = if dd.raw > 0 {
                    (hit.normal.neg(), d.ref_idx)
                } else {
                    proof {
                        let m0 = d.ref_idx.raw as int;
                        assert(SCALE as int * SCALE as int == 4294967296) by (nonlinear_arith)
                            requires
                                SCALE as int == 65536,
                        ;
                        crate::fixed::lemma_tdiv_mag(SCALE as int * SCALE as int, m0);
                        assert(4294967296int / m0 <= 1048576) by (nonlinear_arith)
                            requires
                                m0 >= 4096,
                        ;
                    }
                    (hit.normal, Fx { raw: SCALE }.div(d.ref_idx))
                };
                let refracted = vector_refract(u, outward, eta);
                let cos_pre: i64 = if dd.raw > 0 {
                    proof {
                        lemma_mul_down_bound(d.ref_idx.raw as int, dd.raw as int, 1048576, 3145728);
                    }
                    d.ref_idx.mul(dd).raw
                } else {
                    -dd.raw
                };
                let cosine = if cos_pre < 0 {
                    Fx { raw: 0 }
                } else if cos_pre > SCALE {
                    Fx { raw: SCALE }
                } else {
                    Fx { raw: cos_pre }
                };
                let reflect_prob = match refracted {
                    Some(_) => schlick(cosine, d.ref_idx),
                    None => Fx { raw: SCALE },
                };
                let draw = random_unit_fx();
                let use_refract = match refracted {
                    Some(_) => draw.raw >= reflect_prob.raw,
                    None => false,
                };
                let out_dir = if use_refract {
                    match refracted {
                        Some(w) => w,
                        None => reflected,
                    }
                } else {
                    reflected
                };
                Some(
                    ScatterRecord {
                        specular_ray: Ray { a: hit.p, b: out_dir, time: r_in.time },
                        attenuation: Vector::ones(),
                        pdf: None,
                    },
                )
            },
            Material::DiffuseLight(_) => None,
        }
    }
}

/// A Lambertian's scattering density vanishes for any outgoing
/// direction below the surface: a negative cosine against the normal
/// contributes nothing.
pub proof fn lemma_scattering_pdf_below_surface(l: Lambertian, hit: HitRecord, scattered: Ray)
    requires
        dot_down(hit.normal, normalize_spec(scattered.b)) < 0,
    ensures
        scattering_pdf_spec(Material::Lambertian(l), hit, scattered) == 0,
{
}

/// A Lambertian's scattering density above the surface is exactly the
/// cosine against the normal divided by pi.
pub proof fn lemma_scattering_pdf_cosine(l: Lambertian, hit: HitRecord, scattered: Ray)
    requires
        dot_down(hit.normal, normalize_spec(scattered.b)) >= 0,
    ensures
        scattering_pdf_spec(Material::Lambertian(l), hit, scattered) == div_down(
            dot_down(hit.normal, normalize_spec(scattered.b)),
            PI_RAW as int,
        ),
{
}

/// A dielectric's attenuation is exactly white, whatever the incidence
/// angle, refractive index and random reflection choice.
pub proof fn lemma_dielectric_attenuation_white(
    d: Dielectric,
    r_in: Ray,
    hit: HitRecord,
    s: ScatterRecord,
)
    requires
        dielectric_scatter_ok(d, r_in, hit, s),
    ensures
        s.attenuation.x.raw == SCALE,
        s.attenuation.y.raw == SCALE,
        s.attenuation.z.raw == SCALE,
{
}

} // verus!
