//! Mathematical utility functions: aspect-ratio helpers, rejection-sampled
//! random vectors, reflection and refraction.

use vstd::prelude::*;

use crate::fixed::{
    lemma_mul_down_bound, lemma_mul_mag_bound, lemma_sqrt_floor, mag, mul_down, sqrt_floor, Fx,
    isqrt_i128, SCALE,
};
use crate::rng::random_pm_fx;
use crate::vector3::{dot_down, dot_wide, normalize_spec, vec_bounded, Vector};

verus! {

/// Height of a 16:9 image of the given width.
pub fn sixteen_by_nine(width: usize) -> (r: usize)
    requires
        width * 9 <= usize::MAX,
    ensures
        r == (width * 9) / 16,
{
    (width * 9) / 16
}

/// Height of a 2:1 image of the given width.
pub fn two_by_one(width: usize) -> (r: usize)
    ensures
        r == width / 2,
{
    width / 2
}

/// Height of a square image of the given width.
pub fn one_by_one(width: usize) -> (r: usize)
    ensures
        r == width,
{
    width
}

/// Number of draws a rejection sampler makes before falling back to the
/// origin (an interior point); the chance of exhausting them is
/// astronomically small.
pub const SAMPLE_TRIES: u32 = 64;

/// A point strictly inside the unit disk of the xy plane, uniform up to
/// rejection sampling.
pub fn random_in_unit_disk() -> (r: Vector)
    ensures
        vec_bounded(r, SCALE as int),
        r.z.raw == 0,
        dot_wide(r, r) < 4294967296,
{
    let mut tries: u32 = 0;
    while tries < SAMPLE_TRIES
        invariant
            true,
        decreases SAMPLE_TRIES - tries,
    {
        let px = random_pm_fx();
        let py = random_pm_fx();
        proof {
            lemma_mul_mag_bound(px.raw as int, px.raw as int, 65536, 65536);
            lemma_mul_mag_bound(py.raw as int, py.raw as int, 65536, 65536);
        }
        let q = (px.raw as i128) * (px.raw as i128) + (py.raw as i128) * (py.raw as i128);
        if q < 4294967296i128 {
            return Vector { x: px, y: py, z: Fx { raw: 0 } };
        }
        tries = tries + 1;
    }
    Vector::zeros()
}

/// A point strictly inside the unit ball, uniform up to rejection
/// sampling.
pub fn random_in_unit_sphere() -> (r: Vector)
    ensures
        vec_bounded(r, SCALE as int),
        dot_wide(r, r) < 4294967296,
{
    let mut tries: u32 = 0;
    while tries < SAMPLE_TRIES
        invariant
            true,
        decreases SAMPLE_TRIES - tries,
    {
        let px = random_pm_fx();
        let py = random_pm_fx();
        let pz = random_pm_fx();
        proof {
            lemma_mul_mag_bound(px.raw as int, px.raw as int, 65536, 65536);
            lemma_mul_mag_bound(py.raw as int, py.raw as int, 65536, 65536);
            lemma_mul_mag_bound(pz.raw as int, pz.raw as int, 65536, 65536);
        }
        let q = (px.raw as i128) * (px.raw as i128) + (py.raw as i128) * (py.raw as i128) + (
        pz.raw as i128) * (pz.raw as i128);
        if q < 4294967296i128 {
            return Vector { x: px, y: py, z: pz };
        }
        tries = tries + 1;
    }
    Vector::zeros()
}

/// A direction of unit length (up to rounding) distributed over the
/// sphere, as the normalization of a ball sample.
pub fn random_on_unit_sphere() -> (r: Vector)
    ensures
        vec_bounded(r, SCALE as int),
{
    random_in_unit_sphere().normalize()
}

/// A cosine-weighted local hemisphere sample: a uniform disk point lifted
/// onto the upper unit hemisphere.
pub fn random_cosine_dir() -> (r: Vector)
    ensures
        vec_bounded(r, SCALE as int),
        r.x.raw * r.x.raw + r.y.raw * r.y.raw < 4294967296,
        r.z.raw >= 1,
        r.z.raw == sqrt_floor(4294967296 - (r.x.raw * r.x.raw + r.y.raw * r.y.raw)),
{
    let p = random_in_unit_disk();
    proof {
        lemma_mul_mag_bound(p.x.raw as int, p.x.raw as int, 65536, 65536);
        lemma_mul_mag_bound(p.y.raw as int, p.y.raw as int, 65536, 65536);
        assert(p.x.raw * p.x.raw >= 0) by (nonlinear_arith);
        assert(p.y.raw * p.y.raw >= 0) by (nonlinear_arith);
    }
    let m: i128 = 4294967296i128 - ((p.x.raw as i128) * (p.x.raw as i128) + (
    p.y.raw as i128) * (p.y.raw as i128));
    proof {
        lemma_sqrt_floor(m as int);
        let sf = sqrt_floor(m as int);
        assert(sf <= 65536) by (nonlinear_arith)
            requires
                0 <= sf,
                sf * sf <= m,
                m <= 4294967296,
        ;
    }
    let z = isqrt_i128(m);
    proof {
        assert(sqrt_floor(m as int) >= 1) by (nonlinear_arith)
            requires
                m >= 1,
                0 <= sqrt_floor(m as int),
                m < (sqrt_floor(m as int) + 1) * (sqrt_floor(m as int) + 1),
        ;
    }
    Vector { x: p.x, y: p.y, z: Fx { raw: z as i64 } }
}

/// The mirror image `v - 2 (v . n) n`, componentwise in fixed point.
pub open spec fn reflect_spec(v: Vector, n: Vector) -> Vector {
    let d2 = 2 * dot_down(v, n);
    Vector {
        x: Fx { raw: (v.x.raw - mul_down(n.x.raw as int, d2)) as i64 },
        y: Fx { raw: (v.y.raw - mul_down(n.y.raw as int, d2)) as i64 },
        z: Fx { raw: (v.z.raw - mul_down(n.z.raw as int, d2)) as i64 },
    }
}

/// Reflects `v` about the normal `n`.
pub fn vector_reflect(v: Vector, n: Vector) -> (r: Vector)
    requires
        vec_bounded(v, 4 * SCALE),
        vec_bounded(n, 4 * SCALE),
    ensures
        r == reflect_spec(v, n),
        vec_bounded(r, 0x800_0000),
{
    proof {
        lemma_dot_small(v, n);
    }
    let d = Vector::dot(v, n);
    let d2 = Fx { raw: 2 * d.raw };
    proof {
        lemma_mul_down_bound(n.x.raw as int, d2.raw as int, 262144, 6291456);
        lemma_mul_down_bound(n.y.raw as int, d2.raw as int, 262144, 6291456);
        lemma_mul_down_bound(n.z.raw as int, d2.raw as int, 262144, 6291456);
    }
    let s = n.scale(d2);
    Vector {
        x: Fx { raw: v.x.raw - s.x.raw },
        y: Fx { raw: v.y.raw - s.y.raw },
        z: Fx { raw: v.z.raw - s.z.raw },
    }
}

/// A dot product of small vectors is small.
pub proof fn lemma_dot_small(v: Vector, n: Vector)
    requires
        vec_bounded(v, 4 * SCALE),
        vec_bounded(n, 4 * SCALE),
    ensures
        mag(dot_down(v, n)) <= 48 * SCALE,
{
    lemma_mul_down_bound(v.x.raw as int, n.x.raw as int, 262144, 262144);
    lemma_mul_down_bound(v.y.raw as int, n.y.raw as int, 262144, 262144);
    lemma_mul_down_bound(v.z.raw as int, n.z.raw as int, 262144, 262144);
}

/// The refracted direction through a surface of relative index
/// `ni_over_nt`, when Snell's discriminant is positive; `None` is total
/// internal reflection.  All arithmetic follows the fixed-point kernel.
pub open spec fn refract_spec(v: Vector, n: Vector, ni_over_nt: int) -> Option<Vector> {
    let u = normalize_spec(v);
    let dt = dot_down(u, n);
    let disc = SCALE - mul_down(
        mul_down(ni_over_nt, ni_over_nt),
        SCALE - mul_down(dt, dt),
    );
    if disc > 0 {
        let sq = sqrt_floor(disc * SCALE);
        Some(
            Vector {
                x: Fx {
                    raw: (mul_down(u.x.raw - mul_down(n.x.raw as int, dt), ni_over_nt) - mul_down(
                        n.x.raw as int,
                        sq,
                    )) as i64,
                },
                y: Fx {
                    raw: (mul_down(u.y.raw - mul_down(n.y.raw as int, dt), ni_over_nt) - mul_down(
                        n.y.raw as int,
                        sq,
                    )) as i64,
                },
                z: Fx {
                    raw: (mul_down(u.z.raw - mul_down(n.z.raw as int, dt), ni_over_nt) - mul_down(
                        n.z.raw as int,
                        sq,
                    )) as i64,
                },
            },
        )
    } else {
        None
    }
}

/// Refracts `v` (any length) about the unit-scale outward normal `n`.
pub fn vector_refract(v: Vector, n: Vector, ni_over_nt: Fx) -> (r: Option<Vector>)
    requires
        vec_bounded(v, 0x1000_0000_0000_0000),
        vec_bounded(n, 4 * SCALE),
        0 <= ni_over_nt.raw <= 16 * SCALE,
    ensures
        r == refract_spec(v, n, ni_over_nt.raw as int),
        r matches Some(w) ==> vec_bounded(w, 0x2000_0000),
{
    let u = v.normalize();
    proof {
        lemma_dot_small(u, n);
    }
    let dt = Vector::dot(u, n);
    proof {
        lemma_mul_down_bound(dt.raw as int, dt.raw as int, 3145728, 3145728);
        lemma_mul_down_bound(
            ni_over_nt.raw as int,
            ni_over_nt.raw as int,
            16 * SCALE,
            1048576,
        );
        lemma_mul_down_bound(
            mul_down(ni_over_nt.raw as int, ni_over_nt.raw as int),
            SCALE as int - mul_down(dt.raw as int, dt.raw as int),
            256 * SCALE,
            151060480,
        );
    }
    let eta2 = ni_over_nt.mul(ni_over_nt);
    let dt2 = dt.mul(dt);
    let inner = Fx { raw: SCALE - dt2.raw };
    let disc = Fx { raw: SCALE - eta2.mul(inner).raw };
    if disc.raw > 0 {
        let sq = disc.sqrt();
        proof {
            lemma_sqrt_floor(disc.raw * SCALE);
            let sf = sqrt_floor(disc.raw * SCALE);
            assert(sf <= 67108864) by (nonlinear_arith)
                requires
                    0 <= sf,
                    sf * sf <= disc.raw * 65536,
                    disc.raw <= 38671941632,
            ;
            lemma_refract_terms(u, n, ni_over_nt.raw as int, dt.raw as int, sq.raw as int);
        }
        let ndt = n.scale(dt);
        let core = Vector {
            x: Fx { raw: u.x.raw - ndt.x.raw },
            y: Fx { raw: u.y.raw - ndt.y.raw },
            z: Fx { raw: u.z.raw - ndt.z.raw },
        };
        let lhs = core.scale(ni_over_nt);
        let rhs = n.scale(sq);
        Some(
            Vector {
                x: Fx { raw: lhs.x.raw - rhs.x.raw },
                y: Fx { raw: lhs.y.raw - rhs.y.raw },
                z: Fx { raw: lhs.z.raw - rhs.z.raw },
            },
        )
    } else {
        None
    }
}

/// Bounds for every product in the refraction formula.
proof fn lemma_refract_terms(u: Vector, n: Vector, eta: int, dt: int, sq: int)
    requires
        vec_bounded(u, SCALE as int),
        vec_bounded(n, 4 * SCALE),
        0 <= eta <= 16 * SCALE,
        mag(dt) <= 48 * SCALE,
        0 <= sq <= 1024 * SCALE,
    ensures
        mag(mul_down(n.x.raw as int, dt)) <= 192 * SCALE,
        mag(mul_down(n.y.raw as int, dt)) <= 192 * SCALE,
        mag(mul_down(n.z.raw as int, dt)) <= 192 * SCALE,
        mag(mul_down(u.x.raw - mul_down(n.x.raw as int, dt), eta)) <= 3088 * SCALE,
        mag(mul_down(u.y.raw - mul_down(n.y.raw as int, dt), eta)) <= 3088 * SCALE,
        mag(mul_down(u.z.raw - mul_down(n.z.raw as int, dt), eta)) <= 3088 * SCALE,
        mag(mul_down(n.x.raw as int, sq)) <= 4096 * SCALE,
        mag(mul_down(n.y.raw as int, sq)) <= 4096 * SCALE,
        mag(mul_down(n.z.raw as int, sq)) <= 4096 * SCALE,
{
    lemma_mul_down_bound(n.x.raw as int, dt, 262144, 3145728);
    lemma_mul_down_bound(n.y.raw as int, dt, 262144, 3145728);
    lemma_mul_down_bound(n.z.raw as int, dt, 262144, 3145728);
    lemma_mul_down_bound(u.x.raw - mul_down(n.x.raw as int, dt), eta, 12648448, 1048576);
    lemma_mul_down_bound(u.y.raw - mul_down(n.y.raw as int, dt), eta, 12648448, 1048576);
    lemma_mul_down_bound(u.z.raw - mul_down(n.z.raw as int, dt), eta, 12648448, 1048576);
    lemma_mul_down_bound(n.x.raw as int, sq, 262144, 67108864);
    lemma_mul_down_bound(n.y.raw as int, sq, 262144, 67108864);
    lemma_mul_down_bound(n.z.raw as int, sq, 262144, 67108864);
}

} // verus!
