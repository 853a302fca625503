//! The geometric-object model: primitives (sphere, moving sphere,
//! axis-aligned rectangle, block), affine decorators (translate, rotate)
//! and the interior node of the bounding-volume hierarchy, as one closed
//! tagged family.
//!
//! Every `hit` has an exact fixed-point specification.  Numerical edge
//! cases (zero directions, overflowing decorated coordinates, degenerate
//! normals) are resolved locally as "no interaction", exactly as the
//! specification functions state.

use vstd::prelude::*;

use crate::aabb::{aabb_hit_spec, surround_spec, Aabb, COORD_LIMIT, T_LIMIT};
use crate::fixed::{
    div_down, lemma_div_down_bound, lemma_mul_down_bound, lemma_mul_mag_bound, lemma_sqrt_floor,
    mag, mul_down, sqrt_floor, tdiv, tdiv_i128, Fx, isqrt_i128, PI_RAW, SCALE,
};
use crate::materials::{Material, NORM_LIMIT};
use crate::onb::Onb;
use crate::ray::{point_at, Ray};
use crate::rng::random_unit_fx;
use crate::util::random_in_unit_disk;
use crate::vector3::{dot_wide, vec_bounded, Vector};

verus! {

/// Raw padding applied to zero-thickness boxes of planar primitives.
pub const PAD_RAW: i64 = 7;

/// Raw magnitude bound on hit points (origin plus a bounded parameter
/// times a bounded direction).
pub const P_LIMIT: i64 = 0x40_0000_0000_0000;

/// A HitRecord describes an interaction between an incoming ray and an
/// object: the parameter, the point reached and the outward normal.
#[derive(Clone, Copy, PartialEq, Eq, Structural, Debug)]
pub struct HitRecord {
    pub t: Fx,
    pub p: Vector,
    pub normal: Vector,
}

/// Rays handled by the geometric kernel: origin and direction bounded.
pub open spec fn ray_ok(r: Ray) -> bool {
    &&& vec_bounded(r.a, COORD_LIMIT as int)
    &&& vec_bounded(r.b, COORD_LIMIT as int)
}

/// Parameter ranges handled by the geometric kernel.
pub open spec fn t_range_ok(tmin: int, tmax: int) -> bool {
    0 <= tmin && tmin <= tmax <= T_LIMIT
}

/// What every produced hit record satisfies.
pub open spec fn hit_record_ok(h: HitRecord, tmin: int, tmax: int) -> bool {
    &&& tmin <= h.t.raw <= tmax
    &&& vec_bounded(h.p, P_LIMIT as int)
    &&& vec_bounded(h.normal, NORM_LIMIT as int)
}

// ---------------------------------------------------------------------
// Sphere
// ---------------------------------------------------------------------

/// A sphere around `center` with the given radius.
#[derive(Clone, Copy, PartialEq, Eq, Structural, Debug)]
pub struct Sphere {
    pub center: Vector,
    pub radius: Fx,
    pub material: Material,
}

/// Geometry the kernel accepts: bounded center, radius neither tiny nor
/// huge (a tiny radius would make the unit normal division overflow).
pub open spec fn sphere_wf(s: Sphere) -> bool {
    &&& vec_bounded(s.center, COORD_LIMIT as int)
    &&& 16 <= s.radius.raw <= COORD_LIMIT
    &&& crate::materials::material_wf(s.material)
}

/// The record a sphere produces at parameter `t`: the point along the
/// ray and the normal `(p - center) / radius`, or nothing when the
/// normal degenerates (the point drifted too far off the surface).
pub open spec fn sphere_record(center: Vector, radius: int, r: Ray, t: int) -> Option<HitRecord> {
    let p = point_at(r, t);
    let nx = div_down(p.x.raw - center.x.raw, radius);
    let ny = div_down(p.y.raw - center.y.raw, radius);
    let nz = div_down(p.z.raw - center.z.raw, radius);
    if mag(nx) <= NORM_LIMIT && mag(ny) <= NORM_LIMIT && mag(nz) <= NORM_LIMIT {
        Some(
            HitRecord {
                t: Fx { raw: t as i64 },
                p,
                normal: Vector {
                    x: Fx { raw: nx as i64 },
                    y: Fx { raw: ny as i64 },
                    z: Fx { raw: nz as i64 },
                },
            },
        )
    } else {
        None
    }
}

/// The ray-sphere quadratic, exactly as computed: with `oc = origin -
/// center`, `a = dir . dir`, `b = oc . dir`, `c = oc . oc - radius^2`
/// (all at scale `SCALE^2`), a hit exists when the discriminant
/// `b^2 - a c` is positive; the smaller root is tried first, then the
/// larger, against the open parameter range.
pub open spec fn sphere_hit_spec(center: Vector, radius: int, r: Ray, tmin: int, tmax: int) -> Option<
    HitRecord,
> {
    let ocx = r.a.x.raw - center.x.raw;
    let ocy = r.a.y.raw - center.y.raw;
    let ocz = r.a.z.raw - center.z.raw;
    let qa = dot_wide(r.b, r.b);
    let qb = ocx * r.b.x.raw + ocy * r.b.y.raw + ocz * r.b.z.raw;
    let qc = ocx * ocx + ocy * ocy + ocz * ocz - radius * radius;
    let disc = qb * qb - qa * qc;
    if qa > 0 && disc > 0 {
        let sq = sqrt_floor(disc);
        let t1 = tdiv((-qb - sq) * SCALE, qa);
        let t2 = tdiv((-qb + sq) * SCALE, qa);
        let t = if t1 >= tmax || t1 <= tmin {
            t2
        } else {
            t1
        };
        if tmin < t && t < tmax {
            sphere_record(center, radius, r, t)
        } else {
            None
        }
    } else {
        None
    }
}

/// Bounds for the quadratic's intermediates under the kernel limits.
proof fn lemma_quad_bounds(center: Vector, radius: int, r: Ray)
    requires
        vec_bounded(center, COORD_LIMIT as int),
        16 <= radius <= COORD_LIMIT,
        ray_ok(r),
    ensures
        mag(r.a.x.raw - center.x.raw) <= 2 * COORD_LIMIT,
        mag(r.a.y.raw - center.y.raw) <= 2 * COORD_LIMIT,
        mag(r.a.z.raw - center.z.raw) <= 2 * COORD_LIMIT,
        mag(dot_wide(r.b, r.b)) <= 0x1000_0000_0000_0000,
        0 <= dot_wide(r.b, r.b),
        mag(r.b.x.raw * r.b.x.raw) <= 0x400_0000_0000_0000,
        mag(r.b.y.raw * r.b.y.raw) <= 0x400_0000_0000_0000,
        mag(r.b.z.raw * r.b.z.raw) <= 0x400_0000_0000_0000,
        mag((r.a.x.raw - center.x.raw) * r.b.x.raw) <= 0x800_0000_0000_0000,
        mag((r.a.y.raw - center.y.raw) * r.b.y.raw) <= 0x800_0000_0000_0000,
        mag((r.a.z.raw - center.z.raw) * r.b.z.raw) <= 0x800_0000_0000_0000,
        mag((r.a.x.raw - center.x.raw) * (r.a.x.raw - center.x.raw)) <= 0x1000_0000_0000_0000,
        mag((r.a.y.raw - center.y.raw) * (r.a.y.raw - center.y.raw)) <= 0x1000_0000_0000_0000,
        mag((r.a.z.raw - center.z.raw) * (r.a.z.raw - center.z.raw)) <= 0x1000_0000_0000_0000,
        mag(radius * radius) <= 0x400_0000_0000_0000,
        mag((r.a.x.raw - center.x.raw) * r.b.x.raw + (r.a.y.raw - center.y.raw) * r.b.y.raw + (
        r.a.z.raw - center.z.raw) * r.b.z.raw) <= 0x2000_0000_0000_0000,
        mag((r.a.x.raw - center.x.raw) * (r.a.x.raw - center.x.raw) + (r.a.y.raw - center.y.raw) * (
        r.a.y.raw - center.y.raw) + (r.a.z.raw - center.z.raw) * (r.a.z.raw - center.z.raw) - radius
            * radius) <= 0x4000_0000_0000_0000,
{
    lemma_mul_mag_bound(r.b.x.raw as int, r.b.x.raw as int, 0x2000_0000, 0x2000_0000);
    lemma_mul_mag_bound(r.b.y.raw as int, r.b.y.raw as int, 0x2000_0000, 0x2000_0000);
    lemma_mul_mag_bound(r.b.z.raw as int, r.b.z.raw as int, 0x2000_0000, 0x2000_0000);
    assert(r.b.x.raw * r.b.x.raw >= 0) by (nonlinear_arith);
    assert(r.b.y.raw * r.b.y.raw >= 0) by (nonlinear_arith);
    assert(r.b.z.raw * r.b.z.raw >= 0) by (nonlinear_arith);
    let ocx = r.a.x.raw - center.x.raw;
    let ocy = r.a.y.raw - center.y.raw;
    let ocz = r.a.z.raw - center.z.raw;
    lemma_mul_mag_bound(ocx, r.b.x.raw as int, 0x4000_0000, 0x2000_0000);
    lemma_mul_mag_bound(ocy, r.b.y.raw as int, 0x4000_0000, 0x2000_0000);
    lemma_mul_mag_bound(ocz, r.b.z.raw as int, 0x4000_0000, 0x2000_0000);
    lemma_mul_mag_bound(ocx, ocx, 0x4000_0000, 0x4000_0000);
    lemma_mul_mag_bound(ocy, ocy, 0x4000_0000, 0x4000_0000);
    lemma_mul_mag_bound(ocz, ocz, 0x4000_0000, 0x4000_0000);
    lemma_mul_mag_bound(radius, radius, 0x2000_0000, 0x2000_0000);
}

/// Solves the ray-sphere quadratic; shared by the static and the moving
/// sphere.
fn sphere_quad_hit(center: Vector, radius: Fx, r: Ray, t_min: Fx, t_max: Fx) -> (res: Option<
    HitRecord,
>)
    requires
        vec_bounded(center, COORD_LIMIT as int),
        16 <= radius.raw <= COORD_LIMIT,
        ray_ok(r),
        t_range_ok(t_min.raw as int, t_max.raw as int),
    ensures
        res == sphere_hit_spec(center, radius.raw as int, r, t_min.raw as int, t_max.raw as int),
        res matches Some(h) ==> hit_record_ok(h, t_min.raw as int, t_max.raw as int),
{
    proof {
        lemma_quad_bounds(center, radius.raw as int, r);
    }
    let ocx = r.a.x.raw - center.x.raw;
    let ocy = r.a.y.raw - center.y.raw;
    let ocz = r.a.z.raw - center.z.raw;
    let qa: i128 = (r.b.x.raw as i128) * (r.b.x.raw as i128) + (r.b.y.raw as i128) * (r.b.y.raw
        as i128) + (r.b.z.raw as i128) * (r.b.z.raw as i128);
    let qb: i128 = (ocx as i128) * (r.b.x.raw as i128) + (ocy as i128) * (r.b.y.raw as i128) + (
    ocz as i128) * (r.b.z.raw as i128);
    let qc: i128 = (ocx as i128) * (ocx as i128) + (ocy as i128) * (ocy as i128) + (ocz as i128) * (
    ocz as i128) - (radius.raw as i128) * (radius.raw as i128);
    proof {
        lemma_mul_mag_bound(qb as int, qb as int, 0x2000_0000_0000_0000, 0x2000_0000_0000_0000);
        lemma_mul_mag_bound(qa as int, qc as int, 0x1000_0000_0000_0000, 0x4000_0000_0000_0000);
    }
    let disc: i128 = qb * qb - qa * qc;
    if qa > 0 && disc > 0 {
        let sq = isqrt_i128(disc);
        proof {
            lemma_sqrt_floor(disc as int);
            assert(sq <= 0x4000_0000_0000_0000) by (nonlinear_arith)
                requires
                    0 <= sq,
                    sq * sq <= disc,
                    disc <= 0x8000_0000_0000_0000_0000_0000_0000_000,
            ;
            lemma_mul_mag_bound((-qb - sq) as int, SCALE as int, 0x8000_0000_0000_0000, 0x1_0000);
            lemma_mul_mag_bound((-qb + sq) as int, SCALE as int, 0x8000_0000_0000_0000, 0x1_0000);
        }
        let t1 = tdiv_i128((-qb - sq) * (SCALE as i128), qa);
        let t = if t1 >= (t_max.raw as i128) || t1 <= (t_min.raw as i128) {
            tdiv_i128((-qb + sq) * (SCALE as i128), qa)
        } else {
            t1
        };
        if (t_min.raw as i128) < t && t < (t_max.raw as i128) {
            sphere_record_at(center, radius, r, t as i64)
        } else {
            None
        }
    } else {
        None
    }
}

/// Builds the hit record at a chosen parameter, guarding the normal.
fn sphere_record_at(center: Vector, radius: Fx, r: Ray, t: i64) -> (res: Option<HitRecord>)
    requires
        vec_bounded(center, COORD_LIMIT as int),
        16 <= radius.raw <= COORD_LIMIT,
        ray_ok(r),
        0 <= t <= T_LIMIT,
    ensures
        res == sphere_record(center, radius.raw as int, r, t as int),
        res matches Some(h) ==> h.t.raw == t && vec_bounded(h.p, P_LIMIT as int) && vec_bounded(
            h.normal,
            NORM_LIMIT as int,
        ),
{
    proof {
        lemma_mul_down_bound(r.b.x.raw as int, t as int, 0x2000_0000, 0x100_0000_0000);
        lemma_mul_down_bound(r.b.y.raw as int, t as int, 0x2000_0000, 0x100_0000_0000);
        lemma_mul_down_bound(r.b.z.raw as int, t as int, 0x2000_0000, 0x100_0000_0000);
    }
    let p = r.point_at_parameter(Fx { raw: t });
    proof {
        assert(p.x.raw == r.a.x.raw + mul_down(r.b.x.raw as int, t as int));
        assert(p.y.raw == r.a.y.raw + mul_down(r.b.y.raw as int, t as int));
        assert(p.z.raw == r.a.z.raw + mul_down(r.b.z.raw as int, t as int));
    }
    let nx = tdiv_i128(((p.x.raw - center.x.raw) as i128) * (SCALE as i128), radius.raw as i128);
    let ny = tdiv_i128(((p.y.raw - center.y.raw) as i128) * (SCALE as i128), radius.raw as i128);
    let nz = tdiv_i128(((p.z.raw - center.z.raw) as i128) * (SCALE as i128), radius.raw as i128);
    proof {
        lemma_mul_mag_bound((p.x.raw - center.x.raw) as int, SCALE as int, 0x80_0000_0000_0000, 0x1_0000);
        lemma_mul_mag_bound((p.y.raw - center.y.raw) as int, SCALE as int, 0x80_0000_0000_0000, 0x1_0000);
        lemma_mul_mag_bound((p.z.raw - center.z.raw) as int, SCALE as int, 0x80_0000_0000_0000, 0x1_0000);
    }
    if nx <= (NORM_LIMIT as i128) && nx >= -(NORM_LIMIT as i128) && ny <= (NORM_LIMIT as i128)
        && ny >= -(NORM_LIMIT as i128) && nz <= (NORM_LIMIT as i128) && nz >= -(
    NORM_LIMIT as i128) {
        Some(
            HitRecord {
                t: Fx { raw: t },
                p,
                normal: Vector {
                    x: Fx { raw: nx as i64 },
                    y: Fx { raw: ny as i64 },
                    z: Fx { raw: nz as i64 },
                },
            },
        )
    } else {
        None
    }
}

impl Sphere {
    /// Builds a sphere.
    pub fn new(center: Vector, radius: Fx, material: Material) -> (r: Sphere)
        ensures
            r == (Sphere { center, radius, material }),
    {
        Sphere { center, radius, material }
    }

    /// Ray-sphere intersection against the open range `(t_min, t_max)`.
    pub fn hit(&self, r: Ray, t_min: Fx, t_max: Fx) -> (res: Option<(HitRecord, Material)>)
        requires
            sphere_wf(*self),
            ray_ok(r),
            t_range_ok(t_min.raw as int, t_max.raw as int),
        ensures
            match res {
                None => sphere_hit_spec(
                    self.center,
                    self.radius.raw as int,
                    r,
                    t_min.raw as int,
                    t_max.raw as int,
                ) is None,
                Some((h, m)) => sphere_hit_spec(
                    self.center,
                    self.radius.raw as int,
                    r,
                    t_min.raw as int,
                    t_max.raw as int,
                ) == Some(h) && m == self.material && hit_record_ok(
                    h,
                    t_min.raw as int,
                    t_max.raw as int,
                ),
            },
    {
        match sphere_quad_hit(self.center, self.radius, r, t_min, t_max) {
            None => None,
            Some(h) => Some((h, self.material)),
        }
    }

    /// The box `center +- radius` on every axis.
    pub fn bounding_box(&self) -> (res: Aabb)
        requires
            sphere_wf(*self),
        ensures
            res.min.x.raw == self.center.x.raw - self.radius.raw,
            res.min.y.raw == self.center.y.raw - self.radius.raw,
            res.min.z.raw == self.center.z.raw - self.radius.raw,
            res.max.x.raw == self.center.x.raw + self.radius.raw,
            res.max.y.raw == self.center.y.raw + self.radius.raw,
            res.max.z.raw == self.center.z.raw + self.radius.raw,
    {
        Aabb {
            min: Vector {
                x: Fx { raw: self.center.x.raw - self.radius.raw },
                y: Fx { raw: self.center.y.raw - self.radius.raw },
                z: Fx { raw: self.center.z.raw - self.radius.raw },
            },
            max: Vector {
                x: Fx { raw: self.center.x.raw + self.radius.raw },
                y: Fx { raw: self.center.y.raw + self.radius.raw },
                z: Fx { raw: self.center.z.raw + self.radius.raw },
            },
        }
    }
}

// ---------------------------------------------------------------------
// Moving sphere
// ---------------------------------------------------------------------

/// A sphere whose center moves linearly between two keyframes.
#[derive(Clone, Copy, PartialEq, Eq, Structural, Debug)]
pub struct MovingSphere {
    pub center0: Vector,
    pub center1: Vector,
    pub t0: Fx,
    pub t1: Fx,
    pub radius: Fx,
    pub material: Material,
}

/// Geometry the kernel accepts for a moving sphere.
pub open spec fn moving_sphere_wf(s: MovingSphere) -> bool {
    &&& vec_bounded(s.center0, COORD_LIMIT as int)
    &&& vec_bounded(s.center1, COORD_LIMIT as int)
    &&& 16 <= s.radius.raw <= COORD_LIMIT
    &&& mag(s.t0.raw as int) <= T_LIMIT
    &&& mag(s.t1.raw as int) <= T_LIMIT
    &&& crate::materials::material_wf(s.material)
}

/// One component of the interpolated center:
/// `c0 + (c1 - c0) * (time - t0) / (t1 - t0)`.
pub open spec fn lerp_comp(c0: int, c1: int, f: int) -> int {
    c0 + mul_down(c1 - c0, f)
}

/// The interpolated center at a ray time, or nothing when the
/// extrapolated center leaves the kernel's coordinate range (resolved as
/// "no interaction"); a zero-length keyframe interval pins the first
/// keyframe.
pub open spec fn moving_center(s: MovingSphere, time: int) -> Option<Vector> {
    let f = if s.t1.raw == s.t0.raw {
        0
    } else {
        div_down(time - s.t0.raw, s.t1.raw - s.t0.raw)
    };
    let cx = lerp_comp(s.center0.x.raw as int, s.center1.x.raw as int, f);
    let cy = lerp_comp(s.center0.y.raw as int, s.center1.y.raw as int, f);
    let cz = lerp_comp(s.center0.z.raw as int, s.center1.z.raw as int, f);
    if mag(cx) <= COORD_LIMIT && mag(cy) <= COORD_LIMIT && mag(cz) <= COORD_LIMIT {
        Some(Vector { x: Fx { raw: cx as i64 }, y: Fx { raw: cy as i64 }, z: Fx { raw: cz as i64 } })
    } else {
        None
    }
}

/// The moving sphere's intersection: the static sphere test against the
/// center interpolated at the ray's time.
pub open spec fn moving_sphere_hit_spec(s: MovingSphere, r: Ray, tmin: int, tmax: int) -> Option<
    HitRecord,
> {
    match moving_center(s, r.time.raw as int) {
        None => None,
        Some(c) => sphere_hit_spec(c, s.radius.raw as int, r, tmin, tmax),
    }
}

impl MovingSphere {
    /// Builds a moving sphere from its two keyframes.
    pub fn new(center0: Vector, center1: Vector, t0: Fx, t1: Fx, radius: Fx, material: Material) -> (
        r: MovingSphere)
        ensures
            r == (MovingSphere { center0, center1, t0, t1, radius, material }),
    {
        MovingSphere { center0, center1, t0, t1, radius, material }
    }

    /// The interpolated center at the given time, within kernel range.
    fn center_at(&self, time: Fx) -> (res: Option<Vector>)
        requires
            moving_sphere_wf(*self),
            mag(time.raw as int) <= T_LIMIT as int,
        ensures
            res == moving_center(*self, time.raw as int),
            res matches Some(c) ==> vec_bounded(c, COORD_LIMIT as int),
    {
        let f: i128 = if self.t1.raw == self.t0.raw {
            0
        } else {
            let num: i128 = ((time.raw - self.t0.raw) as i128) * (SCALE as i128);
            let den: i128 = (self.t1.raw - self.t0.raw) as i128;
            proof {
                lemma_mul_mag_bound((time.raw - self.t0.raw) as int, SCALE as int, 0x200_0000_0000, 0x1_0000);
            }
            if den > 0 {
                tdiv_i128(num, den)
            } else {
                let q = tdiv_i128(num, -den);
                assert(tdiv(num as int, den as int) == -tdiv(num as int, -(den as int)));
                -q
            }
        };
        proof {
            if self.t1.raw != self.t0.raw {
                crate::fixed::lemma_tdiv_mag(
                    (time.raw - self.t0.raw) * SCALE as int,
                    self.t1.raw - self.t0.raw,
                );
                lemma_mul_mag_bound((time.raw - self.t0.raw) as int, SCALE as int, 0x200_0000_0000, 0x1_0000);
            }
            lemma_mul_mag_bound(
                (self.center1.x.raw - self.center0.x.raw) as int,
                f as int,
                2 * COORD_LIMIT,
                0x2000_0000_0000_0000,
            );
            lemma_mul_mag_bound(
                (self.center1.y.raw - self.center0.y.raw) as int,
                f as int,
                2 * COORD_LIMIT,
                0x2000_0000_0000_0000,
            );
            lemma_mul_mag_bound(
                (self.center1.z.raw - self.center0.z.raw) as int,
                f as int,
                2 * COORD_LIMIT,
                0x2000_0000_0000_0000,
            );
        }
        let ox = tdiv_i128(((self.center1.x.raw - self.center0.x.raw) as i128) * f, SCALE as i128);
        let oy = tdiv_i128(((self.center1.y.raw - self.center0.y.raw) as i128) * f, SCALE as i128);
        let oz = tdiv_i128(((self.center1.z.raw - self.center0.z.raw) as i128) * f, SCALE as i128);
        let cx = (self.center0.x.raw as i128) + ox;
        let cy = (self.center0.y.raw as i128) + oy;
        let cz = (self.center0.z.raw as i128) + oz;
        let lim = COORD_LIMIT as i128;
        if -lim <= cx && cx <= lim && -lim <= cy && cy <= lim && -lim <= cz && cz <= lim {
            Some(
                Vector {
                    x: Fx { raw: cx as i64 },
                    y: Fx { raw: cy as i64 },
                    z: Fx { raw: cz as i64 },
                },
            )
        } else {
            None
        }
    }

    /// Ray intersection at the ray's own time sample.
    pub fn hit(&self, r: Ray, t_min: Fx, t_max: Fx) -> (res: Option<(HitRecord, Material)>)
        requires
            moving_sphere_wf(*self),
            ray_ok(r),
            mag(r.time.raw as int) <= T_LIMIT as int,
            t_range_ok(t_min.raw as int, t_max.raw as int),
        ensures
            match res {
                None => moving_sphere_hit_spec(
                    *self,
                    r,
                    t_min.raw as int,
                    t_max.raw as int,
                ) is None,
                Some((h, m)) => moving_sphere_hit_spec(*self, r, t_min.raw as int, t_max.raw as int)
                    == Some(h) && m == self.material && hit_record_ok(
                    h,
                    t_min.raw as int,
                    t_max.raw as int,
                ),
            },
    {
        match self.center_at(r.time) {
            None => None,
            Some(c) => match sphere_quad_hit(c, self.radius, r, t_min, t_max) {
                None => None,
                Some(h) => Some((h, self.material)),
            },
        }
    }

    /// The union of the spheres at the two sample times, when both
    /// interpolated centers stay in range.
    pub fn bounding_box(&self, t0: Fx, t1: Fx) -> (res: Option<Aabb>)
        requires
            moving_sphere_wf(*self),
            mag(t0.raw as int) <= T_LIMIT as int,
            mag(t1.raw as int) <= T_LIMIT as int,
        ensures
            res == match (moving_center(*self, t0.raw as int), moving_center(
                *self,
                t1.raw as int,
            )) {
                (Some(c0), Some(c1)) => Some(
                    surround_spec(
                        sphere_box_spec(c0, self.radius.raw as int),
                        sphere_box_spec(c1, self.radius.raw as int),
                    ),
                ),
                _ => None::<Aabb>,
            },
    {
        match (self.center_at(t0), self.center_at(t1)) {
            (Some(c0), Some(c1)) => {
                let b0 = sphere_box(c0, self.radius);
                let b1 = sphere_box(c1, self.radius);
                Some(Aabb::surrounding_box(b0, b1))
            },
            _ => None,
        }
    }
}

/// The axis-aligned box `center +- radius`.
pub open spec fn sphere_box_spec(center: Vector, radius: int) -> Aabb {
    Aabb {
        min: Vector {
            x: Fx { raw: (center.x.raw - radius) as i64 },
            y: Fx { raw: (center.y.raw - radius) as i64 },
            z: Fx { raw: (center.z.raw - radius) as i64 },
        },
        max: Vector {
            x: Fx { raw: (center.x.raw + radius) as i64 },
            y: Fx { raw: (center.y.raw + radius) as i64 },
            z: Fx { raw: (center.z.raw + radius) as i64 },
        },
    }
}

/// Builds the box `center +- radius`.
fn sphere_box(center: Vector, radius: Fx) -> (res: Aabb)
    requires
        vec_bounded(center, COORD_LIMIT as int),
        0 <= radius.raw <= COORD_LIMIT,
    ensures
        res == sphere_box_spec(center, radius.raw as int),
        vec_bounded(res.min, 2 * COORD_LIMIT as int),
        vec_bounded(res.max, 2 * COORD_LIMIT as int),
{
    Aabb {
        min: Vector {
            x: Fx { raw: center.x.raw - radius.raw },
            y: Fx { raw: center.y.raw - radius.raw },
            z: Fx { raw: center.z.raw - radius.raw },
        },
        max: Vector {
            x: Fx { raw: center.x.raw + radius.raw },
            y: Fx { raw: center.y.raw + radius.raw },
            z: Fx { raw: center.z.raw + radius.raw },
        },
    }
}

// ---------------------------------------------------------------------
// Rectangle
// ---------------------------------------------------------------------

/// The coordinate plane an axis-aligned rectangle lies in.
#[derive(Clone, Copy, PartialEq, Eq, Structural, Debug)]
pub enum RectPlane {
    XY,
    YZ,
    XZ,
}

/// The (constant, first-free, second-free) axis indices of a plane.
pub open spec fn rect_axes(p: RectPlane) -> (int, int, int) {
    match p {
        RectPlane::XY => (2, 0, 1),
        RectPlane::YZ => (0, 1, 2),
        RectPlane::XZ => (1, 0, 2),
    }
}

/// An axis-aligned rectangle spanning `[a0, a1] x [b0, b1]` at constant
/// coordinate `k`, with a sign flag selecting the normal's side.
#[derive(Clone, Copy, PartialEq, Eq, Structural, Debug)]
pub struct Rectangle {
    pub plane: RectPlane,
    pub a0: Fx,
    pub a1: Fx,
    pub b0: Fx,
    pub b1: Fx,
    pub k: Fx,
    pub norm: Fx,
    pub material: Material,
}

/// Geometry the kernel accepts for a rectangle.
pub open spec fn rect_wf(rc: Rectangle) -> bool {
    &&& mag(rc.a0.raw as int) <= COORD_LIMIT
    &&& mag(rc.a1.raw as int) <= COORD_LIMIT
    &&& mag(rc.b0.raw as int) <= COORD_LIMIT
    &&& mag(rc.b1.raw as int) <= COORD_LIMIT
    &&& mag(rc.k.raw as int) <= COORD_LIMIT
    &&& rc.a0.raw <= rc.a1.raw
    &&& rc.b0.raw <= rc.b1.raw
    &&& (rc.norm.raw == SCALE || rc.norm.raw == -SCALE)
    &&& crate::materials::material_wf(rc.material)
}

/// The unit normal of the rectangle's plane times its sign flag.
pub open spec fn rect_normal_spec(rc: Rectangle) -> Vector {
    match rc.plane {
        RectPlane::XY => Vector { x: Fx { raw: 0 }, y: Fx { raw: 0 }, z: rc.norm },
        RectPlane::YZ => Vector { x: rc.norm, y: Fx { raw: 0 }, z: Fx { raw: 0 } },
        RectPlane::XZ => Vector { x: Fx { raw: 0 }, y: rc.norm, z: Fx { raw: 0 } },
    }
}

/// The rectangle intersection: solve for the parameter at the constant
/// coordinate (a ray parallel to the plane never interacts), reject
/// outside the closed range or the rectangle's extent.
pub open spec fn rect_hit_spec(rc: Rectangle, r: Ray, tmin: int, tmax: int) -> Option<HitRecord> {
    let axes = rect_axes(rc.plane);
    let ok = crate::vector3::comp(r.a, axes.0);
    let dk = crate::vector3::comp(r.b, axes.0);
    if dk == 0 {
        None
    } else {
        let t = div_down(rc.k.raw - ok, dk);
        if t < tmin || t > tmax {
            None
        } else {
            let x = crate::vector3::comp(r.a, axes.1) + mul_down(crate::vector3::comp(r.b, axes.1), t);
            let y = crate::vector3::comp(r.a, axes.2) + mul_down(crate::vector3::comp(r.b, axes.2), t);
            if x < rc.a0.raw || x > rc.a1.raw || y < rc.b0.raw || y > rc.b1.raw {
                None
            } else {
                Some(HitRecord { t: Fx { raw: t as i64 }, p: point_at(r, t), normal: rect_normal_spec(rc) })
            }
        }
    }
}

/// The rectangle's box: its extent, padded along the plane normal so the
/// slab test does not degenerate.
pub open spec fn rect_box_spec(rc: Rectangle) -> Aabb {
    match rc.plane {
        RectPlane::XY => Aabb {
            min: Vector { x: rc.a0, y: rc.b0, z: Fx { raw: (rc.k.raw - PAD_RAW) as i64 } },
            max: Vector { x: rc.a1, y: rc.b1, z: Fx { raw: (rc.k.raw + PAD_RAW) as i64 } },
        },
        RectPlane::YZ => Aabb {
            min: Vector { x: Fx { raw: (rc.k.raw - PAD_RAW) as i64 }, y: rc.a0, z: rc.b0 },
            max: Vector { x: Fx { raw: (rc.k.raw + PAD_RAW) as i64 }, y: rc.a1, z: rc.b1 },
        },
        RectPlane::XZ => Aabb {
            min: Vector { x: rc.a0, y: Fx { raw: (rc.k.raw - PAD_RAW) as i64 }, z: rc.b0 },
            max: Vector { x: rc.a1, y: Fx { raw: (rc.k.raw + PAD_RAW) as i64 }, z: rc.b1 },
        },
    }
}

impl Rectangle {
    /// Ray-rectangle intersection against the closed range
    /// `[t_min, t_max]`.
    pub fn hit(&self, r: Ray, t_min: Fx, t_max: Fx) -> (res: Option<(HitRecord, Material)>)
        requires
            rect_wf(*self),
            ray_ok(r),
            t_range_ok(t_min.raw as int, t_max.raw as int),
        ensures
            match res {
                None => rect_hit_spec(*self, r, t_min.raw as int, t_max.raw as int) is None,
                Some((h, m)) => rect_hit_spec(*self, r, t_min.raw as int, t_max.raw as int)
                    == Some(h) && m == self.material && hit_record_ok(
                    h,
                    t_min.raw as int,
                    t_max.raw as int,
                ),
            },
    {
        let (ok, dk, oa, da, ob, db2): (i64, i64, i64, i64, i64, i64) = match self.plane {
            RectPlane::XY => (r.a.z.raw, r.b.z.raw, r.a.x.raw, r.b.x.raw, r.a.y.raw, r.b.y.raw),
            RectPlane::YZ => (r.a.x.raw, r.b.x.raw, r.a.y.raw, r.b.y.raw, r.a.z.raw, r.b.z.raw),
            RectPlane::XZ => (r.a.y.raw, r.b.y.raw, r.a.x.raw, r.b.x.raw, r.a.z.raw, r.b.z.raw),
        };
        if dk == 0 {
            return None;
        }
        proof {
            lemma_mul_mag_bound((self.k.raw - ok) as int, SCALE as int, 0x4000_0000, 0x1_0000);
        }
        let num: i128 = ((self.k.raw - ok) as i128) * (SCALE as i128);
        let t: i128 = if dk > 0 {
            tdiv_i128(num, dk as i128)
        } else {
            let q = tdiv_i128(num, -(dk as i128));
            assert(tdiv(num as int, dk as int) == -tdiv(num as int, -(dk as int)));
            -q
        };
        if t < (t_min.raw as i128) || t > (t_max.raw as i128) {
            return None;
        }
        let tf = Fx { raw: t as i64 };
        proof {
            lemma_mul_down_bound(da as int, t as int, 0x2000_0000, 0x100_0000_0000);
            lemma_mul_down_bound(db2 as int, t as int, 0x2000_0000, 0x100_0000_0000);
            lemma_mul_down_bound(r.b.x.raw as int, t as int, 0x2000_0000, 0x100_0000_0000);
            lemma_mul_down_bound(r.b.y.raw as int, t as int, 0x2000_0000, 0x100_0000_0000);
            lemma_mul_down_bound(r.b.z.raw as int, t as int, 0x2000_0000, 0x100_0000_0000);
        }
        let xa = oa + Fx { raw: da }.mul(tf).raw;
        let yb = ob + Fx { raw: db2 }.mul(tf).raw;
        if xa < self.a0.raw || xa > self.a1.raw || yb < self.b0.raw || yb > self.b1.raw {
            return None;
        }
        let p = r.point_at_parameter(tf);
        let normal = match self.plane {
            RectPlane::XY => Vector { x: Fx { raw: 0 }, y: Fx { raw: 0 }, z: self.norm },
            RectPlane::YZ => Vector { x: self.norm, y: Fx { raw: 0 }, z: Fx { raw: 0 } },
            RectPlane::XZ => Vector { x: Fx { raw: 0 }, y: self.norm, z: Fx { raw: 0 } },
        };
        Some((HitRecord { t: tf, p, normal }, self.material))
    }

    /// The rectangle's padded bounding box.
    pub fn bounding_box(&self) -> (res: Aabb)
        requires
            rect_wf(*self),
        ensures
            res == rect_box_spec(*self),
    {
        match self.plane {
            RectPlane::XY => Aabb {
                min: Vector { x: self.a0, y: self.b0, z: Fx { raw: self.k.raw - PAD_RAW } },
                max: Vector { x: self.a1, y: self.b1, z: Fx { raw: self.k.raw + PAD_RAW } },
            },
            RectPlane::YZ => Aabb {
                min: Vector { x: Fx { raw: self.k.raw - PAD_RAW }, y: self.a0, z: self.b0 },
                max: Vector { x: Fx { raw: self.k.raw + PAD_RAW }, y: self.a1, z: self.b1 },
            },
            RectPlane::XZ => Aabb {
                min: Vector { x: self.a0, y: Fx { raw: self.k.raw - PAD_RAW }, z: self.b0 },
                max: Vector { x: self.a1, y: Fx { raw: self.k.raw + PAD_RAW }, z: self.b1 },
            },
        }
    }
}

// ---------------------------------------------------------------------
// Block
// ---------------------------------------------------------------------

/// A closed box of six rectangles between two opposite corners.
#[derive(Debug)]
pub struct Block {
    pub p_min: Vector,
    pub p_max: Vector,
    pub sides: Vec<Rectangle>,
}

/// Geometry the kernel accepts for a block.
pub open spec fn block_wf(b: Block) -> bool {
    &&& vec_bounded(b.p_min, COORD_LIMIT as int)
    &&& vec_bounded(b.p_max, COORD_LIMIT as int)
    &&& forall|i: int| 0 <= i < b.sides@.len() ==> rect_wf(#[trigger] b.sides@[i])
}

/// The nearest rectangle hit of a list, scanned front to back while
/// narrowing the far bound to the best parameter so far.
pub open spec fn rect_scan_spec(sides: Seq<Rectangle>, r: Ray, tmin: int, tmax: int) -> Option<
    (HitRecord, Material),
>
    decreases sides.len(),
{
    if sides.len() == 0 {
        None
    } else {
        match rect_hit_spec(sides[0], r, tmin, tmax) {
            None => rect_scan_spec(sides.drop_first(), r, tmin, tmax),
            Some(h) => match rect_scan_spec(sides.drop_first(), r, tmin, h.t.raw as int) {
                None => Some((h, sides[0].material)),
                Some(pr) => Some(pr),
            },
        }
    }
}

/// The six faces of the box `[p0, p1]`, in construction order.
pub open spec fn block_sides_spec(p0: Vector, p1: Vector, material: Material) -> Seq<Rectangle> {
    seq![
        Rectangle { plane: RectPlane::XY, a0: p0.x, a1: p1.x, b0: p0.y, b1: p1.y, k: p1.z, norm: Fx { raw: SCALE }, material },
        Rectangle { plane: RectPlane::XY, a0: p0.x, a1: p1.x, b0: p0.y, b1: p1.y, k: p0.z, norm: Fx { raw: (-SCALE) as i64 }, material },
        Rectangle { plane: RectPlane::XZ, a0: p0.x, a1: p1.x, b0: p0.z, b1: p1.z, k: p1.y, norm: Fx { raw: SCALE }, material },
        Rectangle { plane: RectPlane::XZ, a0: p0.x, a1: p1.x, b0: p0.z, b1: p1.z, k: p0.y, norm: Fx { raw: (-SCALE) as i64 }, material },
        Rectangle { plane: RectPlane::YZ, a0: p0.y, a1: p1.y, b0: p0.z, b1: p1.z, k: p1.x, norm: Fx { raw: SCALE }, material },
        Rectangle { plane: RectPlane::YZ, a0: p0.y, a1: p1.y, b0: p0.z, b1: p1.z, k: p0.x, norm: Fx { raw: (-SCALE) as i64 }, material },
    ]
}

impl Block {
    /// Builds the six faces of the box with corners `p0 <= p1`.
    pub fn new(p0: Vector, p1: Vector, material: Material) -> (r: Block)
        requires
            vec_bounded(p0, COORD_LIMIT as int),
            vec_bounded(p1, COORD_LIMIT as int),
            crate::materials::material_wf(material),
            p0.x.raw <= p1.x.raw,
            p0.y.raw <= p1.y.raw,
            p0.z.raw <= p1.z.raw,
        ensures
            r.p_min == p0,
            r.p_max == p1,
            r.sides@ == block_sides_spec(p0, p1, material),
            block_wf(r),
    {
        let mut sides: Vec<Rectangle> = Vec::new();
        sides.push(
            Rectangle {
                plane: RectPlane::XY,
                a0: p0.x,
                a1: p1.x,
                b0: p0.y,
                b1: p1.y,
                k: p1.z,
                norm: Fx { raw: SCALE },
                material,
            },
        );
        sides.push(
            Rectangle {
                plane: RectPlane::XY,
                a0: p0.x,
                a1: p1.x,
                b0: p0.y,
                b1: p1.y,
                k: p0.z,
                norm: Fx { raw: -SCALE },
                material,
            },
        );
        sides.push(
            Rectangle {
                plane: RectPlane::XZ,
                a0: p0.x,
                a1: p1.x,
                b0: p0.z,
                b1: p1.z,
                k: p1.y,
                norm: Fx { raw: SCALE },
                material,
            },
        );
        sides.push(
            Rectangle {
                plane: RectPlane::XZ,
                a0: p0.x,
                a1: p1.x,
                b0: p0.z,
                b1: p1.z,
                k: p0.y,
                norm: Fx { raw: -SCALE },
                material,
            },
        );
        sides.push(
            Rectangle {
                plane: RectPlane::YZ,
                a0: p0.y,
                a1: p1.y,
                b0: p0.z,
                b1: p1.z,
                k: p1.x,
                norm: Fx { raw: SCALE },
                material,
            },
        );
        sides.push(
            Rectangle {
                plane: RectPlane::YZ,
                a0: p0.y,
                a1: p1.y,
                b0: p0.z,
                b1: p1.z,
                k: p0.x,
                norm: Fx { raw: -SCALE },
                material,
            },
        );
        proof {
            assert(sides@ =~= block_sides_spec(p0, p1, material));
        }
        Block { p_min: p0, p_max: p1, sides }
    }

    /// The nearest face hit, by the narrowed scan of the six sides.
    pub fn hit(&self, r: Ray, t_min: Fx, t_max: Fx) -> (res: Option<(HitRecord, Material)>)
        requires
            block_wf(*self),
            ray_ok(r),
            t_range_ok(t_min.raw as int, t_max.raw as int),
        ensures
            res == rect_scan_spec(self.sides@, r, t_min.raw as int, t_max.raw as int),
            res matches Some((h, m)) ==> hit_record_ok(h, t_min.raw as int, t_max.raw as int)
                && crate::materials::material_wf(m),
    {
        rect_scan(&self.sides, r, t_min, t_max)
    }

    /// The exact corner box.
    pub fn bounding_box(&self) -> (res: Aabb)
        ensures
            res == (Aabb { min: self.p_min, max: self.p_max }),
    {
        Aabb { min: self.p_min, max: self.p_max }
    }
}

/// Scans a list of rectangles, keeping the nearest hit.
fn rect_scan(sides: &Vec<Rectangle>, r: Ray, t_min: Fx, t_max: Fx) -> (res: Option<
    (HitRecord, Material),
>)
    requires
        forall|i: int| 0 <= i < sides@.len() ==> rect_wf(#[trigger] sides@[i]),
        ray_ok(r),
        t_range_ok(t_min.raw as int, t_max.raw as int),
    ensures
        res == rect_scan_spec(sides@, r, t_min.raw as int, t_max.raw as int),
        res matches Some((h, m)) ==> hit_record_ok(h, t_min.raw as int, t_max.raw as int)
            && crate::materials::material_wf(m),
{
    let ghost tmin = t_min.raw as int;
    let ghost tmax = t_max.raw as int;
    let mut best: Option<(HitRecord, Material)> = None;
    let mut i: usize = 0;
    proof {
        assert(sides@.skip(0) =~= sides@);
    }
    while i < sides.len()
        invariant
            0 <= i <= sides@.len(),
            forall|j: int| 0 <= j < sides@.len() ==> rect_wf(#[trigger] sides@[j]),
            ray_ok(r),
            t_range_ok(tmin, tmax),
            t_min.raw == tmin,
            t_max.raw == tmax,
            match best {
                None => rect_scan_spec(sides@, r, tmin, tmax) == rect_scan_spec(
                    sides@.skip(i as int),
                    r,
                    tmin,
                    tmax,
                ),
                Some((h, m)) => hit_record_ok(h, tmin, tmax) && crate::materials::material_wf(m)
                    && rect_scan_spec(
                    sides@,
                    r,
                    tmin,
                    tmax,
                ) == match rect_scan_spec(sides@.skip(i as int), r, tmin, h.t.raw as int) {
                    None => Some((h, m)),
                    Some(pr) => Some(pr),
                },
            },
        decreases sides@.len() - i,
    {
        let ghost pre = sides@.skip(i as int);
        proof {
            assert(pre[0] == sides@[i as int]);
            assert(pre.drop_first() =~= sides@.skip(i as int + 1));
        }
        let cur_max = match best {
            None => t_max,
            Some((h, _)) => h.t,
        };
        let step = sides[i].hit(r, t_min, cur_max);
        match step {
            None => (),
            Some((h2, m2)) => {
                best = Some((h2, m2));
            },
        }
        i = i + 1;
    }
    proof {
        assert(sides@.skip(i as int).len() == 0);
        match best {
            Some((h, _m)) => {
                assert(rect_scan_spec(sides@.skip(i as int), r, tmin, h.t.raw as int) is None);
            },
            None => {},
        }
    }
    best
}

// ---------------------------------------------------------------------
// Rotation helpers
// ---------------------------------------------------------------------

/// The axis a rotation decorator turns about.
#[derive(Clone, Copy, PartialEq, Eq, Structural, Debug)]
pub enum RotationAxis {
    X,
    Y,
    Z,
}

/// World-to-local rotation of a vector: on the turning plane,
/// `a' = s b + c a`, `b' = c b - s a`; the rotation axis is unchanged.
pub open spec fn rot_fwd(v: Vector, s: int, c: int, axis: RotationAxis) -> Vector {
    match axis {
        RotationAxis::X => Vector {
            x: v.x,
            y: Fx { raw: (mul_down(v.z.raw as int, s) + mul_down(v.y.raw as int, c)) as i64 },
            z: Fx { raw: (mul_down(v.z.raw as int, c) - mul_down(v.y.raw as int, s)) as i64 },
        },
        RotationAxis::Y => Vector {
            x: Fx { raw: (mul_down(v.x.raw as int, c) - mul_down(v.z.raw as int, s)) as i64 },
            y: v.y,
            z: Fx { raw: (mul_down(v.x.raw as int, s) + mul_down(v.z.raw as int, c)) as i64 },
        },
        RotationAxis::Z => Vector {
            x: Fx { raw: (mul_down(v.y.raw as int, s) + mul_down(v.x.raw as int, c)) as i64 },
            y: Fx { raw: (mul_down(v.y.raw as int, c) - mul_down(v.x.raw as int, s)) as i64 },
            z: v.z,
        },
    }
}

/// Local-to-world rotation, the inverse turn: `a = c a' - s b'`,
/// `b = s a' + c b'`.
pub open spec fn rot_back(v: Vector, s: int, c: int, axis: RotationAxis) -> Vector {
    match axis {
        RotationAxis::X => Vector {
            x: v.x,
            y: Fx { raw: (mul_down(v.y.raw as int, c) - mul_down(v.z.raw as int, s)) as i64 },
            z: Fx { raw: (mul_down(v.y.raw as int, s) + mul_down(v.z.raw as int, c)) as i64 },
        },
        RotationAxis::Y => Vector {
            x: Fx { raw: (mul_down(v.z.raw as int, s) + mul_down(v.x.raw as int, c)) as i64 },
            y: v.y,
            z: Fx { raw: (mul_down(v.z.raw as int, c) - mul_down(v.x.raw as int, s)) as i64 },
        },
        RotationAxis::Z => Vector {
            x: Fx { raw: (mul_down(v.x.raw as int, c) - mul_down(v.y.raw as int, s)) as i64 },
            y: Fx { raw: (mul_down(v.x.raw as int, s) + mul_down(v.y.raw as int, c)) as i64 },
            z: v.z,
        },
    }
}

/// The products of a rotation step stay within the input's bound.
proof fn lemma_rot_terms(v: Vector, s: int, c: int, b: int)
    requires
        vec_bounded(v, b),
        0 <= b,
        mag(s) <= SCALE as int,
        mag(c) <= SCALE as int,
    ensures
        mag(mul_down(v.x.raw as int, s)) <= b,
        mag(mul_down(v.y.raw as int, s)) <= b,
        mag(mul_down(v.z.raw as int, s)) <= b,
        mag(mul_down(v.x.raw as int, c)) <= b,
        mag(mul_down(v.y.raw as int, c)) <= b,
        mag(mul_down(v.z.raw as int, c)) <= b,
{
    lemma_mul_down_bound(v.x.raw as int, s, b, 65536);
    lemma_mul_down_bound(v.y.raw as int, s, b, 65536);
    lemma_mul_down_bound(v.z.raw as int, s, b, 65536);
    lemma_mul_down_bound(v.x.raw as int, c, b, 65536);
    lemma_mul_down_bound(v.y.raw as int, c, b, 65536);
    lemma_mul_down_bound(v.z.raw as int, c, b, 65536);
}

/// Applies the world-to-local turn.
fn rot_fwd_exec(v: Vector, s: Fx, c: Fx, axis: RotationAxis, Ghost(b): Ghost<int>) -> (r: Vector)
    requires
        vec_bounded(v, b),
        0 <= b <= 0x1000_0000_0000_0000,
        mag(s.raw as int) <= SCALE as int,
        mag(c.raw as int) <= SCALE as int,
    ensures
        r == rot_fwd(v, s.raw as int, c.raw as int, axis),
        vec_bounded(r, 2 * b),
{
    proof {
        lemma_rot_terms(v, s.raw as int, c.raw as int, b);
    }
    match axis {
        RotationAxis::X => Vector {
            x: v.x,
            y: Fx { raw: v.z.mul(s).raw + v.y.mul(c).raw },
            z: Fx { raw: v.z.mul(c).raw - v.y.mul(s).raw },
        },
        RotationAxis::Y => Vector {
            x: Fx { raw: v.x.mul(c).raw - v.z.mul(s).raw },
            y: v.y,
            z: Fx { raw: v.x.mul(s).raw + v.z.mul(c).raw },
        },
        RotationAxis::Z => Vector {
            x: Fx { raw: v.y.mul(s).raw + v.x.mul(c).raw },
            y: Fx { raw: v.y.mul(c).raw - v.x.mul(s).raw },
            z: v.z,
        },
    }
}

/// Applies the local-to-world turn.
fn rot_back_exec(v: Vector, s: Fx, c: Fx, axis: RotationAxis, Ghost(b): Ghost<int>) -> (r: Vector)
    requires
        vec_bounded(v, b),
        0 <= b <= 0x1000_0000_0000_0000,
        mag(s.raw as int) <= SCALE as int,
        mag(c.raw as int) <= SCALE as int,
    ensures
        r == rot_back(v, s.raw as int, c.raw as int, axis),
        vec_bounded(r, 2 * b),
{
    proof {
        lemma_rot_terms(v, s.raw as int, c.raw as int, b);
    }
    match axis {
        RotationAxis::X => Vector {
            x: v.x,
            y: Fx { raw: v.y.mul(c).raw - v.z.mul(s).raw },
            z: Fx { raw: v.y.mul(s).raw + v.z.mul(c).raw },
        },
        RotationAxis::Y => Vector {
            x: Fx { raw: v.z.mul(s).raw + v.x.mul(c).raw },
            y: v.y,
            z: Fx { raw: v.z.mul(c).raw - v.x.mul(s).raw },
        },
        RotationAxis::Z => Vector {
            x: Fx { raw: v.x.mul(c).raw - v.y.mul(s).raw },
            y: Fx { raw: v.x.mul(s).raw + v.y.mul(c).raw },
            z: v.z,
        },
    }
}

// ---------------------------------------------------------------------
// The object family
// ---------------------------------------------------------------------

/// Translation decorator: the inner object shifted by an offset.
#[derive(Debug)]
pub struct Translate {
    pub hittable: Box<Object>,
    pub offset: Vector,
}

/// Rotation decorator: the inner object turned about an axis; the sine
/// and cosine are stored, and the world box is computed once at
/// construction.
#[derive(Debug)]
pub struct Rotate {
    pub hittable: Box<Object>,
    pub axis: RotationAxis,
    pub sin_theta: Fx,
    pub cos_theta: Fx,
    pub bounding_box: Option<Aabb>,
}

/// An interior node of the bounding-volume hierarchy: two subtrees and a
/// box containing everything below.
#[derive(Debug)]
pub struct Bvh {
    pub left: Box<Object>,
    pub right: Box<Object>,
    pub bounding_box: Aabb,
}

/// Any object a light ray can interact with, as one closed family.
#[derive(Debug)]
pub enum Object {
    Sphere(Sphere),
    MovingSphere(MovingSphere),
    Rect(Rectangle),
    Block(Block),
    Translate(Translate),
    Rotate(Rotate),
    Bvh(Bvh),
}

/// Geometry the kernel accepts, for the whole family.
pub open spec fn object_wf(o: Object) -> bool
    decreases o,
{
    match o {
        Object::Sphere(s) => sphere_wf(s),
        Object::MovingSphere(s) => moving_sphere_wf(s),
        Object::Rect(rc) => rect_wf(rc),
        Object::Block(b) => block_wf(b),
        Object::Translate(t) => vec_bounded(t.offset, COORD_LIMIT as int) && object_wf(*t.hittable),
        Object::Rotate(ro) => mag(ro.sin_theta.raw as int) <= SCALE as int && mag(
            ro.cos_theta.raw as int,
        ) <= SCALE as int && object_wf(*ro.hittable),
        Object::Bvh(n) => object_wf(*n.left) && object_wf(*n.right) && vec_bounded(
            n.bounding_box.min,
            COORD_LIMIT as int,
        ) && vec_bounded(n.bounding_box.max, COORD_LIMIT as int),
    }
}

/// The intersection semantics of the whole family.
///
/// A translated ray or a rotated result that leaves the kernel's
/// coordinate ranges is a degenerate interaction, resolved as a miss.
/// A hierarchy node whose box rejects the ray is a miss; otherwise both
/// children are queried and the nearer result wins (the right child on a
/// tie).
pub open spec fn object_hit(o: Object, r: Ray, tmin: int, tmax: int) -> Option<
    (HitRecord, Material),
>
    decreases o,
{
    match o {
        Object::Sphere(s) => match sphere_hit_spec(s.center, s.radius.raw as int, r, tmin, tmax) {
            None => None,
            Some(h) => Some((h, s.material)),
        },
        Object::MovingSphere(s) => match moving_sphere_hit_spec(s, r, tmin, tmax) {
            None => None,
            Some(h) => Some((h, s.material)),
        },
        Object::Rect(rc) => match rect_hit_spec(rc, r, tmin, tmax) {
            None => None,
            Some(h) => Some((h, rc.material)),
        },
        Object::Block(b) => rect_scan_spec(b.sides@, r, tmin, tmax),
        Object::Translate(tr) => {
            let sox = r.a.x.raw - tr.offset.x.raw;
            let soy = r.a.y.raw - tr.offset.y.raw;
            let soz = r.a.z.raw - tr.offset.z.raw;
            if mag(sox) <= COORD_LIMIT && mag(soy) <= COORD_LIMIT && mag(soz) <= COORD_LIMIT {
                let moved = Ray {
                    a: Vector {
                        x: Fx { raw: sox as i64 },
                        y: Fx { raw: soy as i64 },
                        z: Fx { raw: soz as i64 },
                    },
                    b: r.b,
                    time: r.time,
                };
                match object_hit(*tr.hittable, moved, tmin, tmax) {
                    None => None,
                    Some((h, m)) => {
                        let px = h.p.x.raw + tr.offset.x.raw;
                        let py = h.p.y.raw + tr.offset.y.raw;
                        let pz = h.p.z.raw + tr.offset.z.raw;
                        if mag(px) <= P_LIMIT && mag(py) <= P_LIMIT && mag(pz) <= P_LIMIT {
                            Some(
                                (
                                    HitRecord {
                                        t: h.t,
                                        p: Vector {
                                            x: Fx { raw: px as i64 },
                                            y: Fx { raw: py as i64 },
                                            z: Fx { raw: pz as i64 },
                                        },
                                        normal: h.normal,
                                    },
                                    m,
                                ),
                            )
                        } else {
                            None
                        }
                    },
                }
            } else {
                None
            }
        },
        Object::Rotate(ro) => {
            let s = ro.sin_theta.raw as int;
            let c = ro.cos_theta.raw as int;
            let ra = rot_fwd(r.a, s, c, ro.axis);
            let rb = rot_fwd(r.b, s, c, ro.axis);
            if vec_bounded(ra, COORD_LIMIT as int) && vec_bounded(rb, COORD_LIMIT as int) {
                let rotated = Ray { a: ra, b: rb, time: r.time };
                match object_hit(*ro.hittable, rotated, tmin, tmax) {
                    None => None,
                    Some((h, m)) => {
                        let p2 = rot_back(h.p, s, c, ro.axis);
                        let n2 = rot_back(h.normal, s, c, ro.axis);
                        if vec_bounded(p2, P_LIMIT as int) && vec_bounded(n2, NORM_LIMIT as int) {
                            Some((HitRecord { t: h.t, p: p2, normal: n2 }, m))
                        } else {
                            None
                        }
                    },
                }
            } else {
                None
            }
        },
        Object::Bvh(n) => {
            if !aabb_hit_spec(n.bounding_box, r, tmin, tmax) {
                None
            } else {
                match (object_hit(*n.left, r, tmin, tmax), object_hit(*n.right, r, tmin, tmax)) {
                    (None, None) => None,
                    (Some(pr), None) => Some(pr),
                    (None, Some(pr)) => Some(pr),
                    (Some((hl, ml)), Some((hr, mr))) => if hl.t.raw < hr.t.raw {
                        Some((hl, ml))
                    } else {
                        Some((hr, mr))
                    },
                }
            }
        },
    }
}

impl Object {
    /// Ray intersection for the whole family; see `object_hit` for the
    /// exact semantics of every variant.
    pub fn hit(&self, r: Ray, t_min: Fx, t_max: Fx) -> (res: Option<(HitRecord, Material)>)
        requires
            object_wf(*self),
            ray_ok(r),
            mag(r.time.raw as int) <= T_LIMIT as int,
            t_range_ok(t_min.raw as int, t_max.raw as int),
        ensures
            res == object_hit(*self, r, t_min.raw as int, t_max.raw as int),
            res matches Some((h, m)) ==> hit_record_ok(h, t_min.raw as int, t_max.raw as int)
                && crate::materials::material_wf(m),
        decreases *self,
    {
        match self {
            Object::Sphere(s) => s.hit(r, t_min, t_max),
            Object::MovingSphere(s) => s.hit(r, t_min, t_max),
            Object::Rect(rc) => rc.hit(r, t_min, t_max),
            Object::Block(b) => b.hit(r, t_min, t_max),
            Object::Translate(tr) => {
                let sox = r.a.x.raw - tr.offset.x.raw;
                let soy = r.a.y.raw - tr.offset.y.raw;
                let soz = r.a.z.raw - tr.offset.z.raw;
                let lim = COORD_LIMIT;
                if !(-lim <= sox && sox <= lim && -lim <= soy && soy <= lim && -lim <= soz && soz
                    <= lim) {
                    return None;
                }
                let moved = Ray {
                    a: Vector { x: Fx { raw: sox }, y: Fx { raw: soy }, z: Fx { raw: soz } },
                    b: r.b,
                    time: r.time,
                };
                match tr.hittable.hit(moved, t_min, t_max) {
                    None => None,
                    Some((h, m)) => {
                        let px = h.p.x.raw + tr.offset.x.raw;
                        let py = h.p.y.raw + tr.offset.y.raw;
                        let pz = h.p.z.raw + tr.offset.z.raw;
                        let plim = P_LIMIT;
                        if -plim <= px && px <= plim && -plim <= py && py <= plim && -plim <= pz
                            && pz <= plim {
                            Some(
                                (
                                    HitRecord {
                                        t: h.t,
                                        p: Vector {
                                            x: Fx { raw: px },
                                            y: Fx { raw: py },
                                            z: Fx { raw: pz },
                                        },
                                        normal: h.normal,
                                    },
                                    m,
                                ),
                            )
                        } else {
                            None
                        }
                    },
                }
            },
            Object::Rotate(ro) => {
                let ra = rot_fwd_exec(
                    r.a,
                    ro.sin_theta,
                    ro.cos_theta,
                    ro.axis,
                    Ghost(COORD_LIMIT as int),
                );
                let rb = rot_fwd_exec(
                    r.b,
                    ro.sin_theta,
                    ro.cos_theta,
                    ro.axis,
                    Ghost(COORD_LIMIT as int),
                );
                if !(in_coord_range(ra) && in_coord_range(rb)) {
                    return None;
                }
                let rotated = Ray { a: ra, b: rb, time: r.time };
                match ro.hittable.hit(rotated, t_min, t_max) {
                    None => None,
                    Some((h, m)) => {
                        let p2 = rot_back_exec(
                            h.p,
                            ro.sin_theta,
                            ro.cos_theta,
                            ro.axis,
                            Ghost(P_LIMIT as int),
                        );
                        let n2 = rot_back_exec(
                            h.normal,
                            ro.sin_theta,
                            ro.cos_theta,
                            ro.axis,
                            Ghost(NORM_LIMIT as int),
                        );
                        if in_range(p2, P_LIMIT) && in_range(n2, NORM_LIMIT) {
                            Some((HitRecord { t: h.t, p: p2, normal: n2 }, m))
                        } else {
                            None
                        }
                    },
                }
            },
            Object::Bvh(n) => {
                if !n.bounding_box.hit(r, t_min, t_max) {
                    return None;
                }
                let lh = n.left.hit(r, t_min, t_max);
                let rh = n.right.hit(r, t_min, t_max);
                match (lh, rh) {
                    (None, None) => None,
                    (Some(pr), None) => Some(pr),
                    (None, Some(pr)) => Some(pr),
                    (Some((hl, ml)), Some((hr, mr))) => if hl.t.raw < hr.t.raw {
                        Some((hl, ml))
                    } else {
                        Some((hr, mr))
                    },
                }
            },
        }
    }
}

// ---------------------------------------------------------------------
// Light sampling
// ---------------------------------------------------------------------

/// Near-plane offset used when probing a light shape.
pub const PDF_T_MIN: i64 = 66;

/// The solid-angle density of a sphere light seen from `o` along `v`:
/// `1 / (2 pi (1 - cos_max))` when the probe ray actually hits and the
/// origin lies outside the sphere, with
/// `cos_max = sqrt(1 - radius^2 / dist^2)`; zero otherwise (including the
/// grazing case where the solid angle truncates to zero).
pub open spec fn sphere_pdf_spec(s: Sphere, o: Vector, v: Vector) -> int {
    let probe = Ray { a: o, b: v, time: Fx { raw: 0 } };
    if sphere_hit_spec(s.center, s.radius.raw as int, probe, PDF_T_MIN as int, T_LIMIT as int)
        is Some {
        let dx = s.center.x.raw - o.x.raw;
        let dy = s.center.y.raw - o.y.raw;
        let dz = s.center.z.raw - o.z.raw;
        let d2 = dx * dx + dy * dy + dz * dz;
        let r2 = s.radius.raw * s.radius.raw;
        if d2 > r2 {
            let q = tdiv((d2 - r2) * 4294967296, d2);
            let cosm = sqrt_floor(q);
            let solid = mul_down(2 * PI_RAW, SCALE - cosm);
            if solid > 0 {
                div_down(SCALE as int, solid)
            } else {
                0
            }
        } else {
            0
        }
    } else {
        0
    }
}

/// The cosine of the half angle of the cap a sphere of the given raw
/// radius subtends at squared raw distance `d2`, as a raw scalar.
pub open spec fn cap_cos(radius: int, d2: int) -> int {
    sqrt_floor(tdiv((d2 - radius * radius) * 4294967296, d2))
}

/// What every drawn light direction toward a sphere is: from an origin
/// outside, the image through the basis aimed at the center of a local
/// cap sample whose height is at least the cap cosine; from an origin
/// inside, the fixed unit x fallback.
pub open spec fn sphere_random_ok(s: Sphere, origin: Vector, res: Vector) -> bool {
    let dx = s.center.x.raw - origin.x.raw;
    let dy = s.center.y.raw - origin.y.raw;
    let dz = s.center.z.raw - origin.z.raw;
    let d2 = dx * dx + dy * dy + dz * dz;
    let aim = Vector {
        x: Fx { raw: dx as i64 },
        y: Fx { raw: dy as i64 },
        z: Fx { raw: dz as i64 },
    };
    if d2 > s.radius.raw * s.radius.raw {
        exists|loc: Vector|
            #[trigger] crate::onb::local_spec(crate::onb::build_from_w_spec(aim), loc) == res
                && vec_bounded(loc, 2 * SCALE) && cap_cos(s.radius.raw as int, d2) <= loc.z.raw
                <= SCALE
    } else {
        res == (Vector { x: Fx { raw: SCALE }, y: Fx { raw: 0 }, z: Fx { raw: 0 } })
    }
}

/// The drawn-direction guarantee for the whole family: spheres sample
/// their cap, every other variant returns the fixed unit x axis.
pub open spec fn object_random_ok(o: Object, origin: Vector, res: Vector) -> bool {
    match o {
        Object::Sphere(s) => sphere_random_ok(s, origin, res),
        _ => res == (Vector { x: Fx { raw: SCALE }, y: Fx { raw: 0 }, z: Fx { raw: 0 } }),
    }
}

/// Bounds for the solid-angle computation.
proof fn lemma_pdf_bounds(d2: int, r2: int)
    requires
        0 < r2 < d2,
        d2 <= 0x4000_0000_0000_0000,
    ensures
        0 <= tdiv((d2 - r2) * 4294967296, d2) <= 0x1_0000_0000,
        0 <= sqrt_floor(tdiv((d2 - r2) * 4294967296, d2)) <= 0x1_0000,
{
    let a = d2 - r2;
    crate::fixed::lemma_tdiv_mag(a * (SCALE * SCALE), d2);
    crate::fixed::lemma_mag_scale(a, 4294967296);
    let q = tdiv(a * (SCALE * SCALE), d2);
    assert(a * 4294967296 / d2 <= 4294967296) by (nonlinear_arith)
        requires
            0 < a <= d2,
    ;
    assert(q >= 0);
    lemma_sqrt_floor(q);
    let sf = sqrt_floor(q);
    assert(sf <= 0x1_0000) by (nonlinear_arith)
        requires
            0 <= sf,
            sf * sf <= q,
            q <= 4294967296,
    ;
}

impl Sphere {
    /// The solid-angle density toward this sphere; see `sphere_pdf_spec`.
    pub fn pdf_value(&self, o: Vector, v: Vector) -> (res: Fx)
        requires
            sphere_wf(*self),
            vec_bounded(o, COORD_LIMIT as int),
            vec_bounded(v, COORD_LIMIT as int),
        ensures
            res.raw == sphere_pdf_spec(*self, o, v),
            0 <= res.raw <= 0x1_0000_0000,
    {
        let probe = Ray { a: o, b: v, time: Fx { raw: 0 } };
        let hit = sphere_quad_hit(self.center, self.radius, probe, Fx { raw: PDF_T_MIN }, Fx {
            raw: T_LIMIT,
        });
        if hit.is_none() {
            return Fx { raw: 0 };
        }
        let dx = self.center.x.raw - o.x.raw;
        let dy = self.center.y.raw - o.y.raw;
        let dz = self.center.z.raw - o.z.raw;
        proof {
            lemma_mul_mag_bound(dx as int, dx as int, 0x4000_0000, 0x4000_0000);
            lemma_mul_mag_bound(dy as int, dy as int, 0x4000_0000, 0x4000_0000);
            lemma_mul_mag_bound(dz as int, dz as int, 0x4000_0000, 0x4000_0000);
            lemma_mul_mag_bound(self.radius.raw as int, self.radius.raw as int, 0x2000_0000, 0x2000_0000);
            assert(dx * dx >= 0) by (nonlinear_arith);
            assert(dy * dy >= 0) by (nonlinear_arith);
            assert(dz * dz >= 0) by (nonlinear_arith);
        }
        let d2: i128 = (dx as i128) * (dx as i128) + (dy as i128) * (dy as i128) + (dz as i128) * (
        dz as i128);
        let r2: i128 = (self.radius.raw as i128) * (self.radius.raw as i128);
        if d2 <= r2 {
            return Fx { raw: 0 };
        }
        proof {
            assert(r2 > 0) by (nonlinear_arith)
                requires
                    r2 == (self.radius.raw as i128) * (self.radius.raw as i128),
                    self.radius.raw >= 16,
            ;
            lemma_pdf_bounds(d2 as int, r2 as int);
            lemma_mul_mag_bound((d2 - r2) as int, 4294967296, 0x4000_0000_0000_0000, 0x1_0000_0000);
        }
        let q = tdiv_i128((d2 - r2) * ((SCALE * SCALE) as i128), d2);
        let cosm = isqrt_i128(q);
        let inner = Fx { raw: SCALE - (cosm as i64) };
        proof {
            lemma_mul_down_bound(2 * PI_RAW as int, inner.raw as int, 411774, 65536);
        }
        let solid = Fx { raw: 2 * PI_RAW }.mul(inner);
        if solid.raw > 0 {
            proof {
                lemma_div_down_bound(SCALE as int, solid.raw as int, 65536);
            }
            Fx { raw: SCALE }.div(solid)
        } else {
            Fx { raw: 0 }
        }
    }

    /// A random direction toward the sphere: a point uniform on the
    /// visible spherical cap, mapped through a basis aimed at the
    /// center.  Falls back to the aim direction for an origin inside the
    /// sphere.
    pub fn random(&self, o: Vector) -> (res: Vector)
        requires
            sphere_wf(*self),
            vec_bounded(o, COORD_LIMIT as int),
        ensures
            vec_bounded(res, 0x20_0000),
            sphere_random_ok(*self, o, res),
    {
        let dx = self.center.x.raw - o.x.raw;
        let dy = self.center.y.raw - o.y.raw;
        let dz = self.center.z.raw - o.z.raw;
        let dir = Vector { x: Fx { raw: dx }, y: Fx { raw: dy }, z: Fx { raw: dz } };
        proof {
            lemma_mul_mag_bound(dx as int, dx as int, 0x4000_0000, 0x4000_0000);
            lemma_mul_mag_bound(dy as int, dy as int, 0x4000_0000, 0x4000_0000);
            lemma_mul_mag_bound(dz as int, dz as int, 0x4000_0000, 0x4000_0000);
            lemma_mul_mag_bound(self.radius.raw as int, self.radius.raw as int, 0x2000_0000, 0x2000_0000);
            assert(dx * dx >= 0) by (nonlinear_arith);
            assert(dy * dy >= 0) by (nonlinear_arith);
            assert(dz * dz >= 0) by (nonlinear_arith);
        }
        let d2: i128 = (dx as i128) * (dx as i128) + (dy as i128) * (dy as i128) + (dz as i128) * (
        dz as i128);
        let r2: i128 = (self.radius.raw as i128) * (self.radius.raw as i128);
        if d2 <= r2 {
            return Vector { x: Fx { raw: SCALE }, y: Fx { raw: 0 }, z: Fx { raw: 0 } };
        }
        proof {
            assert(r2 > 0) by (nonlinear_arith)
                requires
                    r2 == (self.radius.raw as i128) * (self.radius.raw as i128),
                    self.radius.raw >= 16,
            ;
            lemma_pdf_bounds(d2 as int, r2 as int);
        }
        let uvw = Onb::build_from_w(dir);
        let cap_sample = random_to_sphere(self.radius, d2);
        let res = uvw.local(cap_sample);
        proof {
            assert(crate::onb::local_spec(crate::onb::build_from_w_spec(dir), cap_sample) == res);
        }
        res
    }
}

/// A point uniform on the spherical cap a sphere of the given radius
/// subtends at squared distance `d2`: the height is uniform between the
/// cap's cosine and one, the azimuth uniform via a rejection-sampled
/// planar direction.
fn random_to_sphere(radius: Fx, d2: i128) -> (res: Vector)
    requires
        16 <= radius.raw <= COORD_LIMIT,
        (radius.raw as i128) * (radius.raw as i128) < d2 <= 0x4000_0000_0000_0000,
    ensures
        vec_bounded(res, 2 * SCALE),
        cap_cos(radius.raw as int, d2 as int) <= res.z.raw <= SCALE,
{
    proof {
        lemma_mul_mag_bound(radius.raw as int, radius.raw as int, 0x2000_0000, 0x2000_0000);
        assert((radius.raw as i128) * (radius.raw as i128) > 0) by (nonlinear_arith)
            requires
                radius.raw >= 16,
        ;
        lemma_pdf_bounds(d2 as int, ((radius.raw as i128) * (radius.raw as i128)) as int);
        lemma_mul_mag_bound(
            (d2 - (radius.raw as i128) * (radius.raw as i128)) as int,
            4294967296,
            0x4000_0000_0000_0000,
            0x1_0000_0000,
        );
    }
    let r2: i128 = (radius.raw as i128) * (radius.raw as i128);
    let q = tdiv_i128((d2 - r2) * 4294967296i128, d2);
    let cosm = isqrt_i128(q) as i64;
    let u2 = random_unit_fx();
    proof {
        assert(cosm == cap_cos(radius.raw as int, d2 as int));
        lemma_mul_down_bound(u2.raw as int, (SCALE - cosm) as int, 65536, 65536);
        crate::materials::lemma_unit_mul(u2.raw as int, (SCALE - cosm) as int);
    }
    let z = Fx { raw: SCALE - u2.mul(Fx { raw: SCALE - cosm }).raw };
    proof {
        lemma_mul_mag_bound(z.raw as int, z.raw as int, 131072, 131072);
        assert(z.raw * z.raw >= 0) by (nonlinear_arith);
    }
    let zz: i128 = (z.raw as i128) * (z.raw as i128);
    let ss: i128 = 4294967296i128;
    let m: i128 = if zz <= ss {
        ss - zz
    } else {
        0
    };
    proof {
        lemma_sqrt_floor(m as int);
        let sf = sqrt_floor(m as int);
        assert(sf <= 65536) by (nonlinear_arith)
            requires
                0 <= sf,
                sf * sf <= m,
                m <= 4294967296,
        ;
    }
    let s2 = Fx { raw: isqrt_i128(m) as i64 };
    let p = random_in_unit_disk();
    proof {
        lemma_mul_mag_bound(p.x.raw as int, p.x.raw as int, 65536, 65536);
        lemma_mul_mag_bound(p.y.raw as int, p.y.raw as int, 65536, 65536);
        assert(p.x.raw * p.x.raw >= 0) by (nonlinear_arith);
        assert(p.y.raw * p.y.raw >= 0) by (nonlinear_arith);
    }
    let l2: i128 = (p.x.raw as i128) * (p.x.raw as i128) + (p.y.raw as i128) * (p.y.raw as i128);
    let (ux, uy): (Fx, Fx) = if l2 == 0 {
        (Fx { raw: SCALE }, Fx { raw: 0 })
    } else {
        let l = isqrt_i128(l2);
        proof {
            lemma_sqrt_floor(l2 as int);
            crate::vector3::lemma_comp_le_len(p.x.raw as int, p.y.raw as int, 0, l as int);
            crate::vector3::lemma_comp_le_len(p.y.raw as int, p.x.raw as int, 0, l as int);
            crate::fixed::lemma_mag_scale(p.x.raw as int, SCALE as int);
            crate::fixed::lemma_mag_scale(p.y.raw as int, SCALE as int);
            crate::vector3::lemma_norm_div(p.x.raw as int, l as int);
            crate::vector3::lemma_norm_div(p.y.raw as int, l as int);
            assert(l > 0) by (nonlinear_arith)
                requires
                    l == sqrt_floor(l2 as int),
                    0 <= l,
                    l2 >= 1,
                    (l + 1) * (l + 1) > l2,
            ;
        }
        let nx = tdiv_i128((p.x.raw as i128) * (SCALE as i128), l);
        let ny = tdiv_i128((p.y.raw as i128) * (SCALE as i128), l);
        (Fx { raw: nx as i64 }, Fx { raw: ny as i64 })
    };
    proof {
        lemma_mul_down_bound(ux.raw as int, s2.raw as int, 65536, 65536);
        lemma_mul_down_bound(uy.raw as int, s2.raw as int, 65536, 65536);
    }
    Vector { x: ux.mul(s2), y: uy.mul(s2), z }
}

/// The solid-angle density of an object used as a light: only spheres
/// report a density; every other variant yields zero (it is never used
/// as a sampled light source).
pub open spec fn object_pdf_spec(o: Object, origin: Vector, v: Vector) -> int {
    match o {
        Object::Sphere(s) => sphere_pdf_spec(s, origin, v),
        _ => 0,
    }
}

impl Object {
    /// The solid-angle density toward this object from `origin` along
    /// `v`.
    pub fn pdf_value(&self, origin: Vector, v: Vector) -> (res: Fx)
        requires
            object_wf(*self),
            vec_bounded(origin, COORD_LIMIT as int),
            vec_bounded(v, COORD_LIMIT as int),
        ensures
            res.raw == object_pdf_spec(*self, origin, v),
            0 <= res.raw <= 0x1_0000_0000,
    {
        match self {
            Object::Sphere(s) => s.pdf_value(origin, v),
            _ => Fx { raw: 0 },
        }
    }

    /// A random direction toward this object from `origin`; the unit x
    /// axis for variants that are never sampled as lights.
    pub fn random(&self, origin: Vector) -> (res: Vector)
        requires
            object_wf(*self),
            vec_bounded(origin, COORD_LIMIT as int),
        ensures
            vec_bounded(res, 0x20_0000),
            object_random_ok(*self, origin, res),
    {
        match self {
            Object::Sphere(s) => s.random(origin),
            _ => Vector { x: Fx { raw: SCALE }, y: Fx { raw: 0 }, z: Fx { raw: 0 } },
        }
    }
}

// ---------------------------------------------------------------------
// Bounding boxes of the family
// ---------------------------------------------------------------------

/// Raw magnitude bound on box corners handled by the fold helpers.
pub const BOX_LIMIT: i64 = 0x40_0000_0000_0000;

/// The time-dependent box of any object, when one exists: primitives
/// report exact or padded extents, decorators transform their inner box
/// (degenerating to "none" when a corner leaves the representable
/// range), and hierarchy nodes report their stored box.
pub open spec fn object_box(o: Object, t0: int, t1: int) -> Option<Aabb>
    decreases o,
{
    match o {
        Object::Sphere(s) => Some(sphere_box_spec(s.center, s.radius.raw as int)),
        Object::MovingSphere(s) => match (moving_center(s, t0), moving_center(s, t1)) {
            (Some(c0), Some(c1)) => Some(
                surround_spec(
                    sphere_box_spec(c0, s.radius.raw as int),
                    sphere_box_spec(c1, s.radius.raw as int),
                ),
            ),
            _ => None,
        },
        Object::Rect(rc) => Some(rect_box_spec(rc)),
        Object::Block(b) => Some(Aabb { min: b.p_min, max: b.p_max }),
        Object::Translate(tr) => match object_box(*tr.hittable, t0, t1) {
            None => None,
            Some(bx) => {
                let nx = bx.min.x.raw + tr.offset.x.raw;
                let ny = bx.min.y.raw + tr.offset.y.raw;
                let nz = bx.min.z.raw + tr.offset.z.raw;
                let mx = bx.max.x.raw + tr.offset.x.raw;
                let my = bx.max.y.raw + tr.offset.y.raw;
                let mz = bx.max.z.raw + tr.offset.z.raw;
                if mag(nx) <= BOX_LIMIT && mag(ny) <= BOX_LIMIT && mag(nz) <= BOX_LIMIT && mag(mx)
                    <= BOX_LIMIT && mag(my) <= BOX_LIMIT && mag(mz) <= BOX_LIMIT {
                    Some(
                        Aabb {
                            min: Vector {
                                x: Fx { raw: nx as i64 },
                                y: Fx { raw: ny as i64 },
                                z: Fx { raw: nz as i64 },
                            },
                            max: Vector {
                                x: Fx { raw: mx as i64 },
                                y: Fx { raw: my as i64 },
                                z: Fx { raw: mz as i64 },
                            },
                        },
                    )
                } else {
                    None
                }
            },
        },
        Object::Rotate(ro) => ro.bounding_box,
        Object::Bvh(n) => Some(n.bounding_box),
    }
}

/// The eight corners of a box, turned back into world space, folded into
/// new axis-aligned extents; "none" when a corner leaves the
/// representable range.
pub open spec fn rotate_box_spec(bx: Option<Aabb>, s: int, c: int, axis: RotationAxis) -> Option<
    Aabb,
> {
    match bx {
        None => None,
        Some(b) => {
            if vec_bounded(b.min, BOX_LIMIT as int) && vec_bounded(b.max, BOX_LIMIT as int) {
                let c0 = rot_back(Vector { x: b.min.x, y: b.min.y, z: b.min.z }, s, c, axis);
                let c1 = rot_back(Vector { x: b.min.x, y: b.min.y, z: b.max.z }, s, c, axis);
                let c2 = rot_back(Vector { x: b.min.x, y: b.max.y, z: b.min.z }, s, c, axis);
                let c3 = rot_back(Vector { x: b.min.x, y: b.max.y, z: b.max.z }, s, c, axis);
                let c4 = rot_back(Vector { x: b.max.x, y: b.min.y, z: b.min.z }, s, c, axis);
                let c5 = rot_back(Vector { x: b.max.x, y: b.min.y, z: b.max.z }, s, c, axis);
                let c6 = rot_back(Vector { x: b.max.x, y: b.max.y, z: b.min.z }, s, c, axis);
                let c7 = rot_back(Vector { x: b.max.x, y: b.max.y, z: b.max.z }, s, c, axis);
                Some(
                    Aabb {
                        min: vec_min(
                            vec_min(vec_min(c0, c1), vec_min(c2, c3)),
                            vec_min(vec_min(c4, c5), vec_min(c6, c7)),
                        ),
                        max: vec_max(
                            vec_max(vec_max(c0, c1), vec_max(c2, c3)),
                            vec_max(vec_max(c4, c5), vec_max(c6, c7)),
                        ),
                    },
                )
            } else {
                None
            }
        },
    }
}

/// Componentwise minimum.
pub open spec fn vec_min(a: Vector, b: Vector) -> Vector {
    Vector {
        x: Fx { raw: if a.x.raw <= b.x.raw { a.x.raw } else { b.x.raw } },
        y: Fx { raw: if a.y.raw <= b.y.raw { a.y.raw } else { b.y.raw } },
        z: Fx { raw: if a.z.raw <= b.z.raw { a.z.raw } else { b.z.raw } },
    }
}

/// Componentwise maximum.
pub open spec fn vec_max(a: Vector, b: Vector) -> Vector {
    Vector {
        x: Fx { raw: if a.x.raw >= b.x.raw { a.x.raw } else { b.x.raw } },
        y: Fx { raw: if a.y.raw >= b.y.raw { a.y.raw } else { b.y.raw } },
        z: Fx { raw: if a.z.raw >= b.z.raw { a.z.raw } else { b.z.raw } },
    }
}

/// Componentwise minimum of two vectors.
fn vec_min_exec(a: Vector, b: Vector) -> (r: Vector)
    ensures
        r == vec_min(a, b),
{
    Vector { x: a.x.min(b.x), y: a.y.min(b.y), z: a.z.min(b.z) }
}

/// Componentwise maximum of two vectors.
fn vec_max_exec(a: Vector, b: Vector) -> (r: Vector)
    ensures
        r == vec_max(a, b),
{
    Vector { x: a.x.max(b.x), y: a.y.max(b.y), z: a.z.max(b.z) }
}

impl Rotate {
    /// Builds the rotation decorator from the supplied sine and cosine of
    /// the turning angle, recomputing the wrapped bounding box once by
    /// sampling all eight corners of the inner box over the unit time
    /// interval.
    pub fn new(hittable: Object, axis: RotationAxis, sin_theta: Fx, cos_theta: Fx) -> (r: Rotate)
        requires
            object_wf(hittable),
            mag(sin_theta.raw as int) <= SCALE as int,
            mag(cos_theta.raw as int) <= SCALE as int,
        ensures
            *r.hittable == hittable,
            r.axis == axis,
            r.sin_theta == sin_theta,
            r.cos_theta == cos_theta,
            r.bounding_box == rotate_box_spec(
                object_box(hittable, 0, SCALE as int),
                sin_theta.raw as int,
                cos_theta.raw as int,
                axis,
            ),
            object_wf(Object::Rotate(r)),
    {
        let inner_box = hittable.bounding_box(Fx { raw: 0 }, Fx { raw: SCALE });
        let bounding_box: Option<Aabb> = match inner_box {
            None => None,
            Some(b) => {
                if in_range(b.min, BOX_LIMIT) && in_range(b.max, BOX_LIMIT) {
                    let c0 = rot_back_exec(
                        Vector { x: b.min.x, y: b.min.y, z: b.min.z },
                        sin_theta,
                        cos_theta,
                        axis,
                        Ghost(BOX_LIMIT as int),
                    );
                    let c1 = rot_back_exec(
                        Vector { x: b.min.x, y: b.min.y, z: b.max.z },
                        sin_theta,
                        cos_theta,
                        axis,
                        Ghost(BOX_LIMIT as int),
                    );
                    let c2 = rot_back_exec(
                        Vector { x: b.min.x, y: b.max.y, z: b.min.z },
                        sin_theta,
                        cos_theta,
                        axis,
                        Ghost(BOX_LIMIT as int),
                    );
                    let c3 = rot_back_exec(
                        Vector { x: b.min.x, y: b.max.y, z: b.max.z },
                        sin_theta,
                        cos_theta,
                        axis,
                        Ghost(BOX_LIMIT as int),
                    );
                    let c4 = rot_back_exec(
                        Vector { x: b.max.x, y: b.min.y, z: b.min.z },
                        sin_theta,
                        cos_theta,
                        axis,
                        Ghost(BOX_LIMIT as int),
                    );
                    let c5 = rot_back_exec(
                        Vector { x: b.max.x, y: b.min.y, z: b.max.z },
                        sin_theta,
                        cos_theta,
                        axis,
                        Ghost(BOX_LIMIT as int),
                    );
                    let c6 = rot_back_exec(
                        Vector { x: b.max.x, y: b.max.y, z: b.min.z },
                        sin_theta,
                        cos_theta,
                        axis,
                        Ghost(BOX_LIMIT as int),
                    );
                    let c7 = rot_back_exec(
                        Vector { x: b.max.x, y: b.max.y, z: b.max.z },
                        sin_theta,
                        cos_theta,
                        axis,
                        Ghost(BOX_LIMIT as int),
                    );
                    Some(
                        Aabb {
                            min: vec_min_exec(
                                vec_min_exec(vec_min_exec(c0, c1), vec_min_exec(c2, c3)),
                                vec_min_exec(vec_min_exec(c4, c5), vec_min_exec(c6, c7)),
                            ),
                            max: vec_max_exec(
                                vec_max_exec(vec_max_exec(c0, c1), vec_max_exec(c2, c3)),
                                vec_max_exec(vec_max_exec(c4, c5), vec_max_exec(c6, c7)),
                            ),
                        },
                    )
                } else {
                    None
                }
            },
        };
        Rotate { hittable: Box::new(hittable), axis, sin_theta, cos_theta, bounding_box }
    }
}

impl Object {
    /// The object's box over the time interval, when one exists; see
    /// `object_box`.
    pub fn bounding_box(&self, t0: Fx, t1: Fx) -> (res: Option<Aabb>)
        requires
            object_wf(*self),
            mag(t0.raw as int) <= T_LIMIT as int,
            mag(t1.raw as int) <= T_LIMIT as int,
        ensures
            res == object_box(*self, t0.raw as int, t1.raw as int),
        decreases *self,
    {
        match self {
            Object::Sphere(s) => Some(sphere_box(s.center, s.radius)),
            Object::MovingSphere(s) => s.bounding_box(t0, t1),
            Object::Rect(rc) => Some(rc.bounding_box()),
            Object::Block(b) => Some(b.bounding_box()),
            Object::Translate(tr) => match tr.hittable.bounding_box(t0, t1) {
                None => None,
                Some(bx) => {
                    let lim = BOX_LIMIT;
                    let nx = (bx.min.x.raw as i128) + (tr.offset.x.raw as i128);
                    let ny = (bx.min.y.raw as i128) + (tr.offset.y.raw as i128);
                    let nz = (bx.min.z.raw as i128) + (tr.offset.z.raw as i128);
                    let mx = (bx.max.x.raw as i128) + (tr.offset.x.raw as i128);
                    let my = (bx.max.y.raw as i128) + (tr.offset.y.raw as i128);
                    let mz = (bx.max.z.raw as i128) + (tr.offset.z.raw as i128);
                    let l = lim as i128;
                    if -l <= nx && nx <= l && -l <= ny && ny <= l && -l <= nz && nz <= l && -l
                        <= mx && mx <= l && -l <= my && my <= l && -l <= mz && mz <= l {
                        Some(
                            Aabb {
                                min: Vector {
                                    x: Fx { raw: nx as i64 },
                                    y: Fx { raw: ny as i64 },
                                    z: Fx { raw: nz as i64 },
                                },
                                max: Vector {
                                    x: Fx { raw: mx as i64 },
                                    y: Fx { raw: my as i64 },
                                    z: Fx { raw: mz as i64 },
                                },
                            },
                        )
                    } else {
                        None
                    }
                },
            },
            Object::Rotate(ro) => ro.bounding_box,
            Object::Bvh(n) => Some(n.bounding_box),
        }
    }
}

/// Whether every component's magnitude stays within `lim`.
fn in_range(v: Vector, lim: i64) -> (res: bool)
    requires
        lim >= 0,
    ensures
        res == vec_bounded(v, lim as int),
{
    -lim <= v.x.raw && v.x.raw <= lim && -lim <= v.y.raw && v.y.raw <= lim && -lim <= v.z.raw
        && v.z.raw <= lim
}

/// Whether every component stays within the kernel coordinate range.
fn in_coord_range(v: Vector) -> (res: bool)
    ensures
        res == vec_bounded(v, COORD_LIMIT as int),
{
    in_range(v, COORD_LIMIT)
}

} // verus!
