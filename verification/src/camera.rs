//! The camera: a derived orthonormal basis plus lens and shutter
//! parameters, producing one primary ray per film sample.
//!
//! The field of view enters as the precomputed tangents of the half
//! angles (`half_width`, `half_height`); the trigonometric conversion
//! from degrees is left to the caller, outside the exact kernel.

use vstd::prelude::*;

use crate::aabb::COORD_LIMIT;
use crate::fixed::{lemma_mul_down_bound, mag, mul_down, Fx, SCALE};
use crate::object::ray_ok;
use crate::ray::Ray;
use crate::rng::random_unit_fx;
use crate::util::random_in_unit_disk;
use crate::vector3::{cross_spec, normalize_spec, vec_bounded, Vector};

verus! {

/// Raw bound on the camera's derived frame fields.
pub const CAM_FIELD_LIMIT: i64 = 0x1_0000_0000_0000;

/// Raw bound on camera positions.
pub const CAM_POS_LIMIT: i64 = 0x800_0000;

/// Raw bound on the shutter interval ends.
pub const CAM_TIME_LIMIT: i64 = 0x40_0000_0000;

/// A camera with its derived basis and lens/shutter parameters.
#[derive(Clone, Copy, PartialEq, Eq, Structural, Debug)]
pub struct Camera {
    pub lower_left_corner: Vector,
    pub horizontal: Vector,
    pub vertical: Vector,
    pub origin: Vector,
    pub lens_radius: Fx,
    pub u: Vector,
    pub v: Vector,
    pub w: Vector,
    pub t0: Fx,
    pub t1: Fx,
}

/// The settings a camera is derived from.
#[derive(Clone, Copy, PartialEq, Eq, Structural, Debug)]
pub struct CameraConstructor {
    pub look_from: Vector,
    pub look_at: Vector,
    pub vup: Vector,
    pub half_width: Fx,
    pub half_height: Fx,
    pub aperture: Fx,
    pub focus_dist: Fx,
    pub t0: Fx,
    pub t1: Fx,
}

/// What every constructed camera satisfies: fields small enough that all
/// per-ray arithmetic stays exact.
pub open spec fn camera_wf(c: Camera) -> bool {
    &&& vec_bounded(c.lower_left_corner, CAM_FIELD_LIMIT as int)
    &&& vec_bounded(c.horizontal, CAM_FIELD_LIMIT as int)
    &&& vec_bounded(c.vertical, CAM_FIELD_LIMIT as int)
    &&& vec_bounded(c.origin, CAM_POS_LIMIT as int)
    &&& vec_bounded(c.u, 2 * SCALE)
    &&& vec_bounded(c.v, 2 * SCALE)
    &&& vec_bounded(c.w, 2 * SCALE)
    &&& 0 <= c.lens_radius.raw <= SCALE
    &&& mag(c.t0.raw as int) <= CAM_TIME_LIMIT
    &&& mag(c.t1.raw as int) <= CAM_TIME_LIMIT
}

/// The settings the kernel accepts.
pub open spec fn camera_settings_ok(s: CameraConstructor) -> bool {
    &&& vec_bounded(s.look_from, CAM_POS_LIMIT as int)
    &&& vec_bounded(s.look_at, CAM_POS_LIMIT as int)
    &&& vec_bounded(s.vup, CAM_POS_LIMIT as int)
    &&& 0 <= s.half_width.raw <= 4 * SCALE
    &&& 0 <= s.half_height.raw <= 4 * SCALE
    &&& 0 <= s.aperture.raw <= 2 * SCALE
    &&& 0 <= s.focus_dist.raw <= CAM_POS_LIMIT
    &&& mag(s.t0.raw as int) <= CAM_TIME_LIMIT
    &&& mag(s.t1.raw as int) <= CAM_TIME_LIMIT
}

/// The film-plane direction a camera aims at parameters `(s, t)` before
/// any lens offset: `lower_left + s * horizontal + t * vertical -
/// origin`.
pub open spec fn camera_dir_spec(c: Camera, s: int, t: int) -> Vector {
    Vector {
        x: Fx {
            raw: (c.lower_left_corner.x.raw + mul_down(c.horizontal.x.raw as int, s) + mul_down(
                c.vertical.x.raw as int,
                t,
            ) - c.origin.x.raw) as i64,
        },
        y: Fx {
            raw: (c.lower_left_corner.y.raw + mul_down(c.horizontal.y.raw as int, s) + mul_down(
                c.vertical.y.raw as int,
                t,
            ) - c.origin.y.raw) as i64,
        },
        z: Fx {
            raw: (c.lower_left_corner.z.raw + mul_down(c.horizontal.z.raw as int, s) + mul_down(
                c.vertical.z.raw as int,
                t,
            ) - c.origin.z.raw) as i64,
        },
    }
}

impl Camera {
    /// Derives the camera frame from its settings.
    #[verifier::rlimit(60)]
    pub fn new(vals: CameraConstructor) -> (r: Camera)
        requires
            camera_settings_ok(vals),
        ensures
            camera_wf(r),
            r.origin == vals.look_from,
            r.t0 == vals.t0,
            r.t1 == vals.t1,
            r.lens_radius.raw == vals.aperture.raw / 2,
            r.w == normalize_spec(
                Vector {
                    x: Fx { raw: (vals.look_from.x.raw - vals.look_at.x.raw) as i64 },
                    y: Fx { raw: (vals.look_from.y.raw - vals.look_at.y.raw) as i64 },
                    z: Fx { raw: (vals.look_from.z.raw - vals.look_at.z.raw) as i64 },
                },
            ),
            r.u == normalize_spec(cross_spec(vals.vup, r.w)),
            r.v == cross_spec(r.w, r.u),
    {
        let gaze = vals.look_from.sub(vals.look_at);
        let w = gaze.normalize();
        proof {
            lemma_mul_down_bound(vals.vup.y.raw as int, w.z.raw as int, 0x800_0000, 65536);
            lemma_mul_down_bound(vals.vup.z.raw as int, w.y.raw as int, 0x800_0000, 65536);
            lemma_mul_down_bound(vals.vup.z.raw as int, w.x.raw as int, 0x800_0000, 65536);
            lemma_mul_down_bound(vals.vup.x.raw as int, w.z.raw as int, 0x800_0000, 65536);
            lemma_mul_down_bound(vals.vup.x.raw as int, w.y.raw as int, 0x800_0000, 65536);
            lemma_mul_down_bound(vals.vup.y.raw as int, w.x.raw as int, 0x800_0000, 65536);
        }
        let u = Vector::cross(vals.vup, w).normalize();
        let v = Vector::cross(w, u);
        proof {
            crate::onb::lemma_cross_small(w, u);
            lemma_frame_products(vals, u, v, w);
        }
        let hw_fd = vals.half_width.mul(vals.focus_dist);
        let hh_fd = vals.half_height.mul(vals.focus_dist);
        let uhw = u.scale(hw_fd);
        let vhh = v.scale(hh_fd);
        let wfd = w.scale(vals.focus_dist);
        let lower_left_corner = Vector {
            x: Fx { raw: vals.look_from.x.raw - uhw.x.raw - vhh.x.raw - wfd.x.raw },
            y: Fx { raw: vals.look_from.y.raw - uhw.y.raw - vhh.y.raw - wfd.y.raw },
            z: Fx { raw: vals.look_from.z.raw - uhw.z.raw - vhh.z.raw - wfd.z.raw },
        };
        let horizontal = Vector {
            x: Fx { raw: 2 * uhw.x.raw },
            y: Fx { raw: 2 * uhw.y.raw },
            z: Fx { raw: 2 * uhw.z.raw },
        };
        let vertical = Vector {
            x: Fx { raw: 2 * vhh.x.raw },
            y: Fx { raw: 2 * vhh.y.raw },
            z: Fx { raw: 2 * vhh.z.raw },
        };
        Camera {
            lower_left_corner,
            horizontal,
            vertical,
            origin: vals.look_from,
            lens_radius: Fx { raw: ((vals.aperture.raw as u64) / 2) as i64 },
            u,
            v,
            w,
            t0: vals.t0,
            t1: vals.t1,
        }
    }

    /// The standard camera: at the origin, gazing down the negative z
    /// axis with a 90 degree vertical field of view (so the half-height
    /// tangent is exactly one) and the given aspect ratio.
    pub fn default(aspect_r: Fx) -> (r: Camera)
        requires
            0 <= aspect_r.raw <= 4 * SCALE,
        ensures
            camera_wf(r),
    {
        let defaults = CameraConstructor {
            look_from: Vector::zeros(),
            look_at: Vector {
                x: Fx { raw: 0 },
                y: Fx { raw: 0 },
                z: Fx { raw: -SCALE },
            },
            vup: Vector { x: Fx { raw: 0 }, y: Fx { raw: SCALE }, z: Fx { raw: 0 } },
            half_width: aspect_r,
            half_height: Fx { raw: SCALE },
            aperture: Fx { raw: 0 },
            focus_dist: Fx { raw: SCALE },
            t0: Fx { raw: 0 },
            t1: Fx { raw: 0 },
        };
        Camera::new(defaults)
    }

    /// A primary ray through film parameters `(s, t)` in the unit square:
    /// origin offset within the lens disk, direction toward the film
    /// point, time uniform within the shutter interval.  A direction that
    /// leaves the kernel's coordinate range degenerates to the zero
    /// direction, which every primitive treats as "no interaction".
    pub fn get_ray(&self, s: Fx, t: Fx) -> (res: Ray)
        requires
            camera_wf(*self),
            0 <= s.raw <= SCALE,
            0 <= t.raw <= SCALE,
        ensures
            ray_ok(res),
            mag(res.time.raw as int) <= crate::aabb::T_LIMIT as int,
            self.lens_radius.raw == 0 ==> res.a == self.origin,
            self.t0 == self.t1 ==> res.time == self.t0,
            (self.lens_radius.raw == 0 && vec_bounded(
                camera_dir_spec(*self, s.raw as int, t.raw as int),
                COORD_LIMIT as int,
            )) ==> res.b == camera_dir_spec(*self, s.raw as int, t.raw as int),
            self.t0.raw <= self.t1.raw ==> self.t0.raw <= res.time.raw <= self.t1.raw,
            (res.b.x.raw == 0 && res.b.y.raw == 0 && res.b.z.raw == 0) || (res.a.x.raw
                + res.b.x.raw == self.lower_left_corner.x.raw + mul_down(
                self.horizontal.x.raw as int,
                s.raw as int,
            ) + mul_down(self.vertical.x.raw as int, t.raw as int) && res.a.y.raw + res.b.y.raw
                == self.lower_left_corner.y.raw + mul_down(self.horizontal.y.raw as int, s.raw as int)
                + mul_down(self.vertical.y.raw as int, t.raw as int) && res.a.z.raw + res.b.z.raw
                == self.lower_left_corner.z.raw + mul_down(self.horizontal.z.raw as int, s.raw as int)
                + mul_down(self.vertical.z.raw as int, t.raw as int)),
    {
        let rd0 = random_in_unit_disk();
        proof {
            lemma_mul_down_bound(rd0.x.raw as int, self.lens_radius.raw as int, 65536, 65536);
            lemma_mul_down_bound(rd0.y.raw as int, self.lens_radius.raw as int, 65536, 65536);
        }
        let rdx = rd0.x.mul(self.lens_radius);
        let rdy = rd0.y.mul(self.lens_radius);
        proof {
            lemma_offset_products(*self, rdx, rdy);
            if self.lens_radius.raw == 0 {
                crate::fixed::lemma_mul_down_zero(rd0.x.raw as int);
                crate::fixed::lemma_mul_down_zero(rd0.y.raw as int);
                crate::fixed::lemma_mul_down_zero(self.u.x.raw as int);
                crate::fixed::lemma_mul_down_zero(self.u.y.raw as int);
                crate::fixed::lemma_mul_down_zero(self.u.z.raw as int);
                crate::fixed::lemma_mul_down_zero(self.v.x.raw as int);
                crate::fixed::lemma_mul_down_zero(self.v.y.raw as int);
                crate::fixed::lemma_mul_down_zero(self.v.z.raw as int);
            }
        }
        let ou = self.u.scale(rdx);
        let ov = self.v.scale(rdy);
        let offset = Vector {
            x: Fx { raw: ou.x.raw + ov.x.raw },
            y: Fx { raw: ou.y.raw + ov.y.raw },
            z: Fx { raw: ou.z.raw + ov.z.raw },
        };
        let u2 = random_unit_fx();
        proof {
            lemma_mul_down_bound(u2.raw as int, (self.t1.raw - self.t0.raw) as int, 65536, 0x80_0000_0000);
            if self.t0 == self.t1 {
                crate::fixed::lemma_mul_down_zero(u2.raw as int);
            }
            if self.t0.raw <= self.t1.raw {
                let diff = self.t1.raw - self.t0.raw;
                assert(0 <= u2.raw * diff <= 65536 * diff) by (nonlinear_arith)
                    requires
                        0 <= u2.raw < 65536,
                        diff >= 0,
                ;
                assert((u2.raw * diff) / 65536 <= diff) by (nonlinear_arith)
                    requires
                        0 <= u2.raw * diff <= 65536 * diff,
                        diff >= 0,
                ;
            }
        }
        let time = Fx { raw: self.t0.raw + u2.mul(Fx { raw: self.t1.raw - self.t0.raw }).raw };
        let origin2 = Vector {
            x: Fx { raw: self.origin.x.raw + offset.x.raw },
            y: Fx { raw: self.origin.y.raw + offset.y.raw },
            z: Fx { raw: self.origin.z.raw + offset.z.raw },
        };
        proof {
            lemma_dir_products(*self, s, t);
        }
        let hs = self.horizontal.scale(s);
        let vt = self.vertical.scale(t);
        let dir = Vector {
            x: Fx {
                raw: self.lower_left_corner.x.raw + hs.x.raw + vt.x.raw - self.origin.x.raw
                    - offset.x.raw,
            },
            y: Fx {
                raw: self.lower_left_corner.y.raw + hs.y.raw + vt.y.raw - self.origin.y.raw
                    - offset.y.raw,
            },
            z: Fx {
                raw: self.lower_left_corner.z.raw + hs.z.raw + vt.z.raw - self.origin.z.raw
                    - offset.z.raw,
            },
        };
        let dir_ok = -COORD_LIMIT <= dir.x.raw && dir.x.raw <= COORD_LIMIT && -COORD_LIMIT
            <= dir.y.raw && dir.y.raw <= COORD_LIMIT && -COORD_LIMIT <= dir.z.raw && dir.z.raw
            <= COORD_LIMIT;
        let b = if dir_ok {
            dir
        } else {
            Vector::zeros()
        };
        proof {
            // The lens offset is at most a few units, so the offset
            // origin always stays within the kernel's coordinate range.
            assert(vec_bounded(origin2, COORD_LIMIT as int));
        }
        Ray { a: origin2, b, time }
    }
}

/// The frame products of camera construction stay small.
proof fn lemma_frame_products(vals: CameraConstructor, u: Vector, v: Vector, w: Vector)
    requires
        camera_settings_ok(vals),
        vec_bounded(u, SCALE as int),
        vec_bounded(v, 2 * SCALE),
        vec_bounded(w, SCALE as int),
    ensures
        mag(mul_down(vals.half_width.raw as int, vals.focus_dist.raw as int)) <= 0x2000_0000,
        mag(mul_down(vals.half_height.raw as int, vals.focus_dist.raw as int)) <= 0x2000_0000,
        forall|a: int, b: int|
            mag(a) <= 2 * SCALE && mag(b) <= 0x2000_0000 ==> mag(#[trigger] mul_down(a, b))
                <= 0x4000_0000,
        forall|a: int, b: int|
            mag(a) <= 2 * SCALE && mag(b) <= CAM_POS_LIMIT ==> mag(#[trigger] mul_down(a, b))
                <= 0x1000_0000,
{
    lemma_mul_down_bound(vals.half_width.raw as int, vals.focus_dist.raw as int, 262144, 0x800_0000);
    lemma_mul_down_bound(vals.half_height.raw as int, vals.focus_dist.raw as int, 262144, 0x800_0000);
    assert forall|a: int, b: int|
        mag(a) <= 2 * SCALE && mag(b) <= 0x2000_0000 implies mag(#[trigger] mul_down(a, b))
        <= 0x4000_0000 by {
        lemma_mul_down_bound(a, b, 131072, 0x2000_0000);
    }
    assert forall|a: int, b: int|
        mag(a) <= 2 * SCALE && mag(b) <= CAM_POS_LIMIT implies mag(#[trigger] mul_down(a, b))
        <= 0x1000_0000 by {
        lemma_mul_down_bound(a, b, 131072, 0x800_0000);
    }
}

/// The lens offset products stay small.
proof fn lemma_offset_products(c: Camera, rdx: Fx, rdy: Fx)
    requires
        camera_wf(c),
        mag(rdx.raw as int) <= SCALE as int,
        mag(rdy.raw as int) <= SCALE as int,
    ensures
        mag(mul_down(c.u.x.raw as int, rdx.raw as int)) <= 2 * SCALE,
        mag(mul_down(c.u.y.raw as int, rdx.raw as int)) <= 2 * SCALE,
        mag(mul_down(c.u.z.raw as int, rdx.raw as int)) <= 2 * SCALE,
        mag(mul_down(c.v.x.raw as int, rdy.raw as int)) <= 2 * SCALE,
        mag(mul_down(c.v.y.raw as int, rdy.raw as int)) <= 2 * SCALE,
        mag(mul_down(c.v.z.raw as int, rdy.raw as int)) <= 2 * SCALE,
{
    lemma_mul_down_bound(c.u.x.raw as int, rdx.raw as int, 131072, 65536);
    lemma_mul_down_bound(c.u.y.raw as int, rdx.raw as int, 131072, 65536);
    lemma_mul_down_bound(c.u.z.raw as int, rdx.raw as int, 131072, 65536);
    lemma_mul_down_bound(c.v.x.raw as int, rdy.raw as int, 131072, 65536);
    lemma_mul_down_bound(c.v.y.raw as int, rdy.raw as int, 131072, 65536);
    lemma_mul_down_bound(c.v.z.raw as int, rdy.raw as int, 131072, 65536);
}

/// The film-plane products stay small.
proof fn lemma_dir_products(c: Camera, s: Fx, t: Fx)
    requires
        camera_wf(c),
        0 <= s.raw <= SCALE,
        0 <= t.raw <= SCALE,
    ensures
        mag(mul_down(c.horizontal.x.raw as int, s.raw as int)) <= CAM_FIELD_LIMIT as int,
        mag(mul_down(c.horizontal.y.raw as int, s.raw as int)) <= CAM_FIELD_LIMIT as int,
        mag(mul_down(c.horizontal.z.raw as int, s.raw as int)) <= CAM_FIELD_LIMIT as int,
        mag(mul_down(c.vertical.x.raw as int, t.raw as int)) <= CAM_FIELD_LIMIT as int,
        mag(mul_down(c.vertical.y.raw as int, t.raw as int)) <= CAM_FIELD_LIMIT as int,
        mag(mul_down(c.vertical.z.raw as int, t.raw as int)) <= CAM_FIELD_LIMIT as int,
{
    lemma_mul_down_bound(c.horizontal.x.raw as int, s.raw as int, 0x1_0000_0000_0000, 65536);
    lemma_mul_down_bound(c.horizontal.y.raw as int, s.raw as int, 0x1_0000_0000_0000, 65536);
    lemma_mul_down_bound(c.horizontal.z.raw as int, s.raw as int, 0x1_0000_0000_0000, 65536);
    lemma_mul_down_bound(c.vertical.x.raw as int, t.raw as int, 0x1_0000_0000_0000, 65536);
    lemma_mul_down_bound(c.vertical.y.raw as int, t.raw as int, 0x1_0000_0000_0000, 65536);
    lemma_mul_down_bound(c.vertical.z.raw as int, t.raw as int, 0x1_0000_0000_0000, 65536);
}

} // verus!
