//! Orthonormal basis: maps local hemisphere samples to world space around
//! a normal.

use vstd::prelude::*;

use crate::fixed::{lemma_mul_down_bound, mag, mul_down, Fx, SCALE};
use crate::vector3::{cross_spec, normalize_spec, vec_bounded, Vector};

verus! {

/// Threshold for picking the helper axis: `|w.x| > 0.9`.
pub const AXIS_PICK_LIMIT: i64 = 58982;

/// An orthonormal basis built around a normal direction `w`.
#[derive(Clone, Copy, PartialEq, Eq, Structural, Debug)]
pub struct Onb {
    pub axis_u: Vector,
    pub axis_v: Vector,
    pub axis_w: Vector,
}

/// Every basis vector is small (unit length up to rounding).
pub open spec fn onb_bounded(o: Onb) -> bool {
    &&& vec_bounded(o.axis_u, 2 * SCALE)
    &&& vec_bounded(o.axis_v, 2 * SCALE)
    &&& vec_bounded(o.axis_w, 2 * SCALE)
}

/// The basis derived from a normal: `w` is the normalized normal, `v` the
/// normalized cross of `w` with a helper axis chosen away from `w`, and
/// `u` completes the frame.
pub open spec fn build_from_w_spec(n: Vector) -> Onb {
    let w = normalize_spec(n);
    let pick = if mag(w.x.raw as int) > AXIS_PICK_LIMIT {
        Vector { x: Fx { raw: 0 }, y: Fx { raw: SCALE }, z: Fx { raw: 0 } }
    } else {
        Vector { x: Fx { raw: SCALE }, y: Fx { raw: 0 }, z: Fx { raw: 0 } }
    };
    let v = normalize_spec(cross_spec(w, pick));
    let u = cross_spec(w, v);
    Onb { axis_u: u, axis_v: v, axis_w: w }
}

/// The world-space vector of local coordinates `a`:
/// `a.x * u + a.y * v + a.z * w`, componentwise in fixed point.
pub open spec fn local_spec(o: Onb, a: Vector) -> Vector {
    Vector {
        x: Fx {
            raw: (mul_down(o.axis_u.x.raw as int, a.x.raw as int) + mul_down(
                o.axis_v.x.raw as int,
                a.y.raw as int,
            ) + mul_down(o.axis_w.x.raw as int, a.z.raw as int)) as i64,
        },
        y: Fx {
            raw: (mul_down(o.axis_u.y.raw as int, a.x.raw as int) + mul_down(
                o.axis_v.y.raw as int,
                a.y.raw as int,
            ) + mul_down(o.axis_w.y.raw as int, a.z.raw as int)) as i64,
        },
        z: Fx {
            raw: (mul_down(o.axis_u.z.raw as int, a.x.raw as int) + mul_down(
                o.axis_v.z.raw as int,
                a.y.raw as int,
            ) + mul_down(o.axis_w.z.raw as int, a.z.raw as int)) as i64,
        },
    }
}

impl Onb {
    /// The first tangent axis.
    pub fn u(&self) -> (r: Vector)
        ensures
            r == self.axis_u,
    {
        self.axis_u
    }

    /// The second tangent axis.
    pub fn v(&self) -> (r: Vector)
        ensures
            r == self.axis_v,
    {
        self.axis_v
    }

    /// The normal axis.
    pub fn w(&self) -> (r: Vector)
        ensures
            r == self.axis_w,
    {
        self.axis_w
    }

    /// Maps local coordinates through the basis.
    pub fn local(&self, a: Vector) -> (r: Vector)
        requires
            onb_bounded(*self),
            vec_bounded(a, 4 * SCALE),
        ensures
            r == local_spec(*self, a),
            vec_bounded(r, 0x20_0000),
    {
        proof {
            lemma_local_terms(*self, a);
        }
        let ux = self.axis_u.scale(a.x);
        let vx = self.axis_v.scale(a.y);
        let wx = self.axis_w.scale(a.z);
        Vector {
            x: Fx { raw: ux.x.raw + vx.x.raw + wx.x.raw },
            y: Fx { raw: ux.y.raw + vx.y.raw + wx.y.raw },
            z: Fx { raw: ux.z.raw + vx.z.raw + wx.z.raw },
        }
    }

    /// Builds the basis around the (not necessarily unit) normal `n`.
    pub fn build_from_w(n: Vector) -> (r: Onb)
        requires
            vec_bounded(n, 0x1000_0000_0000_0000),
        ensures
            r == build_from_w_spec(n),
            onb_bounded(r),
    {
        let w = n.normalize();
        let a = if w.x.raw > AXIS_PICK_LIMIT || w.x.raw < -AXIS_PICK_LIMIT {
            Vector { x: Fx { raw: 0 }, y: Fx { raw: SCALE }, z: Fx { raw: 0 } }
        } else {
            Vector { x: Fx { raw: SCALE }, y: Fx { raw: 0 }, z: Fx { raw: 0 } }
        };
        proof {
            lemma_cross_small(w, a);
        }
        let wa = Vector::cross(w, a);
        let v = wa.normalize();
        proof {
            lemma_cross_small(w, v);
        }
        let u = Vector::cross(w, v);
        Onb { axis_u: u, axis_v: v, axis_w: w }
    }
}

/// The cross product of two unit-bounded vectors has components of at
/// most two units.
pub proof fn lemma_cross_small(a: Vector, b: Vector)
    requires
        vec_bounded(a, SCALE as int),
        vec_bounded(b, SCALE as int),
    ensures
        vec_bounded(cross_spec(a, b), 2 * SCALE),
{
    lemma_mul_down_bound(a.y.raw as int, b.z.raw as int, 65536, 65536);
    lemma_mul_down_bound(a.z.raw as int, b.y.raw as int, 65536, 65536);
    lemma_mul_down_bound(a.z.raw as int, b.x.raw as int, 65536, 65536);
    lemma_mul_down_bound(a.x.raw as int, b.z.raw as int, 65536, 65536);
    lemma_mul_down_bound(a.x.raw as int, b.y.raw as int, 65536, 65536);
    lemma_mul_down_bound(a.y.raw as int, b.x.raw as int, 65536, 65536);
}

/// Each product feeding `local` is small.
proof fn lemma_local_terms(o: Onb, a: Vector)
    requires
        onb_bounded(o),
        vec_bounded(a, 4 * SCALE),
    ensures
        mag(mul_down(o.axis_u.x.raw as int, a.x.raw as int)) <= 8 * SCALE,
        mag(mul_down(o.axis_u.y.raw as int, a.x.raw as int)) <= 8 * SCALE,
        mag(mul_down(o.axis_u.z.raw as int, a.x.raw as int)) <= 8 * SCALE,
        mag(mul_down(o.axis_v.x.raw as int, a.y.raw as int)) <= 8 * SCALE,
        mag(mul_down(o.axis_v.y.raw as int, a.y.raw as int)) <= 8 * SCALE,
        mag(mul_down(o.axis_v.z.raw as int, a.y.raw as int)) <= 8 * SCALE,
        mag(mul_down(o.axis_w.x.raw as int, a.z.raw as int)) <= 8 * SCALE,
        mag(mul_down(o.axis_w.y.raw as int, a.z.raw as int)) <= 8 * SCALE,
        mag(mul_down(o.axis_w.z.raw as int, a.z.raw as int)) <= 8 * SCALE,
{
    lemma_mul_down_bound(o.axis_u.x.raw as int, a.x.raw as int, 131072, 262144);
    lemma_mul_down_bound(o.axis_u.y.raw as int, a.x.raw as int, 131072, 262144);
    lemma_mul_down_bound(o.axis_u.z.raw as int, a.x.raw as int, 131072, 262144);
    lemma_mul_down_bound(o.axis_v.x.raw as int, a.y.raw as int, 131072, 262144);
    lemma_mul_down_bound(o.axis_v.y.raw as int, a.y.raw as int, 131072, 262144);
    lemma_mul_down_bound(o.axis_v.z.raw as int, a.y.raw as int, 131072, 262144);
    lemma_mul_down_bound(o.axis_w.x.raw as int, a.z.raw as int, 131072, 262144);
    lemma_mul_down_bound(o.axis_w.y.raw as int, a.z.raw as int, 131072, 262144);
    lemma_mul_down_bound(o.axis_w.z.raw as int, a.z.raw as int, 131072, 262144);
}

} // verus!
