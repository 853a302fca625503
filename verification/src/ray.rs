//! A ray: origin, direction and a time sample (for motion blur).

use vstd::prelude::*;

use crate::fixed::{mul_down, Fx};
use crate::vector3::Vector;

verus! {

/// A Ray represents a single beam of light: the half line `a + t * b`,
/// carried together with the camera-shutter time it samples.
#[derive(Clone, Copy, PartialEq, Eq, Structural, Debug)]
pub struct Ray {
    pub a: Vector,
    pub b: Vector,
    pub time: Fx,
}

/// The point reached after travelling `t` (a raw fixed-point parameter)
/// along the ray: componentwise `a + (t * b) / SCALE`, truncated.
pub open spec fn point_at(r: Ray, t: int) -> Vector {
    Vector {
        x: Fx { raw: (r.a.x.raw + mul_down(r.b.x.raw as int, t)) as i64 },
        y: Fx { raw: (r.a.y.raw + mul_down(r.b.y.raw as int, t)) as i64 },
        z: Fx { raw: (r.a.z.raw + mul_down(r.b.z.raw as int, t)) as i64 },
    }
}

impl Ray {
    /// Builds a ray from origin, direction and time.
    pub fn new(a: Vector, b: Vector, time: Fx) -> (r: Ray)
        ensures
            r == (Ray { a, b, time }),
    {
        Ray { a, b, time }
    }

    /// The ray's origin.
    pub fn origin(self) -> (r: Vector)
        ensures
            r == self.a,
    {
        self.a
    }

    /// The ray's direction (not required to be unit length).
    pub fn dir(self) -> (r: Vector)
        ensures
            r == self.b,
    {
        self.b
    }

    /// The ray's shutter-time sample.
    pub fn time(self) -> (r: Fx)
        ensures
            r == self.time,
    {
        self.time
    }

    /// The point reached at parameter `t`.
    pub fn point_at_parameter(self, t: Fx) -> (r: Vector)
        requires
            i64::MIN <= mul_down(self.b.x.raw as int, t.raw as int) <= i64::MAX,
            i64::MIN <= mul_down(self.b.y.raw as int, t.raw as int) <= i64::MAX,
            i64::MIN <= mul_down(self.b.z.raw as int, t.raw as int) <= i64::MAX,
            i64::MIN <= self.a.x.raw + mul_down(self.b.x.raw as int, t.raw as int) <= i64::MAX,
            i64::MIN <= self.a.y.raw + mul_down(self.b.y.raw as int, t.raw as int) <= i64::MAX,
            i64::MIN <= self.a.z.raw + mul_down(self.b.z.raw as int, t.raw as int) <= i64::MAX,
        ensures
            r == point_at(self, t.raw as int),
    {
        let d = self.b.scale(t);
        Vector {
            x: Fx { raw: self.a.x.raw + d.x.raw },
            y: Fx { raw: self.a.y.raw + d.y.raw },
            z: Fx { raw: self.a.z.raw + d.z.raw },
        }
    }
}

} // verus!
