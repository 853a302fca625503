//! The uniform-random-variate capability.
//!
//! Randomness enters the library through a single trusted wrapper around
//! `rand`; everything derived from it (unit-interval scalars, coin flips,
//! rejection-sampled vectors) is verified code.  Each thread draws from
//! its own generator, so parallel workers never contend.

use vstd::prelude::*;

use crate::fixed::{Fx, SCALE};
use crate::vector3::Vector;

verus! {

/// Relies on `rand::random`: one fresh sample from the thread-local
/// generator.  Nothing is promised about the value beyond its type; every
/// caller must be correct for all 16-bit outcomes.
#[verifier::external_body]
pub(crate) fn random_u16() -> (r: u16) {
    rand::random::<u16>()
}

/// A uniform fixed-point sample in `[0, 1)`: the 16 random bits are
/// exactly the fractional raw value.
pub fn random_unit_fx() -> (r: Fx)
    ensures
        0 <= r.raw < SCALE,
{
    let bits = random_u16();
    Fx { raw: bits as i64 }
}

/// A fair coin: whether a uniform `[0, 1)` sample is below one half.
pub fn random_coin() -> bool {
    let u = random_unit_fx();
    u.raw < SCALE / 2
}

/// A uniform fixed-point sample in `[-1, 1)`: `2 u - 1` for a unit
/// sample `u`.
pub fn random_pm_fx() -> (r: Fx)
    ensures
        -SCALE <= r.raw < SCALE,
{
    let u = random_unit_fx();
    Fx { raw: 2 * u.raw - SCALE }
}

impl Vector {
    /// A vector of three independent uniform samples in `[0, 1)`.
    pub fn rand() -> (r: Vector)
        ensures
            0 <= r.x.raw < SCALE,
            0 <= r.y.raw < SCALE,
            0 <= r.z.raw < SCALE,
    {
        Vector { x: random_unit_fx(), y: random_unit_fx(), z: random_unit_fx() }
    }
}

} // verus!
