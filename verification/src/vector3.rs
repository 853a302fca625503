//! The 3-component fixed-point vector used for points, directions and
//! linear (pre-gamma) colours.

use vstd::prelude::*;

use crate::fixed::{
    div_down, lemma_mul_down_bound, lemma_mul_mag_bound, lemma_sqrt_floor, mag, mul_down,
    sqrt_floor, tdiv, Fx, isqrt_i128, SCALE,
};

verus! {

/// A 3 dimensional fixed-point vector.
#[derive(Clone, Copy, PartialEq, Eq, Structural, Debug)]
pub struct Vector {
    pub x: Fx,
    pub y: Fx,
    pub z: Fx,
}

/// Every component has raw magnitude at most `b`.
pub open spec fn vec_bounded(v: Vector, b: int) -> bool {
    &&& mag(v.x.raw as int) <= b
    &&& mag(v.y.raw as int) <= b
    &&& mag(v.z.raw as int) <= b
}

/// Component `i` of `v` (`0 => x`, `1 => y`, other => `z`).
pub open spec fn comp(v: Vector, i: int) -> int {
    if i == 0 {
        v.x.raw as int
    } else if i == 1 {
        v.y.raw as int
    } else {
        v.z.raw as int
    }
}

/// The exact (unscaled) sum of the componentwise raw products; a dot
/// product at scale `SCALE * SCALE`.
pub open spec fn dot_wide(a: Vector, b: Vector) -> int {
    a.x.raw * b.x.raw + a.y.raw * b.y.raw + a.z.raw * b.z.raw
}

/// Fixed-point dot product: the three fixed-point products summed.
pub open spec fn dot_down(a: Vector, b: Vector) -> int {
    mul_down(a.x.raw as int, b.x.raw as int) + mul_down(a.y.raw as int, b.y.raw as int)
        + mul_down(a.z.raw as int, b.z.raw as int)
}

/// The componentwise formula of the fixed-point cross product.
pub open spec fn cross_spec(a: Vector, b: Vector) -> Vector {
    Vector {
        x: Fx {
            raw: (mul_down(a.y.raw as int, b.z.raw as int) - mul_down(
                a.z.raw as int,
                b.y.raw as int,
            )) as i64,
        },
        y: Fx {
            raw: (mul_down(a.z.raw as int, b.x.raw as int) - mul_down(
                a.x.raw as int,
                b.z.raw as int,
            )) as i64,
        },
        z: Fx {
            raw: (mul_down(a.x.raw as int, b.y.raw as int) - mul_down(
                a.y.raw as int,
                b.x.raw as int,
            )) as i64,
        },
    }
}

/// The raw length of `v`: floor of the square root of the raw square sum
/// (again a raw value at scale `SCALE`).
pub open spec fn len_raw(v: Vector) -> int {
    sqrt_floor(dot_wide(v, v))
}

/// The normalized vector: each component divided by the length, or the
/// zero vector when the length truncates to zero (a degenerate direction,
/// resolved locally as "no direction").
pub open spec fn normalize_spec(v: Vector) -> Vector {
    let l = len_raw(v);
    if l == 0 {
        Vector { x: Fx { raw: 0 }, y: Fx { raw: 0 }, z: Fx { raw: 0 } }
    } else {
        Vector {
            x: Fx { raw: tdiv(v.x.raw * SCALE as int, l) as i64 },
            y: Fx { raw: tdiv(v.y.raw * SCALE as int, l) as i64 },
            z: Fx { raw: tdiv(v.z.raw * SCALE as int, l) as i64 },
        }
    }
}

impl Vector {
    /// Creates a new vector with the provided x, y, and z values.
    pub fn new(x: Fx, y: Fx, z: Fx) -> (r: Vector)
        ensures
            r == (Vector { x, y, z }),
    {
        Vector { x, y, z }
    }

    /// The zero vector.
    pub fn zeros() -> (r: Vector)
        ensures
            r.x.raw == 0 && r.y.raw == 0 && r.z.raw == 0,
    {
        Vector { x: Fx { raw: 0 }, y: Fx { raw: 0 }, z: Fx { raw: 0 } }
    }

    /// The all-ones vector.
    pub fn ones() -> (r: Vector)
        ensures
            r.x.raw == SCALE && r.y.raw == SCALE && r.z.raw == SCALE,
    {
        Vector { x: Fx { raw: SCALE }, y: Fx { raw: SCALE }, z: Fx { raw: SCALE } }
    }

    /// Exact componentwise sum.
    pub fn add(self, rhs: Vector) -> (r: Vector)
        requires
            i64::MIN <= self.x.raw + rhs.x.raw <= i64::MAX,
            i64::MIN <= self.y.raw + rhs.y.raw <= i64::MAX,
            i64::MIN <= self.z.raw + rhs.z.raw <= i64::MAX,
        ensures
            r.x.raw == self.x.raw + rhs.x.raw,
            r.y.raw == self.y.raw + rhs.y.raw,
            r.z.raw == self.z.raw + rhs.z.raw,
    {
        Vector {
            x: self.x.add(rhs.x),
            y: self.y.add(rhs.y),
            z: self.z.add(rhs.z),
        }
    }

    /// Exact componentwise difference.
    pub fn sub(self, rhs: Vector) -> (r: Vector)
        requires
            i64::MIN <= self.x.raw - rhs.x.raw <= i64::MAX,
            i64::MIN <= self.y.raw - rhs.y.raw <= i64::MAX,
            i64::MIN <= self.z.raw - rhs.z.raw <= i64::MAX,
        ensures
            r.x.raw == self.x.raw - rhs.x.raw,
            r.y.raw == self.y.raw - rhs.y.raw,
            r.z.raw == self.z.raw - rhs.z.raw,
    {
        Vector {
            x: self.x.sub(rhs.x),
            y: self.y.sub(rhs.y),
            z: self.z.sub(rhs.z),
        }
    }

    /// Exact componentwise negation.
    pub fn neg(self) -> (r: Vector)
        requires
            self.x.raw > i64::MIN,
            self.y.raw > i64::MIN,
            self.z.raw > i64::MIN,
        ensures
            r.x.raw == -self.x.raw,
            r.y.raw == -self.y.raw,
            r.z.raw == -self.z.raw,
    {
        Vector { x: self.x.neg(), y: self.y.neg(), z: self.z.neg() }
    }

    /// Each component scaled by a fixed-point factor.
    pub fn scale(self, s: Fx) -> (r: Vector)
        requires
            i64::MIN <= mul_down(self.x.raw as int, s.raw as int) <= i64::MAX,
            i64::MIN <= mul_down(self.y.raw as int, s.raw as int) <= i64::MAX,
            i64::MIN <= mul_down(self.z.raw as int, s.raw as int) <= i64::MAX,
        ensures
            r.x.raw == mul_down(self.x.raw as int, s.raw as int),
            r.y.raw == mul_down(self.y.raw as int, s.raw as int),
            r.z.raw == mul_down(self.z.raw as int, s.raw as int),
    {
        Vector { x: self.x.mul(s), y: self.y.mul(s), z: self.z.mul(s) }
    }

    /// Componentwise (Hadamard) fixed-point product, used for colour
    /// attenuation.
    pub fn mul_v(self, rhs: Vector) -> (r: Vector)
        requires
            i64::MIN <= mul_down(self.x.raw as int, rhs.x.raw as int) <= i64::MAX,
            i64::MIN <= mul_down(self.y.raw as int, rhs.y.raw as int) <= i64::MAX,
            i64::MIN <= mul_down(self.z.raw as int, rhs.z.raw as int) <= i64::MAX,
        ensures
            r.x.raw == mul_down(self.x.raw as int, rhs.x.raw as int),
            r.y.raw == mul_down(self.y.raw as int, rhs.y.raw as int),
            r.z.raw == mul_down(self.z.raw as int, rhs.z.raw as int),
    {
        Vector { x: self.x.mul(rhs.x), y: self.y.mul(rhs.y), z: self.z.mul(rhs.z) }
    }

    /// Each component divided by a fixed-point factor.
    pub fn div_fx(self, s: Fx) -> (r: Vector)
        requires
            s.raw != 0,
            i64::MIN <= div_down(self.x.raw as int, s.raw as int) <= i64::MAX,
            i64::MIN <= div_down(self.y.raw as int, s.raw as int) <= i64::MAX,
            i64::MIN <= div_down(self.z.raw as int, s.raw as int) <= i64::MAX,
        ensures
            r.x.raw == div_down(self.x.raw as int, s.raw as int),
            r.y.raw == div_down(self.y.raw as int, s.raw as int),
            r.z.raw == div_down(self.z.raw as int, s.raw as int),
    {
        Vector { x: self.x.div(s), y: self.y.div(s), z: self.z.div(s) }
    }

    /// Fixed-point dot product of two vectors.
    pub fn dot(lhs: Vector, rhs: Vector) -> (r: Fx)
        requires
            vec_bounded(lhs, 0x40_0000_0000),
            vec_bounded(rhs, 0x40_0000_0000),
        ensures
            r.raw == dot_down(lhs, rhs),
    {
        proof {
            lemma_dot_terms_bounded(lhs, rhs, 0x40_0000_0000);
        }
        let a = lhs.x.mul(rhs.x);
        let b = lhs.y.mul(rhs.y);
        let c = lhs.z.mul(rhs.z);
        Fx { raw: a.raw + b.raw + c.raw }
    }

    /// Fixed-point cross product of two vectors.
    pub fn cross(lhs: Vector, rhs: Vector) -> (r: Vector)
        requires
            vec_bounded(lhs, 0x40_0000_0000),
            vec_bounded(rhs, 0x40_0000_0000),
        ensures
            r == cross_spec(lhs, rhs),
    {
        proof {
            lemma_dot_terms_bounded(lhs, rhs, 0x40_0000_0000);
            lemma_dot_terms_bounded(rhs, lhs, 0x40_0000_0000);
            lemma_cross_terms_bounded(lhs, rhs, 0x40_0000_0000);
        }
        Vector {
            x: Fx { raw: lhs.y.mul(rhs.z).raw - lhs.z.mul(rhs.y).raw },
            y: Fx { raw: lhs.z.mul(rhs.x).raw - lhs.x.mul(rhs.z).raw },
            z: Fx { raw: lhs.x.mul(rhs.y).raw - lhs.y.mul(rhs.x).raw },
        }
    }

    /// The vector's length, as a fixed-point scalar.
    pub fn length(self) -> (r: Fx)
        requires
            vec_bounded(self, 0x1000_0000_0000_0000),
        ensures
            r.raw == len_raw(self),
            r.raw >= 0,
    {
        let sq = square_sum(self);
        let l = isqrt_i128(sq);
        proof {
            lemma_len_raw_bounded(self, 0x1000_0000_0000_0000);
        }
        Fx { raw: l as i64 }
    }

    /// The vector scaled to length one (length at `SCALE` raw), or the zero
    /// vector for a degenerate (zero-length) input.
    pub fn normalize(self) -> (r: Vector)
        requires
            vec_bounded(self, 0x1000_0000_0000_0000),
        ensures
            r == normalize_spec(self),
            vec_bounded(r, SCALE as int),
    {
        let sq = square_sum(self);
        let l = isqrt_i128(sq);
        proof {
            lemma_len_raw_bounded(self, 0x1000_0000_0000_0000);
        }
        if l == 0 {
            Vector::zeros()
        } else {
            proof {
                lemma_normalize_fits(self);
            }
            let lx = (self.x.raw as i128) * (SCALE as i128);
            let ly = (self.y.raw as i128) * (SCALE as i128);
            let lz = (self.z.raw as i128) * (SCALE as i128);
            let x = crate::fixed::tdiv_i128(lx, l);
            let y = crate::fixed::tdiv_i128(ly, l);
            let z = crate::fixed::tdiv_i128(lz, l);
            Vector { x: Fx { raw: x as i64 }, y: Fx { raw: y as i64 }, z: Fx { raw: z as i64 } }
        }
    }
}

/// Exact sum of the squared raw components, computed at 128 bits.
pub(crate) fn square_sum(v: Vector) -> (r: i128)
    requires
        vec_bounded(v, 0x1000_0000_0000_0000),
    ensures
        r == dot_wide(v, v),
        r >= 0,
{
    proof {
        lemma_mul_mag_bound(v.x.raw as int, v.x.raw as int, 0x1000_0000_0000_0000, 0x1000_0000_0000_0000);
        lemma_mul_mag_bound(v.y.raw as int, v.y.raw as int, 0x1000_0000_0000_0000, 0x1000_0000_0000_0000);
        lemma_mul_mag_bound(v.z.raw as int, v.z.raw as int, 0x1000_0000_0000_0000, 0x1000_0000_0000_0000);
        assert(v.x.raw * v.x.raw >= 0) by (nonlinear_arith);
        assert(v.y.raw * v.y.raw >= 0) by (nonlinear_arith);
        assert(v.z.raw * v.z.raw >= 0) by (nonlinear_arith);
    }
    (v.x.raw as i128) * (v.x.raw as i128) + (v.y.raw as i128) * (v.y.raw as i128) + (v.z.raw
        as i128) * (v.z.raw as i128)
}

/// The three fixed-point products in a dot of `b`-bounded vectors fit `i64`.
proof fn lemma_dot_terms_bounded(a: Vector, b2: Vector, bound: int)
    requires
        vec_bounded(a, bound),
        vec_bounded(b2, bound),
        0 <= bound <= 0x40_0000_0000,
    ensures
        mag(mul_down(a.x.raw as int, b2.x.raw as int)) <= 0x1000_0000_0000_0000,
        mag(mul_down(a.y.raw as int, b2.y.raw as int)) <= 0x1000_0000_0000_0000,
        mag(mul_down(a.z.raw as int, b2.z.raw as int)) <= 0x1000_0000_0000_0000,
{
    lemma_mul_down_pair(a.x.raw as int, b2.x.raw as int, bound);
    lemma_mul_down_pair(a.y.raw as int, b2.y.raw as int, bound);
    lemma_mul_down_pair(a.z.raw as int, b2.z.raw as int, bound);
}

/// As `lemma_dot_terms_bounded`, for the transposed products of a cross.
proof fn lemma_cross_terms_bounded(a: Vector, b2: Vector, bound: int)
    requires
        vec_bounded(a, bound),
        vec_bounded(b2, bound),
        0 <= bound <= 0x40_0000_0000,
    ensures
        mag(mul_down(a.y.raw as int, b2.z.raw as int)) <= 0x1000_0000_0000_0000,
        mag(mul_down(a.z.raw as int, b2.y.raw as int)) <= 0x1000_0000_0000_0000,
        mag(mul_down(a.z.raw as int, b2.x.raw as int)) <= 0x1000_0000_0000_0000,
        mag(mul_down(a.x.raw as int, b2.z.raw as int)) <= 0x1000_0000_0000_0000,
        mag(mul_down(a.x.raw as int, b2.y.raw as int)) <= 0x1000_0000_0000_0000,
        mag(mul_down(a.y.raw as int, b2.x.raw as int)) <= 0x1000_0000_0000_0000,
{
    lemma_mul_down_pair(a.y.raw as int, b2.z.raw as int, bound);
    lemma_mul_down_pair(a.z.raw as int, b2.y.raw as int, bound);
    lemma_mul_down_pair(a.z.raw as int, b2.x.raw as int, bound);
    lemma_mul_down_pair(a.x.raw as int, b2.z.raw as int, bound);
    lemma_mul_down_pair(a.x.raw as int, b2.y.raw as int, bound);
    lemma_mul_down_pair(a.y.raw as int, b2.x.raw as int, bound);
}

/// One fixed-point product of `bound`-bounded factors is small.
proof fn lemma_mul_down_pair(a: int, b: int, bound: int)
    requires
        mag(a) <= bound,
        mag(b) <= bound,
        0 <= bound <= 0x40_0000_0000,
    ensures
        mag(mul_down(a, b)) <= 0x1000_0000_0000_0000,
{
    lemma_mul_down_bound(a, b, 0x40_0000_0000, 0x40_0000_0000);
}

/// The raw length of a bounded vector is bounded.
proof fn lemma_len_raw_bounded(v: Vector, bound: int)
    requires
        vec_bounded(v, bound),
        0 <= bound <= 0x1000_0000_0000_0000,
    ensures
        0 <= len_raw(v) <= 2 * bound,
        len_raw(v) <= 0x2000_0000_0000_0000,
{
    lemma_sqrt_floor(dot_wide(v, v));
    let l = len_raw(v);
    lemma_mul_mag_bound(v.x.raw as int, v.x.raw as int, bound, bound);
    lemma_mul_mag_bound(v.y.raw as int, v.y.raw as int, bound, bound);
    lemma_mul_mag_bound(v.z.raw as int, v.z.raw as int, bound, bound);
    assert(v.x.raw * v.x.raw >= 0) by (nonlinear_arith);
    assert(v.y.raw * v.y.raw >= 0) by (nonlinear_arith);
    assert(v.z.raw * v.z.raw >= 0) by (nonlinear_arith);
    assert(dot_wide(v, v) <= 3 * (bound * bound));
    assert(l <= 2 * bound) by (nonlinear_arith)
        requires
            0 <= l,
            0 <= bound,
            l * l <= 3 * (bound * bound),
    ;
}

/// Each raw component of a vector is at most its raw length in magnitude,
/// so the normalized components fit `i64` and are at most `SCALE`.
proof fn lemma_normalize_fits(v: Vector)
    requires
        len_raw(v) > 0,
    ensures
        mag(tdiv(v.x.raw * SCALE as int, len_raw(v))) <= SCALE as int,
        mag(tdiv(v.y.raw * SCALE as int, len_raw(v))) <= SCALE as int,
        mag(tdiv(v.z.raw * SCALE as int, len_raw(v))) <= SCALE as int,
{
    lemma_sqrt_floor(dot_wide(v, v));
    let l = len_raw(v);
    lemma_comp_le_len(v.x.raw as int, v.y.raw as int, v.z.raw as int, l);
    lemma_comp_le_len(v.y.raw as int, v.x.raw as int, v.z.raw as int, l);
    lemma_comp_le_len(v.z.raw as int, v.y.raw as int, v.x.raw as int, l);
    lemma_norm_div(v.x.raw as int, l);
    lemma_norm_div(v.y.raw as int, l);
    lemma_norm_div(v.z.raw as int, l);
}

/// A normalized vector has components of at most one unit.
pub proof fn lemma_normalize_bound(v: Vector)
    ensures
        vec_bounded(normalize_spec(v), SCALE as int),
{
    if len_raw(v) != 0 {
        lemma_sqrt_floor(dot_wide(v, v));
        lemma_normalize_fits(v);
    }
}

/// If `a^2 + b^2 + c^2 < (l+1)^2` then `|a| <= l`.
pub proof fn lemma_comp_le_len(a: int, b: int, c: int, l: int) by (nonlinear_arith)
    requires
        0 <= l,
        a * a + b * b + c * c < (l + 1) * (l + 1),
    ensures
        mag(a) <= l,
{
}

/// `|a| <= l` gives `|a * SCALE / l| <= SCALE`.
pub proof fn lemma_norm_div(a: int, l: int)
    requires
        0 < l,
        mag(a) <= l,
    ensures
        mag(tdiv(a * SCALE as int, l)) <= SCALE as int,
{
    let s = SCALE as int;
    let ma = mag(a);
    assert((a >= 0 ==> a * s >= 0 && a * s == ma * s) && (a < 0 ==> a * s <= 0 && -(a * s) == ma
        * s)) by (nonlinear_arith)
        requires
            s > 0,
            ma == if a >= 0 { a } else { -a },
    ;
    crate::fixed::lemma_tdiv_mag(a * s, l);
    assert(ma * s / l <= s) by (nonlinear_arith)
        requires
            0 < l,
            0 <= ma <= l,
            s > 0,
    ;
}

} // verus!
