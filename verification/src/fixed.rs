//! Fixed-point scalar kernel.
//!
//! Every coordinate, colour channel, time value and probability density in
//! this crate is a binary fixed-point number: an `i64` raw value denoting
//! `raw / SCALE` with `SCALE = 2^16`.  All arithmetic on these scalars is
//! exact integer arithmetic (widening to `i128` for intermediate products),
//! so each operation has a precise mathematical contract.

use vstd::prelude::*;

verus! {

/// Raw units per whole unit: the fixed-point scale, `2^16`.
pub const SCALE: i64 = 65536;

/// The fixed-point value of pi.
pub const PI_RAW: i64 = 205887;

/// Magnitude of an integer.
pub open spec fn mag(a: int) -> int {
    if a >= 0 {
        a
    } else {
        -a
    }
}

/// Division truncating toward zero (the rounding used throughout the
/// scalar kernel), defined for `b != 0` via Euclidean division of the
/// magnitudes.
pub open spec fn tdiv(a: int, b: int) -> int {
    if (a < 0) <==> (b < 0) {
        mag(a) / mag(b)
    } else {
        -(mag(a) / mag(b))
    }
}

/// The raw value of a fixed-point product: `(a * b) / SCALE`, truncated
/// toward zero.
pub open spec fn mul_down(a: int, b: int) -> int {
    tdiv(a * b, SCALE as int)
}

/// The raw value of a fixed-point quotient: `(a * SCALE) / b`, truncated
/// toward zero.
pub open spec fn div_down(a: int, b: int) -> int {
    tdiv(a * SCALE as int, b)
}

/// Largest integer whose square does not exceed `n` (0 for negative `n`).
pub open spec fn sqrt_floor(n: int) -> int
    decreases n,
{
    if n <= 0 {
        0
    } else {
        let s = sqrt_floor(n - 1);
        if (s + 1) * (s + 1) <= n {
            s + 1
        } else {
            s
        }
    }
}

/// `sqrt_floor` is the (unique) nonnegative root bracket for `n >= 0`.
pub proof fn lemma_sqrt_floor(n: int)
    ensures
        0 <= sqrt_floor(n),
        n >= 0 ==> sqrt_floor(n) * sqrt_floor(n) <= n,
        n >= 0 ==> n < (sqrt_floor(n) + 1) * (sqrt_floor(n) + 1),
    decreases n,
{
    if n <= 0 {
    } else {
        lemma_sqrt_floor(n - 1);
        let s = sqrt_floor(n - 1);
        if (s + 1) * (s + 1) <= n {
            assert(n < (s + 2) * (s + 2)) by (nonlinear_arith)
                requires
                    s >= 0,
                    n - 1 < (s + 1) * (s + 1),
            ;
        }
    }
}

/// Any nonnegative `s` with `s^2 <= n < (s+1)^2` equals `sqrt_floor(n)`.
pub proof fn lemma_sqrt_floor_unique(n: int, s: int)
    requires
        0 <= s,
        s * s <= n,
        n < (s + 1) * (s + 1),
    ensures
        s == sqrt_floor(n),
{
    lemma_sqrt_floor(n);
    let t = sqrt_floor(n);
    assert(s == t) by (nonlinear_arith)
        requires
            0 <= s,
            0 <= t,
            s * s <= n,
            n < (s + 1) * (s + 1),
            t * t <= n,
            n < (t + 1) * (t + 1),
    ;
}

/// A product of magnitude-bounded factors is magnitude-bounded.
pub proof fn lemma_mul_mag_bound(a: int, b: int, ba: int, bb: int)
    requires
        mag(a) <= ba,
        mag(b) <= bb,
    ensures
        mag(a * b) <= ba * bb,
{
    assert(-(ba * bb) <= a * b <= ba * bb) by (nonlinear_arith)
        requires
            -ba <= a <= ba,
            -bb <= b <= bb,
    ;
}

/// Truncating division shrinks magnitude: `|tdiv(a, b)| <= |a|` for `|b| >= 1`.
pub proof fn lemma_tdiv_mag(a: int, b: int)
    requires
        b != 0,
    ensures
        mag(tdiv(a, b)) <= mag(a),
        mag(b) > 1 ==> mag(tdiv(a, b)) <= mag(a) / mag(b),
{
    let ma = mag(a);
    let mb = mag(b);
    assert(ma / mb <= ma && ma / mb >= 0 && (mb > 1 ==> ma / mb <= ma / mb)) by (nonlinear_arith)
        requires
            ma >= 0,
            mb >= 1,
    ;
}

/// A fixed-point product of magnitude-bounded factors is bounded by the
/// scaled-down product of the bounds.
pub proof fn lemma_mul_down_bound(a: int, b: int, ba: int, bb: int)
    requires
        mag(a) <= ba,
        mag(b) <= bb,
        0 <= ba,
        0 <= bb,
    ensures
        mag(mul_down(a, b)) <= ba * bb / 65536,
        mag(mul_down(a, b)) <= ba * bb,
        bb <= SCALE ==> mag(mul_down(a, b)) <= ba,
{
    lemma_mul_mag_bound(a, b, ba, bb);
    lemma_tdiv_mag(a * b, SCALE as int);
    let ma = mag(a * b);
    let bp = ba * bb;
    assert(ma / 65536 <= bp / 65536 && bp / 65536 <= bp) by (nonlinear_arith)
        requires
            0 <= ma <= bp,
    ;
    if bb <= SCALE {
        assert(bp <= ba * 65536) by (nonlinear_arith)
            requires
                0 <= ba,
                bb <= 65536,
                bp == ba * bb,
        ;
        assert(ma / 65536 <= ba) by (nonlinear_arith)
            requires
                0 <= ma,
                ma <= ba * 65536,
        ;
    }
}

/// Multiplying by zero yields zero, also through the fixed-point scale.
pub proof fn lemma_mul_down_zero(a: int)
    ensures
        mul_down(a, 0) == 0,
{
    assert(a * 0 == 0) by (nonlinear_arith);
    assert(tdiv(0, SCALE as int) == 0);
}

/// Scaling by a positive factor scales the magnitude.
pub proof fn lemma_mag_scale(a: int, s: int)
    requires
        s > 0,
    ensures
        mag(a * s) == mag(a) * s,
{
    assert((a >= 0 ==> a * s >= 0) && (a < 0 ==> a * s < 0) && (-a) * s == -(a * s))
        by (nonlinear_arith)
        requires
            s > 0,
    ;
}

/// A fixed-point quotient by a nonzero divisor is bounded by the scaled-up
/// numerator bound.
pub proof fn lemma_div_down_bound(a: int, b: int, ba: int)
    requires
        mag(a) <= ba,
        b != 0,
        0 <= ba,
    ensures
        mag(div_down(a, b)) <= ba * SCALE,
{
    lemma_mul_mag_bound(a, SCALE as int, ba, 65536);
    lemma_tdiv_mag(a * SCALE as int, b);
}

/// Truncating division by a positive divisor is monotone in the
/// dividend.
pub proof fn lemma_tdiv_mono(a: int, b: int, d: int)
    requires
        a <= b,
        d > 0,
    ensures
        tdiv(a, d) <= tdiv(b, d),
{
    if a >= 0 {
        assert(a / d <= b / d) by (nonlinear_arith)
            requires
                0 <= a <= b,
                d > 0,
        ;
    } else if b >= 0 {
        assert((-a) / d >= 0 && b / d >= 0) by (nonlinear_arith)
            requires
                a < 0,
                b >= 0,
                d > 0,
        ;
    } else {
        assert((-b) / d <= (-a) / d) by (nonlinear_arith)
            requires
                a <= b,
                b < 0,
                d > 0,
        ;
    }
}

/// A fixed-point scalar: the mathematical value is `raw / SCALE`.
#[derive(Clone, Copy, PartialEq, Eq, Structural, Debug)]
pub struct Fx {
    pub raw: i64,
}

/// Truncating division of an `i128` by a positive `i128`, the exec
/// counterpart of `tdiv`.
pub(crate) fn tdiv_i128(a: i128, b: i128) -> (r: i128)
    requires
        b > 0,
        a > i128::MIN,
    ensures
        r == tdiv(a as int, b as int),
{
    if a >= 0 {
        let q = (a as u128) / (b as u128);
        assert(q <= a as u128) by (nonlinear_arith)
            requires
                q == (a as u128) / (b as u128),
                b >= 1,
        ;
        q as i128
    } else {
        let m = -a;
        let q = (m as u128) / (b as u128);
        assert(q <= m as u128) by (nonlinear_arith)
            requires
                q == (m as u128) / (b as u128),
                b >= 1,
        ;
        -(q as i128)
    }
}

impl Fx {
    /// Builds a scalar from its raw representation.
    pub fn from_raw(raw: i64) -> (r: Fx)
        ensures
            r.raw == raw,
    {
        Fx { raw }
    }

    /// The scalar 0.
    pub fn zero() -> (r: Fx)
        ensures
            r.raw == 0,
    {
        Fx { raw: 0 }
    }

    /// The scalar 1.
    pub fn one() -> (r: Fx)
        ensures
            r.raw == SCALE,
    {
        Fx { raw: SCALE }
    }

    /// Exact sum.
    pub fn add(self, rhs: Fx) -> (r: Fx)
        requires
            i64::MIN <= self.raw + rhs.raw <= i64::MAX,
        ensures
            r.raw == self.raw + rhs.raw,
    {
        Fx { raw: self.raw + rhs.raw }
    }

    /// Exact difference.
    pub fn sub(self, rhs: Fx) -> (r: Fx)
        requires
            i64::MIN <= self.raw - rhs.raw <= i64::MAX,
        ensures
            r.raw == self.raw - rhs.raw,
    {
        Fx { raw: self.raw - rhs.raw }
    }

    /// Exact negation.
    pub fn neg(self) -> (r: Fx)
        requires
            self.raw > i64::MIN,
        ensures
            r.raw == -self.raw,
    {
        Fx { raw: -self.raw }
    }

    /// Fixed-point product, truncated toward zero.
    pub fn mul(self, rhs: Fx) -> (r: Fx)
        requires
            i64::MIN <= mul_down(self.raw as int, rhs.raw as int) <= i64::MAX,
        ensures
            r.raw == mul_down(self.raw as int, rhs.raw as int),
    {
        proof {
            lemma_mul_mag_bound(self.raw as int, rhs.raw as int, 0x8000_0000_0000_0000, 0x8000_0000_0000_0000);
        }
        let p: i128 = (self.raw as i128) * (rhs.raw as i128);
        let q = tdiv_i128(p, SCALE as i128);
        Fx { raw: q as i64 }
    }

    /// Fixed-point quotient, truncated toward zero.
    pub fn div(self, rhs: Fx) -> (r: Fx)
        requires
            rhs.raw != 0,
            i64::MIN <= div_down(self.raw as int, rhs.raw as int) <= i64::MAX,
        ensures
            r.raw == div_down(self.raw as int, rhs.raw as int),
    {
        proof {
            lemma_mul_mag_bound(self.raw as int, SCALE as int, 0x8000_0000_0000_0000, 0x1_0000);
        }
        let n: i128 = (self.raw as i128) * (SCALE as i128);
        let q = if rhs.raw > 0 {
            tdiv_i128(n, rhs.raw as i128)
        } else {
            let q0 = tdiv_i128(n, -(rhs.raw as i128));
            assert(tdiv(n as int, -(rhs.raw as int)) == -tdiv(n as int, rhs.raw as int));
            -q0
        };
        Fx { raw: q as i64 }
    }

    /// Componentwise minimum.
    pub fn min(self, rhs: Fx) -> (r: Fx)
        ensures
            r.raw == if self.raw <= rhs.raw {
                self.raw
            } else {
                rhs.raw
            },
    {
        if self.raw <= rhs.raw {
            self
        } else {
            rhs
        }
    }

    /// Componentwise maximum.
    pub fn max(self, rhs: Fx) -> (r: Fx)
        ensures
            r.raw == if self.raw >= rhs.raw {
                self.raw
            } else {
                rhs.raw
            },
    {
        if self.raw >= rhs.raw {
            self
        } else {
            rhs
        }
    }

    /// Strictly less.
    pub fn lt(self, rhs: Fx) -> (r: bool)
        ensures
            r == (self.raw < rhs.raw),
    {
        self.raw < rhs.raw
    }

    /// Less or equal.
    pub fn le(self, rhs: Fx) -> (r: bool)
        ensures
            r == (self.raw <= rhs.raw),
    {
        self.raw <= rhs.raw
    }
}

impl Fx {
    /// Fixed-point square root of a nonnegative scalar: the raw value is
    /// the floor of the square root of `raw * SCALE`, so the result again
    /// lives at scale `SCALE`.
    pub fn sqrt(self) -> (r: Fx)
        requires
            self.raw >= 0,
        ensures
            r.raw == sqrt_floor(self.raw * SCALE),
            r.raw >= 0,
    {
        proof {
            lemma_mul_mag_bound(self.raw as int, SCALE as int, 0x8000_0000_0000_0000, 0x1_0000);
        }
        let m: i128 = (self.raw as i128) * (SCALE as i128);
        proof {
            lemma_sqrt_floor(m as int);
            assert(sqrt_floor(m as int) * sqrt_floor(m as int) <= m);
            assert(sqrt_floor(m as int) <= 0x1_0000_0000_0000) by (nonlinear_arith)
                requires
                    0 <= sqrt_floor(m as int),
                    sqrt_floor(m as int) * sqrt_floor(m as int) <= m,
                    m <= 0x8000_0000_0000_0000 * 0x1_0000,
            ;
        }
        let r = isqrt_i128(m);
        Fx { raw: r as i64 }
    }
}

/// Floor of the square root of a nonnegative 128-bit integer, by binary
/// search on the answer.
pub fn isqrt_u128(n: u128) -> (r: u128)
    ensures
        r == sqrt_floor(n as int),
        r < 0x1_0000_0000_0000_0000u128,
{
    let mut lo: u128 = 0;
    let mut hi: u128 = 1u128 << 64;
    proof {
        assert((1u128 << 64) == 0x1_0000_0000_0000_0000u128) by (bit_vector);
        assert(n < 0x1_0000_0000_0000_0000 * 0x1_0000_0000_0000_0000) by (nonlinear_arith)
            requires
                n <= u128::MAX,
        ;
    }
    while lo + 1 < hi
        invariant
            0 <= lo < hi <= 0x1_0000_0000_0000_0000u128,
            lo * lo <= n,
            n < (hi as int) * (hi as int),
        decreases hi - lo,
    {
        let mid = lo + (hi - lo) / 2;
        proof {
            assert((mid as int) * (mid as int) < 0x1_0000_0000_0000_0000 * 0x1_0000_0000_0000_0000) by (nonlinear_arith)
                requires
                    0 <= mid < 0x1_0000_0000_0000_0000u128,
            ;
        }
        if mid * mid <= n {
            lo = mid;
        } else {
            hi = mid;
        }
    }
    proof {
        lemma_sqrt_floor_unique(n as int, lo as int);
    }
    lo
}

/// Floor of the square root of a nonnegative `i128`.
pub fn isqrt_i128(n: i128) -> (r: i128)
    requires
        n >= 0,
    ensures
        r == sqrt_floor(n as int),
        0 <= r,
        r * r <= n,
{
    let r = isqrt_u128(n as u128);
    proof {
        lemma_sqrt_floor(n as int);
        assert(sqrt_floor(n as int) * sqrt_floor(n as int) <= n);
    }
    r as i128
}

} // verus!
