//! Axis-aligned bounding boxes: pairwise union and the slab intersection
//! test.
//!
//! The slab test is carried out in exact rational arithmetic: the running
//! parameter interval is kept as two fractions, compared by
//! cross-multiplication at 128 bits, so the result is a precise statement
//! about the ray as a rational line (no rounding enters the test).

use vstd::prelude::*;

use crate::fixed::{lemma_mul_mag_bound, mag, Fx, SCALE};
use crate::ray::Ray;
use crate::vector3::{comp, vec_bounded, Vector};

verus! {

/// Largest raw coordinate magnitude accepted by the geometric kernel.
pub const COORD_LIMIT: i64 = 0x2000_0000;

/// Largest raw ray-parameter magnitude accepted by the geometric kernel.
pub const T_LIMIT: i64 = 0x100_0000_0000;

/// An axis-aligned box given by its two extreme corners.
#[derive(Clone, Copy, PartialEq, Eq, Structural, Debug)]
pub struct Aabb {
    pub min: Vector,
    pub max: Vector,
}

/// `min <= max` on every axis.
pub open spec fn aabb_wf(b: Aabb) -> bool {
    &&& b.min.x.raw <= b.max.x.raw
    &&& b.min.y.raw <= b.max.y.raw
    &&& b.min.z.raw <= b.max.z.raw
}

/// `inner` lies within `outer` on every axis.
pub open spec fn box_contains_box(outer: Aabb, inner: Aabb) -> bool {
    &&& outer.min.x.raw <= inner.min.x.raw && inner.max.x.raw <= outer.max.x.raw
    &&& outer.min.y.raw <= inner.min.y.raw && inner.max.y.raw <= outer.max.y.raw
    &&& outer.min.z.raw <= inner.min.z.raw && inner.max.z.raw <= outer.max.z.raw
}

/// The componentwise min-of-mins / max-of-maxes union of two boxes.
pub open spec fn surround_spec(b0: Aabb, b1: Aabb) -> Aabb {
    Aabb {
        min: Vector {
            x: Fx { raw: if b0.min.x.raw <= b1.min.x.raw { b0.min.x.raw } else { b1.min.x.raw } },
            y: Fx { raw: if b0.min.y.raw <= b1.min.y.raw { b0.min.y.raw } else { b1.min.y.raw } },
            z: Fx { raw: if b0.min.z.raw <= b1.min.z.raw { b0.min.z.raw } else { b1.min.z.raw } },
        },
        max: Vector {
            x: Fx { raw: if b0.max.x.raw >= b1.max.x.raw { b0.max.x.raw } else { b1.max.x.raw } },
            y: Fx { raw: if b0.max.y.raw >= b1.max.y.raw { b0.max.y.raw } else { b1.max.y.raw } },
            z: Fx { raw: if b0.max.z.raw >= b1.max.z.raw { b0.max.z.raw } else { b1.max.z.raw } },
        },
    }
}

/// `a/b < c/d` for fractions with positive denominators, by
/// cross-multiplication.
pub open spec fn frac_lt(an: int, ad: int, bn: int, bd: int) -> bool {
    an * bd < bn * ad
}

/// On an axis with direction component `d`, the ray coordinate at the
/// rational raw parameter `tn/td` (with `td > 0`) lies strictly above the
/// slab floor `lo`: multiplied through by `td * SCALE`, the coordinate
/// `o + (tn/td) * d / SCALE` exceeds `lo`.
pub open spec fn slab_lo(o: int, d: int, lo: int, tn: int, td: int) -> bool {
    lo * (td * SCALE) < o * (td * SCALE) + tn * d
}

/// The mirrored constraint: the coordinate lies strictly below the slab
/// ceiling `hi`.
pub open spec fn slab_hi(o: int, d: int, hi: int, tn: int, td: int) -> bool {
    o * (td * SCALE) + tn * d < hi * (td * SCALE)
}

/// Strictly inside the slab `[lo, hi]` at rational parameter `tn/td`.
pub open spec fn strictly_in_slab(o: int, d: int, lo: int, hi: int, tn: int, td: int) -> bool {
    slab_lo(o, d, lo, tn, td) && slab_hi(o, d, hi, tn, td)
}

/// Inside the closed slab `[lo, hi]` at rational parameter `tn/td`.
pub open spec fn in_closed_slab(o: int, d: int, lo: int, hi: int, tn: int, td: int) -> bool {
    lo * (td * SCALE) <= o * (td * SCALE) + tn * d <= hi * (td * SCALE)
}

/// A rational raw parameter `tn/td` witnessing an intersection: strictly
/// between `tmin` and `tmax`, and strictly inside every slab whose axis
/// the ray actually crosses.
pub open spec fn hit_witness(b: Aabb, r: Ray, tmin: int, tmax: int, tn: int, td: int) -> bool {
    &&& td > 0
    &&& tmin * td < tn
    &&& tn < tmax * td
    &&& r.b.x.raw != 0 ==> strictly_in_slab(
        r.a.x.raw as int,
        r.b.x.raw as int,
        b.min.x.raw as int,
        b.max.x.raw as int,
        tn,
        td,
    )
    &&& r.b.y.raw != 0 ==> strictly_in_slab(
        r.a.y.raw as int,
        r.b.y.raw as int,
        b.min.y.raw as int,
        b.max.y.raw as int,
        tn,
        td,
    )
    &&& r.b.z.raw != 0 ==> strictly_in_slab(
        r.a.z.raw as int,
        r.b.z.raw as int,
        b.min.z.raw as int,
        b.max.z.raw as int,
        tn,
        td,
    )
}

/// The exact meaning of the slab test: on every axis the ray does not
/// cross, its constant coordinate sits within the slab, and some rational
/// parameter strictly inside `(tmin, tmax)` is strictly inside all crossed
/// slabs.
pub open spec fn aabb_hit_spec(b: Aabb, r: Ray, tmin: int, tmax: int) -> bool {
    &&& r.b.x.raw == 0 ==> b.min.x.raw <= r.a.x.raw <= b.max.x.raw
    &&& r.b.y.raw == 0 ==> b.min.y.raw <= r.a.y.raw <= b.max.y.raw
    &&& r.b.z.raw == 0 ==> b.min.z.raw <= r.a.z.raw <= b.max.z.raw
    &&& exists|tn: int, td: int| hit_witness(b, r, tmin, tmax, tn, td)
}

/// Fraction transitivity: `a <= b` and `b < c` give `a < c`.
proof fn lemma_frac_trans_le_lt(an: int, ad: int, bn: int, bd: int, cn: int, cd: int) by (nonlinear_arith)
    requires
        ad > 0,
        bd > 0,
        cd > 0,
        an * bd <= bn * ad,
        bn * cd < cn * bd,
    ensures
        an * cd < cn * ad,
{
}

/// Fraction transitivity: `a < b` and `b <= c` give `a < c`.
proof fn lemma_frac_trans_lt_le(an: int, ad: int, bn: int, bd: int, cn: int, cd: int) by (nonlinear_arith)
    requires
        ad > 0,
        bd > 0,
        cd > 0,
        an * bd < bn * ad,
        bn * cd <= cn * bd,
    ensures
        an * cd < cn * ad,
{
}

/// Between two fractions in strict order lies their weighted midpoint.
proof fn lemma_frac_between(ln: int, ld: int, un: int, ud: int)
    requires
        ld > 0,
        ud > 0,
        ln * ud < un * ld,
    ensures
        2 * (ld * ud) > 0,
        frac_lt(ln, ld, ln * ud + un * ld, 2 * (ld * ud)),
        frac_lt(ln * ud + un * ld, 2 * (ld * ud), un, ud),
{
    assert(ld * ud > 0 && ln * (2 * (ld * ud)) < (ln * ud + un * ld) * ld && (ln * ud + un * ld)
        * ud < un * (2 * (ld * ud))) by (nonlinear_arith)
        requires
            ld > 0,
            ud > 0,
            ln * ud < un * ld,
    ;
}

/// The lower-slab constraint written as a fraction comparison, for a
/// positive direction component.
proof fn lemma_axis_pos_lo(o: int, d: int, lo: int, tn: int, td: int) by (nonlinear_arith)
    requires
        d > 0,
        td > 0,
    ensures
        frac_lt((lo - o) * SCALE, d, tn, td) <==> slab_lo(o, d, lo, tn, td),
{
}

/// The upper-slab constraint written as a fraction comparison, for a
/// positive direction component.
proof fn lemma_axis_pos_hi(o: int, d: int, hi: int, tn: int, td: int) by (nonlinear_arith)
    requires
        d > 0,
        td > 0,
    ensures
        frac_lt(tn, td, (hi - o) * SCALE, d) <==> slab_hi(o, d, hi, tn, td),
{
}

/// For a negative direction component the ceiling face bounds the
/// parameter from below.
proof fn lemma_axis_neg_lo(o: int, d: int, hi: int, tn: int, td: int) by (nonlinear_arith)
    requires
        d < 0,
        td > 0,
    ensures
        frac_lt((o - hi) * SCALE, -d, tn, td) <==> slab_hi(o, d, hi, tn, td),
{
}

/// For a negative direction component the floor face bounds the parameter
/// from above.
proof fn lemma_axis_neg_hi(o: int, d: int, lo: int, tn: int, td: int) by (nonlinear_arith)
    requires
        d < 0,
        td > 0,
    ensures
        frac_lt(tn, td, (o - lo) * SCALE, -d) <==> slab_lo(o, d, lo, tn, td),
{
}

/// What one slab-test step guarantees for the narrowed lower bound.
pub open spec fn lower_narrowed(
    o: int,
    d: int,
    lo: int,
    hi: int,
    ln: int,
    ld: int,
    ln2: int,
    ld2: int,
) -> bool {
    forall|tn: int, td: int|
        td > 0 ==> ((#[trigger] frac_lt(ln2, ld2, tn, td)) <==> (frac_lt(ln, ld, tn, td) && (if d
            > 0 {
            slab_lo(o, d, lo, tn, td)
        } else {
            slab_hi(o, d, hi, tn, td)
        })))
}

/// What one slab-test step guarantees for the narrowed upper bound.
pub open spec fn upper_narrowed(
    o: int,
    d: int,
    lo: int,
    hi: int,
    un: int,
    ud: int,
    un2: int,
    ud2: int,
) -> bool {
    forall|tn: int, td: int|
        td > 0 ==> ((#[trigger] frac_lt(tn, td, un2, ud2)) <==> (frac_lt(tn, td, un, ud) && (if d
            > 0 {
            slab_hi(o, d, hi, tn, td)
        } else {
            slab_lo(o, d, lo, tn, td)
        })))
}

/// The narrowed lower bound is exactly "above the old bound and past this
/// axis's entry face".
proof fn lemma_narrow_axis_lower(
    o: int,
    d: int,
    lo: int,
    hi: int,
    ln: int,
    ld: int,
    en: int,
    ed: int,
    ln2: int,
    ld2: int,
)
    requires
        d != 0,
        ld > 0,
        ed == mag(d),
        en == if d > 0 {
            (lo - o) * SCALE
        } else {
            (o - hi) * SCALE
        },
        if frac_lt(ln, ld, en, ed) {
            ln2 == en && ld2 == ed
        } else {
            ln2 == ln && ld2 == ld
        },
    ensures
        lower_narrowed(o, d, lo, hi, ln, ld, ln2, ld2),
{
    assert forall|tn: int, td: int| td > 0 implies ((#[trigger] frac_lt(ln2, ld2, tn, td)) <==> (
    frac_lt(ln, ld, tn, td) && (if d > 0 {
        slab_lo(o, d, lo, tn, td)
    } else {
        slab_hi(o, d, hi, tn, td)
    }))) by {
        if d > 0 {
            lemma_axis_pos_lo(o, d, lo, tn, td);
        } else {
            lemma_axis_neg_lo(o, d, hi, tn, td);
        }
        if frac_lt(ln, ld, en, ed) {
            // The entry face is the new bound; clearing it clears the old one.
            if frac_lt(en, ed, tn, td) {
                lemma_frac_trans_le_lt(ln, ld, en, ed, tn, td);
            }
        } else {
            // The old bound dominates; clearing it clears the entry face.
            if frac_lt(ln, ld, tn, td) {
                lemma_frac_trans_le_lt(en, ed, ln, ld, tn, td);
            }
        }
    }
}

/// The narrowed upper bound is exactly "below the old bound and before
/// this axis's exit face".
proof fn lemma_narrow_axis_upper(
    o: int,
    d: int,
    lo: int,
    hi: int,
    un: int,
    ud: int,
    xn: int,
    xd: int,
    un2: int,
    ud2: int,
)
    requires
        d != 0,
        ud > 0,
        xd == mag(d),
        xn == if d > 0 {
            (hi - o) * SCALE
        } else {
            (o - lo) * SCALE
        },
        if frac_lt(xn, xd, un, ud) {
            un2 == xn && ud2 == xd
        } else {
            un2 == un && ud2 == ud
        },
    ensures
        upper_narrowed(o, d, lo, hi, un, ud, un2, ud2),
{
    assert forall|tn: int, td: int| td > 0 implies ((#[trigger] frac_lt(tn, td, un2, ud2)) <==> (
    frac_lt(tn, td, un, ud) && (if d > 0 {
        slab_hi(o, d, hi, tn, td)
    } else {
        slab_lo(o, d, lo, tn, td)
    }))) by {
        if d > 0 {
            lemma_axis_pos_hi(o, d, hi, tn, td);
        } else {
            lemma_axis_neg_hi(o, d, lo, tn, td);
        }
        if frac_lt(xn, xd, un, ud) {
            if frac_lt(tn, td, xn, xd) {
                lemma_frac_trans_lt_le(tn, td, xn, xd, un, ud);
            }
        } else {
            if frac_lt(tn, td, un, ud) {
                lemma_frac_trans_lt_le(tn, td, un, ud, xn, xd);
            }
        }
    }
}

/// One step of the slab test.  Narrows the running rational interval
/// `(ln/ld, un/ud)` by the constraints of one axis; `None` means the axis
/// is not crossed and the constant coordinate lies outside its slab.
fn narrow_axis(o: i64, d: i64, lo: i64, hi: i64, ln: i128, ld: i128, un: i128, ud: i128) -> (res:
    Option<(i128, i128, i128, i128)>)
    requires
        mag(o as int) <= COORD_LIMIT as int,
        mag(lo as int) <= COORD_LIMIT as int,
        mag(hi as int) <= COORD_LIMIT as int,
        mag(d as int) <= COORD_LIMIT as int,
        0 < ld <= 0x1_0000_0000,
        0 < ud <= 0x1_0000_0000,
        mag(ln as int) <= 0x1_0000_0000_0000,
        mag(un as int) <= 0x1_0000_0000_0000,
    ensures
        match res {
            None => d == 0 && !(lo <= o <= hi),
            Some((ln2, ld2, un2, ud2)) => {
                &&& 0 < ld2 <= 0x1_0000_0000
                &&& 0 < ud2 <= 0x1_0000_0000
                &&& mag(ln2 as int) <= 0x1_0000_0000_0000
                &&& mag(un2 as int) <= 0x1_0000_0000_0000
                &&& d == 0 ==> (lo <= o <= hi && ln2 == ln && ld2 == ld && un2 == un && ud2 == ud)
                &&& d != 0 ==> lower_narrowed(
                    o as int,
                    d as int,
                    lo as int,
                    hi as int,
                    ln as int,
                    ld as int,
                    ln2 as int,
                    ld2 as int,
                )
                &&& d != 0 ==> upper_narrowed(
                    o as int,
                    d as int,
                    lo as int,
                    hi as int,
                    un as int,
                    ud as int,
                    un2 as int,
                    ud2 as int,
                )
            },
        },
{
    if d == 0 {
        if lo <= o && o <= hi {
            Some((ln, ld, un, ud))
        } else {
            None
        }
    } else {
        proof {
            lemma_mul_mag_bound((lo - o) as int, SCALE as int, 0x4000_0000, 0x1_0000);
            lemma_mul_mag_bound((o - hi) as int, SCALE as int, 0x4000_0000, 0x1_0000);
            lemma_mul_mag_bound((hi - o) as int, SCALE as int, 0x4000_0000, 0x1_0000);
            lemma_mul_mag_bound((o - lo) as int, SCALE as int, 0x4000_0000, 0x1_0000);
        }
        let (en, ed): (i128, i128) = if d > 0 {
            (((lo - o) as i128) * (SCALE as i128), d as i128)
        } else {
            (((o - hi) as i128) * (SCALE as i128), -(d as i128))
        };
        let (xn, xd): (i128, i128) = if d > 0 {
            (((hi - o) as i128) * (SCALE as i128), d as i128)
        } else {
            (((o - lo) as i128) * (SCALE as i128), -(d as i128))
        };
        proof {
            lemma_mul_mag_bound(ln as int, ed as int, 0x1_0000_0000_0000, 0x2000_0000);
            lemma_mul_mag_bound(en as int, ld as int, 0x1_0000_0000_0000, 0x1_0000_0000);
            lemma_mul_mag_bound(xn as int, ud as int, 0x1_0000_0000_0000, 0x1_0000_0000);
            lemma_mul_mag_bound(un as int, xd as int, 0x1_0000_0000_0000, 0x2000_0000);
        }
        let (ln2, ld2) = if ln * ed < en * ld {
            (en, ed)
        } else {
            (ln, ld)
        };
        let (un2, ud2) = if xn * ud < un * xd {
            (xn, xd)
        } else {
            (un, ud)
        };
        proof {
            lemma_narrow_axis_lower(
                o as int,
                d as int,
                lo as int,
                hi as int,
                ln as int,
                ld as int,
                en as int,
                ed as int,
                ln2 as int,
                ld2 as int,
            );
            lemma_narrow_axis_upper(
                o as int,
                d as int,
                lo as int,
                hi as int,
                un as int,
                ud as int,
                xn as int,
                xd as int,
                un2 as int,
                ud2 as int,
            );
        }
        Some((ln2, ld2, un2, ud2))
    }
}

impl Aabb {
    /// Builds a box from two corners.
    pub fn new(a: Vector, b: Vector) -> (r: Aabb)
        ensures
            r == (Aabb { min: a, max: b }),
    {
        Aabb { min: a, max: b }
    }

    /// The smallest box containing both arguments: componentwise
    /// min-of-mins and max-of-maxes.  The union contains both inputs, and
    /// as a fold it is commutative and associative.
    pub fn surrounding_box(box0: Aabb, box1: Aabb) -> (r: Aabb)
        ensures
            r == surround_spec(box0, box1),
            box_contains_box(r, box0),
            box_contains_box(r, box1),
    {
        let small = Vector {
            x: box0.min.x.min(box1.min.x),
            y: box0.min.y.min(box1.min.y),
            z: box0.min.z.min(box1.min.z),
        };
        let big = Vector {
            x: box0.max.x.max(box1.max.x),
            y: box0.max.y.max(box1.max.y),
            z: box0.max.z.max(box1.max.z),
        };
        Aabb { min: small, max: big }
    }

    /// The slab test: whether some rational parameter strictly inside
    /// `(t_min, t_max)` places the ray strictly inside every crossed slab,
    /// while the ray's constant coordinates sit inside the remaining
    /// slabs.
    pub fn hit(&self, r: Ray, t_min: Fx, t_max: Fx) -> (res: bool)
        requires
            vec_bounded(self.min, COORD_LIMIT as int),
            vec_bounded(self.max, COORD_LIMIT as int),
            vec_bounded(r.a, COORD_LIMIT as int),
            vec_bounded(r.b, COORD_LIMIT as int),
            mag(t_min.raw as int) <= T_LIMIT as int,
            mag(t_max.raw as int) <= T_LIMIT as int,
        ensures
            res == aabb_hit_spec(*self, r, t_min.raw as int, t_max.raw as int),
    {
        let ghost tmin = t_min.raw as int;
        let ghost tmax = t_max.raw as int;
        let s0 = narrow_axis(
            r.a.x.raw,
            r.b.x.raw,
            self.min.x.raw,
            self.max.x.raw,
            t_min.raw as i128,
            1,
            t_max.raw as i128,
            1,
        );
        let (ln1, ld1, un1, ud1) = match s0 {
            None => {
                return false;
            },
            Some(v) => v,
        };
        let s1 = narrow_axis(
            r.a.y.raw,
            r.b.y.raw,
            self.min.y.raw,
            self.max.y.raw,
            ln1,
            ld1,
            un1,
            ud1,
        );
        let (ln2, ld2, un2, ud2) = match s1 {
            None => {
                return false;
            },
            Some(v) => v,
        };
        let s2 = narrow_axis(
            r.a.z.raw,
            r.b.z.raw,
            self.min.z.raw,
            self.max.z.raw,
            ln2,
            ld2,
            un2,
            ud2,
        );
        let (ln3, ld3, un3, ud3) = match s2 {
            None => {
                return false;
            },
            Some(v) => v,
        };
        proof {
            lemma_mul_mag_bound(ln3 as int, ud3 as int, 0x1_0000_0000_0000, 0x1_0000_0000);
            lemma_mul_mag_bound(un3 as int, ld3 as int, 0x1_0000_0000_0000, 0x1_0000_0000);
        }
        let res = ln3 * ud3 < un3 * ld3;
        proof {
            if res {
                lemma_frac_between(ln3 as int, ld3 as int, un3 as int, ud3 as int);
                let tn0: int = ln3 as int * ud3 as int + un3 as int * ld3 as int;
                let td0: int = 2 * (ld3 as int * ud3 as int);
                assert(frac_lt(ln3 as int, ld3 as int, tn0, td0));
                assert(frac_lt(tn0, td0, un3 as int, ud3 as int));
                assert(frac_lt(ln2 as int, ld2 as int, tn0, td0));
                assert(frac_lt(ln1 as int, ld1 as int, tn0, td0));
                assert(frac_lt(tmin, 1, tn0, td0));
                assert(tmin * td0 < tn0);
                assert(frac_lt(tn0, td0, un2 as int, ud2 as int));
                assert(frac_lt(tn0, td0, un1 as int, ud1 as int));
                assert(frac_lt(tn0, td0, tmax, 1));
                assert(tn0 < tmax * td0);
                assert(hit_witness(*self, r, tmin, tmax, tn0, td0));
            } else {
                assert forall|tn: int, td: int|
                    !(#[trigger] hit_witness(*self, r, tmin, tmax, tn, td)) by {
                    if hit_witness(*self, r, tmin, tmax, tn, td) {
                        assert(frac_lt(tmin, 1, tn, td));
                        assert(frac_lt(ln1 as int, ld1 as int, tn, td));
                        assert(frac_lt(ln2 as int, ld2 as int, tn, td));
                        assert(frac_lt(ln3 as int, ld3 as int, tn, td));
                        assert(frac_lt(tn, td, tmax, 1));
                        assert(frac_lt(tn, td, un1 as int, ud1 as int));
                        assert(frac_lt(tn, td, un2 as int, ud2 as int));
                        assert(frac_lt(tn, td, un3 as int, ud3 as int));
                        lemma_frac_trans_le_lt(
                            ln3 as int,
                            ld3 as int,
                            tn,
                            td,
                            un3 as int,
                            ud3 as int,
                        );
                    }
                }
            }
        }
        res
    }
}

/// Containment in the union, stated on the spec fold itself: the pairwise
/// union contains both of its arguments.
pub proof fn lemma_surrounding_contains(b0: Aabb, b1: Aabb)
    ensures
        box_contains_box(surround_spec(b0, b1), b0),
        box_contains_box(surround_spec(b0, b1), b1),
{
}

/// The pairwise union is commutative.
pub proof fn lemma_surrounding_comm(b0: Aabb, b1: Aabb)
    ensures
        surround_spec(b0, b1) == surround_spec(b1, b0),
{
}

/// The pairwise union is associative.
pub proof fn lemma_surrounding_assoc(b0: Aabb, b1: Aabb, b2: Aabb)
    ensures
        surround_spec(b0, surround_spec(b1, b2)) == surround_spec(surround_spec(b0, b1), b2),
{
}

/// Containment is transitive: a box containing a box contains everything
/// that box contains.
pub proof fn lemma_contains_trans(a: Aabb, b: Aabb, c: Aabb)
    requires
        box_contains_box(a, b),
        box_contains_box(b, c),
    ensures
        box_contains_box(a, c),
{
}

/// A ray through a strictly interior point of the box, at a rational
/// parameter strictly inside `(tmin, tmax)`, is reported as a hit.
pub proof fn lemma_interior_point_hits(b: Aabb, r: Ray, tmin: int, tmax: int, tn: int, td: int)
    requires
        td > 0,
        tmin * td < tn,
        tn < tmax * td,
        r.b.x.raw == 0 ==> b.min.x.raw < r.a.x.raw < b.max.x.raw,
        r.b.y.raw == 0 ==> b.min.y.raw < r.a.y.raw < b.max.y.raw,
        r.b.z.raw == 0 ==> b.min.z.raw < r.a.z.raw < b.max.z.raw,
        r.b.x.raw != 0 ==> strictly_in_slab(
            r.a.x.raw as int,
            r.b.x.raw as int,
            b.min.x.raw as int,
            b.max.x.raw as int,
            tn,
            td,
        ),
        r.b.y.raw != 0 ==> strictly_in_slab(
            r.a.y.raw as int,
            r.b.y.raw as int,
            b.min.y.raw as int,
            b.max.y.raw as int,
            tn,
            td,
        ),
        r.b.z.raw != 0 ==> strictly_in_slab(
            r.a.z.raw as int,
            r.b.z.raw as int,
            b.min.z.raw as int,
            b.max.z.raw as int,
            tn,
            td,
        ),
    ensures
        aabb_hit_spec(b, r, tmin, tmax),
{
    assert(hit_witness(b, r, tmin, tmax, tn, td));
}

/// A ray that stays outside one axis's extent over the whole open
/// parameter range is reported as a miss.
pub proof fn lemma_outside_axis_misses(b: Aabb, r: Ray, tmin: int, tmax: int, i: int)
    requires
        0 <= i < 3,
        forall|tn: int, td: int|
            (td > 0 && tmin * td < tn && tn < tmax * td) ==> !#[trigger] in_closed_slab(
                comp(r.a, i),
                comp(r.b, i),
                comp(b.min, i),
                comp(b.max, i),
                tn,
                td,
            ),
    ensures
        !aabb_hit_spec(b, r, tmin, tmax),
{
    if aabb_hit_spec(b, r, tmin, tmax) {
        let (tn, td): (int, int) = choose|tn: int, td: int|
            hit_witness(b, r, tmin, tmax, tn, td);
        assert(hit_witness(b, r, tmin, tmax, tn, td));
        let o = comp(r.a, i);
        let d = comp(r.b, i);
        let lo = comp(b.min, i);
        let hi = comp(b.max, i);
        if d == 0 {
            assert(lo <= o <= hi);
            assert(o * (td * SCALE) + tn * d == o * (td * SCALE)) by (nonlinear_arith)
                requires
                    d == 0,
            ;
            assert(lo * (td * SCALE) <= o * (td * SCALE) <= hi * (td * SCALE)) by (nonlinear_arith)
                requires
                    td > 0,
                    lo <= o <= hi,
            ;
            assert(in_closed_slab(o, d, lo, hi, tn, td));
        } else {
            assert(strictly_in_slab(o, d, lo, hi, tn, td));
            assert(in_closed_slab(o, d, lo, hi, tn, td));
        }
    }
}

} // verus!
