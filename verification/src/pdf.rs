//! Probability densities over directions, the machinery of multiple
//! importance sampling: a cosine density around a normal, a density
//! aimed at a light shape, and their balanced mixture.

use vstd::prelude::*;

use crate::fixed::{div_down, lemma_div_down_bound, Fx, PI_RAW, SCALE};
use crate::object::{object_pdf_spec, object_random_ok, object_wf, Object};
use crate::onb::{build_from_w_spec, local_spec, onb_bounded, Onb};
use crate::rng::random_coin;
use crate::util::{lemma_dot_small, random_cosine_dir};
use crate::vector3::{dot_down, normalize_spec, vec_bounded, Vector};

verus! {

/// The cosine-weighted density around a basis normal:
/// `max(0, cos) / pi` against the normalized direction.
pub open spec fn cosine_value_spec(uvw: Onb, dir: Vector) -> int {
    let d = dot_down(normalize_spec(dir), uvw.axis_w);
    if d > 0 {
        div_down(d, PI_RAW as int)
    } else {
        0
    }
}

/// What every drawn cosine direction is: the basis image of some
/// upper-hemisphere local sample.
pub open spec fn cosine_gen_ok(uvw: Onb, r: Vector) -> bool {
    exists|s: Vector|
        #[trigger] local_spec(uvw, s) == r && vec_bounded(s, SCALE as int) && s.z.raw >= 1
}

/// A cosine-weighted density around a stored basis.
#[derive(Clone, Copy, PartialEq, Eq, Structural, Debug)]
pub struct Cosine {
    pub uvw: Onb,
}

impl Cosine {
    /// Builds the density around the normal `w`.
    pub fn new(w: Vector) -> (r: Cosine)
        requires
            vec_bounded(w, 0x1000_0000_0000_0000),
        ensures
            r.uvw == build_from_w_spec(w),
            onb_bounded(r.uvw),
    {
        Cosine { uvw: Onb::build_from_w(w) }
    }

    /// The density of a direction.
    pub fn value(&self, dir: Vector) -> (r: Fx)
        requires
            onb_bounded(self.uvw),
            vec_bounded(dir, 0x1000_0000_0000_0000),
        ensures
            r.raw == cosine_value_spec(self.uvw, dir),
            0 <= r.raw <= 0x1_0000_0000,
    {
        let u = dir.normalize();
        proof {
            lemma_dot_small(u, self.uvw.axis_w);
            lemma_div_down_bound(dot_down(u, self.uvw.axis_w), PI_RAW as int, 3145728);
            let d0 = dot_down(u, self.uvw.axis_w);
            if d0 > 0 {
                crate::fixed::lemma_tdiv_mag(d0 * (SCALE as int), PI_RAW as int);
                crate::fixed::lemma_mag_scale(d0, SCALE as int);
                let q = crate::fixed::mag(d0) * 65536;
                assert(q / 205887 <= 0x1_0000_0000) by (nonlinear_arith)
                    requires
                        0 <= q <= 3145728 * 65536,
                ;
            }
        }
        let d = Vector::dot(u, self.uvw.axis_w);
        if d.raw > 0 {
            d.div(Fx { raw: PI_RAW })
        } else {
            Fx { raw: 0 }
        }
    }

    /// Draws a cosine-weighted direction through the basis.
    pub fn generate(&self) -> (r: Vector)
        requires
            onb_bounded(self.uvw),
        ensures
            vec_bounded(r, 0x20_0000),
            cosine_gen_ok(self.uvw, r),
    {
        let sample = random_cosine_dir();
        let r = self.uvw.local(sample);
        proof {
            assert(local_spec(self.uvw, sample) == r);
        }
        r
    }
}

/// A density aimed at a chosen light shape from a fixed origin.
#[derive(Clone, Copy, Debug)]
pub struct HittablePDF<'a> {
    pub o: Vector,
    pub inner: &'a Object,
}

impl<'a> HittablePDF<'a> {
    /// The shape's solid-angle density along `dir`.
    pub fn value(&self, dir: Vector) -> (r: Fx)
        requires
            object_wf(*self.inner),
            vec_bounded(self.o, crate::aabb::COORD_LIMIT as int),
            vec_bounded(dir, crate::aabb::COORD_LIMIT as int),
        ensures
            r.raw == object_pdf_spec(*self.inner, self.o, dir),
            0 <= r.raw <= 0x1_0000_0000,
    {
        self.inner.pdf_value(self.o, dir)
    }

    /// A direction toward the shape.
    pub fn generate(&self) -> (r: Vector)
        requires
            object_wf(*self.inner),
            vec_bounded(self.o, crate::aabb::COORD_LIMIT as int),
        ensures
            vec_bounded(r, 0x20_0000),
            object_random_ok(*self.inner, self.o, r),
    {
        self.inner.random(self.o)
    }
}

/// Either of the two density families the integrator mixes.
#[derive(Clone, Copy, Debug)]
pub enum Pdf<'a> {
    Cosine(Cosine),
    Hittable(HittablePDF<'a>),
}

/// Directions and densities a mixture component accepts.
pub open spec fn pdf_wf(p: Pdf) -> bool {
    match p {
        Pdf::Cosine(c) => onb_bounded(c.uvw),
        Pdf::Hittable(h) => object_wf(*h.inner) && vec_bounded(
            h.o,
            crate::aabb::COORD_LIMIT as int,
        ),
    }
}

/// What every drawn direction of a mixture component is: an admissible
/// outcome of that component's own sampler.
pub open spec fn pdf_gen_ok(p: Pdf, r: Vector) -> bool {
    match p {
        Pdf::Cosine(c) => cosine_gen_ok(c.uvw, r),
        Pdf::Hittable(h) => object_random_ok(*h.inner, h.o, r),
    }
}

/// The density either family assigns to a direction.
pub open spec fn pdf_value_spec(p: Pdf, dir: Vector) -> int {
    match p {
        Pdf::Cosine(c) => cosine_value_spec(c.uvw, dir),
        Pdf::Hittable(h) => object_pdf_spec(*h.inner, h.o, dir),
    }
}

impl<'a> Pdf<'a> {
    /// The density of a direction.
    pub fn value(&self, dir: Vector) -> (r: Fx)
        requires
            pdf_wf(*self),
            vec_bounded(dir, crate::aabb::COORD_LIMIT as int),
        ensures
            r.raw == pdf_value_spec(*self, dir),
            0 <= r.raw <= 0x1_0000_0000,
    {
        match self {
            Pdf::Cosine(c) => c.value(dir),
            Pdf::Hittable(h) => h.value(dir),
        }
    }

    /// Draws a direction from the density.
    pub fn generate(&self) -> (r: Vector)
        requires
            pdf_wf(*self),
        ensures
            vec_bounded(r, 0x20_0000),
            pdf_gen_ok(*self, r),
    {
        match self {
            Pdf::Cosine(c) => c.generate(),
            Pdf::Hittable(h) => h.generate(),
        }
    }
}

/// The balance-heuristic mixture of two densities.
#[derive(Clone, Copy, Debug)]
pub struct Mixture<'a> {
    pub pdf1: Pdf<'a>,
    pub pdf2: Pdf<'a>,
}

/// The mixture's density: the arithmetic mean of the two sub-densities
/// (halved sum, truncated at the fixed-point resolution).
pub open spec fn mixture_value_spec(m: Mixture, dir: Vector) -> int {
    (pdf_value_spec(m.pdf1, dir) + pdf_value_spec(m.pdf2, dir)) / 2
}

impl<'a> Mixture<'a> {
    /// The mean of the two sub-densities at `dir`.
    pub fn value(&self, dir: Vector) -> (r: Fx)
        requires
            pdf_wf(self.pdf1),
            pdf_wf(self.pdf2),
            vec_bounded(dir, crate::aabb::COORD_LIMIT as int),
        ensures
            r.raw == mixture_value_spec(*self, dir),
            0 <= r.raw <= 0x1_0000_0000,
    {
        let v1 = self.pdf1.value(dir);
        let v2 = self.pdf2.value(dir);
        let s = (v1.raw as u64) + (v2.raw as u64);
        Fx { raw: (s / 2) as i64 }
    }

    /// Draws from one of the two sub-densities with equal chance: every
    /// outcome is an admissible outcome of one of the two parts.
    pub fn generate(&self) -> (r: Vector)
        requires
            pdf_wf(self.pdf1),
            pdf_wf(self.pdf2),
        ensures
            vec_bounded(r, 0x20_0000),
            pdf_gen_ok(self.pdf1, r) || pdf_gen_ok(self.pdf2, r),
    {
        if random_coin() {
            self.pdf1.generate()
        } else {
            self.pdf2.generate()
        }
    }
}

/// The mixture's density is exactly the arithmetic mean of its two
/// sub-densities, for every direction: twice the mixture value differs
/// from the sum of the sub-values only by the final bit lost to the
/// fixed-point halving.
pub proof fn lemma_mixture_value_is_mean(m: Mixture, dir: Vector)
    ensures
        2 * mixture_value_spec(m, dir) <= pdf_value_spec(m.pdf1, dir) + pdf_value_spec(
            m.pdf2,
            dir,
        ) < 2 * mixture_value_spec(m, dir) + 2,
        (pdf_value_spec(m.pdf1, dir) + pdf_value_spec(m.pdf2, dir)) % 2 == 0
            ==> 2 * mixture_value_spec(m, dir) == pdf_value_spec(m.pdf1, dir) + pdf_value_spec(
            m.pdf2,
            dir,
        ),
{
}

} // verus!
