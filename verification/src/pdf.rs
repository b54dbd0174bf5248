//! Sampling densities over directions: cosine-weighted about a normal,
//! aimed at a light shape, or an even mixture of two strategies — the
//! ingredients of multiple importance sampling.
use vstd::prelude::*;
use std::sync::Arc;
use rand::rngs::SmallRng;
use crate::fixed::{sabs, tmul, fdivv, SCALE, COORD_MAX, PT_MAX, fmul128, fdiv128,
    lemma_tmul_bound};
use crate::vec::{Vec3, V3, lemma_dot_fits3, lemma_len2_nonneg};
use crate::onb::{Onb, onb_of};
use crate::hittable::{Hittables, pdf_value_v, random_ok, hittable_wf};
use crate::util::{PI_FX, random_cosine_direction, random_double};

verus! {

pub struct CosinePdf {
    pub uvw: Onb,
}

pub struct HittablePdf {
    pub origin: Vec3,
    pub object: Arc<Hittables>,
}

pub struct MixturePdf {
    pub pdf1: Arc<PdfType>,
    pub pdf2: Arc<PdfType>,
}

pub enum PdfType {
    CosinePdf(CosinePdf),
    HittablePdf(HittablePdf),
    MixturePdf(MixturePdf),
}

/// A density object whose parts stay in range: frame axes bounded, the
/// aimed-at shape well-formed and non-empty, and both halves of a
/// mixture the same.
pub open spec fn pdf_wf(p: PdfType) -> bool
    decreases p,
{
    match p {
        PdfType::CosinePdf(cp) => cp.uvw@.axis0.within(8000000000000) && cp.uvw@.axis1.within(
            8000000000000) && cp.uvw@.axis2.within(8000000000000),
        PdfType::HittablePdf(hp) => hittable_wf(*hp.object) && random_ok(*hp.object)
            && hp.origin@.within(PT_MAX as int),
        PdfType::MixturePdf(mp) => pdf_wf(*mp.pdf1) && pdf_wf(*mp.pdf2),
    }
}

/// The density a sampling object reports for a direction. The cosine
/// density is the angle cosine over pi in the upper hemisphere; a shape
/// answers its solid-angle density for directions the scene can carry;
/// a mixture averages its two halves.
pub open spec fn pdf_type_value_v(p: PdfType, direction: V3) -> int
    decreases p,
{
    match p {
        PdfType::CosinePdf(cp) => {
            if !direction.within(4000000000000000000) || direction.len2() < 1 {
                0
            } else {
                let cos = direction.unit().dot(cp.uvw@.axis2);
                if cos <= 0 {
                    0
                } else {
                    fdivv(cos, PI_FX as int)
                }
            }
        },
        PdfType::HittablePdf(hp) => {
            if !direction.within(COORD_MAX as int) {
                0
            } else {
                pdf_value_v(*hp.object, hp.origin@, direction)
            }
        },
        PdfType::MixturePdf(mp) => tmul(500000, pdf_type_value_v(*mp.pdf1, direction)) + tmul(
            500000,
            pdf_type_value_v(*mp.pdf2, direction),
        ),
    }
}

/// Densities are never negative.
pub proof fn lemma_pdf_value_nonneg(p: &PdfType, direction: V3)
    ensures
        pdf_type_value_v(*p, direction) >= 0,
    decreases *p,
{
    crate::fixed::lemma_fx_nonneg_all();
    match p {
        PdfType::CosinePdf(cp) => {},
        PdfType::HittablePdf(hp) => {
            if direction.within(COORD_MAX as int) {
                lemma_pdf_hittable_nonneg(&*hp.object, hp.origin@, direction);
            }
        },
        PdfType::MixturePdf(mp) => {
            lemma_pdf_value_nonneg(&*mp.pdf1, direction);
            lemma_pdf_value_nonneg(&*mp.pdf2, direction);
        },
    }
}

/// A shape's density is never negative.
pub proof fn lemma_pdf_hittable_nonneg(h: &Hittables, origin: V3, v: V3)
    ensures
        pdf_value_v(*h, origin, v) >= 0,
    decreases *h,
{
    crate::fixed::lemma_fx_nonneg_all();
    crate::vec::lemma_len2_nonneg_all();
    match h {
        Hittables::HittableList(l) => {
            if l.hittables@.len() > 0 {
                lemma_pdf_sum_nonneg(l.hittables@, origin, v, tdiv_w(
                    l.hittables@.len() as int));
            }
        },
        _ => {},
    }
}

/// The per-member weight of a list's average.
pub open spec fn tdiv_w(n: int) -> int {
    crate::fixed::tdiv(SCALE as int, n)
}

pub proof fn lemma_pdf_sum_nonneg(s: Seq<Hittables>, origin: V3, v: V3, weight: int)
    requires
        weight >= 0,
    ensures
        crate::hittable::pdf_sum(s, origin, v, weight) >= 0,
    decreases s,
{
    crate::fixed::lemma_fx_nonneg_all();
    if s.len() > 0 {
        lemma_pdf_hittable_nonneg(&s[0], origin, v);
        lemma_pdf_sum_nonneg(s.subrange(1, s.len() as int), origin, v, weight);
    }
}

impl CosinePdf {
    pub fn new(w: Vec3) -> (p: PdfType)
        requires
            w@.within(4000000000000000000),
            w@.len2() >= 1,
        ensures
            p matches PdfType::CosinePdf(cp) && cp.uvw@ == onb_of(w@),
            pdf_wf(p),
    {
        PdfType::CosinePdf(CosinePdf { uvw: Onb::new(&w) })
    }
}

impl HittablePdf {
    pub fn new(origin: Vec3, object: Arc<Hittables>) -> (p: PdfType)
        ensures
            p matches PdfType::HittablePdf(hp) && hp.origin == origin && hp.object == object,
    {
        PdfType::HittablePdf(HittablePdf { origin, object })
    }
}

impl MixturePdf {
    pub fn new(pdf1: Arc<PdfType>, pdf2: Arc<PdfType>) -> (p: PdfType)
        ensures
            p matches PdfType::MixturePdf(mp) && mp.pdf1 == pdf1 && mp.pdf2 == pdf2,
    {
        PdfType::MixturePdf(MixturePdf { pdf1, pdf2 })
    }
}

/// An even mixture's density is exactly half of each part's density,
/// summed — for every direction.
pub proof fn lemma_mixture_value(m: MixturePdf, direction: V3)
    ensures
        pdf_type_value_v(PdfType::MixturePdf(m), direction) == tmul(
            500000,
            pdf_type_value_v(*m.pdf1, direction),
        ) + tmul(500000, pdf_type_value_v(*m.pdf2, direction)),
{
    assert(PdfType::MixturePdf(m) matches PdfType::MixturePdf(mm) && mm == m);
}

/// What `generate` may answer, outcome by outcome: the cosine sampler
/// carries an upper-hemisphere local draw through its frame, an aimed
/// sampler answers as its shape does, and a mixture answers as one of
/// its halves.
pub open spec fn gen_rel(p: PdfType, r: V3) -> bool
    decreases p,
{
    match p {
        PdfType::CosinePdf(cp) => exists|d0: V3|
            #![trigger d0.within(SCALE as int)]
            {
                &&& d0.within(SCALE as int)
                &&& d0.z >= 0
                &&& r == crate::onb::onb_local(cp.uvw@, d0)
            },
        PdfType::HittablePdf(hp) => crate::hittable::random_rel(*hp.object, hp.origin@, r),
        PdfType::MixturePdf(mp) => gen_rel(*mp.pdf1, r) || gen_rel(*mp.pdf2, r),
    }
}

impl PdfType {
    /// The density this object assigns to a direction.
    #[verifier::rlimit(60)]
    pub fn value(&self, direction: Vec3, rng: &mut SmallRng) -> (r: i64)
        requires
            pdf_wf(*self),
        ensures
            r as int == pdf_type_value_v(*self, direction@),
            r >= 0,
        decreases *self,
    {
        proof {
            lemma_pdf_value_nonneg(self, direction@);
        }
        match self {
            PdfType::CosinePdf(cp) => {
                let wb: i64 = 4000000000000000000;
                if direction.x > wb || direction.x < -wb || direction.y > wb || direction.y
                    < -wb || direction.z > wb || direction.z < -wb {
                    return 0;
                }
                proof {
                    lemma_dot_fits3(direction@, direction@, 4000000000000000000,
                        4000000000000000000, 16000000000000000000000000000000);
                    lemma_len2_nonneg(direction@);
                }
                let l2: i128 = direction.dot_wide(direction);
                if l2 < 1 {
                    return 0;
                }
                let unit = direction.unit_vector();
                proof {
                    lemma_dot_fits3(unit@, cp.uvw@.axis2, 2000000000, 8000000000000,
                        16000000000000000);
                }
                let cos: i128 = unit.dot_wide(cp.uvw.axis2);
                if cos <= 0 {
                    0
                } else {
                    proof {
                        crate::fixed::lemma_fdiv_bound2(cos as int, PI_FX as int,
                            48000000000000000, 1000000);
                    }
                    fdiv128(cos, 3141593) as i64
                }
            },
            PdfType::HittablePdf(hp) => {
                let db: i64 = 10000000000;
                if direction.x > db || direction.x < -db || direction.y > db || direction.y
                    < -db || direction.z > db || direction.z < -db {
                    return 0;
                }
                (&*hp.object).pdf_value(hp.origin, direction, rng)
            },
            PdfType::MixturePdf(mp) => {
                proof {
                    assert(decreases_to!(*self => *mp));
                    assert(decreases_to!(*mp => mp.pdf1));
                    assert(decreases_to!(*mp => mp.pdf2));
                    lemma_pdf_value_nonneg(&*mp.pdf1, direction@);
                    lemma_pdf_value_nonneg(&*mp.pdf2, direction@);
                }
                let v1 = (&*mp.pdf1).value(direction, rng);
                let v2 = (&*mp.pdf2).value(direction, rng);
                proof {
                    crate::fixed::lemma_tmul_half(v1 as int);
                    crate::fixed::lemma_tmul_half(v2 as int);
                    crate::fixed::lemma_tmul_nonneg(500000, v1 as int);
                    crate::fixed::lemma_tmul_nonneg(500000, v2 as int);
                }
                let a: i64 = fmul128(500000, v1 as i128) as i64;
                let b: i64 = fmul128(500000, v2 as i128) as i64;
                a + b
            },
        }
    }

    /// Draw a direction from this density.
    pub fn generate(&self, rng: &mut SmallRng) -> (r: Vec3)
        requires
            pdf_wf(*self),
        ensures
            r@.within(200000000000000),
            gen_rel(*self, r@),
        decreases *self,
    {
        match self {
            PdfType::CosinePdf(cp) => {
                let d = random_cosine_direction(rng);
                let ghost gd = d@;
                let out = cp.uvw.local(&d);
                proof {
                    assert(gd.within(SCALE as int));
                    assert(gen_rel(*self, out@));
                }
                out
            },
            PdfType::HittablePdf(hp) => (&*hp.object).random(hp.origin, rng),
            PdfType::MixturePdf(mp) => {
                proof {
                    assert(decreases_to!(*self => *mp));
                    assert(decreases_to!(*mp => mp.pdf1));
                    assert(decreases_to!(*mp => mp.pdf2));
                }
                if random_double(rng) < 500000 {
                    (&*mp.pdf1).generate(rng)
                } else {
                    (&*mp.pdf2).generate(rng)
                }
            },
        }
    }
}

} // verus!
