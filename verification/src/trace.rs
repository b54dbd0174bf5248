//! The recursive radiance estimator: follow a ray into the scene, add
//! what the surface emits, and continue along the sampled scatter
//! direction with multiple importance sampling toward the lights. A
//! malformed per-sample value contributes zero rather than spreading.
use vstd::prelude::*;
use std::sync::Arc;
use rand::rngs::SmallRng;
use crate::fixed::{sabs, tmul, fdivv, SCALE, COORD_MAX, PT_MAX, T_FAR, fmul128, fmul128w,
    fdiv128};
use crate::vec::{Vec3, V3};
use crate::ray::{Ray, RayV};
use crate::color::{Color, ColorV, color};
use crate::hittable::{Hittables, HitRecord, hittable_wf, time_ok, hit_matches, random_ok};
use crate::material::emitted_v;
use crate::pdf::{PdfType, HittablePdf, MixturePdf, pdf_wf, pdf_type_value_v};

verus! {

/// A colour clamped to the sane emission range; anything outside is
/// treated as a numerical fault and reads as black.
pub open spec fn clampc(c: ColorV) -> ColorV {
    if c.within(1000000000) {
        c
    } else {
        ColorV { r: 0, g: 0, b: 0 }
    }
}

/// The deterministic skeleton of one estimator step: no hit yields the
/// background, and a hit on the non-scattering emissive material yields
/// exactly what it emits toward the ray.
pub open spec fn ray_color_rel(h: Option<HitRecord>, background: ColorV, result: ColorV) -> bool {
    match h {
        None => result == background,
        Some(rec) => {
            if rec@.mat is Diffuse {
                result == clampc(
                    emitted_v(rec@.mat, rec@.front_face, rec@.u, rec@.v, rec@.point),
                )
            } else {
                true
            }
        },
    }
}

/// How many member shapes a node offers to the light sampler.
pub open spec fn light_count(h: Hittables) -> int {
    match h {
        Hittables::HittableList(l) => l.hittables@.len() as int,
        _ => 1,
    }
}

impl Hittables {
    /// The number of member shapes, for deciding whether a light set is
    /// worth sampling.
    pub fn length(&self) -> (n: usize)
        ensures
            n as int == light_count(*self),
    {
        match self {
            Hittables::HittableList(l) => l.hittables.len(),
            _ => 1,
        }
    }
}

/// One importance-sampled channel, as a function: attenuation times the
/// recursive radiance times the re-evaluated density, divided by the
/// density the direction was drawn from; a value out of the safe range
/// contributes zero.
pub open spec fn mis_channel_v(att: int, spdf: int, rc: int, pv: int) -> int {
    let t = fdivv(tmul(tmul(att, rc), spdf), pv);
    if t > 3600000000000000000 || t < -3600000000000000000 {
        0
    } else {
        t
    }
}

/// The density of the even mixture of the light sampler at `origin` and
/// the material's own density, at a direction.
pub open spec fn mix_density(lights: Hittables, origin: V3, mp: PdfType, dir: V3) -> int {
    let lv = if !dir.within(COORD_MAX as int) {
        0
    } else {
        crate::hittable::pdf_value_v(lights, origin, dir)
    };
    tmul(500000, lv) + tmul(500000, crate::pdf::pdf_type_value_v(mp, dir))
}

/// What the importance-sampled continuation yields: for the drawn
/// direction, either a guard dropped the sample and the emission alone
/// comes back, or the result is the emission plus the per-channel
/// estimator term at the mixture density of that very direction.
pub open spec fn mis_step_rel(
    lights: Hittables,
    rec: crate::hittable::HitV,
    em: ColorV,
    att: ColorV,
    mp: PdfType,
    ray: RayV,
    result: ColorV,
) -> bool {
    if !rec.point.within(PT_MAX as int) {
        result == em
    } else {
        exists|dir: V3, rcv: ColorV|
            #![trigger dir.within(COORD_MAX as int), rcv.within(4600000000000000000)]
            {
                &&& rcv.within(4600000000000000000)
                &&& ({
                    let pv = mix_density(lights, rec.point, mp, dir);
                    if !dir.within(COORD_MAX as int) || pv <= 0 {
                        result == em
                    } else {
                        let spdf = crate::material::scattering_pdf_v(rec.mat, rec.normal, dir);
                        result == (ColorV {
                            r: em.r + mis_channel_v(att.r, spdf, rcv.r, pv),
                            g: em.g + mis_channel_v(att.g, spdf, rcv.g, pv),
                            b: em.b + mis_channel_v(att.b, spdf, rcv.b, pv),
                        })
                    }
                })
            }
    }
}

/// What one estimator step yields once the material's answer is fixed:
/// no answer returns the emission alone; an answer without a density
/// continues along the returned ray and multiplies by the attenuation;
/// an answer carrying a density is importance-sampled against the light
/// set. Out-of-range attenuations and rays fall back to the emission.
pub open spec fn after_scatter_rel(
    lights: Hittables,
    rec: crate::hittable::HitV,
    em: ColorV,
    ray: RayV,
    sc: Option<crate::material::Scatter>,
    result: ColorV,
) -> bool {
    match sc {
        None => result == em,
        Some(scat) => {
            let att = scat.attenuation@;
            if !(0 <= att.r <= SCALE as int) || !(0 <= att.g <= SCALE as int) || !(0 <= att.b
                <= SCALE as int) {
                result == em
            } else if scat.pdf is None || light_count(lights) == 0 {
                if !scat.ray@.wf() || scat.ray@.time != ray.time {
                    result == em
                } else {
                    exists|rcv: ColorV|
                        #![trigger rcv.within(4600000000000000000)]
                        rcv.within(4600000000000000000) && result == rcv.mul(att)
                }
            } else {
                mis_step_rel(lights, rec, em, att, scat.pdf->0, ray, result)
            }
        },
    }
}

/// The estimator's skeleton for one step, over whichever hit outcome
/// the world answered: a miss yields the background; a hit yields the
/// step relation for some response the material may give.
pub open spec fn step_rel(
    lights: Hittables,
    ray: RayV,
    h: Option<HitRecord>,
    background: ColorV,
    result: ColorV,
) -> bool {
    match h {
        None => result == background,
        Some(rec) => exists|sc: Option<crate::material::Scatter>|
            {
                &&& #[trigger] crate::material::scatter_rel(rec@.mat, ray, rec@, sc)
                &&& after_scatter_rel(
                    lights,
                    rec@,
                    clampc(emitted_v(rec@.mat, rec@.front_face, rec@.u, rec@.v, rec@.point)),
                    ray,
                    sc,
                    result,
                )
            },
    }
}

/// Multiply a bounded attenuation into an accumulated colour.
fn attenuate(att: Color, c: Color) -> (r: Color)
    requires
        att@.within(SCALE as int),
        c@.within(4600000000000000000),
    ensures
        r@ == c@.mul(att@),
        r@.within(4600000000000000000),
{
    proof {
        crate::fixed::lemma_tmul_unit_bound(att@.r, c@.r, 4600000000000000000);
        crate::fixed::lemma_tmul_unit_bound(att@.g, c@.g, 4600000000000000000);
        crate::fixed::lemma_tmul_unit_bound(att@.b, c@.b, 4600000000000000000);
        assert(tmul(c@.r, att@.r) == tmul(att@.r, c@.r)) by {
            assert(c@.r * att@.r == att@.r * c@.r);
        }
        assert(tmul(c@.g, att@.g) == tmul(att@.g, c@.g)) by {
            assert(c@.g * att@.g == att@.g * c@.g);
        }
        assert(tmul(c@.b, att@.b) == tmul(att@.b, c@.b)) by {
            assert(c@.b * att@.b == att@.b * c@.b);
        }
    }
    let r = fmul128(att.r as i128, c.r as i128) as i64;
    let g = fmul128(att.g as i128, c.g as i128) as i64;
    let b = fmul128(att.b as i128, c.b as i128) as i64;
    Color { r, g, b }
}

/// One importance-sampled channel of the estimator's scatter term:
/// attenuation times the re-evaluated density times the recursive
/// radiance, divided by the mixture density the direction was drawn
/// from; an out-of-range value contributes zero.
fn mis_channel(att: i64, spdf: i64, rc: i64, pdf_val: i64) -> (r: i64)
    requires
        0 <= att <= SCALE,
        0 <= spdf,
        sabs(rc as int) <= 4600000000000000000,
        1 <= pdf_val,
    ensures
        r as int == mis_channel_v(att as int, spdf as int, rc as int, pdf_val as int),
        sabs(r as int) <= 3600000000000000000,
{
    proof {
        crate::fixed::lemma_tmul_unit_bound(att as int, rc as int, 4600000000000000000);
    }
    let t1: i128 = fmul128(att as i128, rc as i128);
    proof {
        assert(t1 as int == tmul(att as int, rc as int));
        assert(sabs(t1 as int) * sabs(spdf as int)
            <= 43000000000000000000000000000000000000int) by (nonlinear_arith)
            requires
                sabs(t1 as int) <= 4600000000000000000int,
                0 <= spdf as int <= 9223372036854775807int,
        ;
    }
    let t2: i128 = fmul128w(t1, spdf as i128);
    proof {
        crate::fixed::lemma_div_le(sabs(t1 as int) * sabs(spdf as int),
            43000000000000000000000000000000000000, 43000000000000000000000000000000);
        crate::fixed::lemma_fdiv_bound2(t2 as int, pdf_val as int,
            43000000000000000000000000000000, 1);
    }
    let t3: i128 = fdiv128(t2, pdf_val as i128);
    if t3 > 3600000000000000000 || t3 < -3600000000000000000 {
        0
    } else {
        t3 as i64
    }
}


/// The multiple-importance-sampled continuation of the estimator: draw
/// the next direction from the even mixture of the light sampler and
/// the material's own density, and weigh the recursive radiance by the
/// re-evaluated density over the drawn one.
#[verifier::rlimit(100)]
fn mis_step(
    ray: Ray,
    background: Color,
    world: &Hittables,
    lights: Arc<Hittables>,
    depth: u32,
    rng: &mut SmallRng,
    rec: HitRecord,
    att: Color,
    emitted: Color,
    material_pdf: PdfType,
) -> (c: Color)
    requires
        hittable_wf(*world),
        time_ok(*world, ray@.time),
        ray@.wf(),
        background@.within(1000000000),
        hittable_wf(*lights),
        light_count(*lights) > 0 ==> random_ok(*lights),
        light_count(*lights) > 0,
        depth >= 1,
        0 <= att@.r <= SCALE,
        0 <= att@.g <= SCALE,
        0 <= att@.b <= SCALE,
        emitted@.within(1000000000),
        pdf_wf(material_pdf),
    ensures
        c@.within(4600000000000000000),
        mis_step_rel(*lights, rec@, emitted@, att@, material_pdf, ray@, c@),
    decreases depth, 0int,
{
    let pb: i64 = 100000000000000;
    if rec.point.x > pb || rec.point.x < -pb || rec.point.y > pb || rec.point.y < -pb
        || rec.point.z > pb || rec.point.z < -pb {
        return emitted;
    }
    let light_pdf = HittablePdf::new(rec.point, lights.clone());
    proof {
        assert(pdf_wf(light_pdf));
        assert(pdf_wf(material_pdf));
    }
    let ghost glp = light_pdf;
    let ghost gmp = material_pdf;
    let mixed = MixturePdf::new(Arc::new(light_pdf), Arc::new(material_pdf));
    proof {
        assert(mixed matches PdfType::MixturePdf(mp) && *mp.pdf1 == glp && *mp.pdf2 == gmp);
        assert(pdf_wf(mixed));
    }
    let dir = mixed.generate(rng);
    let ghost gdir = dir@;
    let db: i64 = 10000000000;
    if dir.x > db || dir.x < -db || dir.y > db || dir.y < -db || dir.z > db || dir.z < -db {
        proof {
            let rcv = ColorV { r: 0, g: 0, b: 0 };
            assert(rcv.within(4600000000000000000));
            assert(!gdir.within(COORD_MAX as int));
            assert(mis_step_rel(*lights, rec@, emitted@, att@, material_pdf, ray@,
                emitted@));
        }
        return emitted;
    }
    let scattered = Ray { origin: rec.point, direction: dir, time: ray.time };
    let pdf_val = mixed.value(scattered.direction, rng);
    proof {
        assert(pdf_type_value_v(mixed, gdir) == tmul(500000, pdf_type_value_v(glp, gdir))
            + tmul(500000, pdf_type_value_v(gmp, gdir)));
        assert(pdf_type_value_v(glp, gdir) == (if !gdir.within(COORD_MAX as int) {
            0int
        } else {
            crate::hittable::pdf_value_v(*lights, rec@.point, gdir)
        }));
        assert(pdf_val as int == mix_density(*lights, rec@.point, material_pdf, gdir));
    }
    if pdf_val <= 0 {
        proof {
            let rcv = ColorV { r: 0, g: 0, b: 0 };
            assert(rcv.within(4600000000000000000));
            assert(gdir.within(COORD_MAX as int));
            assert(mis_step_rel(*lights, rec@, emitted@, att@, material_pdf, ray@,
                emitted@));
        }
        return emitted;
    }
    let spdf = (&*rec.mat).scattering_pdf(&ray, &rec, &scattered);
    let rc = ray_color(scattered, background, world, lights, depth - 1, rng);
    let cr = mis_channel(att.r, spdf, rc.r, pdf_val);
    let cg = mis_channel(att.g, spdf, rc.g, pdf_val);
    let cb = mis_channel(att.b, spdf, rc.b, pdf_val);
    let out = Color { r: emitted.r + cr, g: emitted.g + cg, b: emitted.b + cb };
    proof {
        assert(rc@.within(4600000000000000000));
        assert(gdir.within(COORD_MAX as int));
        assert(spdf as int == crate::material::scattering_pdf_v(rec@.mat, rec@.normal, gdir));
        assert(mis_step_rel(*lights, rec@, emitted@, att@, material_pdf, ray@, out@));
    }
    out
}

/// The recursive radiance estimate for one ray.
#[verifier::rlimit(100)]
pub fn ray_color(
    ray: Ray,
    background: Color,
    world: &Hittables,
    lights: Arc<Hittables>,
    depth: u32,
    rng: &mut SmallRng,
) -> (c: Color)
    requires
        hittable_wf(*world),
        time_ok(*world, ray@.time),
        ray@.wf(),
        background@.within(1000000000),
        hittable_wf(*lights),
        light_count(*lights) > 0 ==> random_ok(*lights),
    ensures
        depth == 0 ==> c@ == (ColorV { r: 0, g: 0, b: 0 }),
        c@.within(4600000000000000000),
        depth > 0 ==> exists|h: Option<HitRecord>|
            {
                &&& #[trigger] hit_matches(*world, ray@, 100, T_FAR as int, h)
                &&& ray_color_rel(h, background@, c@)
                &&& step_rel(*lights, ray@, h, background@, c@)
            },
    decreases depth, 1int,
{
    if depth == 0 {
        return color(0, 0, 0);
    }
    let hit = world.hit(&ray, 100, 10000000000, rng);
    let ghost gh = hit;
    match hit {
        None => {
            proof {
                assert(ray_color_rel(gh, background@, background@));
                assert(step_rel(*lights, ray@, gh, background@, background@));
            }
            background
        },
        Some(rec) => {
            let emitted0 = (&*rec.mat).emitted(&ray, &rec, rec.u, rec.v, rec.point);
            let eb: i64 = 1000000000;
            let emitted = if emitted0.r > eb || emitted0.r < -eb || emitted0.g > eb
                || emitted0.g < -eb || emitted0.b > eb || emitted0.b < -eb {
                color(0, 0, 0)
            } else {
                emitted0
            };
            let sc = (&*rec.mat).scatter(&ray, &rec, rng);
            let ghost gsc = sc;
            let ghost grec = rec;
            let ghost gem = emitted@;
            proof {
                assert(crate::material::scatter_rel(grec@.mat, ray@, grec@, gsc));
                assert(gem == clampc(emitted_v(grec@.mat, grec@.front_face, grec@.u, grec@.v,
                    grec@.point)));
            }
            match sc {
                None => {
                    proof {
                        assert(ray_color_rel(gh, background@, emitted@));
                        assert(after_scatter_rel(*lights, grec@, gem, ray@, gsc, emitted@));
                        assert(step_rel(*lights, ray@, gh, background@, emitted@));
                    }
                    emitted
                },
                Some(scat) => {
                    proof {
                        assert(!(grec@.mat is Diffuse));
                        assert(ray_color_rel(gh, background@, emitted@));
                    }
                    let ab: i64 = 1000000;
                    let att = scat.attenuation;
                    if att.r > ab || att.r < 0 || att.g > ab || att.g < 0 || att.b > ab
                        || att.b < 0 {
                        proof {
                            assert(after_scatter_rel(*lights, grec@, gem, ray@, gsc,
                                emitted@));
                            assert(step_rel(*lights, ray@, gh, background@, emitted@));
                        }
                        return emitted;
                    }
                    let has_pdf = match &scat.pdf {
                        Some(_) => true,
                        None => false,
                    };
                    if !has_pdf || lights.length() == 0 {
                        let sray = scat.ray;
                        let db: i64 = 10000000000;
                        let pb: i64 = 100000000000000;
                        if sray.origin.x > pb || sray.origin.x < -pb || sray.origin.y > pb
                            || sray.origin.y < -pb || sray.origin.z > pb || sray.origin.z
                            < -pb || sray.direction.x > db || sray.direction.x < -db
                            || sray.direction.y > db || sray.direction.y < -db
                            || sray.direction.z > db || sray.direction.z < -db
                            || sray.time != ray.time {
                            proof {
                                assert(after_scatter_rel(*lights, grec@, gem, ray@, gsc,
                                    emitted@));
                                assert(step_rel(*lights, ray@, gh, background@, emitted@));
                            }
                            return emitted;
                        }
                        let rc = ray_color(sray, background, world, lights, depth - 1, rng);
                        let out = attenuate(att, rc);
                        proof {
                            assert(ray_color_rel(gh, background@, out@));
                            assert(rc@.within(4600000000000000000));
                            assert(after_scatter_rel(*lights, grec@, gem, ray@, gsc, out@));
                            assert(step_rel(*lights, ray@, gh, background@, out@));
                        }
                        out
                    } else {
                        let ghost gpdf = scat.pdf;
                        proof {
                            assert(match gpdf {
                                Some(p) => crate::pdf::pdf_wf(p),
                                None => true,
                            });
                        }
                        let material_pdf = match scat.pdf {
                            Some(p) => p,
                            None => {
                                proof {
                                    assert(false);
                                }
                                PdfType::HittablePdf(
                                    crate::pdf::HittablePdf {
                                        origin: rec.point,
                                        object: lights.clone(),
                                    },
                                )
                            },
                        };
                        let ghost gmpv = material_pdf;
                        let out = mis_step(ray, background, world, lights, depth, rng, rec,
                            att, emitted, material_pdf);
                        proof {
                            assert(ray_color_rel(gh, background@, out@));
                            assert(gsc matches Some(gg) && gg.pdf matches Some(pp) && pp
                                == gmpv);
                            assert(after_scatter_rel(*lights, grec@, gem, ray@, gsc, out@));
                            assert(step_rel(*lights, ray@, gh, background@, out@));
                        }
                        out
                    }
                },
            }
        },
    }
}

} // verus!
