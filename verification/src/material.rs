//! The material model: the polymorphic scatter/emission behaviour attached
//! to geometry by shared ownership. The closed set of variants is
//! dispatched by a tagged enum, as the hot path wants.
use vstd::prelude::*;
use std::sync::Arc;
use crate::color::{Color, ColorV, color};
use crate::texture::{Texture, texture_value_v, SolidColor};
use crate::vec::{Vec3, V3};
use crate::ray::{Ray, RayV};
use rand::rngs::SmallRng;
use crate::fixed::{sabs, tmul, fdivv, SCALE, COORD_MAX, fmul128, fdiv128};

verus! {

#[derive(Debug, Clone)]
pub struct Lambertian {
    pub albedo: Texture,
}

#[derive(Debug, Clone)]
pub struct Metal {
    pub albedo: Texture,
    pub fuzz: i64,
}

#[derive(Debug, Clone)]
pub struct Dielectric {
    pub ir: i64,
}

#[derive(Debug, Clone)]
pub struct Diffuse {
    pub emit: Texture,
}

#[derive(Debug, Clone)]
pub struct Isotropic {
    pub albedo: Texture,
}

#[derive(Debug, Clone)]
pub enum MaterialType {
    Isotropic(Isotropic),
    Lambertian(Lambertian),
    Metal(Metal),
    Dielectric(Dielectric),
    Diffuse(Diffuse),
}

impl Lambertian {
    pub fn new(albedo: Texture) -> (m: Arc<MaterialType>)
        ensures
            *m == (MaterialType::Lambertian(Lambertian { albedo })),
    {
        Arc::new(MaterialType::Lambertian(Lambertian { albedo }))
    }
}

impl Metal {
    /// Fuzz is capped at one, as the reflection perturbation must stay
    /// inside the unit sphere.
    pub fn new(albedo: Texture, fuzz: i64) -> (m: Arc<MaterialType>)
        ensures
            *m == (MaterialType::Metal(Metal {
                albedo,
                fuzz: if fuzz < SCALE {
                    fuzz
                } else {
                    SCALE
                },
            })),
    {
        Arc::new(
            MaterialType::Metal(
                Metal {
                    albedo,
                    fuzz: if fuzz < 1000000 {
                        fuzz
                    } else {
                        1000000
                    },
                },
            ),
        )
    }
}

impl Dielectric {
    pub fn new(ir: i64) -> (m: MaterialType)
        ensures
            m == (MaterialType::Dielectric(Dielectric { ir })),
    {
        MaterialType::Dielectric(Dielectric { ir })
    }
}

impl Diffuse {
    pub fn new(emit: Texture) -> (m: Arc<MaterialType>)
        ensures
            *m == (MaterialType::Diffuse(Diffuse { emit })),
    {
        Arc::new(MaterialType::Diffuse(Diffuse { emit }))
    }
}

impl Isotropic {
    pub fn new(albedo: Texture) -> (m: Arc<MaterialType>)
        ensures
            *m == (MaterialType::Isotropic(Isotropic { albedo })),
    {
        Arc::new(MaterialType::Isotropic(Isotropic { albedo }))
    }
}

impl MaterialType {
    pub fn default() -> (m: MaterialType)
        ensures
            m == (MaterialType::Lambertian(Lambertian {
                albedo: Texture::SolidColor(SolidColor {
                    color: Color { r: 0, g: SCALE, b: SCALE },
                }),
            })),
    {
        MaterialType::Lambertian(
            Lambertian { albedo: Texture::SolidColor(SolidColor { color: color(0, 1000000, 1000000) }) },
        )
    }
}

} // verus!

verus! {

pub struct Scatter {
    pub ray: Ray,
    pub attenuation: Color,
    pub pdf: Option<crate::pdf::PdfType>,
}

/// What a material emits at a hit: only the diffuse light emits, and
/// only on its front side.
pub open spec fn emitted_v(m: MaterialType, front_face: bool, u: int, v: int, p: V3) -> ColorV {
    match m {
        MaterialType::Diffuse(d) => if front_face {
            texture_value_v(d.emit, u, v, p)
        } else {
            ColorV { r: 0, g: 0, b: 0 }
        },
        _ => ColorV { r: 0, g: 0, b: 0 },
    }
}

/// The density a material re-evaluates for a given scattered direction:
/// the cosine over pi for the diffuse reflector (zero below the
/// horizon or for a degenerate direction), and one for everything else.
pub open spec fn scattering_pdf_v(m: MaterialType, normal: V3, scattered_dir: V3) -> int {
    match m {
        MaterialType::Lambertian(_) => {
            if !scattered_dir.within(4000000000000000000) || scattered_dir.len2() < 1
                || !normal.within(4000000000000000000) || normal.len2() < 1 {
                0
            } else {
                let cos = normal.unit().dot(scattered_dir.unit());
                if cos < 0 {
                    0
                } else {
                    let p = fdivv(cos, crate::util::PI_FX as int);
                    if p > 0x7fffffffffffffff {
                        0x7fffffffffffffff
                    } else {
                        p
                    }
                }
            }
        },
        _ => SCALE as int,
    }
}

/// Schlick's reflectance approximation, exactly as computed: the base
/// reflectance from the index ratio plus its complement times the fifth
/// power of one minus the cosine, all clamped to the unit interval.
pub open spec fn reflectance_v(cosine: int, ref_idx: int) -> int {
    let s = SCALE as int;
    let q = fdivv(s - ref_idx, s + ref_idx);
    let r0 = tmul(q, q);
    let r0c = if r0 > s {
        s
    } else if r0 < 0 {
        0
    } else {
        r0
    };
    let omc = if cosine < 0 {
        s
    } else if cosine > s {
        0
    } else {
        s - cosine
    };
    let p2 = tmul(omc, omc);
    let p2c = if p2 > s {
        s
    } else {
        p2
    };
    let p4 = tmul(p2c, p2c);
    let p4c = if p4 > s {
        s
    } else {
        p4
    };
    let p5 = tmul(p4c, omc);
    let second = tmul(s - r0c, p5);
    let total = r0c + second;
    if total > s {
        s
    } else if total < 0 {
        0
    } else {
        total
    }
}

/// The refracted direction by the vector form of Snell's law, exactly as
/// computed: the perpendicular part scaled by the index ratio, completed
/// back to unit length along the negative normal.
pub open spec fn refract_v(uv: V3, n: V3, e: int) -> V3 {
    let s = SCALE as int;
    let mcos = -uv.dot(n);
    let ct = if mcos > s {
        s
    } else if mcos < -s {
        -s
    } else {
        mcos
    };
    let sum = uv.add(n.scale(ct));
    let perp = sum.scale(e);
    let pl2 = perp.len2();
    let inner = if pl2 > s {
        0
    } else {
        s - pl2
    };
    let root = crate::fixed::fsqrt_v(inner);
    perp.add(n.scale(-root))
}

/// The mirror direction about the normal.
pub open spec fn reflect_v(v: V3, n: V3) -> V3 {
    v.sub(n.scale(2 * v.dot(n)))
}

/// What `scatter` may hand back for each variant: the emissive variant
/// never scatters; the others describe the outgoing ray, the attenuation
/// and the sampling density they attach. Where the direction is drawn at
/// random only its constraints are stated.
pub open spec fn scatter_rel(
    m: MaterialType,
    rin: RayV,
    hit: crate::hittable::HitV,
    res: Option<Scatter>,
) -> bool {
    match m {
        MaterialType::Diffuse(_) => res is None,
        MaterialType::Lambertian(l) => {
            if !hit.normal.within(4000000000000000000) || hit.normal.len2() < 1 {
                res is None
            } else {
                exists|d0: V3|
                    #![trigger d0.within(SCALE as int)]
                    {
                        &&& d0.within(SCALE as int)
                        &&& d0.z >= 0
                        &&& ({
                            let sd = crate::onb::onb_local(crate::onb::onb_of(hit.normal),
                                d0);
                            if sd.len2() < 1 {
                                res is None
                            } else {
                                match res {
                                    None => false,
                                    Some(sc) => {
                                        &&& sc.ray.direction@ == sd.unit()
                                        &&& sc.attenuation@ == texture_value_v(l.albedo,
                                            hit.u, hit.v, hit.point)
                                        &&& sc.ray.origin@ == hit.point
                                        &&& sc.ray.time as int == rin.time
                                        &&& (sc.pdf matches Some(p) && crate::pdf::pdf_wf(p)
                                            && (p matches crate::pdf::PdfType::CosinePdf(cp)
                                            && cp.uvw@ == crate::onb::onb_of(hit.normal)))
                                    },
                                }
                            }
                        })
                    }
            }
        },
        MaterialType::Metal(mt) => {
            if !hit.normal.within(4000000000) || rin.direction.len2() < 1 {
                res is None
            } else {
                exists|fs: V3|
                    #![trigger fs.within(SCALE as int)]
                    {
                        &&& fs.within(SCALE as int)
                        &&& fs.len2() < SCALE
                        &&& ({
                            let fz = if mt.fuzz < 0 {
                                0
                            } else if mt.fuzz > SCALE {
                                SCALE as int
                            } else {
                                mt.fuzz as int
                            };
                            let dir = reflect_v(rin.direction.unit(), hit.normal).add(
                                fs.scale(fz));
                            if dir.dot(hit.normal) > 0 {
                                match res {
                                    None => false,
                                    Some(sc) => {
                                        &&& sc.ray.direction@ == dir
                                        &&& sc.attenuation@ == texture_value_v(mt.albedo,
                                            hit.u, hit.v, hit.point)
                                        &&& sc.ray.origin@ == hit.point
                                        &&& sc.ray.time as int == rin.time
                                        &&& sc.pdf is None
                                    },
                                }
                            } else {
                                res is None
                            }
                        })
                    }
            }
        },
        MaterialType::Dielectric(dl) => {
            if dl.ir < 1000 || !hit.normal.within(4000000000) || rin.direction.len2() < 1 {
                res is None
            } else {
                exists|coin: int|
                    #![trigger crate::fixed::sabs(coin)]
                    {
                        &&& 0 <= coin < SCALE
                        &&& match res {
                            None => false,
                            Some(sc) => {
                                let s = SCALE as int;
                                let ratio = if hit.front_face {
                                    fdivv(s, dl.ir as int)
                                } else if dl.ir > 1000000000 {
                                    1000000000
                                } else {
                                    dl.ir as int
                                };
                                let unit = rin.direction.unit();
                                let mcos = -unit.dot(hit.normal);
                                let ct = if mcos > s {
                                    s
                                } else if mcos < -24000000000000 {
                                    -24000000000000
                                } else {
                                    mcos
                                };
                                let c2 = tmul(ct, ct);
                                let s2v = if c2 > s {
                                    0
                                } else {
                                    s - c2
                                };
                                let st = crate::fixed::fsqrt_v(s2v);
                                let cannot = tmul(ratio, st) > s || reflectance_v(ct, ratio)
                                    > coin;
                                let dir = if cannot {
                                    reflect_v(unit, hit.normal)
                                } else {
                                    refract_v(unit, hit.normal, ratio)
                                };
                                &&& sc.ray.direction@ == dir
                                &&& sc.attenuation@ == (ColorV { r: s, g: s, b: s })
                                &&& sc.ray.origin@ == hit.point
                                &&& sc.ray.time as int == rin.time
                                &&& sc.pdf is None
                            },
                        }
                    }
            }
        },
        MaterialType::Isotropic(i) => match res {
            None => false,
            Some(sc) => {
                &&& sc.attenuation@ == texture_value_v(i.albedo, hit.u, hit.v, hit.point)
                &&& sc.ray.origin@ == hit.point
                &&& sc.ray.time as int == rin.time
                &&& sc.ray.direction@.within(SCALE as int)
                &&& sc.ray.direction@.len2() < SCALE
                &&& sc.pdf is None
            },
        },
    }
}

impl MaterialType {
    /// The colour this material emits at a hit point.
    pub fn emitted(&self, _rayin: &Ray, hit: &crate::hittable::HitRecord, u: i64, v: i64, p:
        Vec3) -> (c: Color)
        ensures
            c@ == emitted_v(*self, hit.front_face, u as int, v as int, p@),
    {
        match self {
            MaterialType::Diffuse(d) => {
                if hit.front_face {
                    d.emit.value(u, v, p)
                } else {
                    color(0, 0, 0)
                }
            },
            _ => color(0, 0, 0),
        }
    }

    /// Re-evaluate the sampling density of a scattered direction.
    pub fn scattering_pdf(&self, _rayin: &Ray, hit: &crate::hittable::HitRecord, scattered:
        &Ray) -> (r: i64)
        ensures
            r as int == scattering_pdf_v(*self, hit.normal@, scattered.direction@),
            r >= 0,
    {
        match self {
            MaterialType::Lambertian(_) => {
                let wb: i64 = 4000000000000000000;
                let d = scattered.direction;
                if d.x > wb || d.x < -wb || d.y > wb || d.y < -wb || d.z > wb || d.z < -wb {
                    return 0;
                }
                if hit.normal.x > wb || hit.normal.x < -wb || hit.normal.y > wb || hit.normal.y
                    < -wb || hit.normal.z > wb || hit.normal.z < -wb {
                    return 0;
                }
                proof {
                    crate::vec::lemma_dot_fits3(d@, d@, 4000000000000000000,
                        4000000000000000000, 16000000000000000000000000000000);
                    crate::vec::lemma_len2_nonneg(d@);
                    crate::vec::lemma_dot_fits3(hit.normal@, hit.normal@,
                        4000000000000000000, 4000000000000000000,
                        16000000000000000000000000000000);
                    crate::vec::lemma_len2_nonneg(hit.normal@);
                }
                let l2: i128 = d.dot_wide(d);
                if l2 < 1 {
                    return 0;
                }
                let n2: i128 = hit.normal.dot_wide(hit.normal);
                if n2 < 1 {
                    return 0;
                }
                let unit = d.unit_vector();
                let un = hit.normal.unit_vector();
                proof {
                    crate::vec::lemma_dot_fits3(un@, unit@, 2000000000, 2000000000,
                        4000000000000);
                }
                let cos: i128 = un.dot_wide(unit);
                if cos < 0 {
                    0
                } else {
                    proof {
                        crate::fixed::lemma_fdiv_nonneg(cos as int,
                            crate::util::PI_FX as int);
                        crate::fixed::lemma_fdiv_bound2(cos as int, crate::util::PI_FX as int,
                            12000000000000, 1000000);
                    }
                    let p: i128 = fdiv128(cos, 3141593);
                    if p > 0x7fffffffffffffff {
                        0x7fffffffffffffff
                    } else {
                        p as i64
                    }
                }
            },
            _ => 1000000,
        }
    }

    /// The material's response to an incoming ray at a hit: an outgoing
    /// ray with its attenuation and, for the diffuse reflector, the
    /// density it was drawn from. A degenerate frame or direction is
    /// treated as absorption.
    #[verifier::rlimit(60)]
    pub fn scatter(&self, rayin: &Ray, hit: &crate::hittable::HitRecord, rng: &mut SmallRng)
        -> (res: Option<Scatter>)
        requires
            rayin@.wf(),
        ensures
            scatter_rel(*self, rayin@, hit@, res),
    {
        let wb: i64 = 4000000000000000000;
        match self {
            MaterialType::Lambertian(l) => {
                if hit.normal.x > wb || hit.normal.x < -wb || hit.normal.y > wb || hit.normal.y
                    < -wb || hit.normal.z > wb || hit.normal.z < -wb {
                    return None;
                }
                proof {
                    crate::vec::lemma_dot_fits3(hit.normal@, hit.normal@,
                        4000000000000000000, 4000000000000000000,
                        16000000000000000000000000000000);
                    crate::vec::lemma_len2_nonneg(hit.normal@);
                }
                let n2: i128 = hit.normal.dot_wide(hit.normal);
                if n2 < 1 {
                    return None;
                }
                let uvw = crate::onb::Onb::new(&hit.normal);
                let local_dir = crate::util::random_cosine_direction(rng);
                let ghost gd0 = local_dir@;
                let scatter_direction = uvw.local(&local_dir);
                proof {
                    crate::vec::lemma_dot_fits3(scatter_direction@, scatter_direction@,
                        48000000000000, 48000000000000, 2304000000000000000000);
                    crate::vec::lemma_len2_nonneg(scatter_direction@);
                }
                let s2: i128 = scatter_direction.dot_wide(scatter_direction);
                if s2 < 1 {
                    proof {
                        assert(gd0.within(SCALE as int));
                        assert(scatter_rel(*self, rayin@, hit@, Option::<Scatter>::None));
                    }
                    return None;
                }
                let scattered = Ray {
                    origin: hit.point,
                    direction: scatter_direction.unit_vector(),
                    time: rayin.time,
                };
                let attenuation = l.albedo.value(hit.u, hit.v, hit.point);
                let out = Scatter {
                    ray: scattered,
                    attenuation,
                    pdf: Some(crate::pdf::CosinePdf::new(hit.normal)),
                };
                let ghost gout = Some(out);
                proof {
                    assert(gd0.within(SCALE as int));
                    assert(scatter_rel(*self, rayin@, hit@, gout));
                }
                Some(out)
            },
            MaterialType::Metal(mt) => {
                if hit.normal.x > 4000000000 || hit.normal.x < -4000000000 || hit.normal.y
                    > 4000000000 || hit.normal.y < -4000000000 || hit.normal.z > 4000000000
                    || hit.normal.z < -4000000000 {
                    return None;
                }
                let d = rayin.direction;
                proof {
                    crate::vec::lemma_dot_fits3(d@, d@, COORD_MAX as int, COORD_MAX as int,
                        100000000000000);
                    crate::vec::lemma_len2_nonneg(d@);
                }
                let l2: i128 = d.dot_wide(d);
                if l2 < 1 {
                    return None;
                }
                let unit = d.unit_vector();
                proof {
                    crate::vec::lemma_dot_fits3(unit@, hit.normal@, 2000000000, 4000000000,
                        8000000000000);
                    let dd = unit@.dot(hit.normal@);
                    crate::fixed::lemma_tmul_bound(hit.normal@.x, 2 * dd, 4000000000,
                        48000000000000);
                    crate::fixed::lemma_tmul_bound(hit.normal@.y, 2 * dd, 4000000000,
                        48000000000000);
                    crate::fixed::lemma_tmul_bound(hit.normal@.z, 2 * dd, 4000000000,
                        48000000000000);
                    crate::fixed::lemma_div_le(4000000000int * 48000000000000int,
                        4000000000int * 48000000000000int, 192000000000000000);
                }
                let reflected = Vec3::reflect(unit, hit.normal);
                let fuzz = if mt.fuzz < 0 {
                    0
                } else if mt.fuzz > 1000000 {
                    1000000
                } else {
                    mt.fuzz
                };
                let s0 = Vec3::random_in_unit_sphere(rng);
                let ghost gfs = s0@;
                let fv = s0.scale(fuzz);
                let dir = reflected.add(fv);
                let scattered = Ray { origin: hit.point, direction: dir, time: rayin.time };
                let attenuation = mt.albedo.value(hit.u, hit.v, hit.point);
                proof {
                    crate::vec::lemma_dot_fits3(dir@, hit.normal@, 1000000000000000000,
                        4000000000, 4000000000000000000000);
                }
                if dir.dot_wide(hit.normal) > 0 {
                    let out = Scatter { ray: scattered, attenuation, pdf: None };
                    let ghost gout = Some(out);
                    proof {
                        assert(gfs.within(SCALE as int));
                        assert(scatter_rel(*self, rayin@, hit@, gout));
                    }
                    Some(out)
                } else {
                    proof {
                        assert(gfs.within(SCALE as int));
                        assert(scatter_rel(*self, rayin@, hit@, Option::<Scatter>::None));
                    }
                    None
                }
            },
            MaterialType::Dielectric(dl) => {
                if dl.ir < 1000 {
                    return None;
                }
                if hit.normal.x > 4000000000 || hit.normal.x < -4000000000 || hit.normal.y
                    > 4000000000 || hit.normal.y < -4000000000 || hit.normal.z > 4000000000
                    || hit.normal.z < -4000000000 {
                    return None;
                }
                let d = rayin.direction;
                proof {
                    crate::vec::lemma_dot_fits3(d@, d@, COORD_MAX as int, COORD_MAX as int,
                        100000000000000);
                    crate::vec::lemma_len2_nonneg(d@);
                }
                let l2: i128 = d.dot_wide(d);
                if l2 < 1 {
                    return None;
                }
                proof {
                    crate::fixed::lemma_fdiv_bound2(SCALE as int, dl.ir as int, SCALE as int,
                        1000);
                    crate::fixed::lemma_fdiv_nonneg(SCALE as int, dl.ir as int);
                }
                let refraction_ratio: i64 = if hit.front_face {
                    fdiv128(1000000, dl.ir as i128) as i64
                } else {
                    if dl.ir > 1000000000 {
                        1000000000
                    } else {
                        dl.ir
                    }
                };
                let unit = d.unit_vector();
                proof {
                    crate::vec::lemma_dot_fits3(unit@, hit.normal@, 2000000000, 4000000000,
                        8000000000000);
                }
                let mcos: i128 = -unit.dot_wide(hit.normal);
                let cos_theta: i64 = if mcos > 1000000 {
                    1000000
                } else if mcos < -24000000000000 {
                    -24000000000000
                } else {
                    mcos as i64
                };
                proof {
                    crate::fixed::lemma_tmul_bound(cos_theta as int, cos_theta as int,
                        24000000000000, 24000000000000);
                    crate::fixed::lemma_tmul_sq_nonneg(cos_theta as int);
                }
                let c2: i128 = fmul128(cos_theta as i128, cos_theta as i128);
                let s2v: i128 = if c2 > 1000000 {
                    0
                } else {
                    1000000 - c2
                };
                let st: i128 = crate::fixed::fsqrt128(s2v);
                proof {
                    assert((st as int) <= 2000000) by (nonlinear_arith)
                        requires
                            0 <= st as int,
                            (st as int) * (st as int) <= (s2v as int) * (SCALE as int),
                            0 <= s2v as int <= 1000000int,
                    ;
                }
                let sin_theta: i64 = st as i64;
                proof {
                    crate::fixed::lemma_tmul_bound(refraction_ratio as int, sin_theta as int,
                        1000000000, 2000000);
                }
                let rs: i128 = fmul128(refraction_ratio as i128, sin_theta as i128);
                let refl = Dielectric::reflectance(cos_theta, refraction_ratio);
                let coin = crate::rng::rand_unit(rng);
                let ghost gcoin = coin as int;
                let cannot_refract = rs > 1000000 || refl > coin;
                let direction: Vec3;
                if cannot_refract {
                    proof {
                        crate::vec::lemma_dot_fits3(unit@, hit.normal@, 2000000000,
                            4000000000, 8000000000000);
                        let dd = unit@.dot(hit.normal@);
                        crate::fixed::lemma_tmul_bound(hit.normal@.x, 2 * dd, 4000000000,
                            48000000000000);
                        crate::fixed::lemma_tmul_bound(hit.normal@.y, 2 * dd, 4000000000,
                            48000000000000);
                        crate::fixed::lemma_tmul_bound(hit.normal@.z, 2 * dd, 4000000000,
                            48000000000000);
                        crate::fixed::lemma_div_le(4000000000int * 48000000000000int,
                            4000000000int * 48000000000000int, 192000000000000000);
                    }
                    direction = Vec3::reflect(unit, hit.normal);
                } else {
                    direction = refract_dir(unit, hit.normal, refraction_ratio);
                }
                let scattered = Ray { origin: hit.point, direction, time: rayin.time };
                let out = Scatter {
                    ray: scattered,
                    attenuation: color(1000000, 1000000, 1000000),
                    pdf: None,
                };
                let ghost gout = Some(out);
                proof {
                    assert(sabs(gcoin) <= SCALE as int);
                    assert(scatter_rel(*self, rayin@, hit@, gout));
                }
                Some(out)
            },
            MaterialType::Isotropic(iso) => {
                let dir = Vec3::random_in_unit_sphere(rng);
                let scattered = Ray { origin: hit.point, direction: dir, time: rayin.time };
                let attenuation = iso.albedo.value(hit.u, hit.v, hit.point);
                Some(Scatter { ray: scattered, attenuation, pdf: None })
            },
            MaterialType::Diffuse(_) => None,
        }
    }
}

impl Dielectric {
    /// Schlick's approximation of the Fresnel reflectance.
    pub fn reflectance(cosine: i64, ref_idx: i64) -> (r: i64)
        requires
            sabs(cosine as int) <= 24000000000000,
            0 <= ref_idx,
            ref_idx <= 1000000000,
        ensures
            r as int == reflectance_v(cosine as int, ref_idx as int),
            0 <= r <= SCALE,
    {
        proof {
            crate::fixed::lemma_fdiv_bound2((SCALE as int) - ref_idx, (SCALE as int) + ref_idx,
                1000000000, 1000000);
            crate::fixed::lemma_tmul_bound(fdivv((SCALE as int) - (ref_idx as int), (
            SCALE as int) + (ref_idx as int)), fdivv((SCALE as int) - (ref_idx as int), (
            SCALE as int) + (ref_idx as int)), 1000000000, 1000000000);
        }
        let q: i128 = fdiv128(1000000 - ref_idx as i128, 1000000 + ref_idx as i128);
        let r0: i128 = fmul128(q, q);
        let r0c: i64 = if r0 > 1000000 {
            1000000
        } else if r0 < 0 {
            0
        } else {
            r0 as i64
        };
        let omc: i64 = if cosine < 0 {
            1000000
        } else if cosine > 1000000 {
            0
        } else {
            1000000 - cosine
        };
        proof {
            crate::fixed::lemma_tmul_bound(omc as int, omc as int, 1000000, 1000000);
            crate::fixed::lemma_tmul_sq_nonneg(omc as int);
        }
        let p2: i128 = fmul128(omc as i128, omc as i128);
        let p2c: i128 = if p2 > 1000000 {
            1000000
        } else {
            p2
        };
        proof {
            crate::fixed::lemma_tmul_bound(p2c as int, p2c as int, 1000000, 1000000);
            crate::fixed::lemma_tmul_sq_nonneg(p2c as int);
        }
        let p4: i128 = fmul128(p2c, p2c);
        let p4c: i128 = if p4 > 1000000 {
            1000000
        } else {
            p4
        };
        proof {
            crate::fixed::lemma_tmul_bound(p4c as int, omc as int, 1000000, 1000000);
            crate::fixed::lemma_tmul_nonneg(p4c as int, omc as int);
            crate::fixed::lemma_div_le(1000000int * 1000000int, 1000000int * 1000000int,
                1000000);
        }
        let p5: i128 = fmul128(p4c, omc as i128);
        proof {
            crate::fixed::lemma_tmul_bound((SCALE as int) - (r0c as int), p5 as int, 1000000,
                1000000);
            crate::fixed::lemma_tmul_nonneg((SCALE as int) - (r0c as int), p5 as int);
        }
        let second: i128 = fmul128(1000000 - r0c as i128, p5);
        let total: i128 = (r0c as i128) + second;
        if total > 1000000 {
            1000000
        } else if total < 0 {
            0
        } else {
            total as i64
        }
    }
}

/// The refracted direction by the vector form of Snell's law.
fn refract_dir(uv: Vec3, n: Vec3, etai_over_etat: i64) -> (r: Vec3)
    requires
        uv@.within(2000000000),
        n@.within(4000000000),
        0 <= etai_over_etat,
        etai_over_etat <= 1000000000,
    ensures
        r@ == refract_v(uv@, n@, etai_over_etat as int),
        r@.within(1000000000000000000),
{
    proof {
        crate::vec::lemma_dot_fits3(uv@, n@, 2000000000, 4000000000, 8000000000000);
    }
    let cos_theta: i128 = -uv.dot_wide(n);
    let ct: i64 = if cos_theta > 1000000 {
        1000000
    } else if cos_theta < -1000000 {
        -1000000
    } else {
        cos_theta as i64
    };
    proof {
        crate::fixed::lemma_tmul_bound(n@.x, ct as int, 4000000000, 1000000);
        crate::fixed::lemma_tmul_bound(n@.y, ct as int, 4000000000, 1000000);
        crate::fixed::lemma_tmul_bound(n@.z, ct as int, 4000000000, 1000000);
    }
    let cn = n.scale(ct);
    let sum = uv.add(cn);
    proof {
        crate::fixed::lemma_tmul_bound(sum@.x, etai_over_etat as int, 6000000000, 1000000000);
        crate::fixed::lemma_tmul_bound(sum@.y, etai_over_etat as int, 6000000000, 1000000000);
        crate::fixed::lemma_tmul_bound(sum@.z, etai_over_etat as int, 6000000000, 1000000000);
    }
    let r_out_perp = sum.scale(etai_over_etat);
    proof {
        crate::vec::lemma_dot_fits3(r_out_perp@, r_out_perp@, 6000000000000, 6000000000000,
            36000000000000000000);
        crate::vec::lemma_len2_nonneg(r_out_perp@);
    }
    let pl2: i128 = r_out_perp.dot_wide(r_out_perp);
    let inner: i128 = if pl2 > 1000000 {
        0
    } else {
        1000000 - pl2
    };
    let rt: i128 = crate::fixed::fsqrt128(inner);
    proof {
        assert((rt as int) <= 1100000) by (nonlinear_arith)
            requires
                0 <= rt as int,
                (rt as int) * (rt as int) <= (inner as int) * (SCALE as int),
                (inner as int) <= 1000000int,
        ;
    }
    let root: i64 = rt as i64;
    proof {
        crate::fixed::lemma_tmul_bound(n@.x, -(root as int), 4000000000, 1100000);
        crate::fixed::lemma_tmul_bound(n@.y, -(root as int), 4000000000, 1100000);
        crate::fixed::lemma_tmul_bound(n@.z, -(root as int), 4000000000, 1100000);
    }
    let r_out_parallel = n.scale(-root);
    r_out_perp.add(r_out_parallel)
}

} // verus!
