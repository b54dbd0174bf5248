use rtlib::vec::Vec3;
use rtlib::hittable::{Sphere, XzRect, HittableList, Hittables, BvhNode, ConstantMedium};
use rtlib::material::{Lambertian, Diffuse, MaterialType};
use rtlib::texture::SolidColor;
use rtlib::pdf::{CosinePdf, HittablePdf, MixturePdf, PdfType};
use rtlib::ray::Ray;
use rtlib::camera::{Camera, CameraConfig};
use rtlib::color::color;
use rtlib::trace::ray_color;
use std::sync::Arc;
use rand::Rng;
use rand::SeedableRng;

fn seeded(seed: u64) -> rand::rngs::SmallRng {
    <rand::rngs::SmallRng as rand::SeedableRng>::seed_from_u64(seed)
}

fn unit(x: f64) -> i64 {
    (x * 1_000_000.0).round() as i64
}

fn gray() -> Arc<MaterialType> {
    Lambertian::new(SolidColor::new(unit(0.5), unit(0.5), unit(0.5)))
}

fn small_world() -> Vec<Hittables> {
    let mut v = Vec::new();
    v.push(Sphere::new(Vec3::new(0, 0, unit(3.0)), unit(1.0), gray()));
    v.push(Sphere::new(Vec3::new(unit(2.0), unit(0.5), unit(6.0)), unit(1.5), gray()));
    v.push(Sphere::new(Vec3::new(unit(-2.0), unit(-0.5), unit(4.0)), unit(0.7), gray()));
    v.push(XzRect::new(unit(-3.0), unit(3.0), unit(-3.0), unit(9.0), unit(-2.0), gray()));
    v.push(Sphere::new(Vec3::new(unit(0.5), unit(2.0), unit(7.0)), unit(0.9), gray()));
    v
}

#[test]
fn bvh_matches_linear_scan() {
    let mut rng = seeded(11);
    let list = HittableList { hittables: small_world() };
    let bvh = BvhNode::new(list, 0, unit(1.0), &mut rng);
    let tree = Hittables::BvhNode(bvh);
    let scan = Hittables::HittableList(HittableList { hittables: small_world() });
    let mut probe = rand::rngs::SmallRng::seed_from_u64(5);
    for _ in 0..200 {
        let o = Vec3::new(
            probe.gen_range(-4_000_000i64..4_000_000i64),
            probe.gen_range(-4_000_000i64..4_000_000i64),
            unit(-6.0),
        );
        let d = Vec3::new(
            probe.gen_range(-300_000i64..300_000i64),
            probe.gen_range(-300_000i64..300_000i64),
            unit(1.0),
        );
        let ray = Ray { origin: o, direction: d, time: 0 };
        let a = tree.hit(&ray, 100, 10_000_000_000, &mut rng);
        let b = scan.hit(&ray, 100, 10_000_000_000, &mut rng);
        match (a, b) {
            (None, None) => {}
            (Some(x), Some(y)) => {
                assert_eq!(x.t, y.t);
                assert_eq!(x.point.x, y.point.x);
                assert_eq!(x.point.y, y.point.y);
                assert_eq!(x.point.z, y.point.z);
            }
            _ => panic!("tree and scan disagree"),
        }
    }
}

#[test]
fn mixture_value_is_half_and_half() {
    let mut rng = seeded(3);
    let p1 = CosinePdf::new(Vec3::new(0, 0, unit(1.0)));
    let rect = XzRect::new(0, unit(1.0), 0, unit(1.0), unit(5.0), gray());
    let p2 = HittablePdf::new(Vec3::new(unit(0.5), 0, unit(0.5)), Arc::new(rect));
    let dirs = [
        Vec3::new(0, unit(1.0), 0),
        Vec3::new(unit(0.3), unit(0.9), unit(-0.2)),
        Vec3::new(0, unit(-1.0), 0),
        Vec3::new(unit(1.0), unit(1.0), unit(1.0)),
    ];
    for d in dirs.iter() {
        let v1 = p1.value(*d, &mut rng);
        let v2 = p2.value(*d, &mut rng);
        let mix = MixturePdf::new(Arc::new(clone_pdf(&p1)), Arc::new(clone_pdf(&p2)));
        let vm = mix.value(*d, &mut rng);
        assert_eq!(vm, v1 / 2 + v2 / 2);
    }
}

fn clone_pdf(p: &PdfType) -> PdfType {
    match p {
        PdfType::CosinePdf(c) => PdfType::CosinePdf(rtlib::pdf::CosinePdf { uvw: c.uvw }),
        PdfType::HittablePdf(h) => PdfType::HittablePdf(rtlib::pdf::HittablePdf {
            origin: h.origin,
            object: h.object.clone(),
        }),
        PdfType::MixturePdf(m) => PdfType::MixturePdf(rtlib::pdf::MixturePdf {
            pdf1: m.pdf1.clone(),
            pdf2: m.pdf2.clone(),
        }),
    }
}

#[test]
fn cosine_pdf_integrates_to_one() {
    let mut rng = seeded(9);
    let p = CosinePdf::new(Vec3::new(0, 0, unit(1.0)));
    let mut probe = rand::rngs::SmallRng::seed_from_u64(21);
    let n = 20000;
    let mut sum = 0.0f64;
    for _ in 0..n {
        // uniform direction on the upper hemisphere, drawn in float space
        let z: f64 = probe.gen_range(0.0..1.0);
        let phi: f64 = probe.gen_range(0.0..(2.0 * std::f64::consts::PI));
        let r = (1.0f64 - z * z).sqrt();
        let d = Vec3::new(
            unit(r * phi.cos()),
            unit(r * phi.sin()),
            unit(z),
        );
        let v = p.value(d, &mut rng) as f64 / 1_000_000.0;
        sum += v;
    }
    // E[value] over the hemisphere times its solid angle (2 pi) is 1
    let integral = sum / (n as f64) * 2.0 * std::f64::consts::PI;
    assert!((integral - 1.0).abs() < 0.05, "integral = {}", integral);
}

#[test]
fn dense_medium_scatters_almost_surely() {
    // density of one million per unit: the free path is microscopic
    let boundary = Sphere::new(Vec3::new(0, 0, 0), unit(2.0), gray());
    let medium = ConstantMedium::new(
        Arc::new(boundary),
        1_000_000_000_000,
        rtlib::texture::SolidColor::new(unit(1.0), unit(1.0), unit(1.0)),
    );
    let ray = Ray {
        origin: Vec3::new(0, 0, unit(-5.0)),
        direction: Vec3::new(0, 0, unit(1.0)),
        time: 0,
    };
    let mut scattered = 0;
    for seed in 0..100u64 {
        let mut rng = seeded(seed);
        if medium.hit(&ray, 100, 10_000_000_000, &mut rng).is_some() {
            scattered += 1;
        }
    }
    assert!(scattered >= 95, "scattered {}", scattered);
}

fn tiny_scene() -> (Camera, Hittables, Arc<Hittables>) {
    let mut objects = HittableList { hittables: Vec::new() };
    objects.add(Sphere::new(Vec3::new(0, 0, 0), unit(1.0), gray()));
    objects.add(XzRect::new(
        unit(-2.0),
        unit(2.0),
        unit(-2.0),
        unit(2.0),
        unit(3.0),
        Diffuse::new(SolidColor::new(unit(4.0), unit(4.0), unit(4.0))),
    ));
    let world = Hittables::HittableList(objects);
    let mut lights = HittableList { hittables: Vec::new() };
    lights.add(XzRect::new(
        unit(-2.0),
        unit(2.0),
        unit(-2.0),
        unit(2.0),
        unit(3.0),
        gray(),
    ));
    let lights = Arc::new(Hittables::HittableList(lights));
    let cam = Camera::new(CameraConfig {
        lookfrom: Vec3::new(0, unit(1.0), unit(-6.0)),
        lookat: Vec3::new(0, 0, 0),
        vup: Vec3::new(0, unit(1.0), 0),
        vfov: unit(40.0),
        aspect_ratio: unit(1.0),
        aperture: 0,
        focus_dist: unit(6.0),
        time0: 0,
        time1: unit(1.0),
        background: color(unit(0.05), unit(0.05), unit(0.1)),
    });
    (cam, world, lights)
}

fn render_once(seed: u64) -> Vec<(u64, u64, u64)> {
    let (cam, world, lights) = tiny_scene();
    let width = 4usize;
    let height = 4usize;
    let spp = 2u64;
    let mut out = Vec::new();
    let mut rng = seeded(seed);
    for j in 0..height {
        for i in 0..width {
            let mut acc = color(0, 0, 0);
            for _ in 0..spp {
                let s = (i as i64) * 1_000_000 / (width as i64 - 1);
                let t = (j as i64) * 1_000_000 / (height as i64 - 1);
                let ray = cam.get_ray(s, t, &mut rng);
                let c = ray_color(ray, cam.background, &world, lights.clone(), 8, &mut rng);
                acc.add_assign(c);
            }
            out.push(rtlib::color::write_color_channels(acc, spp));
        }
    }
    out
}

#[test]
fn render_is_deterministic_per_seed() {
    let a = render_once(424242);
    let b = render_once(424242);
    assert_eq!(a, b);
}

#[test]
fn rotate_zero_is_identity() {
    let shape = Sphere::new(Vec3::new(0, 0, unit(3.0)), unit(1.0), gray());
    let rotated = rtlib::hittable::RotateY::new(Arc::new(shape), 0);
    let plain = Sphere::new(Vec3::new(0, 0, unit(3.0)), unit(1.0), gray());
    let ray = Ray {
        origin: Vec3::new(unit(0.2), unit(-0.1), unit(-5.0)),
        direction: Vec3::new(0, 0, unit(1.0)),
        time: 0,
    };
    let mut rng = seeded(13);
    let a = rotated.hit(&ray, 100, 10_000_000_000, &mut rng).expect("hit");
    let b = plain.hit(&ray, 100, 10_000_000_000, &mut rng).expect("hit");
    assert_eq!(a.t, b.t);
    assert_eq!(a.point.x, b.point.x);
    assert_eq!(a.point.y, b.point.y);
    assert_eq!(a.point.z, b.point.z);
    assert_eq!(a.normal.x, b.normal.x);
    assert_eq!(a.normal.y, b.normal.y);
    assert_eq!(a.normal.z, b.normal.z);
}
