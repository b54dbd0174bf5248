use rtlib::vec::Vec3;
use rtlib::aabb::Aabb;
use rtlib::color::{color, write_color_channels};
use rtlib::hittable::{Sphere, XzRect, HittableList, Hittables, FlipFace, Translate};
use rtlib::material::{Lambertian, MaterialType};
use rtlib::texture::SolidColor;
use rtlib::ray::Ray;
use std::sync::Arc;

fn seeded(seed: u64) -> rand::rngs::SmallRng {
    <rand::rngs::SmallRng as rand::SeedableRng>::seed_from_u64(seed)
}

fn unit(x: f64) -> i64 {
    (x * 1_000_000.0).round() as i64
}

fn gray() -> Arc<MaterialType> {
    Lambertian::new(SolidColor::new(unit(0.5), unit(0.5), unit(0.5)))
}

#[test]
fn vec_add() {
    let a = Vec3 {
        x: unit(1.0),
        y: unit(1.0),
        z: unit(1.0),
    };
    let b = Vec3 {
        x: unit(1.0),
        y: unit(2.0),
        z: unit(3.0),
    };
    let c = Vec3 {
        x: unit(2.0),
        y: unit(3.0),
        z: unit(4.0),
    };
    let ab = a.add(b);
    assert_eq!(c.x, ab.x);
    assert_eq!(c.y, ab.y);
    assert_eq!(c.z, ab.z);
}

#[test]
fn vec_sub() {
    let a = Vec3 {
        x: unit(10.0),
        y: unit(10.0),
        z: unit(10.0),
    };
    let b = Vec3 {
        x: unit(1.0),
        y: unit(2.0),
        z: unit(3.0),
    };
    let c = Vec3 {
        x: unit(9.0),
        y: unit(8.0),
        z: unit(7.0),
    };
    let ab = a.sub(b);
    assert_eq!(c.x, ab.x);
    assert_eq!(c.y, ab.y);
    assert_eq!(c.z, ab.z);
}

#[test]
fn const_add() {
    let a = Vec3 {
        x: unit(1.0),
        y: unit(1.0),
        z: unit(1.0),
    };
    let c = Vec3 {
        x: unit(3.0),
        y: unit(3.0),
        z: unit(3.0),
    };
    let ab = a.add_s(unit(2.0));
    assert_eq!(c.x, ab.x);
    assert_eq!(c.y, ab.y);
    assert_eq!(c.z, ab.z);
}

#[test]
fn const_sub() {
    let a = Vec3 {
        x: unit(10.0),
        y: unit(10.0),
        z: unit(10.0),
    };
    let c = Vec3 {
        x: unit(9.0),
        y: unit(9.0),
        z: unit(9.0),
    };
    let ab = a.sub_s(unit(1.0));
    assert_eq!(c.x, ab.x);
    assert_eq!(c.y, ab.y);
    assert_eq!(c.z, ab.z);
}

#[test]
fn const_mul() {
    let a = Vec3 {
        x: unit(10.0),
        y: unit(10.0),
        z: unit(10.0),
    };
    let c = Vec3 {
        x: unit(9.0),
        y: unit(9.0),
        z: unit(9.0),
    };
    let ab = a.scale(unit(0.9));
    assert_eq!(c.x, ab.x);
    assert_eq!(c.y, ab.y);
    assert_eq!(c.z, ab.z);
}

#[test]
fn dot_unit() {
    let a = Vec3 {
        x: unit(3.0),
        y: unit(4.0),
        z: unit(5.0),
    };
    let c = Vec3 {
        x: unit(1.0),
        y: unit(1.0),
        z: unit(1.0),
    };
    assert_eq!(unit(12.0), a.dot(c))
}

#[test]
fn aabb_union_commutative_and_associative() {
    let a = Aabb::new(
        Vec3::new(unit(-1.0), unit(0.0), unit(2.0)),
        Vec3::new(unit(3.0), unit(1.0), unit(4.0)),
    );
    let b = Aabb::new(
        Vec3::new(unit(0.5), unit(-2.0), unit(1.0)),
        Vec3::new(unit(2.0), unit(5.0), unit(9.0)),
    );
    let c = Aabb::new(
        Vec3::new(unit(-7.0), unit(3.0), unit(0.0)),
        Vec3::new(unit(0.0), unit(6.0), unit(1.0)),
    );
    let ab = Aabb::surrounding_box(a, b);
    let ba = Aabb::surrounding_box(b, a);
    assert_eq!(ab.minimum.x, ba.minimum.x);
    assert_eq!(ab.maximum.z, ba.maximum.z);
    let left = Aabb::surrounding_box(a, Aabb::surrounding_box(b, c));
    let right = Aabb::surrounding_box(Aabb::surrounding_box(a, b), c);
    assert_eq!(left.minimum.x, right.minimum.x);
    assert_eq!(left.minimum.y, right.minimum.y);
    assert_eq!(left.minimum.z, right.minimum.z);
    assert_eq!(left.maximum.x, right.maximum.x);
    assert_eq!(left.maximum.y, right.maximum.y);
    assert_eq!(left.maximum.z, right.maximum.z);
}

#[test]
fn sphere_hit_axis_ray() {
    let s = Sphere::new(Vec3::new(0, 0, 0), unit(1.0), gray());
    let ray = Ray {
        origin: Vec3::new(0, 0, unit(-5.0)),
        direction: Vec3::new(0, 0, unit(1.0)),
        time: 0,
    };
    let mut rng = seeded(7);
    let hit = s.hit(&ray, 100, 10_000_000_000, &mut rng).expect("must hit");
    assert_eq!(hit.t, unit(4.0));
    assert_eq!(hit.point.x, 0);
    assert_eq!(hit.point.y, 0);
    assert_eq!(hit.point.z, unit(-1.0));
    assert_eq!(hit.normal.x, 0);
    assert_eq!(hit.normal.y, 0);
    assert_eq!(hit.normal.z, unit(-1.0));
    assert!(hit.front_face);
}

#[test]
fn sphere_miss_axis_ray() {
    let s = Sphere::new(Vec3::new(0, 0, 0), unit(1.0), gray());
    let ray = Ray {
        origin: Vec3::new(unit(5.0), 0, unit(-5.0)),
        direction: Vec3::new(0, 0, unit(1.0)),
        time: 0,
    };
    let mut rng = seeded(7);
    assert!(s.hit(&ray, 100, 10_000_000_000, &mut rng).is_none());
}

#[test]
fn xz_rect_hit_and_pdf() {
    let r = XzRect::new(0, unit(1.0), 0, unit(1.0), unit(5.0), gray());
    let ray = Ray {
        origin: Vec3::new(unit(0.5), 0, unit(0.5)),
        direction: Vec3::new(0, unit(1.0), 0),
        time: 0,
    };
    let mut rng = seeded(7);
    let hit = r.hit(&ray, 100, 10_000_000_000, &mut rng).expect("must hit");
    assert_eq!(hit.t, unit(5.0));
    let pdf = r.pdf_value(
        Vec3::new(unit(0.5), 0, unit(0.5)),
        Vec3::new(0, unit(1.0), 0),
        &mut rng,
    );
    assert_eq!(pdf, unit(25.0));
}

#[test]
fn sphere_pdf_is_reciprocal_solid_angle() {
    // eye two units from a unit sphere: the subtended solid angle is
    // 2*pi*(1 - sqrt(1 - 1/4)), whose reciprocal is about 1.1879
    let s = Sphere::new(Vec3::new(0, 0, unit(2.0)), unit(1.0), gray());
    let mut rng = seeded(7);
    let pdf = s.pdf_value(Vec3::new(0, 0, 0), Vec3::new(0, 0, unit(1.0)), &mut rng);
    assert_eq!(pdf, 1187946);
    // a direction that misses the sphere has density zero
    let miss = s.pdf_value(Vec3::new(0, 0, 0), Vec3::new(0, 0, unit(-1.0)), &mut rng);
    assert_eq!(miss, 0);
}

#[test]
fn list_bounding_box_is_union_of_members() {
    let mut list = HittableList { hittables: Vec::new() };
    list.add(Sphere::new(
        Vec3::new(unit(10.0), unit(10.0), unit(10.0)),
        unit(1.0),
        gray(),
    ));
    let world = Hittables::HittableList(list);
    let bb = world.bounding_box(0, unit(1.0)).expect("boxed");
    assert_eq!(bb.minimum.x, unit(9.0));
    assert_eq!(bb.minimum.y, unit(9.0));
    assert_eq!(bb.minimum.z, unit(9.0));
    assert_eq!(bb.maximum.x, unit(11.0));
}

#[test]
fn isotropic_scatters_from_the_hit_point() {
    let medium_mat = rtlib::material::Isotropic::new(SolidColor::new(
        unit(0.8),
        unit(0.8),
        unit(0.8),
    ));
    let hit = rtlib::hittable::HitRecord {
        point: Vec3::new(0, 0, unit(5.0)),
        normal: Vec3::new(unit(1.0), 0, 0),
        t: unit(5.0),
        u: 0,
        v: 0,
        front_face: true,
        mat: medium_mat.clone(),
    };
    let ray = Ray {
        origin: Vec3::new(unit(1.0), 0, 0),
        direction: Vec3::new(0, 0, unit(1.0)),
        time: 0,
    };
    let mut rng = seeded(5);
    let sc = medium_mat.scatter(&ray, &hit, &mut rng).expect("always scatters");
    assert_eq!(sc.ray.origin.x, 0);
    assert_eq!(sc.ray.origin.y, 0);
    assert_eq!(sc.ray.origin.z, unit(5.0));
}

#[test]
fn translate_round_trip_records() {
    let shape = Sphere::new(Vec3::new(0, 0, 0), unit(1.0), gray());
    let v = Vec3::new(unit(2.0), unit(-1.0), unit(0.5));
    let nv = Vec3::new(-v.x, -v.y, -v.z);
    let inner = Translate::new(Arc::new(shape), v);
    let outer = Translate::new(Arc::new(inner), nv);
    let plain = Sphere::new(Vec3::new(0, 0, 0), unit(1.0), gray());
    let ray = Ray {
        origin: Vec3::new(unit(0.3), unit(0.1), unit(-5.0)),
        direction: Vec3::new(0, 0, unit(1.0)),
        time: 0,
    };
    let mut rng = seeded(7);
    let a = outer.hit(&ray, 100, 10_000_000_000, &mut rng).expect("hit");
    let b = plain.hit(&ray, 100, 10_000_000_000, &mut rng).expect("hit");
    assert_eq!(a.t, b.t);
    assert_eq!(a.point.x, b.point.x);
    assert_eq!(a.point.y, b.point.y);
    assert_eq!(a.point.z, b.point.z);
    assert_eq!(a.normal.x, b.normal.x);
    assert_eq!(a.normal.y, b.normal.y);
    assert_eq!(a.normal.z, b.normal.z);
    assert_eq!(a.front_face, b.front_face);
}

#[test]
fn flip_face_only_flips_flag() {
    let shape = Sphere::new(Vec3::new(0, 0, 0), unit(1.0), gray());
    let flipped = FlipFace::new(shape);
    let plain = Sphere::new(Vec3::new(0, 0, 0), unit(1.0), gray());
    let ray = Ray {
        origin: Vec3::new(0, 0, unit(-5.0)),
        direction: Vec3::new(0, 0, unit(1.0)),
        time: 0,
    };
    let mut rng = seeded(7);
    let a = flipped.hit(&ray, 100, 10_000_000_000, &mut rng).expect("hit");
    let b = plain.hit(&ray, 100, 10_000_000_000, &mut rng).expect("hit");
    assert_eq!(a.t, b.t);
    assert_eq!(a.front_face, !b.front_face);
}

#[test]
fn list_returns_closest_hit() {
    let mut list = HittableList { hittables: Vec::new() };
    list.add(Sphere::new(Vec3::new(0, 0, unit(3.0)), unit(1.0), gray()));
    list.add(Sphere::new(Vec3::new(0, 0, unit(8.0)), unit(1.0), gray()));
    let world = Hittables::HittableList(list);
    let ray = Ray {
        origin: Vec3::new(0, 0, unit(-5.0)),
        direction: Vec3::new(0, 0, unit(1.0)),
        time: 0,
    };
    let mut rng = seeded(7);
    let hit = world.hit(&ray, 100, 10_000_000_000, &mut rng).expect("hit");
    assert_eq!(hit.t, unit(7.0));
}

#[test]
fn lookup_texture_answers_by_cell() {
    // a two-by-one raster: left red, right blue; row zero is the top
    let tex = rtlib::texture::Texture::Lookup(rtlib::texture::LookupTexture {
        width: 2,
        height: 1,
        pixels: vec![color(unit(1.0), 0, 0), color(0, 0, unit(1.0))],
    });
    let left = tex.value(unit(0.25), unit(0.5), Vec3::new(0, 0, 0));
    assert_eq!(left.r, unit(1.0));
    assert_eq!(left.b, 0);
    let right = tex.value(unit(0.75), unit(0.5), Vec3::new(0, 0, 0));
    assert_eq!(right.r, 0);
    assert_eq!(right.b, unit(1.0));
    // a malformed table answers black
    let bad = rtlib::texture::Texture::Lookup(rtlib::texture::LookupTexture {
        width: 2,
        height: 1,
        pixels: vec![color(unit(1.0), 0, 0)],
    });
    let c = bad.value(unit(0.25), unit(0.5), Vec3::new(0, 0, 0));
    assert_eq!(c.r, 0);
}

#[test]
fn channel_mapping_is_exact() {
    let c = color(unit(0.25), unit(0.5), unit(1.0));
    let (r, g, b) = write_color_channels(c, 1);
    assert_eq!(r, 127);
    assert_eq!(g, 181);
    assert_eq!(b, 255);
}

#[test]
fn negative_channel_reads_black() {
    let c = color(unit(-0.5), 0, 0);
    let (r, g, b) = write_color_channels(c, 1);
    assert_eq!(r, 0);
    assert_eq!(g, 0);
    assert_eq!(b, 0);
}
