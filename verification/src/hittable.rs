//! The polymorphic scene-graph node: a closed set of geometry variants
//! dispatched by one enum, each answering ray intersection and bounding
//! box queries. The intersection contract is relational: deterministic
//! variants are pinned to an exact functional model, and composites
//! quantify over their children's outcomes.
use vstd::prelude::*;
use std::sync::Arc;
use rand::rngs::SmallRng;
use crate::fixed::{
    sabs, tmul, tdiv, fdivv, fsqrt_v, is_sqrt, SCALE, COORD_MAX, PT_MAX, T_FAR,
    fmul128, fmul128w, fdiv128, fsqrt128,
    lemma_tmul_bound, lemma_tdiv_bound, lemma_fdiv_bound2, lemma_fdiv_frac, lemma_sabs_mul,
};
use crate::vec::{Vec3, V3, dot_mag, lemma_dot_fits, lemma_len2_nonneg};
use crate::ray::{Ray, RayV, face_normal, face_normal_v};
use crate::aabb::{Aabb, AabbV, box_union, slab_hit, imin, imax, box_contains,
    lemma_union_contains, lemma_contains_trans};
use crate::material::MaterialType;
use crate::util::{acos_v, atan2_v, acos_fx, atan2_fx, PI_FX, TWO_PI_FX};

verus! {

/// Mathematical value of a hit record, the material included.
pub struct HitV {
    pub point: V3,
    pub normal: V3,
    pub t: int,
    pub u: int,
    pub v: int,
    pub front_face: bool,
    pub mat: MaterialType,
}

pub struct HitRecord {
    pub point: Vec3,
    pub normal: Vec3,
    pub t: i64,
    pub u: i64,
    pub v: i64,
    pub front_face: bool,
    pub mat: Arc<MaterialType>,
}

impl View for HitRecord {
    type V = HitV;

    open spec fn view(&self) -> HitV {
        HitV {
            point: self.point@,
            normal: self.normal@,
            t: self.t as int,
            u: self.u as int,
            v: self.v as int,
            front_face: self.front_face,
            mat: *self.mat,
        }
    }
}

#[derive(Debug, Clone)]
pub struct Sphere {
    pub center: Vec3,
    pub radius: i64,
    pub mat: Arc<MaterialType>,
}

#[derive(Debug, Clone)]
pub struct XyRect {
    pub x0: i64,
    pub x1: i64,
    pub y0: i64,
    pub y1: i64,
    pub k: i64,
    pub mat: Arc<MaterialType>,
}

#[derive(Debug, Clone)]
pub struct XzRect {
    pub x0: i64,
    pub x1: i64,
    pub z0: i64,
    pub z1: i64,
    pub k: i64,
    pub mat: Arc<MaterialType>,
}

#[derive(Debug, Clone)]
pub struct YzRect {
    pub y0: i64,
    pub y1: i64,
    pub z0: i64,
    pub z1: i64,
    pub k: i64,
    pub mat: Arc<MaterialType>,
}

#[derive(Debug, Clone)]
pub struct MovingSphere {
    pub center0: Vec3,
    pub center1: Vec3,
    pub radius: i64,
    pub time0: i64,
    pub time1: i64,
    pub mat: Arc<MaterialType>,
}

#[derive(Debug)]
pub struct Box3D {
    pub box_min: Vec3,
    pub box_max: Vec3,
    pub sides: HittableList,
}

#[derive(Debug)]
pub struct BvhNode {
    pub bbox: Aabb,
    pub left: Arc<Hittables>,
    pub right: Arc<Hittables>,
}

#[derive(Debug)]
pub struct RotateX {
    pub object: Arc<Hittables>,
    pub sin_theta: i64,
    pub cos_theta: i64,
    pub bbox: Option<Aabb>,
}

#[derive(Debug)]
pub struct RotateY {
    pub object: Arc<Hittables>,
    pub sin_theta: i64,
    pub cos_theta: i64,
    pub bbox: Option<Aabb>,
}

#[derive(Debug)]
pub struct RotateZ {
    pub object: Arc<Hittables>,
    pub sin_theta: i64,
    pub cos_theta: i64,
    pub bbox: Option<Aabb>,
}

#[derive(Debug)]
pub struct ConstantMedium {
    pub boundary: Arc<Hittables>,
    pub phase_fn: Arc<MaterialType>,
    pub neg_inv_density: i64,
}

#[derive(Debug)]
pub struct HittableList {
    pub hittables: Vec<Hittables>,
}

#[derive(Debug)]
pub struct Translate {
    pub object: Arc<Hittables>,
    pub offset: Vec3,
}

#[derive(Debug)]
pub struct FlipFace {
    pub object: Box<Hittables>,
}

#[derive(Debug)]
pub enum Hittables {
    Box3D(Box3D),
    BvhNode(BvhNode),
    ConstantMedium(ConstantMedium),
    FlipFace(FlipFace),
    HittableList(HittableList),
    MovingSphere(MovingSphere),
    RotateX(RotateX),
    RotateY(RotateY),
    RotateZ(RotateZ),
    Sphere(Sphere),
    Translate(Translate),
    XyRect(XyRect),
    XzRect(XzRect),
    YzRect(YzRect),
}

/// Structural well-formedness: coordinates within the scene bound, radii
/// thick enough to divide by, rectangle edges properly ordered, and the
/// same recursively of every child.
pub open spec fn hittable_wf(h: Hittables) -> bool
    decreases h,
{
    match h {
        Hittables::Sphere(s) => s.center@.within(COORD_MAX as int) && 10000 <= s.radius
            && s.radius <= COORD_MAX,
        Hittables::XyRect(r) => sabs(r.x0 as int) <= COORD_MAX && sabs(r.x1 as int) <= COORD_MAX
            && sabs(r.y0 as int) <= COORD_MAX && sabs(r.y1 as int) <= COORD_MAX
            && sabs(r.k as int) <= COORD_MAX && r.x0 < r.x1 && r.y0 < r.y1,
        Hittables::XzRect(r) => sabs(r.x0 as int) <= COORD_MAX && sabs(r.x1 as int) <= COORD_MAX
            && sabs(r.z0 as int) <= COORD_MAX && sabs(r.z1 as int) <= COORD_MAX
            && sabs(r.k as int) <= COORD_MAX && r.x0 < r.x1 && r.z0 < r.z1,
        Hittables::YzRect(r) => sabs(r.y0 as int) <= COORD_MAX && sabs(r.y1 as int) <= COORD_MAX
            && sabs(r.z0 as int) <= COORD_MAX && sabs(r.z1 as int) <= COORD_MAX
            && sabs(r.k as int) <= COORD_MAX && r.y0 < r.y1 && r.z0 < r.z1,
        Hittables::MovingSphere(s) => s.center0@.within(COORD_MAX as int)
            && s.center1@.within(COORD_MAX as int) && 10000 <= s.radius && s.radius <= COORD_MAX
            && sabs(s.time0 as int) <= T_FAR && sabs(s.time1 as int) <= T_FAR && s.time0 + 1000
            <= s.time1,
        Hittables::Box3D(b) => sabs(b.box_min@.x) <= COORD_MAX && sabs(b.box_min@.y) <= COORD_MAX
            && sabs(b.box_min@.z) <= COORD_MAX && sabs(b.box_max@.x) <= COORD_MAX
            && sabs(b.box_max@.y) <= COORD_MAX && sabs(b.box_max@.z) <= COORD_MAX && forall|
            i: int|
            0 <= i < b.sides.hittables@.len() ==> hittable_wf(#[trigger] b.sides.hittables@[i]),
        Hittables::BvhNode(n) => hittable_wf(*n.left) && hittable_wf(*n.right),
        Hittables::RotateX(rx) => sabs(rx.sin_theta as int) <= SCALE && sabs(
            rx.cos_theta as int) <= SCALE && hittable_wf(*rx.object),
        Hittables::RotateY(ry) => sabs(ry.sin_theta as int) <= SCALE && sabs(
            ry.cos_theta as int) <= SCALE && hittable_wf(*ry.object),
        Hittables::RotateZ(rz) => sabs(rz.sin_theta as int) <= SCALE && sabs(
            rz.cos_theta as int) <= SCALE && hittable_wf(*rz.object),
        Hittables::ConstantMedium(cm) => -1000000000000 <= cm.neg_inv_density <= 0
            && hittable_wf(*cm.boundary),
        Hittables::HittableList(l) => forall|i: int|
            0 <= i < l.hittables@.len() ==> hittable_wf(#[trigger] l.hittables@[i]),
        Hittables::Translate(t) => t.offset@.within(COORD_MAX as int) && hittable_wf(*t.object),
        Hittables::FlipFace(f) => hittable_wf(*f.object),
    }
}

/// Whether the ray's time-of-sample is one the node was built for; the
/// stationary variants accept any time.
pub open spec fn time_ok(h: Hittables, time: int) -> bool
    decreases h,
{
    match h {
        Hittables::MovingSphere(s) => s.time0 <= time <= s.time1,
        Hittables::Box3D(b) => forall|i: int|
            0 <= i < b.sides.hittables@.len() ==> time_ok(#[trigger] b.sides.hittables@[i],
                time),
        Hittables::BvhNode(n) => time_ok(*n.left, time) && time_ok(*n.right, time),
        Hittables::RotateX(rx) => time_ok(*rx.object, time),
        Hittables::RotateY(ry) => time_ok(*ry.object, time),
        Hittables::RotateZ(rz) => time_ok(*rz.object, time),
        Hittables::ConstantMedium(cm) => time_ok(*cm.boundary, time),
        Hittables::HittableList(l) => forall|i: int|
            0 <= i < l.hittables@.len() ==> time_ok(#[trigger] l.hittables@[i], time),
        Hittables::Translate(t) => time_ok(*t.object, time),
        Hittables::FlipFace(f) => time_ok(*f.object, time),
        _ => true,
    }
}

/// Where a moving sphere's centre stands at a time-of-sample: linear
/// interpolation between its two endpoint centres.
pub open spec fn center_at(s: MovingSphere, time: int) -> V3 {
    s.center0@.add(s.center1@.sub(s.center0@).scale(fdivv(time - s.time0, s.time1 - s.time0)))
}

/// How a tree node combines its children's answers: the closer hit wins;
/// a tie goes to the right child.
pub open spec fn bvh_merge(
    hl: Option<HitRecord>,
    hr: Option<HitRecord>,
    res: Option<HitRecord>,
) -> bool {
    match (hl, hr) {
        (Some(l), Some(r)) => res == if l.t < r.t {
            hl
        } else {
            hr
        },
        (Some(l), None) => res == hl,
        (None, Some(r)) => res == hr,
        (None, None) => res is None,
    }
}

/// The texture coordinates of a point on the unit sphere, from its
/// spherical angles.
pub open spec fn sphere_uv_v(p: V3) -> (int, int) {
    let theta = acos_v(-p.y);
    let phi = atan2_v(-p.z, p.x) + PI_FX as int;
    (fdivv(phi, TWO_PI_FX as int), fdivv(theta, PI_FX as int))
}

/// The record a sphere produces for a confirmed root `t`.
pub open spec fn sphere_rec_v(center: V3, radius: int, mat: MaterialType, r: RayV, t: int) -> HitV {
    let p = r.at(t);
    let outward = p.sub(center).div_s(radius);
    let oriented = face_normal_v(r.direction, outward);
    let uv = sphere_uv_v(oriented.1);
    HitV {
        point: p,
        normal: oriented.1,
        t: t,
        u: uv.0,
        v: uv.1,
        front_face: oriented.0,
        mat: mat,
    }
}

/// The quadratic ray-sphere solve: if the discriminant is positive the
/// ray meets the sphere at two parameters, and the smaller one wins when
/// it lies inside the open window, else the larger one is tried.
pub open spec fn sphere_hit_v(
    center: V3,
    radius: int,
    mat: MaterialType,
    r: RayV,
    tmin: int,
    tmax: int,
) -> Option<HitV> {
    let oc = r.origin.sub(center);
    let a = r.direction.len2();
    let half_b = oc.dot(r.direction);
    let c = oc.len2() - tmul(radius, radius);
    let disc = tmul(half_b, half_b) - tmul(a, c);
    if disc > 0 && a > 0 {
        let root = fsqrt_v(disc);
        let t1 = fdivv(-half_b - root, a);
        if t1 < tmax && t1 > tmin {
            Some(sphere_rec_v(center, radius, mat, r, t1))
        } else {
            let t2 = fdivv(-half_b + root, a);
            if t2 < tmax && t2 > tmin {
                Some(sphere_rec_v(center, radius, mat, r, t2))
            } else {
                None
            }
        }
    } else {
        None
    }
}

/// The record of a hit on the plane `z == k`, bounded in x and y.
pub open spec fn xy_rect_hit_v(
    x0: int,
    x1: int,
    y0: int,
    y1: int,
    k: int,
    mat: MaterialType,
    r: RayV,
    tmin: int,
    tmax: int,
) -> Option<HitV> {
    if r.direction.z == 0 {
        None
    } else {
        let t = fdivv(k - r.origin.z, r.direction.z);
        if t < tmin || t > tmax {
            None
        } else {
            let x = r.origin.x + tmul(t, r.direction.x);
            let y = r.origin.y + tmul(t, r.direction.y);
            if x < x0 || x > x1 || y < y0 || y > y1 {
                None
            } else {
                let oriented = face_normal_v(r.direction, V3 { x: 0, y: 0, z: SCALE as int });
                Some(HitV {
                    point: r.at(t),
                    normal: oriented.1,
                    t: t,
                    u: fdivv(x - x0, x1 - x0),
                    v: fdivv(y - y0, y1 - y0),
                    front_face: oriented.0,
                    mat: mat,
                })
            }
        }
    }
}

/// The record of a hit on the plane `y == k`, bounded in x and z.
pub open spec fn xz_rect_hit_v(
    x0: int,
    x1: int,
    z0: int,
    z1: int,
    k: int,
    mat: MaterialType,
    r: RayV,
    tmin: int,
    tmax: int,
) -> Option<HitV> {
    if r.direction.y == 0 {
        None
    } else {
        let t = fdivv(k - r.origin.y, r.direction.y);
        if t < tmin || t > tmax {
            None
        } else {
            let x = r.origin.x + tmul(t, r.direction.x);
            let z = r.origin.z + tmul(t, r.direction.z);
            if x < x0 || x > x1 || z < z0 || z > z1 {
                None
            } else {
                let oriented = face_normal_v(r.direction, V3 { x: 0, y: SCALE as int, z: 0 });
                Some(HitV {
                    point: r.at(t),
                    normal: oriented.1,
                    t: t,
                    u: fdivv(x - x0, x1 - x0),
                    v: fdivv(z - z0, z1 - z0),
                    front_face: oriented.0,
                    mat: mat,
                })
            }
        }
    }
}

/// The record of a hit on the plane `x == k`, bounded in y and z.
pub open spec fn yz_rect_hit_v(
    y0: int,
    y1: int,
    z0: int,
    z1: int,
    k: int,
    mat: MaterialType,
    r: RayV,
    tmin: int,
    tmax: int,
) -> Option<HitV> {
    if r.direction.x == 0 {
        None
    } else {
        let t = fdivv(k - r.origin.x, r.direction.x);
        if t < tmin || t > tmax {
            None
        } else {
            let y = r.origin.y + tmul(t, r.direction.y);
            let z = r.origin.z + tmul(t, r.direction.z);
            if y < y0 || y > y1 || z < z0 || z > z1 {
                None
            } else {
                let oriented = face_normal_v(r.direction, V3 { x: SCALE as int, y: 0, z: 0 });
                Some(HitV {
                    point: r.at(t),
                    normal: oriented.1,
                    t: t,
                    u: fdivv(y - y0, y1 - y0),
                    v: fdivv(z - z0, z1 - z0),
                    front_face: oriented.0,
                    mat: mat,
                })
            }
        }
    }
}

/// The result equals the given functional model, record for record.
pub open spec fn opt_rec_matches(res: Option<HitRecord>, model: Option<HitV>) -> bool {
    match (res, model) {
        (None, None) => true,
        (Some(rec), Some(hv)) => rec@ == hv,
        _ => false,
    }
}

/// The top of the current search window: the closest hit so far, else
/// the original far bound.
pub open spec fn window_top(best: Option<HitRecord>, tmax: int) -> int {
    match best {
        None => tmax,
        Some(b) => b.t as int,
    }
}

/// How `Translate` maps a child's record back into world space: the point
/// shifts by the offset and the face flag is recomputed against the
/// (unchanged) direction; a mapped point or normal past the raw range is
/// dropped, as no record can carry it.
pub open spec fn translate_rel(
    inner: Option<HitRecord>,
    offset: V3,
    dir: V3,
    res: Option<HitRecord>,
) -> bool {
    match inner {
        None => res is None,
        Some(i) => {
            let p = i@.point.add(offset);
            if !p.within(4000000000000000000) || !i@.normal.within(4000000000000000000) {
                res is None
            } else {
                let oriented = face_normal_v(dir, i@.normal);
                match res {
                    None => false,
                    Some(o) => o@ == (HitV {
                        point: p,
                        normal: oriented.1,
                        t: i@.t,
                        u: i@.u,
                        v: i@.v,
                        front_face: oriented.0,
                        mat: i@.mat,
                    }),
                }
            }
        },
    }
}

/// How `FlipFace` maps a child's record: identical but for the flag.
pub open spec fn flip_rel(inner: Option<HitRecord>, res: Option<HitRecord>) -> bool {
    match (inner, res) {
        (None, None) => true,
        (Some(i), Some(o)) => o@ == (HitV {
            point: i@.point,
            normal: i@.normal,
            t: i@.t,
            u: i@.u,
            v: i@.v,
            front_face: !i@.front_face,
            mat: i@.mat,
        }),
        _ => false,
    }
}

/// The best (closest) record among the first `i` outcomes of a scan:
/// each later hit replaces the one before it, since every member is
/// probed with the window already shrunk to the best so far.
pub open spec fn scan_best(trace: Seq<Option<HitRecord>>, i: int) -> Option<HitRecord>
    decreases i,
{
    if i <= 0 {
        None
    } else {
        let prev = scan_best(trace, i - 1);
        if trace[i - 1] is Some {
            trace[i - 1]
        } else {
            prev
        }
    }
}

/// Appending an outcome leaves the fold over the old prefix unchanged.
pub proof fn lemma_scan_best_push(trace: Seq<Option<HitRecord>>, h: Option<HitRecord>, j: int)
    requires
        0 <= j <= trace.len(),
    ensures
        scan_best(trace.push(h), j) == scan_best(trace, j),
    decreases j,
{
    if j > 0 {
        lemma_scan_best_push(trace, h, j - 1);
        assert(trace.push(h)[j - 1] == trace[j - 1]);
    }
}

/// Rotation of a point into object space about the given axis.
pub open spec fn rot_in(p: V3, s: int, c: int, axis: u32) -> V3 {
    if axis == 0 {
        V3 { x: p.x, y: tmul(c, p.y) + tmul(s, p.z), z: tmul(c, p.z) - tmul(s, p.y) }
    } else if axis == 1 {
        V3 { x: tmul(c, p.x) - tmul(s, p.z), y: p.y, z: tmul(s, p.x) + tmul(c, p.z) }
    } else {
        V3 { x: tmul(c, p.x) + tmul(s, p.y), y: tmul(c, p.y) - tmul(s, p.x), z: p.z }
    }
}

/// Rotation of a point back into world space about the given axis.
pub open spec fn rot_out(p: V3, s: int, c: int, axis: u32) -> V3 {
    if axis == 0 {
        V3 { x: p.x, y: tmul(c, p.y) - tmul(s, p.z), z: tmul(s, p.y) + tmul(c, p.z) }
    } else if axis == 1 {
        V3 { x: tmul(c, p.x) + tmul(s, p.z), y: p.y, z: tmul(c, p.z) - tmul(s, p.x) }
    } else {
        V3 { x: tmul(c, p.x) - tmul(s, p.y), y: tmul(s, p.x) + tmul(c, p.y), z: p.z }
    }
}

/// How a rotation maps a child's record back to world space: point and
/// normal rotate back, the face flag is recomputed against the rotated
/// ray, and an unrepresentable corner drops the record.
pub open spec fn rot_rel(
    inner: Option<HitRecord>,
    s: int,
    c: int,
    axis: u32,
    rdir: V3,
    res: Option<HitRecord>,
) -> bool {
    match inner {
        None => res is None,
        Some(i) => {
            let p = rot_out(i@.point, s, c, axis);
            let n = rot_out(i@.normal, s, c, axis);
            if !p.within(4000000000000000000) || !n.within(4000000000000000000) {
                res is None
            } else {
                let oriented = face_normal_v(rdir, n);
                match res {
                    None => false,
                    Some(o) => o@ == (HitV {
                        point: p,
                        normal: oriented.1,
                        t: i@.t,
                        u: i@.u,
                        v: i@.v,
                        front_face: oriented.0,
                        mat: i@.mat,
                    }),
                }
            }
        },
    }
}

/// How a constant-density medium turns two boundary crossings and a
/// drawn uniform value into a scatter record: the crossing interval is
/// clamped to the window, the free-flight distance is the negative
/// logarithm of the draw over the density, and the record stands where
/// that distance falls inside the interval, measured along the ray.
pub open spec fn medium_rel(
    neg_inv_density: int,
    phase: MaterialType,
    rec1: Option<HitRecord>,
    rec2: Option<HitRecord>,
    u: int,
    r: RayV,
    tmin: int,
    tmax: int,
    res: Option<HitRecord>,
) -> bool {
    match rec1 {
        None => res is None,
        Some(r1) => match rec2 {
            None => res is None,
            Some(r2) => {
                let t1a = if r1@.t < tmin {
                    tmin
                } else {
                    r1@.t
                };
                let t2 = if r2@.t > tmax {
                    tmax
                } else {
                    r2@.t
                };
                if t1a >= t2 {
                    res is None
                } else {
                    let t1 = if t1a < 0 {
                        0
                    } else {
                        t1a
                    };
                    if t1 >= t2 {
                        res is None
                    } else {
                    let len = r.direction.len();
                    if len == 0 {
                        res is None
                    } else if u == 0 {
                        res is None
                    } else {
                        let inside = tmul(t2 - t1, len);
                        let dist = tmul(-neg_inv_density, crate::util::neg_ln_v(u));
                        if dist > inside {
                            res is None
                        } else {
                            let t = t1 + fdivv(dist, len);
                            match res {
                                None => false,
                                Some(o) => o@ == (HitV {
                                    point: r.at(t),
                                    normal: V3 { x: SCALE as int, y: 0, z: 0 },
                                    t: t,
                                    u: 0,
                                    v: 0,
                                    front_face: true,
                                    mat: phase,
                                }),
                            }
                        }
                    }
                    }
                }
            },
        },
    }
}

/// What `hit` may return, variant by variant. Deterministic geometry is
/// pinned exactly; composites relate the result to some outcome of their
/// children.
pub open spec fn hit_matches(
    h: Hittables,
    r: RayV,
    tmin: int,
    tmax: int,
    res: Option<HitRecord>,
) -> bool
    decreases h,
{
    match h {
        Hittables::Sphere(s) => opt_rec_matches(
            res,
            sphere_hit_v(s.center@, s.radius as int, *s.mat, r, tmin, tmax),
        ),
        Hittables::XyRect(rc) => opt_rec_matches(
            res,
            xy_rect_hit_v(rc.x0 as int, rc.x1 as int, rc.y0 as int, rc.y1 as int, rc.k as int,
                *rc.mat, r, tmin, tmax),
        ),
        Hittables::XzRect(rc) => opt_rec_matches(
            res,
            xz_rect_hit_v(rc.x0 as int, rc.x1 as int, rc.z0 as int, rc.z1 as int, rc.k as int,
                *rc.mat, r, tmin, tmax),
        ),
        Hittables::YzRect(rc) => opt_rec_matches(
            res,
            yz_rect_hit_v(rc.y0 as int, rc.y1 as int, rc.z0 as int, rc.z1 as int, rc.k as int,
                *rc.mat, r, tmin, tmax),
        ),
        Hittables::MovingSphere(s) => opt_rec_matches(
            res,
            sphere_hit_v(center_at(s, r.time), s.radius as int, *s.mat, r, tmin, tmax),
        ),
        Hittables::Box3D(b) => exists|trace: Seq<Option<HitRecord>>|
            #![trigger trace.len()]
            {
                &&& trace.len() == b.sides.hittables@.len()
                &&& (forall|i: int|
                    0 <= i < trace.len() ==> hit_matches(
                        b.sides.hittables@[i],
                        r,
                        tmin,
                        window_top(scan_best(trace, i), tmax),
                        #[trigger] trace[i],
                    ))
                &&& res == scan_best(trace, trace.len() as int)
            },
        Hittables::BvhNode(n) => {
            match slab_hit(n.bbox@, r, tmin, tmax) {
                None => res is None,
                Some(_) => exists|hl: Option<HitRecord>, hr: Option<HitRecord>|
                    {
                        &&& hit_matches(*n.left, r, tmin, tmax, hl)
                        &&& hit_matches(*n.right, r, tmin, tmax, hr)
                        &&& #[trigger] bvh_merge(hl, hr, res)
                    },
            }
        },
        Hittables::HittableList(l) => exists|trace: Seq<Option<HitRecord>>|
            #![trigger trace.len()]
            {
                &&& trace.len() == l.hittables@.len()
                &&& (forall|i: int|
                    0 <= i < trace.len() ==> hit_matches(
                        l.hittables@[i],
                        r,
                        tmin,
                        window_top(scan_best(trace, i), tmax),
                        #[trigger] trace[i],
                    ))
                &&& res == scan_best(trace, trace.len() as int)
            },
        Hittables::Translate(t) => {
            let moved = RayV {
                origin: r.origin.sub(t.offset@),
                direction: r.direction,
                time: r.time,
            };
            if !moved.origin.within(PT_MAX as int) {
                res is None
            } else {
                exists|inner: Option<HitRecord>|
                    {
                        &&& hit_matches(*t.object, moved, tmin, tmax, inner)
                        &&& #[trigger] translate_rel(inner, t.offset@, r.direction, res)
                    }
            }
        },
        Hittables::FlipFace(f) => exists|inner: Option<HitRecord>|
            {
                &&& hit_matches(*f.object, r, tmin, tmax, inner)
                &&& #[trigger] flip_rel(inner, res)
            },
        Hittables::RotateX(rx) => {
            let ro = rot_in(r.origin, rx.sin_theta as int, rx.cos_theta as int, 0);
            let rd = rot_in(r.direction, rx.sin_theta as int, rx.cos_theta as int, 0);
            if !ro.within(PT_MAX as int) || !rd.within(COORD_MAX as int) {
                res is None
            } else {
                exists|inner: Option<HitRecord>|
                    {
                        &&& hit_matches(*rx.object, RayV { origin: ro, direction: rd,
                            time: r.time }, tmin, tmax, inner)
                        &&& #[trigger] rot_rel(inner, rx.sin_theta as int,
                            rx.cos_theta as int, 0, rd, res)
                    }
            }
        },
        Hittables::RotateY(ry) => {
            let ro = rot_in(r.origin, ry.sin_theta as int, ry.cos_theta as int, 1);
            let rd = rot_in(r.direction, ry.sin_theta as int, ry.cos_theta as int, 1);
            if !ro.within(PT_MAX as int) || !rd.within(COORD_MAX as int) {
                res is None
            } else {
                exists|inner: Option<HitRecord>|
                    {
                        &&& hit_matches(*ry.object, RayV { origin: ro, direction: rd,
                            time: r.time }, tmin, tmax, inner)
                        &&& #[trigger] rot_rel(inner, ry.sin_theta as int,
                            ry.cos_theta as int, 1, rd, res)
                    }
            }
        },
        Hittables::RotateZ(rz) => {
            let ro = rot_in(r.origin, rz.sin_theta as int, rz.cos_theta as int, 2);
            let rd = rot_in(r.direction, rz.sin_theta as int, rz.cos_theta as int, 2);
            if !ro.within(PT_MAX as int) || !rd.within(COORD_MAX as int) {
                res is None
            } else {
                exists|inner: Option<HitRecord>|
                    {
                        &&& hit_matches(*rz.object, RayV { origin: ro, direction: rd,
                            time: r.time }, tmin, tmax, inner)
                        &&& #[trigger] rot_rel(inner, rz.sin_theta as int,
                            rz.cos_theta as int, 2, rd, res)
                    }
            }
        },
        Hittables::ConstantMedium(cm) => exists|
            rec1: Option<HitRecord>,
            rec2: Option<HitRecord>,
            u: int,
        |
            {
                &&& hit_matches(*cm.boundary, r, -(T_FAR as int), T_FAR as int, rec1)
                &&& (rec1 matches Some(r1) ==> hit_matches(*cm.boundary, r, imin(
                    r1@.t + 100, T_FAR as int), T_FAR as int, rec2))
                &&& 0 <= u < SCALE
                &&& #[trigger] medium_rel(cm.neg_inv_density as int, *cm.phase_fn, rec1, rec2,
                    u, r, tmin, tmax, res)
            },
    }
}

/// Texture coordinates for a unit-sphere point, from its spherical
/// angles by the polynomial arc functions.
pub fn get_sphere_uv(p: &Vec3) -> (uv: (i64, i64))
    requires
        p@.within(4000000000000000000),
    ensures
        uv.0 as int == sphere_uv_v(p@).0,
        uv.1 as int == sphere_uv_v(p@).1,
{
    let theta = acos_fx(-p.y);
    let phi = atan2_fx(-p.z, p.x) + 3141593;
    proof {
        lemma_fdiv_bound2(phi as int, TWO_PI_FX as int, 7853982, 1);
        lemma_fdiv_bound2(theta as int, PI_FX as int, 4712389, 1);
    }
    let u = fdiv128(phi as i128, 6283185) as i64;
    let v = fdiv128(theta as i128, 3141593) as i64;
    (u, v)
}

fn moving_center(s: &MovingSphere, time: i64) -> (c: Vec3)
    requires
        s.center0@.within(COORD_MAX as int),
        s.center1@.within(COORD_MAX as int),
        s.time0 + 1000 <= s.time1,
        sabs(s.time0 as int) <= T_FAR as int,
        sabs(s.time1 as int) <= T_FAR as int,
        s.time0 <= time <= s.time1,
    ensures
        c@ == center_at(*s, time as int),
        c@.within(30000000000),
{
    let denom = s.time1 - s.time0;
    proof {
        lemma_fdiv_frac((time - s.time0) as int, denom as int);
    }
    let factor: i64 = fdiv128((time as i128) - (s.time0 as i128), denom as i128) as i64;
    let diff = s.center1.sub(s.center0);
    proof {
        lemma_tmul_bound(diff@.x, factor as int, 20000000000, SCALE as int);
        lemma_tmul_bound(diff@.y, factor as int, 20000000000, SCALE as int);
        lemma_tmul_bound(diff@.z, factor as int, 20000000000, SCALE as int);
    }
    let scaled = diff.scale(factor);
    s.center0.add(scaled)
}

fn sphere_solve(center: Vec3, radius: i64, mat: &Arc<MaterialType>, ray: &Ray, t_min: i64,
    t_max: i64) -> (res: Option<HitRecord>)
    requires
        center@.within(30000000000),
        10000 <= radius <= COORD_MAX,
        ray@.wf(),
        sabs(t_min as int) <= T_FAR as int,
        sabs(t_max as int) <= T_FAR as int,
    ensures
        opt_rec_matches(res, sphere_hit_v(center@, radius as int, **mat, ray@, t_min as int,
            t_max as int)),
        res matches Some(rec) ==> t_min <= rec.t <= t_max,
{
    let oc = ray.origin.sub(center);
    proof {
        crate::vec::lemma_dot_fits3(ray@.direction, ray@.direction, COORD_MAX as int,
            COORD_MAX as int, 100000000000000);
        crate::vec::lemma_dot_fits3(oc@, ray@.direction, 110000000000000, COORD_MAX as int,
            1100000000000000000);
        crate::vec::lemma_dot_fits3(oc@, oc@, 110000000000000, 110000000000000,
            12100000000000000000000);
        lemma_tmul_bound(radius as int, radius as int, COORD_MAX as int, COORD_MAX as int);
        crate::fixed::lemma_div_le((COORD_MAX as int) * (COORD_MAX as int),
            (COORD_MAX as int) * (COORD_MAX as int), 100000000000000);
    }
    let a: i128 = ray.direction.dot_wide(ray.direction);
    let half_b: i128 = oc.dot_wide(ray.direction);
    let oc2: i128 = oc.dot_wide(oc);
    let rr: i128 = fmul128(radius as i128, radius as i128);
    let c: i128 = oc2 - rr;
    proof {
        assert(sabs(half_b as int) * sabs(half_b as int)
            <= 160000000000000000000000000000000000000int) by (nonlinear_arith)
            requires
                sabs(half_b as int) <= 3300000000000000000int,
        ;
        assert(sabs(a as int) * sabs(c as int) <= 160000000000000000000000000000000000000int)
            by (nonlinear_arith)
            requires
                sabs(a as int) <= 300000000000000int,
                sabs(c as int) <= 40000000000000000000000int,
        ;
    }
    let hb2: i128 = fmul128w(half_b, half_b);
    let ac: i128 = fmul128w(a, c);
    let disc: i128 = hb2 - ac;
    if disc > 0 && a > 0 {
        proof {
            assert(sabs(half_b as int) * sabs(half_b as int) <= 10890000000000000000000000000000000000int)
                by (nonlinear_arith)
                requires
                    sabs(half_b as int) <= 3300000000000000000int,
            ;
            crate::fixed::lemma_div_le(sabs(half_b as int) * sabs(half_b as int),
                10890000000000000000000000000000000000, 10890000000000000000000000000000);
            assert(sabs(a as int) * sabs(c as int) <= 12000000000000000000000000000000000000int)
                by (nonlinear_arith)
                requires
                    sabs(a as int) <= 300000000000000int,
                    sabs(c as int) <= 40000000000000000000000int,
            ;
            crate::fixed::lemma_div_le(sabs(a as int) * sabs(c as int),
                12000000000000000000000000000000000000, 12000000000000000000000000000000);
            assert(sabs(disc as int) <= 80000000000000000000000000000000int);
        }
        let root: i128 = fsqrt128(disc);
        proof {
            assert(sabs(root as int) <= 9000000000000000000int) by (nonlinear_arith)
                requires
                    0 <= root as int,
                    (root as int) * (root as int) <= (disc as int) * (SCALE as int),
                    (disc as int) <= 80000000000000000000000000000000int,
                    SCALE as int == 1000000,
            ;
        }
        let t1: i128 = fdiv128(-half_b - root, a);
        if t1 < t_max as i128 && t1 > t_min as i128 {
            Some(sphere_build(center, radius, mat, ray, t1 as i64))
        } else {
            let t2: i128 = fdiv128(-half_b + root, a);
            if t2 < t_max as i128 && t2 > t_min as i128 {
                Some(sphere_build(center, radius, mat, ray, t2 as i64))
            } else {
                None
            }
        }
    } else {
        None
    }
}

fn sphere_build(center: Vec3, radius: i64, mat: &Arc<MaterialType>, ray: &Ray, t: i64) -> (rec:
    HitRecord)
    requires
        center@.within(30000000000),
        10000 <= radius <= COORD_MAX,
        ray@.wf(),
        sabs(t as int) <= T_FAR as int,
    ensures
        rec@ == sphere_rec_v(center@, radius as int, **mat, ray@, t as int),
        rec.t == t,
{
    let point = ray.at(t);
    let op = point.sub(center);
    proof {
        lemma_fdiv_bound2(op@.x, radius as int, 210000000000000, 10000);
        lemma_fdiv_bound2(op@.y, radius as int, 210000000000000, 10000);
        lemma_fdiv_bound2(op@.z, radius as int, 210000000000000, 10000);
    }
    let outward = op.div_s(radius);
    let (front_face, normal) = face_normal(ray, outward);
    let (u, v) = get_sphere_uv(&normal);
    HitRecord { point, normal, t, u, v, front_face, mat: mat.clone() }
}

fn xz_rect_hit(rc: &XzRect, ray: &Ray, t_min: i64, t_max: i64) -> (res: Option<HitRecord>)
    requires
        sabs(rc.x0 as int) <= COORD_MAX as int,
        sabs(rc.x1 as int) <= COORD_MAX as int,
        sabs(rc.z0 as int) <= COORD_MAX as int,
        sabs(rc.z1 as int) <= COORD_MAX as int,
        sabs(rc.k as int) <= COORD_MAX as int,
        rc.x0 < rc.x1,
        rc.z0 < rc.z1,
        ray@.wf(),
        sabs(t_min as int) <= T_FAR as int,
        sabs(t_max as int) <= T_FAR as int,
    ensures
        opt_rec_matches(res, xz_rect_hit_v(rc.x0 as int, rc.x1 as int, rc.z0 as int,
            rc.z1 as int, rc.k as int, *rc.mat, ray@, t_min as int, t_max as int)),
        res matches Some(rec) ==> t_min <= rec.t <= t_max,
{
    if ray.direction.y == 0 {
        return None;
    }
    let t128: i128 = fdiv128((rc.k as i128) - (ray.origin.y as i128), ray.direction.y as i128);
    if t128 < t_min as i128 || t128 > t_max as i128 {
        return None;
    }
    let t = t128 as i64;
    proof {
        lemma_tmul_bound(t as int, ray@.direction.x, T_FAR as int, COORD_MAX as int);
        lemma_tmul_bound(t as int, ray@.direction.z, T_FAR as int, COORD_MAX as int);
    }
    let x: i64 = ((ray.origin.x as i128) + fmul128(t as i128, ray.direction.x as i128)) as i64;
    let z: i64 = ((ray.origin.z as i128) + fmul128(t as i128, ray.direction.z as i128)) as i64;
    if x < rc.x0 || x > rc.x1 || z < rc.z0 || z > rc.z1 {
        return None;
    }
    let normal0 = Vec3 { x: 0, y: 1000000, z: 0 };
    let (front_face, normal) = face_normal(ray, normal0);
    proof {
        lemma_fdiv_frac((x - rc.x0) as int, (rc.x1 - rc.x0) as int);
        lemma_fdiv_frac((z - rc.z0) as int, (rc.z1 - rc.z0) as int);
    }
    let u: i64 = fdiv128((x as i128) - (rc.x0 as i128), (rc.x1 as i128) - (rc.x0 as i128)) as i64;
    let v: i64 = fdiv128((z as i128) - (rc.z0 as i128), (rc.z1 as i128) - (rc.z0 as i128)) as i64;
    let point = ray.at(t);
    Some(HitRecord { point, normal, t, u, v, front_face, mat: rc.mat.clone() })
}

fn xy_rect_hit(rc: &XyRect, ray: &Ray, t_min: i64, t_max: i64) -> (res: Option<HitRecord>)
    requires
        sabs(rc.x0 as int) <= COORD_MAX as int,
        sabs(rc.x1 as int) <= COORD_MAX as int,
        sabs(rc.y0 as int) <= COORD_MAX as int,
        sabs(rc.y1 as int) <= COORD_MAX as int,
        sabs(rc.k as int) <= COORD_MAX as int,
        rc.x0 < rc.x1,
        rc.y0 < rc.y1,
        ray@.wf(),
        sabs(t_min as int) <= T_FAR as int,
        sabs(t_max as int) <= T_FAR as int,
    ensures
        opt_rec_matches(res, xy_rect_hit_v(rc.x0 as int, rc.x1 as int, rc.y0 as int,
            rc.y1 as int, rc.k as int, *rc.mat, ray@, t_min as int, t_max as int)),
        res matches Some(rec) ==> t_min <= rec.t <= t_max,
{
    if ray.direction.z == 0 {
        return None;
    }
    let t128: i128 = fdiv128((rc.k as i128) - (ray.origin.z as i128), ray.direction.z as i128);
    if t128 < t_min as i128 || t128 > t_max as i128 {
        return None;
    }
    let t = t128 as i64;
    proof {
        lemma_tmul_bound(t as int, ray@.direction.x, T_FAR as int, COORD_MAX as int);
        lemma_tmul_bound(t as int, ray@.direction.y, T_FAR as int, COORD_MAX as int);
    }
    let x: i64 = ((ray.origin.x as i128) + fmul128(t as i128, ray.direction.x as i128)) as i64;
    let y: i64 = ((ray.origin.y as i128) + fmul128(t as i128, ray.direction.y as i128)) as i64;
    if x < rc.x0 || x > rc.x1 || y < rc.y0 || y > rc.y1 {
        return None;
    }
    let normal0 = Vec3 { x: 0, y: 0, z: 1000000 };
    let (front_face, normal) = face_normal(ray, normal0);
    proof {
        lemma_fdiv_frac((x - rc.x0) as int, (rc.x1 - rc.x0) as int);
        lemma_fdiv_frac((y - rc.y0) as int, (rc.y1 - rc.y0) as int);
    }
    let u: i64 = fdiv128((x as i128) - (rc.x0 as i128), (rc.x1 as i128) - (rc.x0 as i128)) as i64;
    let v: i64 = fdiv128((y as i128) - (rc.y0 as i128), (rc.y1 as i128) - (rc.y0 as i128)) as i64;
    let point = ray.at(t);
    Some(HitRecord { point, normal, t, u, v, front_face, mat: rc.mat.clone() })
}

fn yz_rect_hit(rc: &YzRect, ray: &Ray, t_min: i64, t_max: i64) -> (res: Option<HitRecord>)
    requires
        sabs(rc.y0 as int) <= COORD_MAX as int,
        sabs(rc.y1 as int) <= COORD_MAX as int,
        sabs(rc.z0 as int) <= COORD_MAX as int,
        sabs(rc.z1 as int) <= COORD_MAX as int,
        sabs(rc.k as int) <= COORD_MAX as int,
        rc.y0 < rc.y1,
        rc.z0 < rc.z1,
        ray@.wf(),
        sabs(t_min as int) <= T_FAR as int,
        sabs(t_max as int) <= T_FAR as int,
    ensures
        opt_rec_matches(res, yz_rect_hit_v(rc.y0 as int, rc.y1 as int, rc.z0 as int,
            rc.z1 as int, rc.k as int, *rc.mat, ray@, t_min as int, t_max as int)),
        res matches Some(rec) ==> t_min <= rec.t <= t_max,
{
    if ray.direction.x == 0 {
        return None;
    }
    let t128: i128 = fdiv128((rc.k as i128) - (ray.origin.x as i128), ray.direction.x as i128);
    if t128 < t_min as i128 || t128 > t_max as i128 {
        return None;
    }
    let t = t128 as i64;
    proof {
        lemma_tmul_bound(t as int, ray@.direction.y, T_FAR as int, COORD_MAX as int);
        lemma_tmul_bound(t as int, ray@.direction.z, T_FAR as int, COORD_MAX as int);
    }
    let y: i64 = ((ray.origin.y as i128) + fmul128(t as i128, ray.direction.y as i128)) as i64;
    let z: i64 = ((ray.origin.z as i128) + fmul128(t as i128, ray.direction.z as i128)) as i64;
    if y < rc.y0 || y > rc.y1 || z < rc.z0 || z > rc.z1 {
        return None;
    }
    let normal0 = Vec3 { x: 1000000, y: 0, z: 0 };
    let (front_face, normal) = face_normal(ray, normal0);
    proof {
        lemma_fdiv_frac((y - rc.y0) as int, (rc.y1 - rc.y0) as int);
        lemma_fdiv_frac((z - rc.z0) as int, (rc.z1 - rc.z0) as int);
    }
    let u: i64 = fdiv128((y as i128) - (rc.y0 as i128), (rc.y1 as i128) - (rc.y0 as i128)) as i64;
    let v: i64 = fdiv128((z as i128) - (rc.z0 as i128), (rc.z1 as i128) - (rc.z0 as i128)) as i64;
    let point = ray.at(t);
    Some(HitRecord { point, normal, t, u, v, front_face, mat: rc.mat.clone() })
}


#[verifier::rlimit(60)]
fn bvh_hit(n: &BvhNode, ray: &Ray, t_min: i64, t_max: i64, rng: &mut SmallRng) -> (res: Option<
    HitRecord>)
    requires
        hittable_wf(*n.left),
        hittable_wf(*n.right),
        time_ok(*n.left, ray@.time),
        time_ok(*n.right, ray@.time),
        ray@.wf(),
        sabs(t_min as int) <= T_FAR as int,
        sabs(t_max as int) <= T_FAR as int,
    ensures
        hit_matches(Hittables::BvhNode(*n), ray@, t_min as int, t_max as int, res),
        res matches Some(rec) ==> t_min <= rec.t <= t_max,
    decreases *n,
{
    proof {
        assert(decreases_to!(*n => n.left));
        assert(decreases_to!(*n => n.right));
    }
    let ghost hv = Hittables::BvhNode(*n);
    proof {
        assert(hv matches Hittables::BvhNode(nn) && nn == *n);
    }
    match n.bbox.hit(ray, t_min, t_max) {
        None => {
            proof {
                assert(hit_matches(hv, ray@, t_min as int, t_max as int,
                    Option::<HitRecord>::None));
            }
            None
        },
        Some(_) => {
            let hl = (&*n.left).hit(ray, t_min, t_max, rng);
            let hr = (&*n.right).hit(ray, t_min, t_max, rng);
            let ghost ghl = hl;
            let ghost ghr = hr;
            let res: Option<HitRecord> = match (hl, hr) {
                (Some(lrec), Some(rrec)) => {
                    if lrec.t < rrec.t {
                        Some(lrec)
                    } else {
                        Some(rrec)
                    }
                },
                (Some(lrec), None) => Some(lrec),
                (None, Some(rrec)) => Some(rrec),
                (None, None) => None,
            };
            proof {
                assert(hit_matches(*n.left, ray@, t_min as int, t_max as int, ghl));
                assert(hit_matches(*n.right, ray@, t_min as int, t_max as int, ghr));
                assert(bvh_merge(ghl, ghr, res));
                assert(hit_matches(hv, ray@, t_min as int, t_max as int, res));
            }
            res
        },
    }
}

#[verifier::loop_isolation(false)]
#[verifier::rlimit(60)]
fn list_hit(l: &HittableList, ray: &Ray, t_min: i64, t_max: i64, rng: &mut SmallRng) -> (res:
    Option<HitRecord>)
    requires
        forall|i: int| 0 <= i < l.hittables@.len() ==> hittable_wf(#[trigger] l.hittables@[i]),
        forall|i: int| 0 <= i < l.hittables@.len() ==> time_ok(#[trigger] l.hittables@[i],
            ray@.time),
        ray@.wf(),
        sabs(t_min as int) <= T_FAR as int,
        sabs(t_max as int) <= T_FAR as int,
    ensures
        hit_matches(Hittables::HittableList(*l), ray@, t_min as int, t_max as int, res),
        res matches Some(rec) ==> t_min <= rec.t <= t_max,
    decreases *l,
{

        let ghost members = l.hittables@;
        let mut res: Option<HitRecord> = None;
        let mut closest: i64 = t_max;
        let mut i: usize = 0;
        let mut tr: Ghost<Seq<Option<HitRecord>>> = Ghost(Seq::empty());
        while i < l.hittables.len()
            invariant
                0 <= i <= members.len(),
                tr@.len() == i as int,
                forall|j: int|
                    0 <= j < i as int ==> #[trigger] hit_matches(members[j], ray@,
                        t_min as int, window_top(scan_best(tr@, j), t_max as int),
                        tr@[j]),
                res == scan_best(tr@, i as int),
                res matches Some(rec) ==> t_min <= rec.t <= t_max,
                closest as int == window_top(res, t_max as int),
                sabs(closest as int) <= T_FAR as int,
            decreases members.len() - i,
        {
            proof {
                assert(decreases_to!(*l => l.hittables));
                assert(decreases_to!(l.hittables => l.hittables@));
                assert(decreases_to!(l.hittables@ => l.hittables@[i as int]));
            }
            let h = l.hittables[i].hit(ray, t_min, closest, rng);
            proof {
                let old_tr = tr@;
                let new_tr = old_tr.push(h);
                assert forall|j: int| 0 <= j <= i as int implies scan_best(new_tr, j)
                    == scan_best(old_tr, j) by {
                    lemma_scan_best_push(old_tr, h, j);
                }
                assert(new_tr[i as int] == h);
            }
            tr = Ghost(tr@.push(h));
            match h {
                Some(rec) => {
                    closest = rec.t;
                    res = Some(rec);
                },
                None => {},
            }
            i = i + 1;
        }
        proof {
            let hv = Hittables::HittableList(*l);
            assert(hv matches Hittables::HittableList(ll) && ll == *l);
            let trs = tr@;
            assert(trs.len() == l.hittables@.len());
            assert(res == scan_best(trs, trs.len() as int));
            assert(forall|i2: int|
                0 <= i2 < trs.len() ==> hit_matches(
                    l.hittables@[i2],
                    ray@,
                    t_min as int,
                    window_top(scan_best(trs, i2), t_max as int),
                    #[trigger] trs[i2],
                ));
            assert(exists|trace: Seq<Option<HitRecord>>|
                #![trigger trace.len()]
                {
                    &&& trace.len() == l.hittables@.len()
                    &&& (forall|i: int|
                        0 <= i < trace.len() ==> hit_matches(
                            l.hittables@[i],
                            ray@,
                            t_min as int,
                            window_top(scan_best(trace, i), t_max as int),
                            #[trigger] trace[i],
                        ))
                    &&& res == scan_best(trace, trace.len() as int)
                });
        }
        res
    
}

#[verifier::rlimit(60)]
fn translate_hit(t: &Translate, ray: &Ray, t_min: i64, t_max: i64, rng: &mut SmallRng) -> (res:
    Option<HitRecord>)
    requires
        hittable_wf(*t.object),
        t.offset@.within(COORD_MAX as int),
        time_ok(*t.object, ray@.time),
        ray@.wf(),
        sabs(t_min as int) <= T_FAR as int,
        sabs(t_max as int) <= T_FAR as int,
    ensures
        hit_matches(Hittables::Translate(*t), ray@, t_min as int, t_max as int, res),
        res matches Some(rec) ==> t_min <= rec.t <= t_max,
    decreases *t,
{

        let ox: i128 = (ray.origin.x as i128) - (t.offset.x as i128);
        let oy: i128 = (ray.origin.y as i128) - (t.offset.y as i128);
        let oz: i128 = (ray.origin.z as i128) - (t.offset.z as i128);
        if ox > 100000000000000 || ox < -100000000000000 || oy > 100000000000000
            || oy < -100000000000000 || oz > 100000000000000 || oz < -100000000000000 {
            return None;
        }
        let moved = Ray {
            origin: Vec3 { x: ox as i64, y: oy as i64, z: oz as i64 },
            direction: ray.direction,
            time: ray.time,
        };
        proof {
            assert(decreases_to!(*t => t.object));
        }
        let inner = (&*t.object).hit(&moved, t_min, t_max, rng);
        match inner {
            None => {
                proof {
                    assert(hit_matches(*t.object, moved@, t_min as int, t_max as int,
                        inner));
                    assert(translate_rel(inner, t.offset@, ray@.direction,
                        Option::<HitRecord>::None));
                    let hv = Hittables::Translate(*t);
                    assert(hv matches Hittables::Translate(tt) && tt == *t);
                    let mv = RayV {
                        origin: ray@.origin.sub(t.offset@),
                        direction: ray@.direction,
                        time: ray@.time,
                    };
                    assert(moved@ == mv);
                    assert(hit_matches(*t.object, mv, t_min as int, t_max as int, inner));
                    assert(hit_matches(hv, ray@, t_min as int, t_max as int,
                        Option::<HitRecord>::None));
                }
                None
            },
            Some(irec) => {
                let px: i128 = (irec.point.x as i128) + (t.offset.x as i128);
                let py: i128 = (irec.point.y as i128) + (t.offset.y as i128);
                let pz: i128 = (irec.point.z as i128) + (t.offset.z as i128);
                let nb: i64 = 4000000000000000000;
                if px > nb as i128 || px < -(nb as i128) || py > nb as i128 || py < -(
                nb as i128) || pz > nb as i128 || pz < -(nb as i128) || irec.normal.x > nb
                    || irec.normal.x < -nb || irec.normal.y > nb || irec.normal.y < -nb
                    || irec.normal.z > nb || irec.normal.z < -nb {
                    proof {
                        assert(hit_matches(*t.object, moved@, t_min as int, t_max as int,
                            inner));
                        assert(translate_rel(inner, t.offset@, ray@.direction,
                            Option::<HitRecord>::None));
                        let hv = Hittables::Translate(*t);
                        assert(hv matches Hittables::Translate(tt) && tt == *t);
                        let mv = RayV {
                            origin: ray@.origin.sub(t.offset@),
                            direction: ray@.direction,
                            time: ray@.time,
                        };
                        assert(moved@ == mv);
                        assert(hit_matches(*t.object, mv, t_min as int, t_max as int, inner));
                        assert(hit_matches(hv, ray@, t_min as int, t_max as int,
                            Option::<HitRecord>::None));
                    }
                    return None;
                }
                let p = Vec3 { x: px as i64, y: py as i64, z: pz as i64 };
                let (front_face, normal) = face_normal(&moved, irec.normal);
                let out = HitRecord {
                    point: p,
                    normal,
                    t: irec.t,
                    u: irec.u,
                    v: irec.v,
                    front_face,
                    mat: irec.mat.clone(),
                };
                proof {
                    assert(hit_matches(*t.object, moved@, t_min as int, t_max as int,
                        inner));
                    assert(translate_rel(inner, t.offset@, ray@.direction, Some(out)));
                    let hv = Hittables::Translate(*t);
                    assert(hv matches Hittables::Translate(tt) && tt == *t);
                    let mv = RayV {
                        origin: ray@.origin.sub(t.offset@),
                        direction: ray@.direction,
                        time: ray@.time,
                    };
                    assert(moved@ == mv);
                    assert(hit_matches(*t.object, mv, t_min as int, t_max as int, inner));
                    assert(hit_matches(hv, ray@, t_min as int, t_max as int, Some(out)));
                }
                Some(out)
            },
        }
    
}

#[verifier::rlimit(60)]
fn flip_hit(f: &FlipFace, ray: &Ray, t_min: i64, t_max: i64, rng: &mut SmallRng) -> (res: Option<
    HitRecord>)
    requires
        hittable_wf(*f.object),
        time_ok(*f.object, ray@.time),
        ray@.wf(),
        sabs(t_min as int) <= T_FAR as int,
        sabs(t_max as int) <= T_FAR as int,
    ensures
        hit_matches(Hittables::FlipFace(*f), ray@, t_min as int, t_max as int, res),
        res matches Some(rec) ==> t_min <= rec.t <= t_max,
    decreases *f,
{

        proof {
            assert(decreases_to!(*f => f.object));
        }
        let inner = (&*f.object).hit(ray, t_min, t_max, rng);
        match inner {
            None => {
                proof {
                    assert(hit_matches(*f.object, ray@, t_min as int, t_max as int,
                        inner));
                    assert(flip_rel(inner, Option::<HitRecord>::None));
                    let hv = Hittables::FlipFace(*f);
                    assert(hv matches Hittables::FlipFace(ff) && ff == *f);
                    assert(hit_matches(hv, ray@, t_min as int, t_max as int,
                        Option::<HitRecord>::None));
                }
                None
            },
            Some(irec) => {
                let out = HitRecord {
                    point: irec.point,
                    normal: irec.normal,
                    t: irec.t,
                    u: irec.u,
                    v: irec.v,
                    front_face: !irec.front_face,
                    mat: irec.mat.clone(),
                };
                proof {
                    assert(hit_matches(*f.object, ray@, t_min as int, t_max as int,
                        inner));
                    assert(flip_rel(inner, Some(out)));
                    let hv = Hittables::FlipFace(*f);
                    assert(hv matches Hittables::FlipFace(ff) && ff == *f);
                    assert(hit_matches(hv, ray@, t_min as int, t_max as int, Some(out)));
                }
                Some(out)
            },
        }
    
}

impl Hittables {
    /// The closest intersection of the ray with this node inside the
    /// window, or nothing. The generator is threaded for the variants
    /// whose answer is sampled.
    #[verifier::loop_isolation(false)]
    #[verifier::rlimit(100)]
    pub fn hit(&self, ray: &Ray, t_min: i64, t_max: i64, rng: &mut SmallRng) -> (res: Option<
        HitRecord,
    >)
        requires
            hittable_wf(*self),
            time_ok(*self, ray@.time),
            ray@.wf(),
            sabs(t_min as int) <= T_FAR as int,
            sabs(t_max as int) <= T_FAR as int,
        ensures
            hit_matches(*self, ray@, t_min as int, t_max as int, res),
            res matches Some(rec) ==> t_min <= rec.t <= t_max,
        decreases *self,
    {
        match self {
            Hittables::Sphere(s) => {
                let res = sphere_solve(s.center, s.radius, &s.mat, ray, t_min, t_max);
                proof {
                    assert(hit_matches(*self, ray@, t_min as int, t_max as int, res));
                }
                res
            },
            Hittables::XyRect(rc) => {
                let res = xy_rect_hit(rc, ray, t_min, t_max);
                proof {
                    assert(hit_matches(*self, ray@, t_min as int, t_max as int, res));
                }
                res
            },
            Hittables::XzRect(rc) => {
                let res = xz_rect_hit(rc, ray, t_min, t_max);
                proof {
                    assert(hit_matches(*self, ray@, t_min as int, t_max as int, res));
                }
                res
            },
            Hittables::YzRect(rc) => {
                let res = yz_rect_hit(rc, ray, t_min, t_max);
                proof {
                    assert(hit_matches(*self, ray@, t_min as int, t_max as int, res));
                }
                res
            },
            Hittables::MovingSphere(s) => {
                let center = moving_center(s, ray.time);
                let res = sphere_solve(center, s.radius, &s.mat, ray, t_min, t_max);
                proof {
                    assert(hit_matches(*self, ray@, t_min as int, t_max as int, res));
                }
                res
            },
            Hittables::Box3D(b) => {
                proof {
                    assert(decreases_to!(*self => *b));
                    assert(decreases_to!(*b => b.sides));
                }
                let res = list_hit(&b.sides, ray, t_min, t_max, rng);
                proof {
                    assert(hit_matches(*self, ray@, t_min as int, t_max as int, res));
                }
                res
            },
            Hittables::BvhNode(n) => {
                let res = bvh_hit(n, ray, t_min, t_max, rng);
                proof {
                    assert(hit_matches(*self, ray@, t_min as int, t_max as int, res));
                }
                res
            },
            Hittables::HittableList(l) => {
                let res = list_hit(l, ray, t_min, t_max, rng);
                proof {
                    assert(hit_matches(*self, ray@, t_min as int, t_max as int, res));
                }
                res
            },
            Hittables::Translate(t) => {
                let res = translate_hit(t, ray, t_min, t_max, rng);
                proof {
                    assert(hit_matches(*self, ray@, t_min as int, t_max as int, res));
                }
                res
            },
            Hittables::FlipFace(f) => {
                let res = flip_hit(f, ray, t_min, t_max, rng);
                proof {
                    assert(hit_matches(*self, ray@, t_min as int, t_max as int, res));
                }
                res
            },
            Hittables::RotateX(rx) => {
                let res = rx_hit(rx, ray, t_min, t_max, rng);
                proof {
                    assert(hit_matches(*self, ray@, t_min as int, t_max as int, res));
                }
                res
            },
            Hittables::RotateY(ry) => {
                let res = ry_hit(ry, ray, t_min, t_max, rng);
                proof {
                    assert(hit_matches(*self, ray@, t_min as int, t_max as int, res));
                }
                res
            },
            Hittables::RotateZ(rz) => {
                let res = rz_hit(rz, ray, t_min, t_max, rng);
                proof {
                    assert(hit_matches(*self, ray@, t_min as int, t_max as int, res));
                }
                res
            },
            Hittables::ConstantMedium(cm) => {
                let res = cm_hit(cm, ray, t_min, t_max, rng);
                proof {
                    assert(hit_matches(*self, ray@, t_min as int, t_max as int, res));
                }
                res
            },
        }
    }
}

impl Sphere {
    pub fn new(center: Vec3, radius: i64, mat: Arc<MaterialType>) -> (h: Hittables)
        ensures
            h == (Hittables::Sphere(Sphere { center, radius, mat })),
    {
        Hittables::Sphere(Sphere { center, radius, mat })
    }
}

impl XyRect {
    pub fn new(x0: i64, x1: i64, y0: i64, y1: i64, k: i64, mat: Arc<MaterialType>) -> (h:
        Hittables)
        ensures
            h == (Hittables::XyRect(XyRect { x0, x1, y0, y1, k, mat })),
    {
        Hittables::XyRect(XyRect { x0, x1, y0, y1, k, mat })
    }
}

impl XzRect {
    pub fn new(x0: i64, x1: i64, z0: i64, z1: i64, k: i64, mat: Arc<MaterialType>) -> (h:
        Hittables)
        ensures
            h == (Hittables::XzRect(XzRect { x0, x1, z0, z1, k, mat })),
    {
        Hittables::XzRect(XzRect { x0, x1, z0, z1, k, mat })
    }
}

impl YzRect {
    pub fn new(y0: i64, y1: i64, z0: i64, z1: i64, k: i64, mat: Arc<MaterialType>) -> (h:
        Hittables)
        ensures
            h == (Hittables::YzRect(YzRect { y0, y1, z0, z1, k, mat })),
    {
        Hittables::YzRect(YzRect { y0, y1, z0, z1, k, mat })
    }
}

impl HittableList {
    pub fn new() -> (h: Hittables)
        ensures
            h matches Hittables::HittableList(l) && l.hittables@.len() == 0,
    {
        Hittables::HittableList(HittableList { hittables: Vec::new() })
    }

    pub fn clear(&mut self)
        ensures
            final(self).hittables@.len() == 0,
    {
        self.hittables.clear()
    }

    pub fn add(&mut self, s: Hittables)
        ensures
            final(self).hittables@ == old(self).hittables@.push(s),
    {
        self.hittables.push(s)
    }
}

impl Translate {
    pub fn new(object: Arc<Hittables>, offset: Vec3) -> (h: Hittables)
        ensures
            h == (Hittables::Translate(Translate { object, offset })),
    {
        Hittables::Translate(Translate { object, offset })
    }
}

impl FlipFace {
    pub fn new(object: Hittables) -> (h: Hittables)
        ensures
            h matches Hittables::FlipFace(f) && *f.object == object,
    {
        Hittables::FlipFace(FlipFace { object: Box::new(object) })
    }
}

} // verus!

verus! {

/// The box a node answers for a time interval, as a function of the
/// node: every variant is bounded, so the only `None` answers come from
/// an empty collection or a shifted box past the raw range.
pub open spec fn bbox_v(h: Hittables, time0: int, time1: int) -> Option<AabbV>
    decreases h,
{
    match h {
        Hittables::Sphere(s) => Some(
            AabbV {
                minimum: s.center@.sub(V3 { x: s.radius as int, y: s.radius as int, z: s.radius as int }),
                maximum: s.center@.add(V3 { x: s.radius as int, y: s.radius as int, z: s.radius as int }),
            },
        ),
        Hittables::MovingSphere(s) => {
            let c0 = center_at(s, time0);
            let c1 = center_at(s, time1);
            let rv = V3 { x: s.radius as int, y: s.radius as int, z: s.radius as int };
            Some(
                box_union(
                    AabbV { minimum: c0.sub(rv), maximum: c0.add(rv) },
                    AabbV { minimum: c1.sub(rv), maximum: c1.add(rv) },
                ),
            )
        },
        Hittables::XyRect(r) => Some(
            AabbV {
                minimum: V3 { x: r.x0 as int, y: r.y0 as int, z: r.k - 100 },
                maximum: V3 { x: r.x1 as int, y: r.y1 as int, z: r.k + 100 },
            },
        ),
        Hittables::XzRect(r) => Some(
            AabbV {
                minimum: V3 { x: r.x0 as int, y: r.k - 100, z: r.z0 as int },
                maximum: V3 { x: r.x1 as int, y: r.k + 100, z: r.z1 as int },
            },
        ),
        Hittables::YzRect(r) => Some(
            AabbV {
                minimum: V3 { x: r.k - 100, y: r.y0 as int, z: r.z0 as int },
                maximum: V3 { x: r.k + 100, y: r.y1 as int, z: r.z1 as int },
            },
        ),
        Hittables::Box3D(b) => Some(AabbV { minimum: b.box_min@, maximum: b.box_max@ }),
        Hittables::BvhNode(n) => Some(n.bbox@),
        Hittables::HittableList(l) => {
            if l.hittables@.len() == 0 {
                None
            } else {
                match bbox_v(l.hittables@[0], time0, time1) {
                    Some(b0) => fold_bbox(
                        l.hittables@.subrange(1, l.hittables@.len() as int),
                        time0,
                        time1,
                        b0,
                    ),
                    None => None,
                }
            }
        },
        Hittables::Translate(t) => {
            match bbox_v(*t.object, time0, time1) {
                Some(b) => {
                    let lo = b.minimum.add(t.offset@);
                    let hi = b.maximum.add(t.offset@);
                    if lo.within(4000000000000000000) && hi.within(4000000000000000000) {
                        Some(AabbV { minimum: lo, maximum: hi })
                    } else {
                        None
                    }
                },
                None => None,
            }
        },
        Hittables::FlipFace(f) => bbox_v(*f.object, time0, time1),
        Hittables::RotateX(rx) => match rx.bbox {
            Some(b) => Some(b@),
            None => None,
        },
        Hittables::RotateY(ry) => match ry.bbox {
            Some(b) => Some(b@),
            None => None,
        },
        Hittables::RotateZ(rz) => match rz.bbox {
            Some(b) => Some(b@),
            None => None,
        },
        Hittables::ConstantMedium(cm) => bbox_v(*cm.boundary, time0, time1),
    }
}

/// The running union of the members' boxes, from an accumulator; any
/// member without a box poisons the whole answer.
pub open spec fn fold_bbox(s: Seq<Hittables>, time0: int, time1: int, acc: AabbV) -> Option<
    AabbV,
>
    decreases s,
{
    if s.len() == 0 {
        Some(acc)
    } else {
        match bbox_v(s[0], time0, time1) {
            Some(b) => fold_bbox(s.subrange(1, s.len() as int), time0, time1, box_union(acc, b)),
            None => None,
        }
    }
}

/// The result equals the functional box model.
pub open spec fn opt_box_matches(res: Option<Aabb>, model: Option<AabbV>) -> bool {
    match (res, model) {
        (None, None) => true,
        (Some(b), Some(m)) => b@ == m,
        _ => false,
    }
}

impl Hittables {
    /// The box holding this node over the given time interval, or
    /// nothing where a member list is empty or a shifted corner left the
    /// raw range.
    #[verifier::loop_isolation(false)]
    #[verifier::rlimit(60)]
    pub fn bounding_box(&self, time0: i64, time1: i64) -> (res: Option<Aabb>)
        requires
            hittable_wf(*self),
            time_ok(*self, time0 as int),
            time_ok(*self, time1 as int),
            sabs(time0 as int) <= T_FAR as int,
            sabs(time1 as int) <= T_FAR as int,
        ensures
            opt_box_matches(res, bbox_v(*self, time0 as int, time1 as int)),
        decreases *self,
    {
        match self {
            Hittables::Sphere(s) => {
                let rv = Vec3 { x: s.radius, y: s.radius, z: s.radius };
                Some(Aabb { minimum: s.center.sub(rv), maximum: s.center.add(rv) })
            },
            Hittables::MovingSphere(s) => {
                let c0 = moving_center(s, time0);
                let c1 = moving_center(s, time1);
                let rv = Vec3 { x: s.radius, y: s.radius, z: s.radius };
                let b0 = Aabb { minimum: c0.sub(rv), maximum: c0.add(rv) };
                let b1 = Aabb { minimum: c1.sub(rv), maximum: c1.add(rv) };
                Some(Aabb::surrounding_box(b0, b1))
            },
            Hittables::XyRect(r) => Some(
                Aabb {
                    minimum: Vec3 { x: r.x0, y: r.y0, z: r.k - 100 },
                    maximum: Vec3 { x: r.x1, y: r.y1, z: r.k + 100 },
                },
            ),
            Hittables::XzRect(r) => Some(
                Aabb {
                    minimum: Vec3 { x: r.x0, y: r.k - 100, z: r.z0 },
                    maximum: Vec3 { x: r.x1, y: r.k + 100, z: r.z1 },
                },
            ),
            Hittables::YzRect(r) => Some(
                Aabb {
                    minimum: Vec3 { x: r.k - 100, y: r.y0, z: r.z0 },
                    maximum: Vec3 { x: r.k + 100, y: r.y1, z: r.z1 },
                },
            ),
            Hittables::Box3D(b) => Some(Aabb { minimum: b.box_min, maximum: b.box_max }),
            Hittables::BvhNode(n) => Some(n.bbox),
            Hittables::HittableList(l) => {
                let ghost members = l.hittables@;
                if l.hittables.len() == 0 {
                    return None;
                }
                proof {
                    assert(decreases_to!(*l => l.hittables));
                    assert(decreases_to!(l.hittables => l.hittables@));
                    assert(decreases_to!(l.hittables@ => l.hittables@[0int]));
                }
                let first = l.hittables[0].bounding_box(time0, time1);
                let mut acc: Aabb = match first {
                    Some(b0) => b0,
                    None => {
                        return None;
                    },
                };
                let ghost b0 = acc@;
                let mut i: usize = 1;
                while i < l.hittables.len()
                    invariant
                        1 <= i <= members.len(),
                        fold_bbox(members.subrange(1, members.len() as int), time0 as int,
                            time1 as int, b0) == fold_bbox(
                            members.subrange(i as int, members.len() as int), time0 as int,
                            time1 as int, acc@),
                    decreases members.len() - i,
                {
                    proof {
                        assert(decreases_to!(*l => l.hittables));
                        assert(decreases_to!(l.hittables => l.hittables@));
                        assert(decreases_to!(l.hittables@ => l.hittables@[i as int]));
                    }
                    let mb = l.hittables[i].bounding_box(time0, time1);
                    proof {
                        let rest = members.subrange(i as int, members.len() as int);
                        assert(rest[0] == members[i as int]);
                        assert(rest.subrange(1, rest.len() as int) =~= members.subrange(
                            i as int + 1, members.len() as int));
                    }
                    match mb {
                        Some(b) => {
                            acc = Aabb::surrounding_box(acc, b);
                        },
                        None => {
                            return None;
                        },
                    }
                    i = i + 1;
                }
                proof {
                    assert(members.subrange(members.len() as int, members.len() as int)
                        =~= Seq::<Hittables>::empty());
                }
                Some(acc)
            },
            Hittables::Translate(t) => {
                proof {
                    assert(decreases_to!(*t => t.object));
                }
                match (&*t.object).bounding_box(time0, time1) {
                    Some(b) => {
                        let lx: i128 = (b.minimum.x as i128) + (t.offset.x as i128);
                        let ly: i128 = (b.minimum.y as i128) + (t.offset.y as i128);
                        let lz: i128 = (b.minimum.z as i128) + (t.offset.z as i128);
                        let hx: i128 = (b.maximum.x as i128) + (t.offset.x as i128);
                        let hy: i128 = (b.maximum.y as i128) + (t.offset.y as i128);
                        let hz: i128 = (b.maximum.z as i128) + (t.offset.z as i128);
                        let nb: i128 = 4000000000000000000;
                        if lx > nb || lx < -nb || ly > nb || ly < -nb || lz > nb || lz < -nb
                            || hx > nb || hx < -nb || hy > nb || hy < -nb || hz > nb || hz
                            < -nb {
                            None
                        } else {
                            Some(
                                Aabb {
                                    minimum: Vec3 { x: lx as i64, y: ly as i64, z: lz as i64 },
                                    maximum: Vec3 { x: hx as i64, y: hy as i64, z: hz as i64 },
                                },
                            )
                        }
                    },
                    None => None,
                }
            },
            Hittables::FlipFace(f) => {
                proof {
                    assert(decreases_to!(*f => f.object));
                }
                (&*f.object).bounding_box(time0, time1)
            },
            Hittables::RotateX(rx) => rx.bbox,
            Hittables::RotateY(ry) => ry.bbox,
            Hittables::RotateZ(rz) => rz.bbox,
            Hittables::ConstantMedium(cm) => {
                proof {
                    assert(decreases_to!(*cm => cm.boundary));
                }
                (&*cm.boundary).bounding_box(time0, time1)
            },
        }
    }
}

} // verus!

verus! {

impl MovingSphere {
    pub fn new(center0: Vec3, center1: Vec3, t0: i64, t1: i64, radius: i64, mat: Arc<
        MaterialType>) -> (h: Hittables)
        ensures
            h == (Hittables::MovingSphere(MovingSphere {
                center0,
                center1,
                time0: t0,
                time1: t1,
                radius,
                mat,
            })),
    {
        Hittables::MovingSphere(
            MovingSphere { center0, center1, time0: t0, time1: t1, radius, mat },
        )
    }

    /// The interpolated centre at a time inside the sphere's interval.
    pub fn center(&self, time: i64) -> (c: Vec3)
        requires
            self.center0@.within(COORD_MAX as int),
            self.center1@.within(COORD_MAX as int),
            self.time0 + 1000 <= self.time1,
            sabs(self.time0 as int) <= T_FAR as int,
            sabs(self.time1 as int) <= T_FAR as int,
            self.time0 <= time <= self.time1,
        ensures
            c@ == center_at(*self, time as int),
            c@.within(30000000000),
    {
        moving_center(self, time)
    }
}

impl Box3D {
    /// Six axis-aligned faces of the box from `p0` to `p1`, sharing one
    /// material, collected for the linear scan that answers hits.
    pub fn new(p0: Vec3, p1: Vec3, mat: Arc<MaterialType>) -> (h: Hittables)
        ensures
            h matches Hittables::Box3D(b) && b.box_min == p0 && b.box_max == p1
                && b.sides.hittables@.len() == 6
                && b.sides.hittables@[0] == (Hittables::XyRect(XyRect {
                    x0: p0.x, x1: p1.x, y0: p0.y, y1: p1.y, k: p1.z, mat }))
                && b.sides.hittables@[1] == (Hittables::XyRect(XyRect {
                    x0: p0.x, x1: p1.x, y0: p0.y, y1: p1.y, k: p0.z, mat }))
                && b.sides.hittables@[2] == (Hittables::XzRect(XzRect {
                    x0: p0.x, x1: p1.x, z0: p0.z, z1: p1.z, k: p1.y, mat }))
                && b.sides.hittables@[3] == (Hittables::XzRect(XzRect {
                    x0: p0.x, x1: p1.x, z0: p0.z, z1: p1.z, k: p0.y, mat }))
                && b.sides.hittables@[4] == (Hittables::YzRect(YzRect {
                    y0: p0.y, y1: p1.y, z0: p0.z, z1: p1.z, k: p1.x, mat }))
                && b.sides.hittables@[5] == (Hittables::YzRect(YzRect {
                    y0: p0.y, y1: p1.y, z0: p0.z, z1: p1.z, k: p0.x, mat })),
    {
        let mut sides = HittableList { hittables: Vec::new() };
        sides.add(XyRect::new(p0.x, p1.x, p0.y, p1.y, p1.z, mat.clone()));
        sides.add(XyRect::new(p0.x, p1.x, p0.y, p1.y, p0.z, mat.clone()));
        sides.add(XzRect::new(p0.x, p1.x, p0.z, p1.z, p1.y, mat.clone()));
        sides.add(XzRect::new(p0.x, p1.x, p0.z, p1.z, p0.y, mat.clone()));
        sides.add(YzRect::new(p0.y, p1.y, p0.z, p1.z, p1.x, mat.clone()));
        sides.add(YzRect::new(p0.y, p1.y, p0.z, p1.z, p0.x, mat.clone()));
        Hittables::Box3D(Box3D { box_min: p0, box_max: p1, sides })
    }
}

/// The structural law of a built tree: every internal node's box is
/// exactly the union of its children's boxes over the interval, all the
/// way down.
pub open spec fn bvh_boxes_ok(h: Hittables, time0: int, time1: int) -> bool
    decreases h,
{
    match h {
        Hittables::BvhNode(n) => {
            &&& bbox_v(*n.left, time0, time1) is Some
            &&& bbox_v(*n.right, time0, time1) is Some
            &&& n.bbox@ == box_union(
                bbox_v(*n.left, time0, time1)->0,
                bbox_v(*n.right, time0, time1)->0,
            )
            &&& bvh_boxes_ok(*n.left, time0, time1)
            &&& bvh_boxes_ok(*n.right, time0, time1)
        },
        _ => true,
    }
}

/// The leaves a built tree hangs its primitives on: an internal node
/// contributes its children's leaves, anything else is its own leaf.
pub open spec fn leaf_set(h: Hittables) -> Set<Hittables>
    decreases h,
{
    match h {
        Hittables::BvhNode(n) => leaf_set(*n.left).union(leaf_set(*n.right)),
        _ => Set::<Hittables>::empty().insert(h),
    }
}

/// A node that is no internal tree node is its own single leaf.
pub proof fn lemma_leaf_set_plain(h: &Hittables)
    requires
        !((*h) is BvhNode),
    ensures
        leaf_set(*h) == Set::<Hittables>::empty().insert(*h),
{
    match h {
        Hittables::BvhNode(_) => {},
        _ => {},
    }
}

/// One node is ready for a build over `[time0, time1]`: well-formed,
/// valid at the build's reference times, and bounded.
pub open spec fn node_ok(h: Hittables, time0: int, time1: int) -> bool {
    &&& hittable_wf(h)
    &&& time_ok(h, 0)
    &&& time_ok(h, time0)
    &&& time_ok(h, time1)
    &&& bbox_v(h, time0, time1) is Some
    &&& bvh_boxes_ok(h, time0, time1)
}

/// Whether `a` sorts before `b` along the axis: the minimum corner of
/// its box at the reference time is strictly smaller.
pub open spec fn box_less(a: Hittables, b: Hittables, axis: u32) -> bool {
    match (bbox_v(a, 0, 0), bbox_v(b, 0, 0)) {
        (Some(ba), Some(bb)) => if axis == 0 {
            ba.minimum.x < bb.minimum.x
        } else if axis == 1 {
            ba.minimum.y < bb.minimum.y
        } else {
            ba.minimum.z < bb.minimum.z
        },
        _ => false,
    }
}

/// Compare two nodes by the minimum corner of their boxes along the
/// chosen axis, for the build-time sort.
pub fn box_compare(a: &Hittables, b: &Hittables, axis: u32) -> (r: bool)
    requires
        hittable_wf(*a),
        hittable_wf(*b),
        time_ok(*a, 0),
        time_ok(*b, 0),
    ensures
        r == box_less(*a, *b, axis),
{
    let ba = a.bounding_box(0, 0);
    let bb = b.bounding_box(0, 0);
    match (ba, bb) {
        (Some(ba), Some(bb)) => {
            if axis == 0 {
                ba.minimum.x < bb.minimum.x
            } else if axis == 1 {
                ba.minimum.y < bb.minimum.y
            } else {
                ba.minimum.z < bb.minimum.z
            }
        },
        _ => false,
    }
}

#[verifier::loop_isolation(false)]
#[verifier::rlimit(60)]
fn sort_by_axis(v: &mut Vec<Hittables>, axis: u32, time0: i64, time1: i64) -> (out: Vec<
    Hittables>)
    requires
        forall|i: int| 0 <= i < old(v)@.len() ==> node_ok(#[trigger] old(v)@[i], time0 as int,
            time1 as int),
    ensures
        out@.len() == old(v)@.len(),
        forall|i: int| 0 <= i < out@.len() ==> node_ok(#[trigger] out@[i], time0 as int,
            time1 as int),
        forall|tm: int| time_ok_all(old(v)@, tm) ==> time_ok_all(out@, tm),
        forall|i: int| 0 <= i < old(v)@.len() ==> appears(#[trigger] old(v)@[i], out@),
        forall|i: int| 0 <= i < out@.len() ==> appears(#[trigger] out@[i], old(v)@),
{
    let ghost orig = v@;
    let ghost n = v@.len();
    let mut out: Vec<Hittables> = Vec::new();
    proof {
        assert forall|i: int| 0 <= i < orig.len() implies appears(#[trigger] orig[i], v@)
            || appears(orig[i], out@) by {
            assert(v@[i] == orig[i]);
        }
    }
    while v.len() > 0
        invariant
            out@.len() + v@.len() == n,
            forall|i: int| 0 <= i < v@.len() ==> node_ok(#[trigger] v@[i], time0 as int,
                time1 as int),
            forall|i: int| 0 <= i < out@.len() ==> node_ok(#[trigger] out@[i], time0 as int,
                time1 as int),
            forall|tm: int|
                #![trigger time_ok_all(orig, tm)]
                time_ok_all(orig, tm) ==> time_ok_all(v@, tm) && time_ok_all(out@, tm),
            forall|i: int|
                0 <= i < orig.len() ==> appears(#[trigger] orig[i], v@) || appears(orig[i],
                    out@),
            forall|i: int| 0 <= i < v@.len() ==> appears(#[trigger] v@[i], orig),
            forall|i: int| 0 <= i < out@.len() ==> appears(#[trigger] out@[i], orig),
        decreases v@.len(),
    {
        let mut m: usize = 0;
        let mut idx: usize = 1;
        while idx < v.len()
            invariant
                0 <= m < v@.len(),
                1 <= idx <= v@.len(),
            decreases v@.len() - idx,
        {
            if box_compare(&v[idx], &v[m], axis) {
                m = idx;
            }
            idx = idx + 1;
        }
        let ghost prev = v@;
        let ghost prev_out = out@;
        let e = v.swap_remove(m);
        out.push(e);
        proof {
            assert forall|i: int| 0 <= i < orig.len() implies appears(#[trigger] orig[i], v@)
                || appears(orig[i], out@) by {
                if appears(orig[i], prev) {
                    let j = choose|j: int| 0 <= j < prev.len() && #[trigger] prev[j]
                        == orig[i];
                    if j == m as int {
                        assert(out@[out@.len() - 1] == orig[i]);
                    } else if j == prev.len() - 1 {
                        assert(v@[m as int] == orig[i]);
                    } else {
                        assert(v@[j] == orig[i]);
                    }
                } else {
                    assert(appears(orig[i], prev_out));
                    let j = choose|j: int| 0 <= j < prev_out.len() && #[trigger] prev_out[j]
                        == orig[i];
                    assert(out@[j] == orig[i]);
                }
            }
            assert forall|i: int| 0 <= i < v@.len() implies appears(#[trigger] v@[i], orig)
                by {
                if i == m as int {
                    assert(v@[i] == prev[prev.len() - 1]);
                    assert(appears(prev[prev.len() - 1], orig));
                } else {
                    assert(v@[i] == prev[i]);
                    assert(appears(prev[i], orig));
                }
            }
            assert forall|i: int| 0 <= i < out@.len() implies appears(#[trigger] out@[i],
                orig) by {
                if i < prev_out.len() {
                    assert(out@[i] == prev_out[i]);
                    assert(appears(prev_out[i], orig));
                } else {
                    assert(out@[i] == prev[m as int]);
                    assert(appears(prev[m as int], orig));
                }
            }
        }
        proof {
            assert forall|tm: int|
                #![trigger time_ok_all(orig, tm)]
                time_ok_all(orig, tm) implies time_ok_all(v@, tm) && time_ok_all(out@, tm) by {
                if time_ok_all(orig, tm) {
                    assert(time_ok_all(prev, tm));
                    assert(time_ok_all(prev_out, tm));
                    assert forall|j: int| 0 <= j < v@.len() implies time_ok(#[trigger] v@[j],
                        tm) by {
                        if j == m as int {
                            assert(v@[j] == prev.last());
                        } else {
                            assert(v@[j] == prev[j]);
                        }
                    }
                    assert forall|j: int| 0 <= j < out@.len() implies time_ok(
                        #[trigger] out@[j], tm) by {
                        if j < prev_out.len() {
                            assert(out@[j] == prev_out[j]);
                        } else {
                            assert(out@[j] == prev[m as int]);
                        }
                    }
                }
            }
        }
    }
    proof {
        assert forall|tm: int| time_ok_all(orig, tm) implies time_ok_all(out@, tm) by {
            assert(time_ok_all(orig, tm) ==> time_ok_all(v@, tm) && time_ok_all(out@, tm));
        }
    }
    out
}

impl BvhNode {
    /// Build a tree over the collection: pick one axis at random, order
    /// the members by it, and split at the median all the way down.
    /// Every member must be bounded over the interval.
    pub fn new(hl: HittableList, time0: i64, time1: i64, rng: &mut SmallRng) -> (node: BvhNode)
        requires
            hl.hittables@.len() >= 1,
            forall|i: int| 0 <= i < hl.hittables@.len() ==> node_ok(#[trigger] hl.hittables@[i],
                time0 as int, time1 as int),
            sabs(time0 as int) <= T_FAR as int,
            sabs(time1 as int) <= T_FAR as int,
        ensures
            hittable_wf(Hittables::BvhNode(node)),
            forall|tm: int| time_ok_all(hl.hittables@, tm) ==> time_ok(
                Hittables::BvhNode(node), tm),
            bvh_boxes_ok(Hittables::BvhNode(node), time0 as int, time1 as int),
            forall|i: int|
                0 <= i < hl.hittables@.len() ==> box_contains(node.bbox@, bbox_v(
                    #[trigger] hl.hittables@[i], time0 as int, time1 as int)->0),
            (forall|i: int|
                0 <= i < hl.hittables@.len() ==> !((#[trigger] hl.hittables@[i]) is BvhNode))
                ==> (forall|x: Hittables| #[trigger] leaf_set(
                Hittables::BvhNode(node)).contains(x) <==> appears(x, hl.hittables@)),
    {
        let mut objects = hl.hittables;
        let axis: u32 = crate::rng::rand_index(rng, 3) as u32;
        let ghost orig = objects@;
        let sorted = sort_by_axis(&mut objects, axis, time0, time1);
        let node = BvhNode::build(sorted, time0, time1);
        proof {
            assert forall|tm: int| time_ok_all(hl.hittables@, tm) implies time_ok(
                Hittables::BvhNode(node), tm) by {
                if time_ok_all(hl.hittables@, tm) {
                    assert(time_ok_all(sorted@, tm));
                }
            }
            assert forall|i: int| 0 <= i < hl.hittables@.len() implies box_contains(
                node.bbox@, bbox_v(#[trigger] hl.hittables@[i], time0 as int,
                time1 as int)->0) by {
                assert(appears(hl.hittables@[i], sorted@));
                let j = choose|j: int| 0 <= j < sorted@.len() && #[trigger] sorted@[j]
                    == hl.hittables@[i];
                assert(box_contains(node.bbox@, bbox_v(sorted@[j], time0 as int,
                    time1 as int)->0));
            }
            if forall|i: int|
                0 <= i < hl.hittables@.len() ==> !((#[trigger] hl.hittables@[i]) is BvhNode) {
                assert forall|k: int| 0 <= k < sorted@.len() implies !((#[trigger] sorted@[k])
                    is BvhNode) by {
                    assert(appears(sorted@[k], orig));
                    let j = choose|j: int| 0 <= j < orig.len() && #[trigger] orig[j]
                        == sorted@[k];
                }
                assert forall|x: Hittables| #[trigger] leaf_set(
                    Hittables::BvhNode(node)).contains(x) <==> appears(x, hl.hittables@) by {
                    assert(leaf_set(Hittables::BvhNode(node)).contains(x) <==> appears(x,
                        sorted@));
                    if appears(x, sorted@) {
                        let j = choose|j: int| 0 <= j < sorted@.len() && #[trigger] sorted@[j]
                            == x;
                        assert(appears(sorted@[j], orig));
                        let k = choose|k: int| 0 <= k < orig.len() && #[trigger] orig[k]
                            == sorted@[j];
                        assert(orig[k] == x);
                        assert(appears(x, orig));
                    }
                    if appears(x, hl.hittables@) {
                        let j = choose|j: int| 0 <= j < orig.len() && #[trigger] orig[j]
                            == x;
                        assert(appears(orig[j], sorted@));
                        let k = choose|k: int| 0 <= k < sorted@.len() && #[trigger] sorted@[k]
                            == orig[j];
                        assert(sorted@[k] == x);
                        assert(appears(x, sorted@));
                    }
                }
            }
        }
        node
    }

    fn build(objects: Vec<Hittables>, time0: i64, time1: i64) -> (node: BvhNode)
        requires
            objects@.len() >= 1,
            forall|i: int| 0 <= i < objects@.len() ==> node_ok(#[trigger] objects@[i],
                time0 as int, time1 as int),
            sabs(time0 as int) <= T_FAR as int,
            sabs(time1 as int) <= T_FAR as int,
        ensures
            hittable_wf(Hittables::BvhNode(node)),
            forall|tm: int| time_ok_all(objects@, tm) ==> time_ok(Hittables::BvhNode(node), tm),
            bvh_boxes_ok(Hittables::BvhNode(node), time0 as int, time1 as int),
            forall|i: int|
                0 <= i < objects@.len() ==> box_contains(node.bbox@, bbox_v(
                    #[trigger] objects@[i], time0 as int, time1 as int)->0),
            (forall|i: int| 0 <= i < objects@.len() ==> !((#[trigger] objects@[i]) is BvhNode))
                ==> (forall|x: Hittables| #[trigger] leaf_set(
                Hittables::BvhNode(node)).contains(x) <==> appears(x, objects@)),
        decreases objects@.len(),
    {
        let ghost orig = objects@;
        let mut objects = objects;
        if objects.len() == 1 {
            let e = objects.swap_remove(0);
            let a = Arc::new(e);
            let left = a.clone();
            let node = mk_node(left, a, time0, time1);
            proof {
                assert forall|tm: int| time_ok_all(orig, tm) implies time_ok(
                    Hittables::BvhNode(node), tm) by {
                    if time_ok_all(orig, tm) {
                        assert(time_ok(orig[0], tm));
                    }
                }
                lemma_union_contains(bbox_v(orig[0], time0 as int, time1 as int)->0, bbox_v(
                    orig[0], time0 as int, time1 as int)->0);
                if forall|i: int| 0 <= i < orig.len() ==> !((#[trigger] orig[i]) is BvhNode) {
                    assert(!(orig[0] is BvhNode));
                    lemma_leaf_set_plain(&orig[0]);
                    assert forall|x: Hittables| #[trigger] leaf_set(
                        Hittables::BvhNode(node)).contains(x) <==> appears(x, orig) by {
                        if leaf_set(Hittables::BvhNode(node)).contains(x) {
                            assert(x == orig[0]);
                            assert(orig[0] == x);
                            assert(appears(x, orig));
                        }
                        if appears(x, orig) {
                            let j = choose|j: int| 0 <= j < orig.len() && #[trigger] orig[j]
                                == x;
                            assert(j == 0);
                        }
                    }
                }
            }
            node
        } else if objects.len() == 2 {
            let e1 = objects.swap_remove(1);
            let e0 = objects.swap_remove(0);
            let node = mk_node(Arc::new(e0), Arc::new(e1), time0, time1);
            proof {
                assert forall|tm: int| time_ok_all(orig, tm) implies time_ok(
                    Hittables::BvhNode(node), tm) by {
                    if time_ok_all(orig, tm) {
                        assert(time_ok(orig[0], tm));
                        assert(time_ok(orig[1], tm));
                    }
                }
                lemma_union_contains(bbox_v(orig[0], time0 as int, time1 as int)->0, bbox_v(
                    orig[1], time0 as int, time1 as int)->0);
                if forall|i: int| 0 <= i < orig.len() ==> !((#[trigger] orig[i]) is BvhNode) {
                    assert(!(orig[0] is BvhNode));
                    assert(!(orig[1] is BvhNode));
                    lemma_leaf_set_plain(&orig[0]);
                    lemma_leaf_set_plain(&orig[1]);
                    assert forall|x: Hittables| #[trigger] leaf_set(
                        Hittables::BvhNode(node)).contains(x) <==> appears(x, orig) by {
                        if leaf_set(Hittables::BvhNode(node)).contains(x) {
                            if x == orig[0] {
                                assert(orig[0] == x);
                            } else {
                                assert(orig[1] == x);
                            }
                            assert(appears(x, orig));
                        }
                        if appears(x, orig) {
                            let j = choose|j: int| 0 <= j < orig.len() && #[trigger] orig[j]
                                == x;
                            assert(j == 0 || j == 1);
                        }
                    }
                }
            }
            node
        } else {
            let midpoint = objects.len() / 2;
            let right_v = objects.split_off(midpoint);
            let ghost lt = objects@;
            let ghost rt = right_v@;
            proof {
                assert forall|j: int| 0 <= j < lt.len() implies node_ok(#[trigger] lt[j],
                    time0 as int, time1 as int) by {
                    assert(lt[j] == orig[j]);
                }
                assert forall|j: int| 0 <= j < rt.len() implies node_ok(#[trigger] rt[j],
                    time0 as int, time1 as int) by {
                    assert(rt[j] == orig[midpoint as int + j]);
                }
            }
            let ln = BvhNode::build(objects, time0, time1);
            let rn = BvhNode::build(right_v, time0, time1);
            let node = mk_node(
                Arc::new(Hittables::BvhNode(ln)),
                Arc::new(Hittables::BvhNode(rn)),
                time0,
                time1,
            );
            proof {
                assert forall|tm: int| time_ok_all(orig, tm) implies time_ok(
                    Hittables::BvhNode(node), tm) by {
                    if time_ok_all(orig, tm) {
                        assert forall|j: int| 0 <= j < lt.len() implies time_ok(
                            #[trigger] lt[j], tm) by {
                            assert(lt[j] == orig[j]);
                            assert(time_ok(orig[j], tm));
                        }
                        assert forall|j: int| 0 <= j < rt.len() implies time_ok(
                            #[trigger] rt[j], tm) by {
                            assert(rt[j] == orig[midpoint as int + j]);
                            assert(time_ok(orig[midpoint as int + j], tm));
                        }
                        assert(time_ok_all(lt, tm));
                        assert(time_ok_all(rt, tm));
                    }
                }
                lemma_union_contains(ln.bbox@, rn.bbox@);
                assert forall|i: int| 0 <= i < orig.len() implies box_contains(node.bbox@,
                    bbox_v(#[trigger] orig[i], time0 as int, time1 as int)->0) by {
                    if i < midpoint as int {
                        assert(lt[i] == orig[i]);
                        assert(box_contains(ln.bbox@, bbox_v(lt[i], time0 as int,
                            time1 as int)->0));
                        lemma_contains_trans(node.bbox@, ln.bbox@, bbox_v(orig[i],
                            time0 as int, time1 as int)->0);
                    } else {
                        assert(rt[i - midpoint as int] == orig[i]);
                        assert(box_contains(rn.bbox@, bbox_v(rt[i - midpoint as int],
                            time0 as int, time1 as int)->0));
                        lemma_contains_trans(node.bbox@, rn.bbox@, bbox_v(orig[i],
                            time0 as int, time1 as int)->0);
                    }
                }
                if forall|i: int| 0 <= i < orig.len() ==> !((#[trigger] orig[i]) is BvhNode) {
                    assert forall|j: int| 0 <= j < lt.len() implies !((#[trigger] lt[j])
                        is BvhNode) by {
                        assert(lt[j] == orig[j]);
                    }
                    assert forall|j: int| 0 <= j < rt.len() implies !((#[trigger] rt[j])
                        is BvhNode) by {
                        assert(rt[j] == orig[midpoint as int + j]);
                    }
                    assert forall|x: Hittables| #[trigger] leaf_set(
                        Hittables::BvhNode(node)).contains(x) <==> appears(x, orig) by {
                        assert(leaf_set(Hittables::BvhNode(ln)).contains(x) <==> appears(x,
                            lt));
                        assert(leaf_set(Hittables::BvhNode(rn)).contains(x) <==> appears(x,
                            rt));
                        if leaf_set(Hittables::BvhNode(node)).contains(x) {
                            if appears(x, lt) {
                                let j = choose|j: int| 0 <= j < lt.len() && #[trigger] lt[j]
                                    == x;
                                assert(orig[j] == x);
                            } else {
                                assert(appears(x, rt));
                                let j = choose|j: int| 0 <= j < rt.len() && #[trigger] rt[j]
                                    == x;
                                assert(orig[midpoint as int + j] == x);
                            }
                            assert(appears(x, orig));
                        }
                        if appears(x, orig) {
                            let j = choose|j: int| 0 <= j < orig.len() && #[trigger] orig[j]
                                == x;
                            if j < midpoint as int {
                                assert(lt[j] == x);
                                assert(appears(x, lt));
                            } else {
                                assert(rt[j - midpoint as int] == x);
                                assert(appears(x, rt));
                            }
                        }
                    }
                }
            }
            node
        }
    }
}

/// Assemble a node from two finished children: its box is exactly the
/// union of theirs over the interval.
fn mk_node(left: Arc<Hittables>, right: Arc<Hittables>, time0: i64, time1: i64) -> (node:
    BvhNode)
    requires
        hittable_wf(*left),
        hittable_wf(*right),
        time_ok(*left, time0 as int),
        time_ok(*left, time1 as int),
        time_ok(*right, time0 as int),
        time_ok(*right, time1 as int),
        bbox_v(*left, time0 as int, time1 as int) is Some,
        bbox_v(*right, time0 as int, time1 as int) is Some,
        bvh_boxes_ok(*left, time0 as int, time1 as int),
        bvh_boxes_ok(*right, time0 as int, time1 as int),
        sabs(time0 as int) <= T_FAR as int,
        sabs(time1 as int) <= T_FAR as int,
    ensures
        *node.left == *left,
        *node.right == *right,
        hittable_wf(Hittables::BvhNode(node)),
        node.bbox@ == box_union(
            bbox_v(*left, time0 as int, time1 as int)->0,
            bbox_v(*right, time0 as int, time1 as int)->0,
        ),
        bvh_boxes_ok(Hittables::BvhNode(node), time0 as int, time1 as int),
{
    let lb = (&*left).bounding_box(time0, time1);
    let rb = (&*right).bounding_box(time0, time1);
    let bbox: Aabb = match (lb, rb) {
        (Some(lbox), Some(rbox)) => Aabb::surrounding_box(lbox, rbox),
        _ => {
            proof {
                assert(false);
            }
            Aabb::default()
        },
    };
    let node = BvhNode { bbox, left, right };
    proof {
        assert(Hittables::BvhNode(node) matches Hittables::BvhNode(nn) && nn == node);
    }
    node
}

/// The value stands somewhere in the sequence.
pub open spec fn appears(x: Hittables, s: Seq<Hittables>) -> bool {
    exists|j: int| 0 <= j < s.len() && #[trigger] s[j] == x
}

/// Every member accepts the time.
pub open spec fn time_ok_all(s: Seq<Hittables>, time: int) -> bool {
    forall|i: int| 0 <= i < s.len() ==> time_ok(#[trigger] s[i], time)
}

} // verus!

verus! {

fn rot_in3(v: Vec3, s: i64, c: i64, axis: u32) -> (r: (i128, i128, i128))
    requires
        sabs(s as int) <= SCALE as int,
        sabs(c as int) <= SCALE as int,
    ensures
        r.0 as int == rot_in(v@, s as int, c as int, axis).x,
        r.1 as int == rot_in(v@, s as int, c as int, axis).y,
        r.2 as int == rot_in(v@, s as int, c as int, axis).z,
{
    proof {
        crate::fixed::lemma_tmul_unit_bound(c as int, v@.x, 9300000000000000000);
        crate::fixed::lemma_tmul_unit_bound(c as int, v@.y, 9300000000000000000);
        crate::fixed::lemma_tmul_unit_bound(c as int, v@.z, 9300000000000000000);
        crate::fixed::lemma_tmul_unit_bound(s as int, v@.x, 9300000000000000000);
        crate::fixed::lemma_tmul_unit_bound(s as int, v@.y, 9300000000000000000);
        crate::fixed::lemma_tmul_unit_bound(s as int, v@.z, 9300000000000000000);
    }
    if axis == 0 {
        let y = fmul128(c as i128, v.y as i128) + fmul128(s as i128, v.z as i128);
        let z = fmul128(c as i128, v.z as i128) - fmul128(s as i128, v.y as i128);
        (v.x as i128, y, z)
    } else if axis == 1 {
        let x = fmul128(c as i128, v.x as i128) - fmul128(s as i128, v.z as i128);
        let z = fmul128(s as i128, v.x as i128) + fmul128(c as i128, v.z as i128);
        (x, v.y as i128, z)
    } else {
        let x = fmul128(c as i128, v.x as i128) + fmul128(s as i128, v.y as i128);
        let y = fmul128(c as i128, v.y as i128) - fmul128(s as i128, v.x as i128);
        (x, y, v.z as i128)
    }
}

fn rot_out3(x: i64, y: i64, z: i64, s: i64, c: i64, axis: u32) -> (r: (i128, i128, i128))
    requires
        sabs(s as int) <= SCALE as int,
        sabs(c as int) <= SCALE as int,
    ensures
        r.0 as int == rot_out(V3 { x: x as int, y: y as int, z: z as int }, s as int, c as int,
            axis).x,
        r.1 as int == rot_out(V3 { x: x as int, y: y as int, z: z as int }, s as int, c as int,
            axis).y,
        r.2 as int == rot_out(V3 { x: x as int, y: y as int, z: z as int }, s as int, c as int,
            axis).z,
{
    proof {
        crate::fixed::lemma_tmul_unit_bound(c as int, x as int, 9300000000000000000);
        crate::fixed::lemma_tmul_unit_bound(c as int, y as int, 9300000000000000000);
        crate::fixed::lemma_tmul_unit_bound(c as int, z as int, 9300000000000000000);
        crate::fixed::lemma_tmul_unit_bound(s as int, x as int, 9300000000000000000);
        crate::fixed::lemma_tmul_unit_bound(s as int, y as int, 9300000000000000000);
        crate::fixed::lemma_tmul_unit_bound(s as int, z as int, 9300000000000000000);
    }
    if axis == 0 {
        let ny = fmul128(c as i128, y as i128) - fmul128(s as i128, z as i128);
        let nz = fmul128(s as i128, y as i128) + fmul128(c as i128, z as i128);
        (x as i128, ny, nz)
    } else if axis == 1 {
        let nx = fmul128(c as i128, x as i128) + fmul128(s as i128, z as i128);
        let nz = fmul128(c as i128, z as i128) - fmul128(s as i128, x as i128);
        (nx, y as i128, nz)
    } else {
        let nx = fmul128(c as i128, x as i128) - fmul128(s as i128, y as i128);
        let ny = fmul128(s as i128, x as i128) + fmul128(c as i128, y as i128);
        (nx, ny, z as i128)
    }
}

/// Map a child record back to world space through the rotation; drops
/// the record when a rotated component cannot be represented.
fn rot_finish(inner: Option<HitRecord>, s: i64, c: i64, axis: u32, moved: &Ray) -> (res: Option<
    HitRecord>)
    requires
        sabs(s as int) <= SCALE as int,
        sabs(c as int) <= SCALE as int,
        moved@.direction.within(COORD_MAX as int),
    ensures
        rot_rel(inner, s as int, c as int, axis, moved@.direction, res),
        res matches Some(o) ==> (inner matches Some(i) && o.t == i.t),
{
    match inner {
        None => None,
        Some(irec) => {
            let p = rot_out3(irec.point.x, irec.point.y, irec.point.z, s, c, axis);
            let n = rot_out3(irec.normal.x, irec.normal.y, irec.normal.z, s, c, axis);
            let nb: i128 = 4000000000000000000;
            if p.0 > nb || p.0 < -nb || p.1 > nb || p.1 < -nb || p.2 > nb || p.2 < -nb || n.0
                > nb || n.0 < -nb || n.1 > nb || n.1 < -nb || n.2 > nb || n.2 < -nb {
                return None;
            }
            let pv = Vec3 { x: p.0 as i64, y: p.1 as i64, z: p.2 as i64 };
            let nv = Vec3 { x: n.0 as i64, y: n.1 as i64, z: n.2 as i64 };
            let (front_face, normal) = face_normal(moved, nv);
            Some(
                HitRecord {
                    point: pv,
                    normal,
                    t: irec.t,
                    u: irec.u,
                    v: irec.v,
                    front_face,
                    mat: irec.mat.clone(),
                },
            )
        },
    }
}

#[verifier::rlimit(60)]
fn rx_hit(rx: &RotateX, ray: &Ray, t_min: i64, t_max: i64, rng: &mut SmallRng) -> (res: Option<
    HitRecord>)
    requires
        hittable_wf(*rx.object),
        sabs(rx.sin_theta as int) <= SCALE as int,
        sabs(rx.cos_theta as int) <= SCALE as int,
        time_ok(*rx.object, ray@.time),
        ray@.wf(),
        sabs(t_min as int) <= T_FAR as int,
        sabs(t_max as int) <= T_FAR as int,
    ensures
        hit_matches(Hittables::RotateX(*rx), ray@, t_min as int, t_max as int, res),
        res matches Some(rec) ==> t_min <= rec.t <= t_max,
    decreases *rx,
{
    proof {
        assert(decreases_to!(*rx => rx.object));
        assert(Hittables::RotateX(*rx) matches Hittables::RotateX(v) && v == *rx);
    }
    let o = rot_in3(ray.origin, rx.sin_theta, rx.cos_theta, 0);
    let d = rot_in3(ray.direction, rx.sin_theta, rx.cos_theta, 0);
    let pb: i128 = 100000000000000;
    let db: i128 = 10000000000;
    if o.0 > pb || o.0 < -pb || o.1 > pb || o.1 < -pb || o.2 > pb || o.2 < -pb || d.0 > db
        || d.0 < -db || d.1 > db || d.1 < -db || d.2 > db || d.2 < -db {
        return None;
    }
    let moved = Ray {
        origin: Vec3 { x: o.0 as i64, y: o.1 as i64, z: o.2 as i64 },
        direction: Vec3 { x: d.0 as i64, y: d.1 as i64, z: d.2 as i64 },
        time: ray.time,
    };
    let inner = (&*rx.object).hit(&moved, t_min, t_max, rng);
    let ghost ginner = inner;
    let res = rot_finish(inner, rx.sin_theta, rx.cos_theta, 0, &moved);
    proof {
        assert(hit_matches(*rx.object, moved@, t_min as int, t_max as int, ginner));
        assert(rot_rel(ginner, rx.sin_theta as int, rx.cos_theta as int, 0, moved@.direction,
            res));
    }
    res
}

#[verifier::rlimit(60)]
fn ry_hit(ry: &RotateY, ray: &Ray, t_min: i64, t_max: i64, rng: &mut SmallRng) -> (res: Option<
    HitRecord>)
    requires
        hittable_wf(*ry.object),
        sabs(ry.sin_theta as int) <= SCALE as int,
        sabs(ry.cos_theta as int) <= SCALE as int,
        time_ok(*ry.object, ray@.time),
        ray@.wf(),
        sabs(t_min as int) <= T_FAR as int,
        sabs(t_max as int) <= T_FAR as int,
    ensures
        hit_matches(Hittables::RotateY(*ry), ray@, t_min as int, t_max as int, res),
        res matches Some(rec) ==> t_min <= rec.t <= t_max,
    decreases *ry,
{
    proof {
        assert(decreases_to!(*ry => ry.object));
        assert(Hittables::RotateY(*ry) matches Hittables::RotateY(v) && v == *ry);
    }
    let o = rot_in3(ray.origin, ry.sin_theta, ry.cos_theta, 1);
    let d = rot_in3(ray.direction, ry.sin_theta, ry.cos_theta, 1);
    let pb: i128 = 100000000000000;
    let db: i128 = 10000000000;
    if o.0 > pb || o.0 < -pb || o.1 > pb || o.1 < -pb || o.2 > pb || o.2 < -pb || d.0 > db
        || d.0 < -db || d.1 > db || d.1 < -db || d.2 > db || d.2 < -db {
        return None;
    }
    let moved = Ray {
        origin: Vec3 { x: o.0 as i64, y: o.1 as i64, z: o.2 as i64 },
        direction: Vec3 { x: d.0 as i64, y: d.1 as i64, z: d.2 as i64 },
        time: ray.time,
    };
    let inner = (&*ry.object).hit(&moved, t_min, t_max, rng);
    let ghost ginner = inner;
    let res = rot_finish(inner, ry.sin_theta, ry.cos_theta, 1, &moved);
    proof {
        assert(hit_matches(*ry.object, moved@, t_min as int, t_max as int, ginner));
        assert(rot_rel(ginner, ry.sin_theta as int, ry.cos_theta as int, 1, moved@.direction,
            res));
    }
    res
}

#[verifier::rlimit(60)]
fn rz_hit(rz: &RotateZ, ray: &Ray, t_min: i64, t_max: i64, rng: &mut SmallRng) -> (res: Option<
    HitRecord>)
    requires
        hittable_wf(*rz.object),
        sabs(rz.sin_theta as int) <= SCALE as int,
        sabs(rz.cos_theta as int) <= SCALE as int,
        time_ok(*rz.object, ray@.time),
        ray@.wf(),
        sabs(t_min as int) <= T_FAR as int,
        sabs(t_max as int) <= T_FAR as int,
    ensures
        hit_matches(Hittables::RotateZ(*rz), ray@, t_min as int, t_max as int, res),
        res matches Some(rec) ==> t_min <= rec.t <= t_max,
    decreases *rz,
{
    proof {
        assert(decreases_to!(*rz => rz.object));
        assert(Hittables::RotateZ(*rz) matches Hittables::RotateZ(v) && v == *rz);
    }
    let o = rot_in3(ray.origin, rz.sin_theta, rz.cos_theta, 2);
    let d = rot_in3(ray.direction, rz.sin_theta, rz.cos_theta, 2);
    let pb: i128 = 100000000000000;
    let db: i128 = 10000000000;
    if o.0 > pb || o.0 < -pb || o.1 > pb || o.1 < -pb || o.2 > pb || o.2 < -pb || d.0 > db
        || d.0 < -db || d.1 > db || d.1 < -db || d.2 > db || d.2 < -db {
        return None;
    }
    let moved = Ray {
        origin: Vec3 { x: o.0 as i64, y: o.1 as i64, z: o.2 as i64 },
        direction: Vec3 { x: d.0 as i64, y: d.1 as i64, z: d.2 as i64 },
        time: ray.time,
    };
    let inner = (&*rz.object).hit(&moved, t_min, t_max, rng);
    let ghost ginner = inner;
    let res = rot_finish(inner, rz.sin_theta, rz.cos_theta, 2, &moved);
    proof {
        assert(hit_matches(*rz.object, moved@, t_min as int, t_max as int, ginner));
        assert(rot_rel(ginner, rz.sin_theta as int, rz.cos_theta as int, 2, moved@.direction,
            res));
    }
    res
}

#[verifier::rlimit(100)]
fn cm_hit(cm: &ConstantMedium, ray: &Ray, t_min: i64, t_max: i64, rng: &mut SmallRng) -> (res:
    Option<HitRecord>)
    requires
        hittable_wf(*cm.boundary),
        -1000000000000 <= cm.neg_inv_density <= 0,
        time_ok(*cm.boundary, ray@.time),
        ray@.wf(),
        sabs(t_min as int) <= T_FAR as int,
        sabs(t_max as int) <= T_FAR as int,
    ensures
        hit_matches(Hittables::ConstantMedium(*cm), ray@, t_min as int, t_max as int, res),
        res matches Some(rec) ==> t_min <= rec.t <= t_max,
    decreases *cm,
{
    proof {
        assert(decreases_to!(*cm => cm.boundary));
        assert(Hittables::ConstantMedium(*cm) matches Hittables::ConstantMedium(v) && v == *cm);
    }
    let rec1 = (&*cm.boundary).hit(ray, -10000000000, 10000000000, rng);
    let ghost g1 = rec1;
    match rec1 {
        None => {
            proof {
                assert(medium_rel(cm.neg_inv_density as int, *cm.phase_fn, g1,
                    Option::<HitRecord>::None, 0, ray@, t_min as int, t_max as int,
                    Option::<HitRecord>::None));
            }
            None
        },
        Some(r1) => {
            let tmin2: i64 = if r1.t + 100 > 10000000000 {
                10000000000
            } else {
                r1.t + 100
            };
            let rec2 = (&*cm.boundary).hit(ray, tmin2, 10000000000, rng);
            let ghost g2 = rec2;
            match rec2 {
                None => {
                    proof {
                        assert(medium_rel(cm.neg_inv_density as int, *cm.phase_fn, g1, g2, 0,
                            ray@, t_min as int, t_max as int, Option::<HitRecord>::None));
                    }
                    None
                },
                Some(r2) => {
                    let t1a: i64 = if r1.t < t_min {
                        t_min
                    } else {
                        r1.t
                    };
                    let t2: i64 = if r2.t > t_max {
                        t_max
                    } else {
                        r2.t
                    };
                    if t1a >= t2 {
                        proof {
                            assert(medium_rel(cm.neg_inv_density as int, *cm.phase_fn, g1, g2,
                                0, ray@, t_min as int, t_max as int,
                                Option::<HitRecord>::None));
                        }
                        return None;
                    }
                    let t1: i64 = if t1a < 0 {
                        0
                    } else {
                        t1a
                    };
                    if t1 >= t2 {
                        proof {
                            assert(medium_rel(cm.neg_inv_density as int, *cm.phase_fn, g1, g2,
                                0, ray@, t_min as int, t_max as int,
                                Option::<HitRecord>::None));
                        }
                        return None;
                    }
                    proof {
                        crate::vec::lemma_dot_fits3(ray@.direction, ray@.direction,
                            COORD_MAX as int, COORD_MAX as int, 100000000000000);
                        lemma_len2_nonneg(ray@.direction);
                    }
                    let len = ray.direction.length();
                    if len == 0 {
                        proof {
                            assert(medium_rel(cm.neg_inv_density as int, *cm.phase_fn, g1, g2,
                                0, ray@, t_min as int, t_max as int,
                                Option::<HitRecord>::None));
                        }
                        return None;
                    }
                    let u = crate::rng::rand_unit(rng);
                    if u == 0 {
                        proof {
                            assert(medium_rel(cm.neg_inv_density as int, *cm.phase_fn, g1, g2,
                                0, ray@, t_min as int, t_max as int,
                                Option::<HitRecord>::None));
                        }
                        return None;
                    }
                    proof {
                        assert((len as int) <= 20000000000int) by (nonlinear_arith)
                            requires
                                0 <= len as int,
                                is_sqrt(ray@.direction.len2() * (SCALE as int), len as int),
                                ray@.direction.len2() <= 300000000000000int,
                        ;
                        lemma_tmul_bound((t2 - t1) as int, len as int, 20000000000,
                            20000000000);
                        crate::fixed::lemma_tmul_nonneg((t2 - t1) as int, len as int);
                        crate::fixed::lemma_div_le(20000000000int * 20000000000int,
                            20000000000int * 20000000000int, 400000000000000);
                    }
                    let inside: i64 = fmul128((t2 as i128) - (t1 as i128), len as i128) as i64;
                    let nl = crate::util::neg_ln_unit(u);
                    proof {
                        lemma_tmul_bound(-(cm.neg_inv_density as int), nl as int,
                            1000000000000, 16000000);
                        crate::fixed::lemma_tmul_nonneg(-(cm.neg_inv_density as int),
                            nl as int);
                    }
                    let dist: i64 = fmul128(-(cm.neg_inv_density as i128), nl as i128) as i64;
                    if dist > inside {
                        proof {
                            assert(medium_rel(cm.neg_inv_density as int, *cm.phase_fn, g1, g2,
                                u as int, ray@, t_min as int, t_max as int,
                                Option::<HitRecord>::None));
                        }
                        return None;
                    }
                    proof {
                        crate::fixed::lemma_fdiv_nonneg(dist as int, len as int);
                        crate::fixed::lemma_fdiv_tmul_le((t2 - t1) as int, len as int);
                        lemma_tdiv_bound((dist as int) * (SCALE as int), len as int);
                        crate::fixed::lemma_sabs_mul(dist as int, SCALE as int);
                        lemma_tdiv_bound((inside as int) * (SCALE as int), len as int);
                        crate::fixed::lemma_sabs_mul(inside as int, SCALE as int);
                        vstd::arithmetic::div_mod::lemma_div_is_ordered(
                            (dist as int) * (SCALE as int), (inside as int) * (SCALE as int),
                            len as int);
                        vstd::arithmetic::mul::lemma_mul_inequality(dist as int, inside as int,
                            SCALE as int);
                    }
                    let dt: i64 = fdiv128(dist as i128, len as i128) as i64;
                    let t: i64 = t1 + dt;
                    let point = ray.at(t);
                    let out = HitRecord {
                        point,
                        normal: Vec3 { x: 1000000, y: 0, z: 0 },
                        t,
                        u: 0,
                        v: 0,
                        front_face: true,
                        mat: cm.phase_fn.clone(),
                    };
                    proof {
                        assert(medium_rel(cm.neg_inv_density as int, *cm.phase_fn, g1, g2,
                            u as int, ray@, t_min as int, t_max as int, Some(out)));
                    }
                    Some(out)
                },
            }
        },
    }
}

} // verus!

verus! {

/// The conservative enclosing box of a rotated box: every corner is
/// rotated back to world space and the extremes are kept; a corner past
/// the raw range leaves the box unavailable.
pub open spec fn rot_box(ob: Option<AabbV>, s: int, c: int, axis: u32) -> Option<AabbV> {
    match ob {
        None => None,
        Some(b) => {
            let p0 = rot_out(V3 { x: b.minimum.x, y: b.minimum.y, z: b.minimum.z }, s, c, axis);
            let p1 = rot_out(V3 { x: b.minimum.x, y: b.minimum.y, z: b.maximum.z }, s, c, axis);
            let p2 = rot_out(V3 { x: b.minimum.x, y: b.maximum.y, z: b.minimum.z }, s, c, axis);
            let p3 = rot_out(V3 { x: b.minimum.x, y: b.maximum.y, z: b.maximum.z }, s, c, axis);
            let p4 = rot_out(V3 { x: b.maximum.x, y: b.minimum.y, z: b.minimum.z }, s, c, axis);
            let p5 = rot_out(V3 { x: b.maximum.x, y: b.minimum.y, z: b.maximum.z }, s, c, axis);
            let p6 = rot_out(V3 { x: b.maximum.x, y: b.maximum.y, z: b.maximum.z }, s, c, axis);
            let p7 = rot_out(V3 { x: b.maximum.x, y: b.maximum.y, z: b.minimum.z }, s, c, axis);
            let mn = V3 {
                x: imin(imin(imin(p0.x, p1.x), imin(p2.x, p3.x)), imin(imin(p4.x, p5.x), imin(
                    p6.x, p7.x))),
                y: imin(imin(imin(p0.y, p1.y), imin(p2.y, p3.y)), imin(imin(p4.y, p5.y), imin(
                    p6.y, p7.y))),
                z: imin(imin(imin(p0.z, p1.z), imin(p2.z, p3.z)), imin(imin(p4.z, p5.z), imin(
                    p6.z, p7.z))),
            };
            let mx = V3 {
                x: imax(imax(imax(p0.x, p1.x), imax(p2.x, p3.x)), imax(imax(p4.x, p5.x), imax(
                    p6.x, p7.x))),
                y: imax(imax(imax(p0.y, p1.y), imax(p2.y, p3.y)), imax(imax(p4.y, p5.y), imax(
                    p6.y, p7.y))),
                z: imax(imax(imax(p0.z, p1.z), imax(p2.z, p3.z)), imax(imax(p4.z, p5.z), imax(
                    p6.z, p7.z))),
            };
            if mn.within(4000000000000000000) && mx.within(4000000000000000000) {
                Some(AabbV { minimum: mn, maximum: mx })
            } else {
                None
            }
        },
    }
}

fn min_w(a: i128, b: i128) -> (r: i128)
    ensures
        r as int == imin(a as int, b as int),
{
    if a < b {
        a
    } else {
        b
    }
}

fn max_w(a: i128, b: i128) -> (r: i128)
    ensures
        r as int == imax(a as int, b as int),
{
    if a > b {
        a
    } else {
        b
    }
}

/// Rotate all eight corners of a box and take their extremes.
#[verifier::rlimit(100)]
fn rotate_box(ob: Option<Aabb>, s: i64, c: i64, axis: u32) -> (res: Option<Aabb>)
    requires
        sabs(s as int) <= SCALE as int,
        sabs(c as int) <= SCALE as int,
    ensures
        opt_box_matches(res, rot_box(
            match ob {
                Some(b) => Some(b@),
                None => None,
            },
            s as int,
            c as int,
            axis,
        )),
{
    match ob {
        None => None,
        Some(b) => {
            let p0 = rot_out3(b.minimum.x, b.minimum.y, b.minimum.z, s, c, axis);
            let p1 = rot_out3(b.minimum.x, b.minimum.y, b.maximum.z, s, c, axis);
            let p2 = rot_out3(b.minimum.x, b.maximum.y, b.minimum.z, s, c, axis);
            let p3 = rot_out3(b.minimum.x, b.maximum.y, b.maximum.z, s, c, axis);
            let p4 = rot_out3(b.maximum.x, b.minimum.y, b.minimum.z, s, c, axis);
            let p5 = rot_out3(b.maximum.x, b.minimum.y, b.maximum.z, s, c, axis);
            let p6 = rot_out3(b.maximum.x, b.maximum.y, b.maximum.z, s, c, axis);
            let p7 = rot_out3(b.maximum.x, b.maximum.y, b.minimum.z, s, c, axis);
            let mnx = min_w(min_w(min_w(p0.0, p1.0), min_w(p2.0, p3.0)), min_w(min_w(p4.0,
                p5.0), min_w(p6.0, p7.0)));
            let mny = min_w(min_w(min_w(p0.1, p1.1), min_w(p2.1, p3.1)), min_w(min_w(p4.1,
                p5.1), min_w(p6.1, p7.1)));
            let mnz = min_w(min_w(min_w(p0.2, p1.2), min_w(p2.2, p3.2)), min_w(min_w(p4.2,
                p5.2), min_w(p6.2, p7.2)));
            let mxx = max_w(max_w(max_w(p0.0, p1.0), max_w(p2.0, p3.0)), max_w(max_w(p4.0,
                p5.0), max_w(p6.0, p7.0)));
            let mxy = max_w(max_w(max_w(p0.1, p1.1), max_w(p2.1, p3.1)), max_w(max_w(p4.1,
                p5.1), max_w(p6.1, p7.1)));
            let mxz = max_w(max_w(max_w(p0.2, p1.2), max_w(p2.2, p3.2)), max_w(max_w(p4.2,
                p5.2), max_w(p6.2, p7.2)));
            let nb: i128 = 4000000000000000000;
            if mnx > nb || mnx < -nb || mny > nb || mny < -nb || mnz > nb || mnz < -nb || mxx
                > nb || mxx < -nb || mxy > nb || mxy < -nb || mxz > nb || mxz < -nb {
                None
            } else {
                Some(
                    Aabb {
                        minimum: Vec3 { x: mnx as i64, y: mny as i64, z: mnz as i64 },
                        maximum: Vec3 { x: mxx as i64, y: mxy as i64, z: mxz as i64 },
                    },
                )
            }
        },
    }
}

impl RotateX {
    /// Wrap a node rotated about the x axis by the given fixed-point
    /// angle in degrees; the enclosing box is recomputed once from the
    /// child's corners.
    pub fn new(object: Arc<Hittables>, angle: i64) -> (h: Hittables)
        requires
            hittable_wf(*object),
            time_ok(*object, 0),
            time_ok(*object, 1000000),
            sabs(angle as int) <= 360000000,
        ensures
            h matches Hittables::RotateX(rx) && rx.object == object && rx.sin_theta as int
                == crate::util::sin_rad_v(crate::util::deg_to_rad_v(angle as int))
                && rx.cos_theta as int == crate::util::cos_rad_v(crate::util::deg_to_rad_v(
                angle as int)) && opt_box_matches(rx.bbox, rot_box(bbox_v(*object, 0, 1000000),
                rx.sin_theta as int, rx.cos_theta as int, 0)) && (angle == 0
                ==> rx.sin_theta == 0 && rx.cos_theta == SCALE),
    {
        let radians = crate::util::degrees_to_radians(angle);
        let (sin_theta, cos_theta) = crate::util::sin_cos_rad(radians);
        let cb = (&*object).bounding_box(0, 1000000);
        let bbox = rotate_box(cb, sin_theta, cos_theta, 0);
        proof {
            if angle == 0 {
                assert(crate::util::deg_to_rad_v(0) == 0) by {
                    assert(0int * (crate::util::PI_FX as int) == 0);
                    assert(tmul(0, crate::util::PI_FX as int) == 0) by {
                        vstd::arithmetic::div_mod::lemma_div_of0(1000000);
                    }
                    assert(fdivv(0, 180000000) == 0) by {
                        vstd::arithmetic::div_mod::lemma_div_of0(180000000);
                    }
                }
            }
        }
        Hittables::RotateX(RotateX { object, sin_theta, cos_theta, bbox })
    }
}

impl RotateY {
    /// Wrap a node rotated about the y axis by the given fixed-point
    /// angle in degrees.
    pub fn new(object: Arc<Hittables>, angle: i64) -> (h: Hittables)
        requires
            hittable_wf(*object),
            time_ok(*object, 0),
            time_ok(*object, 1000000),
            sabs(angle as int) <= 360000000,
        ensures
            h matches Hittables::RotateY(ry) && ry.object == object && ry.sin_theta as int
                == crate::util::sin_rad_v(crate::util::deg_to_rad_v(angle as int))
                && ry.cos_theta as int == crate::util::cos_rad_v(crate::util::deg_to_rad_v(
                angle as int)) && opt_box_matches(ry.bbox, rot_box(bbox_v(*object, 0, 1000000),
                ry.sin_theta as int, ry.cos_theta as int, 1)) && (angle == 0
                ==> ry.sin_theta == 0 && ry.cos_theta == SCALE),
    {
        let radians = crate::util::degrees_to_radians(angle);
        let (sin_theta, cos_theta) = crate::util::sin_cos_rad(radians);
        let cb = (&*object).bounding_box(0, 1000000);
        let bbox = rotate_box(cb, sin_theta, cos_theta, 1);
        proof {
            if angle == 0 {
                assert(crate::util::deg_to_rad_v(0) == 0) by {
                    assert(0int * (crate::util::PI_FX as int) == 0);
                    assert(tmul(0, crate::util::PI_FX as int) == 0) by {
                        vstd::arithmetic::div_mod::lemma_div_of0(1000000);
                    }
                    assert(fdivv(0, 180000000) == 0) by {
                        vstd::arithmetic::div_mod::lemma_div_of0(180000000);
                    }
                }
            }
        }
        Hittables::RotateY(RotateY { object, sin_theta, cos_theta, bbox })
    }
}

impl RotateZ {
    /// Wrap a node rotated about the z axis by the given fixed-point
    /// angle in degrees.
    pub fn new(object: Arc<Hittables>, angle: i64) -> (h: Hittables)
        requires
            hittable_wf(*object),
            time_ok(*object, 0),
            time_ok(*object, 1000000),
            sabs(angle as int) <= 360000000,
        ensures
            h matches Hittables::RotateZ(rz) && rz.object == object && rz.sin_theta as int
                == crate::util::sin_rad_v(crate::util::deg_to_rad_v(angle as int))
                && rz.cos_theta as int == crate::util::cos_rad_v(crate::util::deg_to_rad_v(
                angle as int)) && opt_box_matches(rz.bbox, rot_box(bbox_v(*object, 0, 1000000),
                rz.sin_theta as int, rz.cos_theta as int, 2)) && (angle == 0
                ==> rz.sin_theta == 0 && rz.cos_theta == SCALE),
    {
        let radians = crate::util::degrees_to_radians(angle);
        let (sin_theta, cos_theta) = crate::util::sin_cos_rad(radians);
        let cb = (&*object).bounding_box(0, 1000000);
        let bbox = rotate_box(cb, sin_theta, cos_theta, 2);
        proof {
            if angle == 0 {
                assert(crate::util::deg_to_rad_v(0) == 0) by {
                    assert(0int * (crate::util::PI_FX as int) == 0);
                    assert(tmul(0, crate::util::PI_FX as int) == 0) by {
                        vstd::arithmetic::div_mod::lemma_div_of0(1000000);
                    }
                    assert(fdivv(0, 180000000) == 0) by {
                        vstd::arithmetic::div_mod::lemma_div_of0(180000000);
                    }
                }
            }
        }
        Hittables::RotateZ(RotateZ { object, sin_theta, cos_theta, bbox })
    }
}

impl ConstantMedium {
    /// Wrap a boundary shape in a constant-density participating medium
    /// whose phase function scatters isotropically with the texture's
    /// colour.
    pub fn new(boundary: Arc<Hittables>, density: i64, texture: crate::texture::Texture) -> (h:
        Hittables)
        requires
            density >= 1,
        ensures
            h matches Hittables::ConstantMedium(cm) && cm.boundary == boundary
                && cm.neg_inv_density as int == -fdivv(SCALE as int, density as int)
                && *cm.phase_fn == (MaterialType::Isotropic(crate::material::Isotropic {
                albedo: texture })),
    {
        proof {
            lemma_fdiv_frac(1, density as int);
            crate::fixed::lemma_fdiv_bound2(SCALE as int, density as int, SCALE as int, 1);
        }
        let nid: i64 = -(fdiv128(1000000, density as i128) as i64);
        let phase_fn = crate::material::Isotropic::new(texture);
        Hittables::ConstantMedium(
            ConstantMedium { boundary, phase_fn, neg_inv_density: nid },
        )
    }
}

} // verus!

verus! {

/// Saturating addition at the raw ceiling.
pub open spec fn sat_add(a: int, b: int) -> int {
    if a + b > 0x7fffffffffffffff {
        0x7fffffffffffffff
    } else {
        a + b
    }
}

/// The sampling density a node reports for the direction `v` seen from
/// `origin`: zero for anything that is not a light shape, the standard
/// solid-angle densities for spheres and horizontal rectangles, and the
/// uniform average over a list. A vanishing denominator saturates.
pub open spec fn pdf_value_v(h: Hittables, origin: V3, v: V3) -> int
    decreases h,
{
    match h {
        Hittables::Sphere(s) => {
            let ray = RayV { origin, direction: v, time: 0 };
            match sphere_hit_v(s.center@, s.radius as int, *s.mat, ray, 1000, T_FAR as int) {
                None => 0,
                Some(_) => {
                    let d2 = s.center@.sub(origin).len2();
                    if d2 <= 0 {
                        0x7fffffffffffffff
                    } else {
                        let frac = fdivv(tmul(s.radius as int, s.radius as int), d2);
                        let inner = if frac > SCALE as int {
                            0
                        } else {
                            (SCALE as int) - frac
                        };
                        let ctm = fsqrt_v(inner);
                        let solid = tmul(2 * (crate::util::PI_FX as int), (SCALE as int) - ctm);
                        if solid <= 0 {
                            0x7fffffffffffffff
                        } else {
                            fdivv(SCALE as int, solid)
                        }
                    }
                },
            }
        },
        Hittables::XzRect(rc) => {
            let ray = RayV { origin, direction: v, time: 0 };
            match xz_rect_hit_v(rc.x0 as int, rc.x1 as int, rc.z0 as int, rc.z1 as int,
                rc.k as int, *rc.mat, ray, 1000, T_FAR as int) {
                None => 0,
                Some(hit) => {
                    let area = tmul(rc.x1 - rc.x0, rc.z1 - rc.z0);
                    let dist_sq = tmul(tmul(hit.t, hit.t), v.len2());
                    let len = v.len();
                    if len == 0 {
                        0
                    } else {
                        let cosine = sabs(fdivv(v.dot(hit.normal), len));
                        let denom = tmul(cosine, area);
                        if denom <= 0 {
                            0x7fffffffffffffff
                        } else {
                            let p = fdivv(dist_sq, denom);
                            if p > 0x7fffffffffffffff {
                                0x7fffffffffffffff
                            } else {
                                p
                            }
                        }
                    }
                },
            }
        },
        Hittables::HittableList(l) => {
            if l.hittables@.len() == 0 {
                0
            } else {
                pdf_sum(l.hittables@, origin, v, tdiv(SCALE as int, l.hittables@.len() as int))
            }
        },
        _ => 0,
    }
}

/// The weighted, saturating sum of the members' densities.
pub open spec fn pdf_sum(s: Seq<Hittables>, origin: V3, v: V3, weight: int) -> int
    decreases s,
{
    if s.len() == 0 {
        0
    } else {
        sat_add(
            tmul(weight, pdf_value_v(s[0], origin, v)),
            pdf_sum(s.subrange(1, s.len() as int), origin, v, weight),
        )
    }
}

impl Hittables {
    /// The probability density of sampling direction `v` from `origin`
    /// toward this shape; zero when the shape is no light target.
    #[verifier::loop_isolation(false)]
    #[verifier::rlimit(100)]
    pub fn pdf_value(&self, origin: Vec3, v: Vec3, rng: &mut SmallRng) -> (r: i64)
        requires
            hittable_wf(*self),
            origin@.within(PT_MAX as int),
            v@.within(COORD_MAX as int),
        ensures
            r as int == pdf_value_v(*self, origin@, v@),
            r >= 0,
        decreases *self,
    {
        match self {
            Hittables::Sphere(s) => {
                let ray = Ray { origin, direction: v, time: 0 };
                let hit = sphere_solve(s.center, s.radius, &s.mat, &ray, 1000, 10000000000);
                match hit {
                    None => 0,
                    Some(_) => {
                        let co = s.center.sub(origin);
                        proof {
                            crate::vec::lemma_dot_fits3(co@, co@, 110000000000000,
                                110000000000000, 12100000000000000000000);
                            lemma_len2_nonneg(co@);
                            lemma_tmul_bound(s.radius as int, s.radius as int,
                                COORD_MAX as int, COORD_MAX as int);
                            crate::fixed::lemma_tmul_sq_nonneg(s.radius as int);
                        }
                        let d2: i128 = co.dot_wide(co);
                        if d2 <= 0 {
                            0x7fffffffffffffff
                        } else {
                            let rr: i128 = fmul128(s.radius as i128, s.radius as i128);
                            proof {
                                crate::fixed::lemma_fdiv_nonneg(rr as int, d2 as int);
                                crate::fixed::lemma_fdiv_bound2(rr as int, d2 as int,
                                    100000000000000, 1);
                            }
                            let frac: i128 = fdiv128(rr, d2);
                            let inner: i128 = if frac > 1000000 {
                                0
                            } else {
                                1000000 - frac
                            };
                            let ctm: i128 = fsqrt128(inner);
                            proof {
                                assert((ctm as int) <= 1100000int) by (nonlinear_arith)
                                    requires
                                        0 <= ctm as int,
                                        (ctm as int) * (ctm as int) <= (inner as int) * (
                                        SCALE as int),
                                        0 <= (inner as int) <= 1000000int,
                                ;
                                lemma_tmul_bound(2 * (crate::util::PI_FX as int),
                                    (SCALE as int) - (ctm as int), 6283186, 2100000);
                            }
                            let solid: i128 = fmul128(6283186, 1000000 - ctm);
                            if solid <= 0 {
                                0x7fffffffffffffff
                            } else {
                                proof {
                                    crate::fixed::lemma_fdiv_nonneg(SCALE as int,
                                        solid as int);
                                    crate::fixed::lemma_fdiv_bound2(SCALE as int, solid as int,
                                        SCALE as int, 1);
                                }
                                fdiv128(1000000, solid) as i64
                            }
                        }
                    },
                }
            },
            Hittables::XzRect(rc) => {
                let ray = Ray { origin, direction: v, time: 0 };
                let hit = xz_rect_hit(rc, &ray, 1000, 10000000000);
                match hit {
                    None => 0,
                    Some(hitr) => {
                        proof {
                            lemma_tmul_bound((rc.x1 - rc.x0) as int, (rc.z1 - rc.z0) as int,
                                20000000000, 20000000000);
                            crate::fixed::lemma_tmul_nonneg((rc.x1 - rc.x0) as int, (rc.z1
                                - rc.z0) as int);
                            lemma_tmul_bound(hitr.t as int, hitr.t as int, T_FAR as int,
                                T_FAR as int);
                            crate::fixed::lemma_tmul_sq_nonneg(hitr.t as int);
                            crate::vec::lemma_dot_fits3(v@, v@, COORD_MAX as int,
                                COORD_MAX as int, 100000000000000);
                            lemma_len2_nonneg(v@);
                            lemma_tmul_bound(tmul(hitr.t as int, hitr.t as int), v@.len2(),
                                100000000000000, 300000000000000);
                            crate::fixed::lemma_tmul_nonneg(tmul(hitr.t as int, hitr.t as int),
                                v@.len2());
                        }
                        let area: i128 = fmul128((rc.x1 as i128) - (rc.x0 as i128), (
                        rc.z1 as i128) - (rc.z0 as i128));
                        let tt: i128 = fmul128(hitr.t as i128, hitr.t as i128);
                        let l2: i128 = v.dot_wide(v);
                        let dist_sq: i128 = fmul128w(tt, l2);
                        let len = v.length();
                        if len == 0 {
                            0
                        } else {
                            proof {
                                crate::vec::lemma_dot_fits3(v@, hitr.normal@, COORD_MAX as int,
                                    SCALE as int, 10000000000);
                                crate::fixed::lemma_fdiv_bound2(v@.dot(hitr.normal@),
                                    len as int, 30000000000, 1);
                            }
                            let dn: i128 = v.dot_wide(hitr.normal);
                            let q: i128 = fdiv128(dn, len as i128);
                            let cosine: i128 = if q < 0 {
                                -q
                            } else {
                                q
                            };
                            proof {
                                lemma_tmul_bound(cosine as int, area as int,
                                    30000000000000000, 400000000000000);
                            }
                            let denom: i128 = fmul128w(cosine, area);
                            if denom <= 0 {
                                0x7fffffffffffffff
                            } else {
                                proof {
                                    crate::fixed::lemma_fdiv_nonneg(dist_sq as int,
                                        denom as int);
                                    crate::fixed::lemma_fdiv_bound2(dist_sq as int,
                                        denom as int, 30000000000000000000000000000, 1);
                                }
                                let p: i128 = fdiv128(dist_sq, denom);
                                if p > 0x7fffffffffffffff {
                                    0x7fffffffffffffff
                                } else {
                                    p as i64
                                }
                            }
                        }
                    },
                }
            },
            Hittables::HittableList(l) => {
                let ghost members = l.hittables@;
                let n = l.hittables.len();
                if n == 0 {
                    return 0;
                }
                let weight: i64 = crate::fixed::tdiv128(1000000, n as i128) as i64;
                proof {
                    crate::fixed::lemma_tdiv_bound(SCALE as int, n as int);
                    crate::fixed::lemma_tdiv_nonneg(SCALE as int, n as int);
                }
                let mut sum: i64 = 0;
                let mut i: usize = n;
                while i > 0
                    invariant
                        0 <= i <= members.len(),
                        n == members.len(),
                        0 <= weight <= SCALE,
                        0 <= sum,
                        sum as int == pdf_sum(members.subrange(i as int, members.len() as int),
                            origin@, v@, weight as int),
                    decreases i,
                {
                    proof {
                        assert(decreases_to!(*l => l.hittables));
                        assert(decreases_to!(l.hittables => l.hittables@));
                        assert(decreases_to!(l.hittables@ => l.hittables@[i as int - 1]));
                    }
                    let pv = l.hittables[i - 1].pdf_value(origin, v, rng);
                    proof {
                        lemma_tmul_bound(weight as int, pv as int, SCALE as int,
                            0x7fffffffffffffffint);
                        crate::fixed::lemma_tmul_nonneg(weight as int, pv as int);
                        crate::fixed::lemma_div_le((SCALE as int) * sabs(pv as int),
                            (SCALE as int) * 0x7fffffffffffffffint, 0x7fffffffffffffffint);
                        let rest = members.subrange(i as int - 1, members.len() as int);
                        assert(rest[0] == members[i as int - 1]);
                        assert(rest.subrange(1, rest.len() as int) =~= members.subrange(
                            i as int, members.len() as int));
                    }
                    let term: i64 = fmul128(weight as i128, pv as i128) as i64;
                    sum = if sum as i128 + term as i128 > 0x7fffffffffffffff {
                        0x7fffffffffffffff
                    } else {
                        sum + term
                    };
                    i = i - 1;
                }
                proof {
                    assert(members.subrange(0, members.len() as int) =~= members);
                }
                sum
            },
            _ => {
                proof {
                    assert(pdf_value_v(*self, origin@, v@) == 0);
                }
                0
            },
        }
    }

    /// A direction from `origin` toward this shape, solid-angle
    /// weighted; shapes that are no light target answer a fixed axis.
    #[verifier::rlimit(60)]
    pub fn random(&self, origin: Vec3, rng: &mut SmallRng) -> (r: Vec3)
        requires
            hittable_wf(*self),
            random_ok(*self),
            origin@.within(PT_MAX as int),
        ensures
            r@.within(200000000000000),
            random_rel(*self, origin@, r@),
        decreases *self,
    {
        match self {
            Hittables::Sphere(s) => {
                let direction = s.center.sub(origin);
                proof {
                    crate::vec::lemma_dot_fits3(direction@, direction@, 110000000000000,
                        110000000000000, 12100000000000000000000);
                    lemma_len2_nonneg(direction@);
                }
                let d2: i128 = direction.dot_wide(direction);
                if d2 < 1 {
                    return Vec3 { x: 1000000, y: 0, z: 0 };
                }
                let uvw = crate::onb::Onb::new(&direction);
                let local_dir = crate::util::random_to_sphere_wide(s.radius, d2, rng);
                let ghost gls = local_dir@;
                let out = uvw.local(&local_dir);
                proof {
                    assert(gls.within(2000000));
                    assert(random_rel(*self, origin@, out@));
                }
                out
            },
            Hittables::XzRect(rc) => {
                let x = crate::rng::rand_range(rng, rc.x0, rc.x1);
                let z = crate::rng::rand_range(rng, rc.z0, rc.z1);
                let p = Vec3 { x, y: rc.k, z };
                let out = p.sub(origin);
                proof {
                    assert(sabs(x as int) <= COORD_MAX as int);
                    assert(sabs(z as int) <= COORD_MAX as int);
                    assert(random_rel(*self, origin@, out@));
                }
                out
            },
            Hittables::HittableList(l) => {
                let n = l.hittables.len();
                let k = crate::rng::rand_index(rng, n);
                proof {
                    assert(decreases_to!(*l => l.hittables));
                    assert(decreases_to!(l.hittables => l.hittables@));
                    assert(decreases_to!(l.hittables@ => l.hittables@[k as int]));
                }
                l.hittables[k].random(origin, rng)
            },
            _ => Vec3 { x: 1000000, y: 0, z: 0 },
        }
    }
}

/// What `random` may answer, outcome by outcome: a sphere answers the
/// local cone sample carried through the frame aimed at it, a
/// horizontal rectangle answers a point of itself minus the origin, a
/// list delegates to a drawn member, and everything else answers the
/// fixed axis.
pub open spec fn random_rel(h: Hittables, origin: V3, r: V3) -> bool {
    match h {
        Hittables::Sphere(s) => {
            let direction = s.center@.sub(origin);
            if direction.len2() < 1 {
                r == (V3 { x: SCALE as int, y: 0, z: 0 })
            } else {
                exists|ls: V3|
                    #![trigger ls.within(2000000)]
                    {
                        &&& ls.within(2000000)
                        &&& ls.z >= 0
                        &&& r == crate::onb::onb_local(crate::onb::onb_of(direction), ls)
                    }
            }
        },
        Hittables::XzRect(rc) => exists|px: int, pz: int|
            #![trigger sabs(px), sabs(pz)]
            {
                &&& rc.x0 <= px < rc.x1
                &&& rc.z0 <= pz < rc.z1
                &&& r == (V3 { x: px, y: rc.k as int, z: pz }).sub(origin)
            },
        Hittables::HittableList(_) => true,
        _ => r == (V3 { x: SCALE as int, y: 0, z: 0 }),
    }
}

/// Drawing a direction toward a list requires someone to aim at.
pub open spec fn random_ok(h: Hittables) -> bool
    decreases h,
{
    match h {
        Hittables::HittableList(l) => l.hittables@.len() >= 1 && forall|i: int|
            0 <= i < l.hittables@.len() ==> random_ok(#[trigger] l.hittables@[i]),
        _ => true,
    }
}

} // verus!
