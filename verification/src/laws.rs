//! The general statements the library is held to, proved once over the
//! specifications the executable contracts use: the quadratic solver
//! reports the nearest admissible root, an inverse translation restores
//! a hit record, and a rotation by the zero angle is the identity on
//! hit geometry.
use vstd::prelude::*;
use crate::fixed::{tmul, fdivv, fsqrt_v, SCALE, COORD_MAX, PT_MAX,
    lemma_sqrt_exists, lemma_fdiv_monotone, lemma_tmul_scale, lemma_tmul_zero};
use crate::vec::V3;
use crate::ray::RayV;
use crate::hittable::{Hittables, HitRecord, Translate, RotateX, RotateY, RotateZ, hit_matches,
    sphere_hit_v, sphere_rec_v, translate_rel, rot_rel, rot_in, rot_out};
use crate::material::MaterialType;

verus! {

/// The two candidate parameters of the quadratic sphere solve.
pub open spec fn sphere_roots(center: V3, radius: int, r: RayV) -> (int, int) {
    let oc = r.origin.sub(center);
    let a = r.direction.len2();
    let half_b = oc.dot(r.direction);
    let disc = tmul(half_b, half_b) - tmul(a, oc.len2() - tmul(radius, radius));
    let root = fsqrt_v(disc);
    (fdivv(-half_b - root, a), fdivv(-half_b + root, a))
}

/// Whenever the discriminant is positive there are exactly two candidate
/// roots, in order, and the solver reports the smaller one whenever it
/// lies inside the open window; only when it does not is the larger one
/// reported, and when neither does there is no hit.
#[verifier::rlimit(100)]
#[verifier::spinoff_prover]
pub proof fn lemma_sphere_reports_nearest_root(
    center: V3,
    radius: int,
    mat: MaterialType,
    r: RayV,
    tmin: int,
    tmax: int,
)
    requires
        ({
            let oc = r.origin.sub(center);
            let a = r.direction.len2();
            let half_b = oc.dot(r.direction);
            let disc = tmul(half_b, half_b) - tmul(a, oc.len2() - tmul(radius, radius));
            disc > 0 && a > 0
        }),
    ensures
        sphere_roots(center, radius, r).0 <= sphere_roots(center, radius, r).1,
        ({
            let t1 = sphere_roots(center, radius, r).0;
            let t2 = sphere_roots(center, radius, r).1;
            &&& (t1 < tmax && t1 > tmin ==> (sphere_hit_v(center, radius, mat, r, tmin, tmax)
                matches Some(hv) && hv.t == t1))
            &&& (!(t1 < tmax && t1 > tmin) && (t2 < tmax && t2 > tmin) ==> (sphere_hit_v(
                center, radius, mat, r, tmin, tmax) matches Some(hv) && hv.t == t2))
            &&& (!(t1 < tmax && t1 > tmin) && !(t2 < tmax && t2 > tmin) ==> sphere_hit_v(
                center, radius, mat, r, tmin, tmax) is None)
        }),
{
    let oc = r.origin.sub(center);
    let a = r.direction.len2();
    let half_b = oc.dot(r.direction);
    let disc = tmul(half_b, half_b) - tmul(a, oc.len2() - tmul(radius, radius));
    lemma_sqrt_exists(disc * (SCALE as int));
    let root = fsqrt_v(disc);
    assert(root >= 0);
    lemma_fdiv_monotone(-half_b - root, -half_b + root, a);
    let t1 = fdivv(-half_b - root, a);
    let t2 = fdivv(-half_b + root, a);
    assert(sphere_roots(center, radius, r).0 == t1);
    assert(sphere_roots(center, radius, r).1 == t2);
    if t1 < tmax && t1 > tmin {
        assert(sphere_hit_v(center, radius, mat, r, tmin, tmax) == Some(sphere_rec_v(center,
            radius, mat, r, t1)));
        assert(sphere_rec_v(center, radius, mat, r, t1).t == t1);
    } else if t2 < tmax && t2 > tmin {
        assert(sphere_hit_v(center, radius, mat, r, tmin, tmax) == Some(sphere_rec_v(center,
            radius, mat, r, t2)));
        assert(sphere_rec_v(center, radius, mat, r, t2).t == t2);
    } else {
        assert(sphere_hit_v(center, radius, mat, r, tmin, tmax) is None);
    }
}

/// Translating a shape and translating it back restores every hit
/// record: the parameter, the surface coordinates, the hit point and
/// the material are identical, and away from a grazing incidence the
/// normal and the facing flag survive as well.
pub proof fn lemma_translate_round_trip(
    touter: Translate,
    tinner: Translate,
    h: Hittables,
    r: RayV,
    tmin: int,
    tmax: int,
    res: Option<HitRecord>,
)
    requires
        *touter.object == Hittables::Translate(tinner),
        *tinner.object == h,
        touter.offset@ == tinner.offset@.neg(),
        touter.offset@.within(COORD_MAX as int),
        r.origin.within((PT_MAX - COORD_MAX) as int),
        hit_matches(Hittables::Translate(touter), r, tmin, tmax, res),
    ensures
        exists|inner: Option<HitRecord>|
            {
                &&& #[trigger] hit_matches(h, r, tmin, tmax, inner)
                &&& match (inner, res) {
                    (None, None) => true,
                    (Some(i), Some(o)) => {
                        &&& o@.t == i@.t
                        &&& o@.u == i@.u
                        &&& o@.v == i@.v
                        &&& o@.point == i@.point
                        &&& o@.mat == i@.mat
                        &&& (r.direction.dot(i@.normal) < 0 ==> o@.normal == i@.normal
                            && o@.front_face)
                    },
                    (Some(i), None) => !i@.point.add(tinner.offset@).within(
                        4000000000000000000) || !i@.point.within(4000000000000000000)
                        || !i@.normal.within(4000000000000000000),
                    (None, Some(_)) => false,
                }
            },
{
    let moved1 = RayV {
        origin: r.origin.sub(touter.offset@),
        direction: r.direction,
        time: r.time,
    };
    assert(moved1.origin.within(PT_MAX as int));
    let mid = choose|mid: Option<HitRecord>|
        {
            &&& hit_matches(*touter.object, moved1, tmin, tmax, mid)
            &&& #[trigger] translate_rel(mid, touter.offset@, r.direction, res)
        };
    assert(hit_matches(Hittables::Translate(tinner), moved1, tmin, tmax, mid));
    let moved2 = RayV {
        origin: moved1.origin.sub(tinner.offset@),
        direction: r.direction,
        time: r.time,
    };
    assert(moved2.origin == r.origin);
    assert(moved2 == r);
    assert(moved2.origin.within(PT_MAX as int));
    let inner = choose|inner: Option<HitRecord>|
        {
            &&& hit_matches(*tinner.object, moved2, tmin, tmax, inner)
            &&& #[trigger] translate_rel(inner, tinner.offset@, r.direction, mid)
        };
    assert(hit_matches(h, r, tmin, tmax, inner));
    match (inner, res) {
        (None, None) => {},
        (Some(i), Some(o)) => {
            assert(translate_rel(inner, tinner.offset@, r.direction, mid));
            assert(mid is Some);
            assert(translate_rel(mid, touter.offset@, r.direction, res));
        },
        (Some(i), None) => {},
        (None, Some(o)) => {
            assert(mid is None);
            assert(false);
        },
    }
}

/// A rotation about the vertical axis by the zero angle leaves every
/// hit record's parameter, surface coordinates, point and material
/// untouched, and away from a grazing incidence the normal and facing
/// flag as well: the stored sine is zero and the stored cosine is one,
/// so both coordinate transforms are the identity.
pub proof fn lemma_rotate_zero_identity(
    ry: RotateY,
    h: Hittables,
    r: RayV,
    tmin: int,
    tmax: int,
    res: Option<HitRecord>,
)
    requires
        ry.sin_theta == 0,
        ry.cos_theta == SCALE,
        *ry.object == h,
        r.origin.within(PT_MAX as int),
        r.direction.within(COORD_MAX as int),
        hit_matches(Hittables::RotateY(ry), r, tmin, tmax, res),
    ensures
        exists|inner: Option<HitRecord>|
            {
                &&& #[trigger] hit_matches(h, r, tmin, tmax, inner)
                &&& match (inner, res) {
                    (None, None) => true,
                    (Some(i), Some(o)) => {
                        &&& o@.t == i@.t
                        &&& o@.u == i@.u
                        &&& o@.v == i@.v
                        &&& o@.point == i@.point
                        &&& o@.mat == i@.mat
                        &&& (r.direction.dot(i@.normal) < 0 ==> o@.normal == i@.normal
                            && o@.front_face)
                    },
                    (Some(i), None) => !i@.point.within(4000000000000000000)
                        || !i@.normal.within(4000000000000000000),
                    (None, Some(_)) => false,
                }
            },
{
    lemma_rot_identity_all();
    let ro = rot_in(r.origin, 0, SCALE as int, 1);
    let rd = rot_in(r.direction, 0, SCALE as int, 1);
    assert(ro == r.origin);
    assert(rd == r.direction);
    let moved = RayV { origin: ro, direction: rd, time: r.time };
    assert(moved == r);
    let inner = choose|inner: Option<HitRecord>|
        {
            &&& hit_matches(*ry.object, moved, tmin, tmax, inner)
            &&& #[trigger] rot_rel(inner, ry.sin_theta as int, ry.cos_theta as int, 1, rd,
                res)
        };
    assert(hit_matches(h, r, tmin, tmax, inner));
    match (inner, res) {
        (None, None) => {},
        (Some(i), Some(o)) => {
            assert(rot_out(i@.point, 0, SCALE as int, 1) == i@.point);
            assert(rot_out(i@.normal, 0, SCALE as int, 1) == i@.normal);
        },
        (Some(i), None) => {
            assert(rot_out(i@.point, 0, SCALE as int, 1) == i@.point);
            assert(rot_out(i@.normal, 0, SCALE as int, 1) == i@.normal);
        },
        (None, Some(_)) => {
            assert(false);
        },
    }
}

/// With sine zero and cosine one, both rotation maps fix every vector,
/// about every axis.
pub proof fn lemma_rot_identity_all()
    ensures
        forall|p: V3, axis: u32| #[trigger] rot_in(p, 0, SCALE as int, axis) == p,
        forall|p: V3, axis: u32| #[trigger] rot_out(p, 0, SCALE as int, axis) == p,
{
    assert forall|p: V3, axis: u32| #[trigger] rot_in(p, 0, SCALE as int, axis) == p by {
        lemma_tmul_scale(p.x);
        lemma_tmul_scale(p.y);
        lemma_tmul_scale(p.z);
        lemma_tmul_zero(p.x);
        lemma_tmul_zero(p.y);
        lemma_tmul_zero(p.z);
    }
    assert forall|p: V3, axis: u32| #[trigger] rot_out(p, 0, SCALE as int, axis) == p by {
        lemma_tmul_scale(p.x);
        lemma_tmul_scale(p.y);
        lemma_tmul_scale(p.z);
        lemma_tmul_zero(p.x);
        lemma_tmul_zero(p.y);
        lemma_tmul_zero(p.z);
    }
}

/// The same identity about the x axis.
pub proof fn lemma_rotate_x_zero_identity(
    rx: RotateX,
    h: Hittables,
    r: RayV,
    tmin: int,
    tmax: int,
    res: Option<HitRecord>,
)
    requires
        rx.sin_theta == 0,
        rx.cos_theta == SCALE,
        *rx.object == h,
        r.origin.within(PT_MAX as int),
        r.direction.within(COORD_MAX as int),
        hit_matches(Hittables::RotateX(rx), r, tmin, tmax, res),
    ensures
        exists|inner: Option<HitRecord>|
            {
                &&& #[trigger] hit_matches(h, r, tmin, tmax, inner)
                &&& match (inner, res) {
                    (None, None) => true,
                    (Some(i), Some(o)) => {
                        &&& o@.t == i@.t
                        &&& o@.u == i@.u
                        &&& o@.v == i@.v
                        &&& o@.point == i@.point
                        &&& o@.mat == i@.mat
                        &&& (r.direction.dot(i@.normal) < 0 ==> o@.normal == i@.normal
                            && o@.front_face)
                    },
                    (Some(i), None) => !i@.point.within(4000000000000000000)
                        || !i@.normal.within(4000000000000000000),
                    (None, Some(_)) => false,
                }
            },
{
    lemma_rot_identity_all();
    let moved = RayV {
        origin: rot_in(r.origin, 0, SCALE as int, 0),
        direction: rot_in(r.direction, 0, SCALE as int, 0),
        time: r.time,
    };
    assert(moved == r);
    let inner = choose|inner: Option<HitRecord>|
        {
            &&& hit_matches(*rx.object, moved, tmin, tmax, inner)
            &&& #[trigger] rot_rel(inner, rx.sin_theta as int, rx.cos_theta as int, 0,
                moved.direction, res)
        };
    assert(hit_matches(h, r, tmin, tmax, inner));
    match (inner, res) {
        (None, None) => {},
        (Some(i), Some(o)) => {
            assert(rot_out(i@.point, 0, SCALE as int, 0) == i@.point);
            assert(rot_out(i@.normal, 0, SCALE as int, 0) == i@.normal);
        },
        (Some(i), None) => {
            assert(rot_out(i@.point, 0, SCALE as int, 0) == i@.point);
            assert(rot_out(i@.normal, 0, SCALE as int, 0) == i@.normal);
        },
        (None, Some(_)) => {
            assert(false);
        },
    }
}

/// The same identity about the z axis.
pub proof fn lemma_rotate_z_zero_identity(
    rz: RotateZ,
    h: Hittables,
    r: RayV,
    tmin: int,
    tmax: int,
    res: Option<HitRecord>,
)
    requires
        rz.sin_theta == 0,
        rz.cos_theta == SCALE,
        *rz.object == h,
        r.origin.within(PT_MAX as int),
        r.direction.within(COORD_MAX as int),
        hit_matches(Hittables::RotateZ(rz), r, tmin, tmax, res),
    ensures
        exists|inner: Option<HitRecord>|
            {
                &&& #[trigger] hit_matches(h, r, tmin, tmax, inner)
                &&& match (inner, res) {
                    (None, None) => true,
                    (Some(i), Some(o)) => {
                        &&& o@.t == i@.t
                        &&& o@.u == i@.u
                        &&& o@.v == i@.v
                        &&& o@.point == i@.point
                        &&& o@.mat == i@.mat
                        &&& (r.direction.dot(i@.normal) < 0 ==> o@.normal == i@.normal
                            && o@.front_face)
                    },
                    (Some(i), None) => !i@.point.within(4000000000000000000)
                        || !i@.normal.within(4000000000000000000),
                    (None, Some(_)) => false,
                }
            },
{
    lemma_rot_identity_all();
    let moved = RayV {
        origin: rot_in(r.origin, 0, SCALE as int, 2),
        direction: rot_in(r.direction, 0, SCALE as int, 2),
        time: r.time,
    };
    assert(moved == r);
    let inner = choose|inner: Option<HitRecord>|
        {
            &&& hit_matches(*rz.object, moved, tmin, tmax, inner)
            &&& #[trigger] rot_rel(inner, rz.sin_theta as int, rz.cos_theta as int, 2,
                moved.direction, res)
        };
    assert(hit_matches(h, r, tmin, tmax, inner));
    match (inner, res) {
        (None, None) => {},
        (Some(i), Some(o)) => {
            assert(rot_out(i@.point, 0, SCALE as int, 2) == i@.point);
            assert(rot_out(i@.normal, 0, SCALE as int, 2) == i@.normal);
        },
        (Some(i), None) => {
            assert(rot_out(i@.point, 0, SCALE as int, 2) == i@.point);
            assert(rot_out(i@.normal, 0, SCALE as int, 2) == i@.normal);
        },
        (None, Some(_)) => {
            assert(false);
        },
    }
}

} // verus!
