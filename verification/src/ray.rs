//! Parametric rays: an origin, a direction and a time-of-sample, consumed
//! by every intersection test. The point at parameter `t` is
//! `origin + t * direction` in fixed-point arithmetic.
use vstd::prelude::*;
use crate::fixed::{sabs, tmul, COORD_MAX, PT_MAX, T_FAR, SCALE};
use crate::vec::{Vec3, V3, dot_mag, lemma_dot_fits};

verus! {

/// Mathematical value of a ray.
pub struct RayV {
    pub origin: V3,
    pub direction: V3,
    pub time: int,
}

impl RayV {
    /// The point reached at parameter `t`.
    pub open spec fn at(self, t: int) -> V3 {
        self.origin.add(self.direction.scale(t))
    }

    /// A well-formed ray: the origin within the roaming bound, the
    /// direction within the scene bound.
    pub open spec fn wf(self) -> bool {
        self.origin.within(PT_MAX as int) && self.direction.within(COORD_MAX as int)
    }
}

#[derive(Debug, Clone, Copy)]
pub struct Ray {
    pub origin: Vec3,
    pub direction: Vec3,
    pub time: i64,
}

impl View for Ray {
    type V = RayV;

    open spec fn view(&self) -> RayV {
        RayV { origin: self.origin@, direction: self.direction@, time: self.time as int }
    }
}

impl Ray {
    pub fn at(self, t: i64) -> (r: Vec3)
        requires
            self@.wf(),
            sabs(t as int) <= T_FAR as int,
        ensures
            r@ == self@.at(t as int),
            r@.within(PT_MAX + 100000000000000),
    {
        proof {
            crate::fixed::lemma_tmul_bound(self@.direction.x, t as int, COORD_MAX as int, T_FAR as int);
            crate::fixed::lemma_tmul_bound(self@.direction.y, t as int, COORD_MAX as int, T_FAR as int);
            crate::fixed::lemma_tmul_bound(self@.direction.z, t as int, COORD_MAX as int, T_FAR as int);
        }
        self.origin.add(self.direction.scale(t))
    }
}

/// The outcome of orienting `normal` against `direction`: the flag says
/// whether the ray arrived from the side the normal points toward.
pub open spec fn face_normal_v(direction: V3, normal: V3) -> (bool, V3) {
    if direction.dot(normal) < 0 {
        (true, normal)
    } else {
        (false, normal.neg())
    }
}

/// Orient `normal` against the ray: flip it when the ray arrives from
/// behind, and report which case held.
pub fn face_normal(ray: &Ray, normal: Vec3) -> (r: (bool, Vec3))
    requires
        ray@.direction.within(COORD_MAX as int),
        normal@.within(4000000000000000000),
    ensures
        r.0 == face_normal_v(ray@.direction, normal@).0,
        r.1@ == face_normal_v(ray@.direction, normal@).1,
{
    let front_face = ray.direction.dot_wide(normal) < 0;
    if front_face {
        (true, normal)
    } else {
        (false, normal.neg())
    }
}

} // verus!
