//! Orthonormal basis built from a single normal vector, used to carry a
//! direction sampled in a local frame into world space.
use vstd::prelude::*;
use crate::fixed::{sabs, tmul, SCALE, fmul128, lemma_tmul_bound};
use crate::vec::{Vec3, V3, lemma_len2_nonneg, lemma_dot_fits3};

verus! {

/// Mathematical value of the frame.
pub struct OnbV {
    pub axis0: V3,
    pub axis1: V3,
    pub axis2: V3,
}

/// The frame built from `n`: the third axis follows the normal, the
/// other two complete it; a degenerate cross product falls back to a
/// fixed perpendicular axis.
pub open spec fn onb_of(n: V3) -> OnbV {
    let axis2 = n.unit();
    let a = if sabs(axis2.x) > 900000 {
        V3 { x: 0, y: SCALE as int, z: 0 }
    } else {
        V3 { x: SCALE as int, y: 0, z: 0 }
    };
    let c = axis2.cross(a);
    let axis1 = if c.len2() >= 1 {
        c.unit()
    } else {
        V3 { x: 0, y: 0, z: SCALE as int }
    };
    let axis0 = axis2.cross(axis1);
    OnbV { axis0, axis1, axis2 }
}

/// A local triple carried into world coordinates along the frame.
pub open spec fn onb_local(u: OnbV, a: V3) -> V3 {
    u.axis0.scale(a.x).add(u.axis1.scale(a.y)).add(u.axis2.scale(a.z))
}

#[derive(Debug, Clone, Copy)]
pub struct Onb {
    pub axis0: Vec3,
    pub axis1: Vec3,
    pub axis2: Vec3,
}

impl View for Onb {
    type V = OnbV;

    open spec fn view(&self) -> OnbV {
        OnbV { axis0: self.axis0@, axis1: self.axis1@, axis2: self.axis2@ }
    }
}

impl Onb {
    pub fn new(n: &Vec3) -> (r: Onb)
        requires
            n@.within(4000000000000000000),
            n@.len2() >= 1,
        ensures
            r@ == onb_of(n@),
            r@.axis0.within(8000000000000),
            r@.axis1.within(2000000000),
            r@.axis2.within(2000000000),
    {
        let axis2 = n.unit_vector();
        let a = if (if axis2.x < 0 {
            -axis2.x
        } else {
            axis2.x
        }) > 900000 {
            Vec3 { x: 0, y: 1000000, z: 0 }
        } else {
            Vec3 { x: 1000000, y: 0, z: 0 }
        };
        let c = axis2.cross(a);
        proof {
            lemma_dot_fits3(c@, c@, 2000000000000000000, 2000000000000000000,
                4000000000000000000000000000000);
            lemma_len2_nonneg(c@);
        }
        let cl = c.dot_wide(c);
        let axis1 = if cl >= 1 {
            proof {
                assert(c@.len2() >= 1);
            }
            c.unit_vector()
        } else {
            Vec3 { x: 0, y: 0, z: 1000000 }
        };
        proof {
            lemma_tmul_bound(axis2@.y, axis1@.z, 2000000000, 2000000000);
            lemma_tmul_bound(axis2@.z, axis1@.y, 2000000000, 2000000000);
            lemma_tmul_bound(axis2@.z, axis1@.x, 2000000000, 2000000000);
            lemma_tmul_bound(axis2@.x, axis1@.z, 2000000000, 2000000000);
            lemma_tmul_bound(axis2@.x, axis1@.y, 2000000000, 2000000000);
            lemma_tmul_bound(axis2@.y, axis1@.x, 2000000000, 2000000000);
        }
        let axis0 = axis2.cross(axis1);
        Onb { axis0, axis1, axis2 }
    }

    pub fn u(&self) -> (r: Vec3)
        ensures
            r@ == self@.axis0,
    {
        self.axis0
    }

    pub fn v(&self) -> (r: Vec3)
        ensures
            r@ == self@.axis1,
    {
        self.axis1
    }

    pub fn w(&self) -> (r: Vec3)
        ensures
            r@ == self@.axis2,
    {
        self.axis2
    }

    /// Carry a local direction into world space.
    pub fn local(&self, a: &Vec3) -> (r: Vec3)
        requires
            a@.within(2000000),
            self@.axis0.within(8000000000000),
            self@.axis1.within(8000000000000),
            self@.axis2.within(8000000000000),
        ensures
            r@ == onb_local(self@, a@),
            r@.within(48000000000000),
    {
        proof {
            lemma_tmul_bound(self@.axis0.x, a@.x, 8000000000000, 2000000);
            lemma_tmul_bound(self@.axis0.y, a@.x, 8000000000000, 2000000);
            lemma_tmul_bound(self@.axis0.z, a@.x, 8000000000000, 2000000);
            lemma_tmul_bound(self@.axis1.x, a@.y, 8000000000000, 2000000);
            lemma_tmul_bound(self@.axis1.y, a@.y, 8000000000000, 2000000);
            lemma_tmul_bound(self@.axis1.z, a@.y, 8000000000000, 2000000);
            lemma_tmul_bound(self@.axis2.x, a@.z, 8000000000000, 2000000);
            lemma_tmul_bound(self@.axis2.y, a@.z, 8000000000000, 2000000);
            lemma_tmul_bound(self@.axis2.z, a@.z, 8000000000000, 2000000);
        }
        let x = (fmul128(self.axis0.x as i128, a.x as i128) + fmul128(self.axis1.x as i128,
            a.y as i128) + fmul128(self.axis2.x as i128, a.z as i128)) as i64;
        let y = (fmul128(self.axis0.y as i128, a.x as i128) + fmul128(self.axis1.y as i128,
            a.y as i128) + fmul128(self.axis2.y as i128, a.z as i128)) as i64;
        let z = (fmul128(self.axis0.z as i128, a.x as i128) + fmul128(self.axis1.z as i128,
            a.y as i128) + fmul128(self.axis2.z as i128, a.z as i128)) as i64;
        Vec3 { x, y, z }
    }
}

} // verus!
