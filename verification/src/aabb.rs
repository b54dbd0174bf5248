//! Axis-aligned bounding boxes with the slab intersection test and the
//! surrounding-box union. Degenerate (zero-thickness) boxes are valid;
//! rectangle variants pad theirs by a small epsilon.
use vstd::prelude::*;
use crate::fixed::{sabs, fdivv, fdiv128, T_FAR, SCALE};
use crate::vec::{Vec3, V3};
use crate::ray::{Ray, RayV};

verus! {

/// Smaller of two integers.
pub open spec fn imin(a: int, b: int) -> int {
    if a < b {
        a
    } else {
        b
    }
}

/// Larger of two integers.
pub open spec fn imax(a: int, b: int) -> int {
    if a > b {
        a
    } else {
        b
    }
}

/// Mathematical value of a box.
pub struct AabbV {
    pub minimum: V3,
    pub maximum: V3,
}

/// The smallest box holding both arguments: component-wise minimum and
/// maximum of the corners.
pub open spec fn box_union(a: AabbV, b: AabbV) -> AabbV {
    AabbV {
        minimum: V3 {
            x: imin(a.minimum.x, b.minimum.x),
            y: imin(a.minimum.y, b.minimum.y),
            z: imin(a.minimum.z, b.minimum.z),
        },
        maximum: V3 {
            x: imax(a.maximum.x, b.maximum.x),
            y: imax(a.maximum.y, b.maximum.y),
            z: imax(a.maximum.z, b.maximum.z),
        },
    }
}

/// One box encloses another: component-wise on both corners.
pub open spec fn box_contains(outer: AabbV, inner: AabbV) -> bool {
    &&& outer.minimum.x <= inner.minimum.x
    &&& outer.minimum.y <= inner.minimum.y
    &&& outer.minimum.z <= inner.minimum.z
    &&& outer.maximum.x >= inner.maximum.x
    &&& outer.maximum.y >= inner.maximum.y
    &&& outer.maximum.z >= inner.maximum.z
}

/// The union contains both of its arguments, and enclosure carries
/// through it.
pub proof fn lemma_union_contains(a: AabbV, b: AabbV)
    ensures
        box_contains(box_union(a, b), a),
        box_contains(box_union(a, b), b),
{
}

pub proof fn lemma_contains_trans(a: AabbV, b: AabbV, c: AabbV)
    requires
        box_contains(a, b),
        box_contains(b, c),
    ensures
        box_contains(a, c),
{
}

/// The surrounding box contains both of its arguments, the union is
/// commutative, and it is associative.
pub proof fn lemma_union_comm(a: AabbV, b: AabbV)
    ensures
        box_union(a, b) == box_union(b, a),
{
}

pub proof fn lemma_union_assoc(a: AabbV, b: AabbV, c: AabbV)
    ensures
        box_union(a, box_union(b, c)) == box_union(box_union(a, b), c),
{
}

/// One slab of the test: intersect the window with the parameter interval
/// in which the ray lies between the two planes of this axis. A ray
/// running parallel to the slab passes only when its origin lies between
/// the planes, boundary included.
pub open spec fn axis_window(lo: int, hi: int, o: int, d: int, tmin: int, tmax: int) -> Option<
    (int, int),
> {
    if d == 0 {
        if o < lo || hi < o || tmax <= tmin {
            None
        } else {
            Some((tmin, tmax))
        }
    } else {
        let ta = fdivv(lo - o, d);
        let tb = fdivv(hi - o, d);
        let t0 = if d > 0 {
            ta
        } else {
            tb
        };
        let t1 = if d > 0 {
            tb
        } else {
            ta
        };
        let nmin = imax(t0, tmin);
        let nmax = imin(t1, tmax);
        if nmax <= nmin {
            None
        } else {
            Some((nmin, nmax))
        }
    }
}

/// The slab test over all three axes, each shrinking the window in turn.
pub open spec fn slab_hit(bb: AabbV, r: RayV, tmin: int, tmax: int) -> Option<(int, int)> {
    match axis_window(bb.minimum.x, bb.maximum.x, r.origin.x, r.direction.x, tmin, tmax) {
        None => None,
        Some((ax, bx)) => match axis_window(
            bb.minimum.y,
            bb.maximum.y,
            r.origin.y,
            r.direction.y,
            ax,
            bx,
        ) {
            None => None,
            Some((ay, by)) => axis_window(
                bb.minimum.z,
                bb.maximum.z,
                r.origin.z,
                r.direction.z,
                ay,
                by,
            ),
        },
    }
}

/// View of an optional raw interval.
pub open spec fn opt2_v(r: Option<(i64, i64)>) -> Option<(int, int)> {
    match r {
        None => None,
        Some((a, b)) => Some((a as int, b as int)),
    }
}

#[derive(Debug, Clone, Copy)]
pub struct Aabb {
    pub minimum: Vec3,
    pub maximum: Vec3,
}

impl View for Aabb {
    type V = AabbV;

    open spec fn view(&self) -> AabbV {
        AabbV { minimum: self.minimum@, maximum: self.maximum@ }
    }
}

fn axis_pass(lo: i64, hi: i64, o: i64, d: i64, t_min: i64, t_max: i64) -> (r: Option<(i64, i64)>)
    ensures
        opt2_v(r) == axis_window(lo as int, hi as int, o as int, d as int, t_min as int, t_max as int),
        r matches Some((a, b)) ==> t_min <= a < b <= t_max,
{
    if d == 0 {
        if o < lo || hi < o || t_max <= t_min {
            None
        } else {
            Some((t_min, t_max))
        }
    } else {
        let ta: i128 = fdiv128((lo as i128) - (o as i128), d as i128);
        let tb: i128 = fdiv128((hi as i128) - (o as i128), d as i128);
        let t0: i128 = if d > 0 {
            ta
        } else {
            tb
        };
        let t1: i128 = if d > 0 {
            tb
        } else {
            ta
        };
        let nmin: i128 = if t0 > t_min as i128 {
            t0
        } else {
            t_min as i128
        };
        let nmax: i128 = if t1 < t_max as i128 {
            t1
        } else {
            t_max as i128
        };
        if nmax <= nmin {
            None
        } else {
            Some((nmin as i64, nmax as i64))
        }
    }
}

impl Aabb {
    pub fn new(min: Vec3, max: Vec3) -> (r: Aabb)
        ensures
            r@ == (AabbV { minimum: min@, maximum: max@ }),
    {
        Aabb { minimum: min, maximum: max }
    }

    pub fn default() -> (r: Aabb)
        ensures
            r@.minimum == (V3 { x: 0, y: 0, z: 0 }),
            r@.maximum == (V3 { x: 0, y: 0, z: 0 }),
    {
        Aabb { minimum: Vec3::zero(), maximum: Vec3::zero() }
    }

    /// The smallest box holding both arguments.
    pub fn surrounding_box(box0: Aabb, box1: Aabb) -> (r: Aabb)
        ensures
            r@ == box_union(box0@, box1@),
    {
        let small = Vec3 {
            x: if box0.minimum.x < box1.minimum.x {
                box0.minimum.x
            } else {
                box1.minimum.x
            },
            y: if box0.minimum.y < box1.minimum.y {
                box0.minimum.y
            } else {
                box1.minimum.y
            },
            z: if box0.minimum.z < box1.minimum.z {
                box0.minimum.z
            } else {
                box1.minimum.z
            },
        };
        let large = Vec3 {
            x: if box0.maximum.x > box1.maximum.x {
                box0.maximum.x
            } else {
                box1.maximum.x
            },
            y: if box0.maximum.y > box1.maximum.y {
                box0.maximum.y
            } else {
                box1.maximum.y
            },
            z: if box0.maximum.z > box1.maximum.z {
                box0.maximum.z
            } else {
                box1.maximum.z
            },
        };
        Aabb { minimum: small, maximum: large }
    }

    /// The slab test: the parameter window in which the ray is inside the
    /// box, or nothing when that window is empty.
    pub fn hit(&self, ray: &Ray, t_min: i64, t_max: i64) -> (r: Option<(i64, i64)>)
        ensures
            opt2_v(r) == slab_hit(self@, ray@, t_min as int, t_max as int),
            r matches Some((a, b)) ==> t_min <= a < b <= t_max,
    {
        match axis_pass(
            self.minimum.x,
            self.maximum.x,
            ray.origin.x,
            ray.direction.x,
            t_min,
            t_max,
        ) {
            None => None,
            Some((ax, bx)) => match axis_pass(
                self.minimum.y,
                self.maximum.y,
                ray.origin.y,
                ray.direction.y,
                ax,
                bx,
            ) {
                None => None,
                Some((ay, by)) => axis_pass(
                    self.minimum.z,
                    self.maximum.z,
                    ray.origin.z,
                    ray.direction.z,
                    ay,
                    by,
                ),
            },
        }
    }
}

} // verus!
