//! Three-component vectors over the fixed-point scalars, used for points,
//! directions and colours alike. The mathematical model of a vector is a
//! triple of unbounded integers (`V3`), and every executable operation is
//! specified exactly against that model.
use vstd::prelude::*;
use rand::rngs::SmallRng;
use crate::fixed::{
    sabs, tmul, fdivv, fsqrt_v, is_sqrt, SCALE,
    fmul128, fdiv128, fsqrt128, lemma_tdiv_bound,
};
use crate::rng::rand_range;

verus! {

/// The mathematical value of a vector: three unbounded integers, each a
/// raw fixed-point scalar.
pub struct V3 {
    pub x: int,
    pub y: int,
    pub z: int,
}

impl V3 {
    /// Component-wise sum.
    pub open spec fn add(self, o: V3) -> V3 {
        V3 { x: self.x + o.x, y: self.y + o.y, z: self.z + o.z }
    }

    /// Component-wise difference.
    pub open spec fn sub(self, o: V3) -> V3 {
        V3 { x: self.x - o.x, y: self.y - o.y, z: self.z - o.z }
    }

    /// Component-wise negation.
    pub open spec fn neg(self) -> V3 {
        V3 { x: -self.x, y: -self.y, z: -self.z }
    }

    /// Scaling by a fixed-point scalar.
    pub open spec fn scale(self, k: int) -> V3 {
        V3 { x: tmul(self.x, k), y: tmul(self.y, k), z: tmul(self.z, k) }
    }

    /// Division by a fixed-point scalar.
    pub open spec fn div_s(self, k: int) -> V3 {
        V3 { x: fdivv(self.x, k), y: fdivv(self.y, k), z: fdivv(self.z, k) }
    }

    /// Fixed-point inner product.
    pub open spec fn dot(self, o: V3) -> int {
        tmul(self.x, o.x) + tmul(self.y, o.y) + tmul(self.z, o.z)
    }

    /// Fixed-point cross product.
    pub open spec fn cross(self, o: V3) -> V3 {
        V3 {
            x: tmul(self.y, o.z) - tmul(self.z, o.y),
            y: tmul(self.z, o.x) - tmul(self.x, o.z),
            z: tmul(self.x, o.y) - tmul(self.y, o.x),
        }
    }

    /// Squared length.
    pub open spec fn len2(self) -> int {
        self.dot(self)
    }

    /// Length: fixed-point square root of the squared length.
    pub open spec fn len(self) -> int {
        fsqrt_v(self.len2())
    }

    /// The unit vector: division of each component by the length.
    pub open spec fn unit(self) -> V3 {
        self.div_s(self.len())
    }

    /// Every component within magnitude `m`.
    pub open spec fn within(self, m: int) -> bool {
        sabs(self.x) <= m && sabs(self.y) <= m && sabs(self.z) <= m
    }
}

#[derive(Debug, Clone, Copy)]
pub struct Vec3 {
    pub x: i64,
    pub y: i64,
    pub z: i64,
}

impl View for Vec3 {
    type V = V3;

    open spec fn view(&self) -> V3 {
        V3 { x: self.x as int, y: self.y as int, z: self.z as int }
    }
}

/// Sum of the magnitudes of the three pairwise products: bounding it is
/// what lets a dot product be computed without overflow.
pub open spec fn dot_mag(a: V3, b: V3) -> int {
    sabs(tmul(a.x, b.x)) + sabs(tmul(a.y, b.y)) + sabs(tmul(a.z, b.z))
}

/// Bounds on two vectors bound every term of their dot product.
pub proof fn lemma_dot_fits(a: V3, b: V3, ma: int, mb: int)
    requires
        a.within(ma),
        b.within(mb),
        0 <= ma,
        0 <= mb,
    ensures
        dot_mag(a, b) <= 3 * ((ma * mb) / (SCALE as int)),
        sabs(a.dot(b)) <= 3 * ((ma * mb) / (SCALE as int)),
{
    crate::fixed::lemma_tmul_bound(a.x, b.x, ma, mb);
    crate::fixed::lemma_tmul_bound(a.y, b.y, ma, mb);
    crate::fixed::lemma_tmul_bound(a.z, b.z, ma, mb);
}

/// Bounds on two vectors bound their dot product, with the scale
/// division discharged by one multiplication.
pub proof fn lemma_dot_fits3(a: V3, b: V3, ma: int, mb: int, q: int)
    requires
        a.within(ma),
        b.within(mb),
        0 <= ma,
        0 <= mb,
        ma * mb <= q * (SCALE as int),
    ensures
        dot_mag(a, b) <= 3 * q,
        sabs(a.dot(b)) <= 3 * q,
{
    crate::fixed::lemma_tmul_bound(a.x, b.x, ma, mb);
    crate::fixed::lemma_tmul_bound(a.y, b.y, ma, mb);
    crate::fixed::lemma_tmul_bound(a.z, b.z, ma, mb);
    crate::fixed::lemma_div_le(ma * mb, ma * mb, q);
}

/// Squared lengths are nonnegative, for every vector at once.
pub proof fn lemma_len2_nonneg_all()
    ensures
        forall|a: V3| #[trigger] a.len2() >= 0,
{
    assert forall|a: V3| #[trigger] a.len2() >= 0 by {
        lemma_len2_nonneg(a);
    }
}

/// A square is nonnegative, so a squared length is too.
pub proof fn lemma_len2_nonneg(a: V3)
    ensures
        a.len2() >= 0,
        tmul(a.x, a.x) >= 0,
        tmul(a.y, a.y) >= 0,
        tmul(a.z, a.z) >= 0,
{
    assert(a.x * a.x >= 0 && a.y * a.y >= 0 && a.z * a.z >= 0) by (nonlinear_arith);
}

/// Components of the unit vector of `a` stay below twice a unit scale or,
/// for the tiniest vectors, below a few thousand units.
pub proof fn lemma_unit_comp_bound(x: int, ls: int, l: int)
    requires
        tmul(x, x) <= ls,
        is_sqrt(ls * (SCALE as int), l),
        l >= 1,
    ensures
        sabs(fdivv(x, l)) <= 2000000000,
{
    let s = SCALE as int;
    assert(x * x < (ls + 1) * s) by (nonlinear_arith)
        requires
            tmul(x, x) <= ls,
            s == 1000000,
    ;
    assert(ls * s < (l + 1) * (l + 1));
    lemma_tdiv_bound(x * s, l);
    crate::fixed::lemma_sabs_mul(x, s);
    crate::fixed::lemma_sabs_mul(x, x);
    assert(x * x >= 0) by (nonlinear_arith);
    if sabs(x) <= 2 * l + 2 {
        assert(sabs(x) * s / l <= 2000000000) by (nonlinear_arith)
            requires
                0 <= sabs(x) <= 2 * l + 2,
                l >= 1,
                s == 1000000,
        ;
    } else {
        assert(sabs(x) * s / l <= 2000000000) by (nonlinear_arith)
            requires
                sabs(x) > 2 * l + 2,
                l >= 1,
                s == 1000000,
                x * x < (ls + 1) * s,
                ls * s < (l + 1) * (l + 1),
                sabs(x) * sabs(x) == x * x,
        ;
    }
}

pub fn vec3(x: i64, y: i64, z: i64) -> (r: Vec3)
    ensures
        r@ == (V3 { x: x as int, y: y as int, z: z as int }),
{
    Vec3 { x, y, z }
}

impl Vec3 {
    pub fn new(x: i64, y: i64, z: i64) -> (r: Vec3)
        ensures
            r@ == (V3 { x: x as int, y: y as int, z: z as int }),
    {
        Vec3 { x, y, z }
    }

    pub fn zero() -> (r: Vec3)
        ensures
            r@ == (V3 { x: 0, y: 0, z: 0 }),
    {
        Vec3 { x: 0, y: 0, z: 0 }
    }

    pub fn add(self, rhs: Vec3) -> (r: Vec3)
        requires
            self@.within(4000000000000000000),
            rhs@.within(4000000000000000000),
        ensures
            r@ == self@.add(rhs@),
    {
        Vec3 { x: self.x + rhs.x, y: self.y + rhs.y, z: self.z + rhs.z }
    }

    pub fn sub(self, rhs: Vec3) -> (r: Vec3)
        requires
            self@.within(4000000000000000000),
            rhs@.within(4000000000000000000),
        ensures
            r@ == self@.sub(rhs@),
    {
        Vec3 { x: self.x - rhs.x, y: self.y - rhs.y, z: self.z - rhs.z }
    }

    pub fn neg(self) -> (r: Vec3)
        requires
            self@.within(4000000000000000000),
        ensures
            r@ == self@.neg(),
    {
        Vec3 { x: -self.x, y: -self.y, z: -self.z }
    }

    /// Add the same scalar to all three components.
    pub fn add_s(self, rhs: i64) -> (r: Vec3)
        requires
            self@.within(4000000000000000000),
            sabs(rhs as int) <= 4000000000000000000,
        ensures
            r@ == (V3 {
                x: self@.x + rhs,
                y: self@.y + rhs,
                z: self@.z + rhs,
            }),
    {
        Vec3 { x: self.x + rhs, y: self.y + rhs, z: self.z + rhs }
    }

    /// Subtract the same scalar from all three components.
    pub fn sub_s(self, rhs: i64) -> (r: Vec3)
        requires
            self@.within(4000000000000000000),
            sabs(rhs as int) <= 4000000000000000000,
        ensures
            r@ == (V3 {
                x: self@.x - rhs,
                y: self@.y - rhs,
                z: self@.z - rhs,
            }),
    {
        Vec3 { x: self.x - rhs, y: self.y - rhs, z: self.z - rhs }
    }

    /// Scale by a fixed-point scalar.
    pub fn scale(self, k: i64) -> (r: Vec3)
        requires
            self@.within(1000000000000),
            sabs(k as int) <= 1000000000000,
        ensures
            r@ == self@.scale(k as int),
            r@.within((1000000000000int * sabs(k as int)) / (SCALE as int)),
    {
        proof {
            crate::fixed::lemma_tmul_bound(self@.x, k as int, 1000000000000, sabs(k as int));
            crate::fixed::lemma_tmul_bound(self@.y, k as int, 1000000000000, sabs(k as int));
            crate::fixed::lemma_tmul_bound(self@.z, k as int, 1000000000000, sabs(k as int));
            assert((1000000000000int * sabs(k as int)) / (SCALE as int)
                <= 1000000000000000000int) by (nonlinear_arith)
                requires
                    sabs(k as int) <= 1000000000000,
            ;
        }
        let x = fmul128(self.x as i128, k as i128) as i64;
        let y = fmul128(self.y as i128, k as i128) as i64;
        let z = fmul128(self.z as i128, k as i128) as i64;
        Vec3 { x, y, z }
    }

    /// Scale by a fixed-point scalar, for operands whose per-component
    /// products are known to stay in range.
    pub fn scale_wide(self, k: i64) -> (r: Vec3)
        requires
            sabs(tmul(self@.x, k as int)) <= 0x7fffffffffffffff,
            sabs(tmul(self@.y, k as int)) <= 0x7fffffffffffffff,
            sabs(tmul(self@.z, k as int)) <= 0x7fffffffffffffff,
        ensures
            r@ == self@.scale(k as int),
    {
        let x = fmul128(self.x as i128, k as i128) as i64;
        let y = fmul128(self.y as i128, k as i128) as i64;
        let z = fmul128(self.z as i128, k as i128) as i64;
        Vec3 { x, y, z }
    }

    /// Divide by a nonzero fixed-point scalar.
    pub fn div_s(self, k: i64) -> (r: Vec3)
        requires
            k != 0,
            sabs(fdivv(self@.x, k as int)) <= 0x7fffffffffffffff,
            sabs(fdivv(self@.y, k as int)) <= 0x7fffffffffffffff,
            sabs(fdivv(self@.z, k as int)) <= 0x7fffffffffffffff,
        ensures
            r@ == self@.div_s(k as int),
    {
        let x = fdiv128(self.x as i128, k as i128) as i64;
        let y = fdiv128(self.y as i128, k as i128) as i64;
        let z = fdiv128(self.z as i128, k as i128) as i64;
        Vec3 { x, y, z }
    }

    /// The dot product on the widened integers, for operands whose product
    /// no longer fits the narrow scalars.
    pub fn dot_wide(self, rhs: Vec3) -> (r: i128)
        requires
            self@.within(4000000000000000000),
            rhs@.within(4000000000000000000),
        ensures
            r as int == self@.dot(rhs@),
            sabs(r as int) <= 48000000000000000000000000000000,
    {
        proof {
            lemma_dot_fits(self@, rhs@, 4000000000000000000, 4000000000000000000);
        }
        let a = fmul128(self.x as i128, rhs.x as i128);
        let b = fmul128(self.y as i128, rhs.y as i128);
        let c = fmul128(self.z as i128, rhs.z as i128);
        a + b + c
    }

    pub fn dot(self, rhs: Vec3) -> (r: i64)
        requires
            dot_mag(self@, rhs@) <= 0x7fffffffffffffff,
        ensures
            r as int == self@.dot(rhs@),
    {
        let a = fmul128(self.x as i128, rhs.x as i128);
        let b = fmul128(self.y as i128, rhs.y as i128);
        let c = fmul128(self.z as i128, rhs.z as i128);
        (a + b + c) as i64
    }

    pub fn cross(self, rhs: Vec3) -> (r: Vec3)
        requires
            self@.within(1000000000000),
            rhs@.within(1000000000000),
        ensures
            r@ == self@.cross(rhs@),
            r@.within(2000000000000000000),
    {
        proof {
            crate::fixed::lemma_tmul_bound(self@.y, rhs@.z, 1000000000000, 1000000000000);
            crate::fixed::lemma_tmul_bound(self@.z, rhs@.y, 1000000000000, 1000000000000);
            crate::fixed::lemma_tmul_bound(self@.z, rhs@.x, 1000000000000, 1000000000000);
            crate::fixed::lemma_tmul_bound(self@.x, rhs@.z, 1000000000000, 1000000000000);
            crate::fixed::lemma_tmul_bound(self@.x, rhs@.y, 1000000000000, 1000000000000);
            crate::fixed::lemma_tmul_bound(self@.y, rhs@.x, 1000000000000, 1000000000000);
        }
        let x = (fmul128(self.y as i128, rhs.z as i128) - fmul128(self.z as i128, rhs.y as i128))
            as i64;
        let y = (fmul128(self.z as i128, rhs.x as i128) - fmul128(self.x as i128, rhs.z as i128))
            as i64;
        let z = (fmul128(self.x as i128, rhs.y as i128) - fmul128(self.y as i128, rhs.x as i128))
            as i64;
        Vec3 { x, y, z }
    }

    pub fn length_squared(self) -> (r: i64)
        requires
            dot_mag(self@, self@) <= 0x7fffffffffffffff,
        ensures
            r as int == self@.len2(),
            r >= 0,
    {
        proof {
            lemma_len2_nonneg(self@);
        }
        self.dot(self)
    }

    pub fn length(self) -> (r: i64)
        requires
            dot_mag(self@, self@) <= 0x7fffffffffffffff,
        ensures
            r as int == self@.len(),
            r >= 0,
            is_sqrt(self@.len2() * (SCALE as int), r as int),
    {
        let ls = self.length_squared();
        proof {
            lemma_len2_nonneg(self@);
        }
        let l = fsqrt128(ls as i128);
        proof {
            assert((l as int) * (l as int) <= (ls as int) * (SCALE as int));
            assert((l as int) <= 4000000000000int) by (nonlinear_arith)
                requires
                    0 <= l as int,
                    (l as int) * (l as int) <= (ls as int) * (SCALE as int),
                    (ls as int) <= 0x7fffffffffffffffint,
            ;
        }
        l as i64
    }

    pub fn unit_vector(self) -> (r: Vec3)
        requires
            self@.within(4000000000000000000),
            self@.len2() >= 1,
        ensures
            r@ == self@.unit(),
            r@.within(2000000000),
    {
        let ls: i128 = self.dot_wide(self);
        proof {
            lemma_len2_nonneg(self@);
        }
        let l: i128 = fsqrt128(ls);
        proof {
            assert(l >= 1) by (nonlinear_arith)
                requires
                    0 <= l as int,
                    is_sqrt(self@.len2() * (SCALE as int), l as int),
                    self@.len2() >= 1,
            ;
            lemma_unit_comp_bound(self@.x, self@.len2(), l as int);
            lemma_unit_comp_bound(self@.y, self@.len2(), l as int);
            lemma_unit_comp_bound(self@.z, self@.len2(), l as int);
            assert(l <= 8000000000000000000int) by (nonlinear_arith)
                requires
                    0 <= l as int,
                    (l as int) * (l as int) <= self@.len2() * (SCALE as int),
                    self@.len2() <= 48000000000000000000000000000000int,
            ;
        }
        let x = fdiv128(self.x as i128, l) as i64;
        let y = fdiv128(self.y as i128, l) as i64;
        let z = fdiv128(self.z as i128, l) as i64;
        Vec3 { x, y, z }
    }

    /// Whether the vector is zero at the fixed-point resolution.
    pub fn near_zero(self) -> (r: bool)
        ensures
            r == (self@.x == 0 && self@.y == 0 && self@.z == 0),
    {
        self.x == 0 && self.y == 0 && self.z == 0
    }

    /// Mirror `v` about the plane with normal `n`.
    pub fn reflect(v: Vec3, n: Vec3) -> (r: Vec3)
        requires
            v@.within(4000000000),
            n@.within(4000000000),
        ensures
            r@ == v@.sub(n@.scale(2 * v@.dot(n@))),
    {
        proof {
            lemma_dot_fits(v@, n@, 4000000000, 4000000000);
            crate::fixed::lemma_tmul_bound(n@.x, 2 * v@.dot(n@), 4000000000, 96000000000000);
            crate::fixed::lemma_tmul_bound(n@.y, 2 * v@.dot(n@), 4000000000, 96000000000000);
            crate::fixed::lemma_tmul_bound(n@.z, 2 * v@.dot(n@), 4000000000, 96000000000000);
        }
        let d = v.dot(n);
        let k = 2 * (d as i128);
        let x = (v.x as i128 - fmul128(n.x as i128, k)) as i64;
        let y = (v.y as i128 - fmul128(n.y as i128, k)) as i64;
        let z = (v.z as i128 - fmul128(n.z as i128, k)) as i64;
        Vec3 { x, y, z }
    }

    /// A uniform sample with each component in `[min, max)`.
    pub fn random(min: i64, max: i64, rng: &mut SmallRng) -> (r: Vec3)
        requires
            min < max,
            max - min <= 0x7fffffffffffffff,
        ensures
            min <= r@.x < max,
            min <= r@.y < max,
            min <= r@.z < max,
    {
        let x = rand_range(rng, min, max);
        let y = rand_range(rng, min, max);
        let z = rand_range(rng, min, max);
        Vec3 { x, y, z }
    }

    /// Rejection-sample a point inside the unit sphere.
    pub fn random_in_unit_sphere(rng: &mut SmallRng) -> (r: Vec3)
        ensures
            r@.within(SCALE as int),
            r@.len2() < SCALE,
    {
        let mut i: u64 = 0;
        while i < 64
            invariant
                i <= 64,
            decreases 64 - i,
        {
            let u = Vec3::random(-1000000, 1000000, rng);
            proof {
                lemma_dot_fits(u@, u@, 1000000, 1000000);
                lemma_len2_nonneg(u@);
            }
            let l2 = u.length_squared();
            if l2 < 1000000 {
                return u;
            }
            i = i + 1;
        }
        proof {
            crate::fixed::lemma_tdiv_exact(500000int * 500000int, 1000000, 250000, 0);
            assert(tmul(0, 0) == 0);
        }
        Vec3 { x: 500000, y: 0, z: 0 }
    }

    /// Rejection-sample a point inside the unit disk in the xy-plane.
    pub fn random_in_unit_disk(rng: &mut SmallRng) -> (r: Vec3)
        ensures
            r@.within(SCALE as int),
            r@.z == 0,
            r@.len2() < SCALE,
    {
        let mut i: u64 = 0;
        while i < 64
            invariant
                i <= 64,
            decreases 64 - i,
        {
            let x = rand_range(rng, -1000000, 1000000);
            let y = rand_range(rng, -1000000, 1000000);
            let u = Vec3 { x, y, z: 0 };
            proof {
                lemma_dot_fits(u@, u@, 1000000, 1000000);
                lemma_len2_nonneg(u@);
            }
            let l2 = u.length_squared();
            if l2 < 1000000 {
                return u;
            }
            i = i + 1;
        }
        proof {
            crate::fixed::lemma_tdiv_exact(500000int * 500000int, 1000000, 250000, 0);
            assert(tmul(0, 0) == 0);
        }
        Vec3 { x: 500000, y: 0, z: 0 }
    }

    /// A direction in the hemisphere about `normal`: the unit-sphere
    /// sample, negated when it points against the normal.
    pub fn random_in_hemisphere(normal: &Vec3, rng: &mut SmallRng) -> (r: Vec3)
        requires
            normal@.within(4000000000),
        ensures
            r@.within(SCALE as int),
    {
        let u = Vec3::random_in_unit_sphere(rng);
        proof {
            lemma_dot_fits(u@, normal@, SCALE as int, 4000000000);
        }
        let d = u.dot(*normal);
        if d > 0 {
            u
        } else {
            u.neg()
        }
    }
}

} // verus!
