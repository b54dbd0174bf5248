//! Shared numeric helpers: clamping, degree conversion, fixed-point
//! trigonometry by polynomial approximation (exactly mirrored by the spec
//! functions, so contracts stay functional), and the random sampling
//! routines that draw from the explicit generator.
use vstd::prelude::*;
use rand::rngs::SmallRng;
use crate::fixed::{sabs, tmul, tdiv, fdivv, fsqrt_v, SCALE, fmul128, fdiv128, fsqrt128,
    lemma_tmul_bound, lemma_tdiv_bound, lemma_fdiv_bound, lemma_tmul_nonneg};
use crate::vec::{Vec3, V3};
use crate::rng::rand_unit;

verus! {

/// Fixed-point pi.
pub const PI_FX: i64 = 3141593;

/// Fixed-point pi/2.
pub const HALF_PI_FX: i64 = 1570796;

/// Fixed-point 2*pi.
pub const TWO_PI_FX: i64 = 6283185;

pub open spec fn clamp_v(x: int, min: int, max: int) -> int {
    if x < min {
        min
    } else if x > max {
        max
    } else {
        x
    }
}

pub fn clamp(x: i64, min: i64, max: i64) -> (r: i64)
    ensures
        r as int == clamp_v(x as int, min as int, max as int),
{
    if x < min {
        return min;
    }
    if x > max {
        return max;
    }
    return x;
}

/// Degrees to radians: multiply by pi over 180.
pub open spec fn deg_to_rad_v(deg: int) -> int {
    fdivv(tmul(deg, PI_FX as int), 180000000)
}

pub fn degrees_to_radians(deg: i64) -> (r: i64)
    requires
        sabs(deg as int) <= 360000000,
    ensures
        r as int == deg_to_rad_v(deg as int),
        sabs(r as int) <= 6400000,
{
    proof {
        lemma_tmul_bound(deg as int, PI_FX as int, 360000000, PI_FX as int);
        lemma_fdiv_bound(tmul(deg as int, PI_FX as int), 180000000, 1131000000);
        lemma_tdiv_bound(tmul(deg as int, PI_FX as int) * (SCALE as int), 180000000);
        assert(sabs(tmul(deg as int, PI_FX as int) * (SCALE as int)) / 180000000int
            <= 6400000) by (nonlinear_arith)
            requires
                sabs(tmul(deg as int, PI_FX as int)) <= 1131000000,
                sabs(tmul(deg as int, PI_FX as int) * (SCALE as int))
                    == sabs(tmul(deg as int, PI_FX as int)) * (SCALE as int),
        ;
        crate::fixed::lemma_sabs_mul(tmul(deg as int, PI_FX as int), SCALE as int);
    }
    let p = fmul128(deg as i128, 3141593);
    let r = fdiv128(p, 180000000);
    r as i64
}

/// The sine series on a quarter period, in Horner form.
pub open spec fn sin_series_v(x: int) -> int {
    let x2 = tmul(x, x);
    tmul(x, (SCALE as int) - tmul(x2, 166667 - tmul(x2, 8333 - tmul(x2, 198 - tmul(x2, 3)))))
}

/// The cosine series on a quarter period, in Horner form.
pub open spec fn cos_series_v(x: int) -> int {
    let x2 = tmul(x, x);
    (SCALE as int) - tmul(x2, 500000 - tmul(x2, 41667 - tmul(x2, 1389 - tmul(x2, 25))))
}

/// Sine of an angle given in radians, clamped to one in magnitude.
pub open spec fn sin_rad_v(rad: int) -> int {
    let r1 = if rad > PI_FX as int {
        rad - TWO_PI_FX as int
    } else if rad < -(PI_FX as int) {
        rad + TWO_PI_FX as int
    } else {
        rad
    };
    let folded = if r1 > HALF_PI_FX as int {
        (PI_FX as int) - r1
    } else if r1 < -(HALF_PI_FX as int) {
        -(PI_FX as int) - r1
    } else {
        r1
    };
    clamp_v(sin_series_v(folded), -(SCALE as int), SCALE as int)
}

/// Cosine of an angle given in radians, clamped to one in magnitude; the
/// fold past a quarter period flips the sign.
pub open spec fn cos_rad_v(rad: int) -> int {
    let r1 = if rad > PI_FX as int {
        rad - TWO_PI_FX as int
    } else if rad < -(PI_FX as int) {
        rad + TWO_PI_FX as int
    } else {
        rad
    };
    if r1 > HALF_PI_FX as int {
        clamp_v(-cos_series_v((PI_FX as int) - r1), -(SCALE as int), SCALE as int)
    } else if r1 < -(HALF_PI_FX as int) {
        clamp_v(-cos_series_v(-(PI_FX as int) - r1), -(SCALE as int), SCALE as int)
    } else {
        clamp_v(cos_series_v(r1), -(SCALE as int), SCALE as int)
    }
}

fn sin_series(x: i64) -> (r: i64)
    requires
        sabs(x as int) <= 1600000,
    ensures
        r as int == sin_series_v(x as int),
        sabs(r as int) <= 3000000,
{
    proof {
        lemma_tmul_bound(x as int, x as int, 1600000, 1600000);
        let x2 = tmul(x as int, x as int);
        lemma_tmul_bound(x2, 3, 2560000, 3);
        lemma_tmul_bound(x2, 198 - tmul(x2, 3), 2560000, 206);
        lemma_tmul_bound(x2, 8333 - tmul(x2, 198 - tmul(x2, 3)), 2560000, 8861);
        lemma_tmul_bound(x2, 166667 - tmul(x2, 8333 - tmul(x2, 198 - tmul(x2, 3))), 2560000,
            189351);
        lemma_tmul_bound(
            x as int,
            (SCALE as int) - tmul(
                x2,
                166667 - tmul(x2, 8333 - tmul(x2, 198 - tmul(x2, 3))),
            ),
            1600000,
            1484739,
        );
    }
    let x2: i128 = fmul128(x as i128, x as i128);
    let t3: i128 = fmul128(x2, 3);
    let t2: i128 = fmul128(x2, 198 - t3);
    let t1: i128 = fmul128(x2, 8333 - t2);
    let t0: i128 = fmul128(x2, 166667 - t1);
    let s: i128 = fmul128(x as i128, 1000000 - t0);
    s as i64
}

fn cos_series(x: i64) -> (r: i64)
    requires
        sabs(x as int) <= 1600000,
    ensures
        r as int == cos_series_v(x as int),
        sabs(r as int) <= 3000000,
{
    proof {
        lemma_tmul_bound(x as int, x as int, 1600000, 1600000);
        let x2 = tmul(x as int, x as int);
        lemma_tmul_bound(x2, 25, 2560000, 25);
        lemma_tmul_bound(x2, 1389 - tmul(x2, 25), 2560000, 1453);
        lemma_tmul_bound(x2, 41667 - tmul(x2, 1389 - tmul(x2, 25)), 2560000, 45387);
        lemma_tmul_bound(x2, 500000 - tmul(x2, 41667 - tmul(x2, 1389 - tmul(x2, 25))), 2560000,
            616191);
    }
    let x2: i128 = fmul128(x as i128, x as i128);
    let t3: i128 = fmul128(x2, 25);
    let t2: i128 = fmul128(x2, 1389 - t3);
    let t1: i128 = fmul128(x2, 41667 - t2);
    let t0: i128 = fmul128(x2, 500000 - t1);
    let c: i128 = 1000000 - t0;
    c as i64
}

/// Sine and cosine of an angle in radians, for angles up to one full
/// turn either way.
pub fn sin_cos_rad(rad: i64) -> (r: (i64, i64))
    requires
        sabs(rad as int) <= 6400000,
    ensures
        r.0 as int == sin_rad_v(rad as int),
        r.1 as int == cos_rad_v(rad as int),
        sabs(r.0 as int) <= SCALE as int,
        sabs(r.1 as int) <= SCALE as int,
        rad == 0 ==> r.0 == 0 && r.1 == SCALE,
{
    let r1: i64 = if rad > 3141593 {
        rad - 6283185
    } else if rad < -3141593 {
        rad + 6283185
    } else {
        rad
    };
    let s: i64;
    let c: i64;
    if r1 > 1570796 {
        let folded = 3141593 - r1;
        s = sin_series(folded);
        let cc = cos_series(folded);
        c = -cc;
    } else if r1 < -1570796 {
        let folded = -3141593 - r1;
        s = sin_series(folded);
        let cc = cos_series(folded);
        c = -cc;
    } else {
        s = sin_series(r1);
        c = cos_series(r1);
    }
    let sc = clamp(s, -1000000, 1000000);
    let cc = clamp(c, -1000000, 1000000);
    proof {
        if rad == 0 {
            vstd::arithmetic::div_mod::lemma_div_of0(1000000);
            assert(forall|k: int| tmul(0, k) == 0) by {
                assert forall|k: int| tmul(0, k) == 0 by {
                    assert(0 * k == 0);
                    assert(tdiv(0, SCALE as int) == 0);
                }
            }
            assert(sin_series_v(0) == 0);
            assert(cos_series_v(0) == SCALE as int);
        }
    }
    (sc, cc)
}

/// The arctangent on the first half-quadrant, by a quadratic fit.
#[verifier::opaque]
pub open spec fn atan_unit_v(z: int) -> int {
    tmul(z, 785398 + tmul(273000, (SCALE as int) - z))
}

fn atan_unit(z: i64) -> (r: i64)
    requires
        0 <= z,
        z <= 1000000,
    ensures
        r as int == atan_unit_v(z as int),
        0 <= r <= 1600000,
{
    proof {
        reveal(atan_unit_v);
        lemma_tmul_bound(273000, (SCALE as int) - z, 273000, 1000000);
        lemma_tmul_bound(z as int, 785398 + tmul(273000, (SCALE as int) - z), 1000000, 1058398);
        lemma_tmul_nonneg(z as int, 785398 + tmul(273000, (SCALE as int) - z));
    }
    let inner: i128 = fmul128(273000, 1000000 - z as i128);
    let r: i128 = fmul128(z as i128, 785398 + inner);
    r as i64
}

/// Full-plane arctangent, in radians in `(-pi, pi]`; zero at the origin.
#[verifier::opaque]
pub open spec fn atan2_v(y: int, x: int) -> int {
    if x == 0 && y == 0 {
        0
    } else {
        let ay = sabs(y);
        let ax = sabs(x);
        let base = if ax >= ay {
            atan_unit_v(fdivv(ay, ax))
        } else {
            (HALF_PI_FX as int) - atan_unit_v(fdivv(ax, ay))
        };
        if x >= 0 && y >= 0 {
            base
        } else if x < 0 && y >= 0 {
            (PI_FX as int) - base
        } else if x < 0 && y < 0 {
            base - (PI_FX as int)
        } else {
            -base
        }
    }
}

pub fn atan2_fx(y: i64, x: i64) -> (r: i64)
    requires
        sabs(y as int) <= 4000000000000000000,
        sabs(x as int) <= 4000000000000000000,
    ensures
        r as int == atan2_v(y as int, x as int),
        sabs(r as int) <= 4712389,
{
    proof {
        reveal(atan2_v);
    }
    if x == 0 && y == 0 {
        return 0;
    }
    let ay: i64 = if y < 0 {
        -y
    } else {
        y
    };
    let ax: i64 = if x < 0 {
        -x
    } else {
        x
    };
    let base: i64;
    if ax >= ay {
        proof {
            lemma_tdiv_bound((ay as int) * (SCALE as int), ax as int);
            crate::fixed::lemma_sabs_mul(ay as int, SCALE as int);
            assert((ay as int) * (SCALE as int) / (ax as int) <= SCALE as int)
                by (nonlinear_arith)
                requires
                    0 <= ay as int <= ax as int,
                    1 <= ax as int,
            ;
        }
        let q: i128 = fdiv128(ay as i128, ax as i128);
        base = atan_unit(q as i64);
    } else {
        proof {
            lemma_tdiv_bound((ax as int) * (SCALE as int), ay as int);
            crate::fixed::lemma_sabs_mul(ax as int, SCALE as int);
            assert((ax as int) * (SCALE as int) / (ay as int) <= SCALE as int)
                by (nonlinear_arith)
                requires
                    0 <= ax as int,
                    (ax as int) < ay as int,
                    1 <= ay as int,
            ;
        }
        let q: i128 = fdiv128(ax as i128, ay as i128);
        let a = atan_unit(q as i64);
        base = 1570796 - a;
    }
    if x >= 0 && y >= 0 {
        base
    } else if x < 0 && y >= 0 {
        3141593 - base
    } else if x < 0 && y < 0 {
        base - 3141593
    } else {
        -base
    }
}

/// Arc cosine in `[0, pi]` of a value clamped to one in magnitude.
#[verifier::opaque]
pub open spec fn acos_v(x: int) -> int {
    let xc = clamp_v(x, -(SCALE as int), SCALE as int);
    let s = fsqrt_v((SCALE as int) - tmul(xc, xc));
    atan2_v(s, xc)
}

pub fn acos_fx(x: i64) -> (r: i64)
    requires
        sabs(x as int) <= 4000000000000000000,
    ensures
        r as int == acos_v(x as int),
        sabs(r as int) <= 4712389,
{
    proof {
        reveal(acos_v);
    }
    let xc = clamp(x, -1000000, 1000000);
    proof {
        lemma_tmul_bound(xc as int, xc as int, 1000000, 1000000);
        crate::fixed::lemma_tmul_sq_nonneg(xc as int);
        assert(tmul(xc as int, xc as int) <= SCALE as int) by {
            lemma_tdiv_bound((xc as int) * (xc as int), SCALE as int);
            assert((xc as int) * (xc as int) <= 1000000000000int) by (nonlinear_arith)
                requires
                    sabs(xc as int) <= 1000000,
            ;
        }
    }
    let t: i128 = fmul128(xc as i128, xc as i128);
    let s: i128 = fsqrt128(1000000 - t);
    proof {
        assert((s as int) <= 1500000) by (nonlinear_arith)
            requires
                0 <= s as int,
                (s as int) * (s as int) <= ((SCALE as int) - tmul(xc as int, xc as int)) * (
                SCALE as int),
                (SCALE as int) - tmul(xc as int, xc as int) <= SCALE as int,
        ;
    }
    atan2_fx(s as i64, xc)
}

/// A uniform fixed-point sample in `[0, 1)`.
pub fn random_double(rng: &mut SmallRng) -> (r: i64)
    ensures
        0 <= r < SCALE,
{
    rand_unit(rng)
}

/// Normalise a unit-interval value into the upper half by doubling,
/// counting the doublings; the count caps after twenty-one steps.
pub open spec fn ln_norm(m: int, k: int) -> (int, int)
    decreases 21 - k,
{
    if m >= 500000 {
        (m, k)
    } else if k >= 21 {
        (500000, k)
    } else {
        ln_norm(2 * m, k + 1)
    }
}

/// The power-series tail of the logarithm, in fixed point: the sum of
/// `pw * y^(i-j) / i` for `i` from `j` to twenty.
pub open spec fn ln_series(y: int, pw: int, j: int) -> int
    decreases 21 - j,
{
    if j > 20 {
        0
    } else {
        tdiv(pw, j) + ln_series(y, tmul(pw, y), j + 1)
    }
}

/// The negative logarithm of `u` over the scale: normalise into the
/// upper half, sum the series of the remainder, add the counted
/// doublings times the logarithm of two, and cap.
pub open spec fn neg_ln_v(u: int) -> int {
    let mk = ln_norm(u, 0);
    let y = (SCALE as int) - mk.0;
    let t = ln_series(y, y, 1) + mk.1 * 693147;
    if t > 16000000 {
        16000000
    } else {
        t
    }
}

/// The negative logarithm of a uniform unit sample, used for
/// free-flight distances; exactly the series model.
#[verifier::loop_isolation(false)]
pub fn neg_ln_unit(u: i64) -> (r: i64)
    requires
        1 <= u,
        u <= 1000000,
    ensures
        r as int == neg_ln_v(u as int),
        0 <= r <= 16000000,
{
    let mut m: i64 = u;
    let mut k: i64 = 0;
    while m < 500000
        invariant
            1 <= m <= 1000000,
            0 <= k <= 21,
            ln_norm(m as int, k as int) == ln_norm(u as int, 0),
        decreases 1000000 - m + (21 - k) * 2000000,
    {
        if k >= 21 {
            m = 500000;
        } else {
            m = m * 2;
            k = k + 1;
        }
    }
    let y: i64 = 1000000 - m;
    let mut acc: i64 = 0;
    let mut pw: i64 = y;
    let mut j: i64 = 1;
    while j <= 20
        invariant
            0 <= y <= 500000,
            0 <= pw <= 500000,
            0 <= acc,
            acc <= (j - 1) * 500000,
            1 <= j <= 21,
            acc as int + ln_series(y as int, pw as int, j as int) == ln_series(y as int,
                y as int, 1),
        decreases 21 - j,
    {
        proof {
            lemma_tdiv_bound(pw as int, j as int);
            crate::fixed::lemma_tdiv_nonneg(pw as int, j as int);
            lemma_tmul_bound(pw as int, y as int, 500000, 500000);
            crate::fixed::lemma_tmul_nonneg(pw as int, y as int);
            crate::fixed::lemma_div_le(500000int * 500000int, 500000int * 500000int, 250000);
        }
        let term: i128 = tdiv128_pub(pw as i128, j as i128);
        acc = acc + (term as i64);
        let npw: i128 = fmul128(pw as i128, y as i128);
        pw = npw as i64;
        j = j + 1;
    }
    proof {
        lemma_ln_series_nonneg(y as int, y as int, 1);
    }
    let total: i64 = acc + k * 693147;
    if total > 16000000 {
        16000000
    } else {
        total
    }
}

/// Every term of the series is nonnegative.
pub proof fn lemma_ln_series_nonneg(y: int, pw: int, j: int)
    requires
        0 <= y,
        0 <= pw,
        1 <= j,
    ensures
        ln_series(y, pw, j) >= 0,
    decreases 21 - j,
{
    if j <= 20 {
        crate::fixed::lemma_tdiv_nonneg(pw, j);
        crate::fixed::lemma_tmul_nonneg(pw, y);
        lemma_ln_series_nonneg(y, tmul(pw, y), j + 1);
    }
}

/// Truncating division, re-exported for the sampling helpers.
fn tdiv128_pub(a: i128, b: i128) -> (r: i128)
    requires
        b != 0,
        a > i128::MIN,
        b > i128::MIN,
    ensures
        r as int == tdiv(a as int, b as int),
        sabs(r as int) <= sabs(a as int),
{
    crate::fixed::tdiv128(a, b)
}

/// A direction toward a sphere of the given radius seen from the given
/// squared distance, drawn uniformly over the subtended cone and
/// expressed in the local frame whose third axis aims at the sphere.
pub fn random_to_sphere(radius: i64, dist_squared: i64, rng: &mut SmallRng) -> (r: Vec3)
    requires
        0 <= radius,
        radius <= crate::fixed::COORD_MAX,
        1 <= dist_squared,
    ensures
        r@.within(2000000),
{
    random_to_sphere_wide(radius, dist_squared as i128, rng)
}

/// The same cone sample for a squared distance too wide for the narrow
/// scalars.
pub fn random_to_sphere_wide(radius: i64, dist_squared: i128, rng: &mut SmallRng) -> (r: Vec3)
    requires
        0 <= radius,
        radius <= crate::fixed::COORD_MAX,
        1 <= dist_squared,
        (dist_squared as int) <= 100000000000000000000000000000000,
    ensures
        r@.within(2000000),
        r@.z >= 0,
{
    let r1 = rand_unit(rng);
    let r2 = rand_unit(rng);
    proof {
        lemma_tmul_bound(radius as int, radius as int, crate::fixed::COORD_MAX as int,
            crate::fixed::COORD_MAX as int);
        lemma_tmul_nonneg(radius as int, radius as int);
        lemma_tdiv_bound(tmul(radius as int, radius as int) * (SCALE as int),
            dist_squared as int);
        crate::fixed::lemma_sabs_mul(tmul(radius as int, radius as int), SCALE as int);
    }
    let rr: i128 = fmul128(radius as i128, radius as i128);
    let frac: i128 = fdiv128(rr, dist_squared);
    proof {
        crate::fixed::lemma_tmul_sq_nonneg(radius as int);
        crate::fixed::lemma_fdiv_nonneg(tmul(radius as int, radius as int), dist_squared as int);
    }
    let fracc: i64 = if frac > 1000000 {
        1000000
    } else {
        frac as i64
    };
    let s: i128 = fsqrt128(1000000 - fracc as i128);
    let sc: i64 = if s > 1000000 {
        1000000
    } else {
        s as i64
    };
    proof {
        lemma_tmul_bound(r2 as int, (sc as int) - (SCALE as int), SCALE as int, 2000000);
        crate::fixed::lemma_tmul_nonpos(r2 as int, (sc as int) - (SCALE as int));
        crate::fixed::lemma_tmul_unit_bound(r2 as int, (sc as int) - (SCALE as int), 1000000);
    }
    let zshift: i128 = fmul128(r2 as i128, (sc as i128) - 1000000);
    let z: i64 = 1000000 + (zshift as i64);
    let zc: i64 = clamp(z, -1000000, 1000000);
    proof {
        lemma_tmul_bound(zc as int, zc as int, 1000000, 1000000);
        crate::fixed::lemma_tmul_sq_nonneg(zc as int);
    }
    let z2: i128 = fmul128(zc as i128, zc as i128);
    let w: i128 = fsqrt128(1000000 - z2);
    let wc: i64 = if w > 1000000 {
        1000000
    } else {
        w as i64
    };
    proof {
        lemma_tmul_bound(r1 as int, TWO_PI_FX as int, SCALE as int, TWO_PI_FX as int);
    }
    let phi: i128 = fmul128(r1 as i128, 6283185);
    let (sp, cp) = sin_cos_rad(phi as i64);
    proof {
        lemma_tmul_bound(cp as int, wc as int, SCALE as int, SCALE as int);
        lemma_tmul_bound(sp as int, wc as int, SCALE as int, SCALE as int);
    }
    let x: i128 = fmul128(cp as i128, wc as i128);
    let y: i128 = fmul128(sp as i128, wc as i128);
    Vec3 { x: x as i64, y: y as i64, z: zc }
}

/// A cosine-weighted direction in the upper unit hemisphere, in local
/// frame coordinates; the vertical component is never negative.
pub fn random_cosine_direction(rng: &mut SmallRng) -> (r: Vec3)
    ensures
        r@.within(SCALE as int),
        r@.z >= 0,
{
    let r1 = rand_unit(rng);
    let r2 = rand_unit(rng);
    proof {
        lemma_tmul_bound(r1 as int, TWO_PI_FX as int, SCALE as int, TWO_PI_FX as int);
    }
    let phi: i128 = fmul128(r1 as i128, 6283185);
    let (sp, cp) = sin_cos_rad(phi as i64);
    let sr: i128 = fsqrt128(r2 as i128);
    let src: i64 = if sr > 1000000 {
        1000000
    } else {
        sr as i64
    };
    let zr: i128 = fsqrt128(1000000 - r2 as i128);
    let z: i64 = if zr > 1000000 {
        1000000
    } else {
        zr as i64
    };
    proof {
        lemma_tmul_bound(cp as int, src as int, SCALE as int, SCALE as int);
        lemma_tmul_bound(sp as int, src as int, SCALE as int, SCALE as int);
    }
    let x: i128 = fmul128(cp as i128, src as i128);
    let y: i128 = fmul128(sp as i128, src as i128);
    Vec3 { x: x as i64, y: y as i64, z }
}

} // verus!
