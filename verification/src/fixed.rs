//! Fixed-point scalar arithmetic: every coordinate, colour channel and
//! density in this crate is an `i64` holding a real value scaled by
//! `SCALE` (one unit is 1_000_000 raw). Products and quotients round
//! toward zero, mirroring what the hardware does on the widened
//! intermediates the executable code computes in.
use vstd::prelude::*;
use vstd::arithmetic::div_mod::lemma_div_nonincreasing;
use vstd::arithmetic::div_mod::lemma_div_is_ordered;
use vstd::arithmetic::mul::lemma_mul_inequality;

verus! {

/// Raw representation of 1.0.
pub const SCALE: i64 = 1000000;

/// Bound on scene coordinates (object centres, radii, rectangle edges,
/// translation offsets, ray directions): one ten-thousandth of the raw
/// range, i.e. ten thousand world units.
pub const COORD_MAX: i64 = 10000000000;

/// Bound on ray origins and hit points (they may drift beyond the scene
/// after many bounces before the integrator stops following them).
pub const PT_MAX: i64 = 100000000000000;

/// Bound on the ray-parameter window handed to intersection tests; stands
/// in for "infinity" where the search is unbounded above.
pub const T_FAR: i64 = 10000000000;

/// Magnitude of an integer.
pub open spec fn sabs(a: int) -> int {
    if a >= 0 {
        a
    } else {
        -a
    }
}

/// Division rounding toward zero, the rule the executable code follows.
pub open spec fn tdiv(a: int, b: int) -> int {
    if (a >= 0) == (b >= 0) {
        sabs(a) / sabs(b)
    } else {
        -(sabs(a) / sabs(b))
    }
}

/// Fixed-point product: scale the integer product back down.
pub open spec fn tmul(a: int, b: int) -> int {
    tdiv(a * b, SCALE as int)
}

/// Fixed-point quotient: scale the numerator up first.
pub open spec fn fdivv(a: int, b: int) -> int {
    tdiv(a * (SCALE as int), b)
}

/// `r` is the integer square root of `n`.
pub open spec fn is_sqrt(n: int, r: int) -> bool {
    0 <= r && r * r <= n && n < (r + 1) * (r + 1)
}

/// The integer square root, as a function.
pub open spec fn sqrt_floor(n: int) -> int {
    choose|r: int| is_sqrt(n, r)
}

/// Fixed-point square root: the raw result of taking the root of a raw
/// value is the integer root of the value rescaled once.
pub open spec fn fsqrt_v(a: int) -> int {
    sqrt_floor(a * (SCALE as int))
}

pub proof fn lemma_sqrt_exists(n: int)
    requires
        n >= 0,
    ensures
        is_sqrt(n, sqrt_floor(n)),
    decreases n,
{
    if n == 0 {
        assert(is_sqrt(0, 0));
    } else {
        lemma_sqrt_exists(n - 1);
        let r = sqrt_floor(n - 1);
        if n < (r + 1) * (r + 1) {
            assert(is_sqrt(n, r));
        } else {
            assert((r + 1) * (r + 1) <= n);
            assert(n < (r + 2) * (r + 2)) by (nonlinear_arith)
                requires
                    0 <= r,
                    n - 1 < (r + 1) * (r + 1),
            ;
            assert(is_sqrt(n, r + 1));
        }
    }
}

pub proof fn lemma_sqrt_unique(n: int, r1: int, r2: int)
    requires
        is_sqrt(n, r1),
        is_sqrt(n, r2),
    ensures
        r1 == r2,
{
    assert(r1 == r2) by (nonlinear_arith)
        requires
            0 <= r1,
            r1 * r1 <= n,
            n < (r1 + 1) * (r1 + 1),
            0 <= r2,
            r2 * r2 <= n,
            n < (r2 + 1) * (r2 + 1),
    ;
}

/// Truncating division shrinks the magnitude of the dividend.
pub proof fn lemma_tdiv_bound(a: int, b: int)
    requires
        b != 0,
    ensures
        sabs(tdiv(a, b)) == sabs(a) / sabs(b),
        sabs(tdiv(a, b)) <= sabs(a),
{
    lemma_div_nonincreasing(sabs(a), sabs(b));
}

/// A bound on both factors bounds the fixed-point product.
pub proof fn lemma_tmul_bound(a: int, b: int, aa: int, bb: int)
    requires
        sabs(a) <= aa,
        sabs(b) <= bb,
    ensures
        sabs(tmul(a, b)) <= (aa * bb) / (SCALE as int),
        sabs(tmul(a, b)) <= aa * bb,
{
    assert(sabs(a * b) <= aa * bb) by (nonlinear_arith)
        requires
            sabs(a) <= aa,
            sabs(b) <= bb,
    ;
    lemma_tdiv_bound(a * b, SCALE as int);
    lemma_div_is_ordered(sabs(a * b), aa * bb, SCALE as int);
    lemma_div_nonincreasing(aa * bb, SCALE as int);
}

/// A bound on the numerator and a floor on the denominator bound the
/// fixed-point quotient.
pub proof fn lemma_fdiv_bound(a: int, b: int, aa: int)
    requires
        sabs(a) <= aa,
        b != 0,
    ensures
        sabs(fdivv(a, b)) <= aa * (SCALE as int),
{
    assert(sabs(a * (SCALE as int)) <= aa * (SCALE as int)) by (nonlinear_arith)
        requires
            sabs(a) <= aa,
    ;
    lemma_tdiv_bound(a * (SCALE as int), b);
    lemma_div_nonincreasing(sabs(a * (SCALE as int)), sabs(b));
}

/// Multiplying by a whole raw unit is the identity.
pub proof fn lemma_tmul_scale(a: int)
    ensures
        tmul(a, SCALE as int) == a,
        tmul(SCALE as int, a) == a,
{
    assert(a * (SCALE as int) == (SCALE as int) * a);
    assert(sabs(a * (SCALE as int)) == sabs(a) * (SCALE as int)) by (nonlinear_arith);
    assert(sabs(a) * (SCALE as int) / (SCALE as int) == sabs(a)) by (nonlinear_arith)
        requires
            sabs(a) >= 0,
    ;
}

/// Multiplying by zero gives zero.
pub proof fn lemma_tmul_zero(a: int)
    ensures
        tmul(a, 0) == 0,
        tmul(0, a) == 0,
{
    assert(a * 0 == 0);
    assert(0 * a == 0);
}

/// A product of nonnegative factors has a nonnegative fixed-point product.
pub proof fn lemma_tmul_nonneg(a: int, b: int)
    requires
        a >= 0,
        b >= 0,
    ensures
        tmul(a, b) >= 0,
{
    assert(a * b >= 0) by (nonlinear_arith)
        requires
            a >= 0,
            b >= 0,
    ;
}

/// A square has a nonnegative fixed-point value.
pub proof fn lemma_tmul_sq_nonneg(a: int)
    ensures
        tmul(a, a) >= 0,
{
    assert(a * a >= 0) by (nonlinear_arith);
    vstd::arithmetic::div_mod::lemma_div_pos_is_pos(a * a, SCALE as int);
}

/// A nonnegative value divided by a positive one stays nonnegative.
pub proof fn lemma_tdiv_nonneg(a: int, b: int)
    requires
        a >= 0,
        b > 0,
    ensures
        tdiv(a, b) >= 0,
{
    vstd::arithmetic::div_mod::lemma_div_pos_is_pos(a, b);
}

/// The fixed-point quotient of a nonnegative value by a positive one
/// stays nonnegative.
pub proof fn lemma_fdiv_nonneg(a: int, b: int)
    requires
        a >= 0,
        b > 0,
    ensures
        fdivv(a, b) >= 0,
{
    vstd::arithmetic::mul::lemma_mul_nonnegative(a, SCALE as int);
    lemma_tdiv_nonneg(a * (SCALE as int), b);
}

/// A floor on the denominator's magnitude gives the quotient a tighter
/// bound than the numerator alone.
pub proof fn lemma_fdiv_bound2(a: int, b: int, aa: int, bmin: int)
    requires
        sabs(a) <= aa,
        1 <= bmin,
        bmin <= sabs(b),
    ensures
        sabs(fdivv(a, b)) <= (aa * (SCALE as int)) / bmin,
{
    lemma_tdiv_bound(a * (SCALE as int), b);
    lemma_sabs_mul(a, SCALE as int);
    vstd::arithmetic::div_mod::lemma_div_is_ordered_by_denominator(sabs(a) * (SCALE as int),
        bmin, sabs(b));
    lemma_mul_inequality(sabs(a), aa, SCALE as int);
    lemma_div_is_ordered(sabs(a) * (SCALE as int), aa * (SCALE as int), bmin);
}

/// A ratio of a part to a whole stays within a unit.
pub proof fn lemma_fdiv_frac(a: int, b: int)
    requires
        0 <= a,
        a <= b,
        1 <= b,
    ensures
        0 <= fdivv(a, b),
        fdivv(a, b) <= SCALE as int,
{
    lemma_fdiv_nonneg(a, b);
    lemma_tdiv_bound(a * (SCALE as int), b);
    lemma_sabs_mul(a, SCALE as int);
    lemma_mul_inequality(a, b, SCALE as int);
    lemma_div_is_ordered(a * (SCALE as int), b * (SCALE as int), b);
    vstd::arithmetic::div_mod::lemma_div_multiples_vanish(SCALE as int, b);
    assert(b * (SCALE as int) == (SCALE as int) * b);
}

/// Scale-division stays below a quotient bound established by a plain
/// multiplication.
pub proof fn lemma_div_le(x: int, b: int, q: int)
    requires
        x <= b,
        b <= q * (SCALE as int),
    ensures
        x / (SCALE as int) <= q,
{
    lemma_div_is_ordered(x, q * (SCALE as int), SCALE as int);
    vstd::arithmetic::div_mod::lemma_div_multiples_vanish(q, SCALE as int);
    assert(q * (SCALE as int) == (SCALE as int) * q);
}

/// Dividing a scaled product back by its factor cannot overshoot.
pub proof fn lemma_fdiv_tmul_le(x: int, l: int)
    requires
        x >= 0,
        l >= 1,
    ensures
        fdivv(tmul(x, l), l) <= x,
{
    let s = SCALE as int;
    vstd::arithmetic::mul::lemma_mul_nonnegative(x, l);
    vstd::arithmetic::div_mod::lemma_div_pos_is_pos(x * l, s);
    let y = (x * l) / s;
    assert(tmul(x, l) == y);
    vstd::arithmetic::div_mod::lemma_fundamental_div_mod(x * l, s);
    assert(y * s <= x * l) by (nonlinear_arith)
        requires
            x * l == s * y + (x * l) % s,
            (x * l) % s >= 0,
    ;
    vstd::arithmetic::mul::lemma_mul_nonnegative(y, s);
    lemma_div_is_ordered(y * s, x * l, l);
    vstd::arithmetic::div_mod::lemma_div_multiples_vanish(x, l);
    assert(x * l == l * x);
    assert(fdivv(y, l) == (y * s) / l);
    assert(tdiv(y * s, l) == (y * s) / l);
}

/// A factor within one unit cannot grow the other factor.
pub proof fn lemma_tmul_unit_bound(a: int, b: int, bb: int)
    requires
        sabs(a) <= SCALE as int,
        sabs(b) <= bb,
    ensures
        sabs(tmul(a, b)) <= bb,
{
    lemma_sabs_mul(a, b);
    lemma_tdiv_bound(a * b, SCALE as int);
    lemma_mul_inequality(sabs(a), SCALE as int, sabs(b));
    assert((SCALE as int) * sabs(b) == sabs(b) * (SCALE as int));
    lemma_div_is_ordered(sabs(a) * sabs(b), sabs(b) * (SCALE as int), SCALE as int);
    vstd::arithmetic::div_mod::lemma_div_multiples_vanish(sabs(b), SCALE as int);
    assert(sabs(b) * (SCALE as int) == (SCALE as int) * sabs(b));
}

/// The nonnegativity facts on products and quotients, quantified for use
/// where naming the operands is inconvenient.
pub proof fn lemma_fx_nonneg_all()
    ensures
        forall|a: int, b: int| a >= 0 && b >= 0 ==> #[trigger] tmul(a, b) >= 0,
        forall|a: int, b: int| a >= 0 && b > 0 ==> #[trigger] fdivv(a, b) >= 0,
        forall|a: int, b: int| a >= 0 && b > 0 ==> #[trigger] tdiv(a, b) >= 0,
        forall|a: int| #[trigger] tmul(a, a) >= 0,
{
    assert forall|a: int, b: int| a >= 0 && b >= 0 implies #[trigger] tmul(a, b) >= 0 by {
        lemma_tmul_nonneg(a, b);
    }
    assert forall|a: int, b: int| a >= 0 && b > 0 implies #[trigger] fdivv(a, b) >= 0 by {
        lemma_fdiv_nonneg(a, b);
    }
    assert forall|a: int, b: int| a >= 0 && b > 0 implies #[trigger] tdiv(a, b) >= 0 by {
        lemma_tdiv_nonneg(a, b);
    }
    assert forall|a: int| #[trigger] tmul(a, a) >= 0 by {
        lemma_tmul_sq_nonneg(a);
    }
}

/// Scaling by half a unit is exact division by two.
pub proof fn lemma_tmul_half(x: int)
    requires
        x >= 0,
    ensures
        tmul(500000, x) == x / 2,
{
    let h = x / 2;
    let r = x % 2;
    vstd::arithmetic::div_mod::lemma_fundamental_div_mod(x, 2);
    vstd::arithmetic::div_mod::lemma_mod_bound(x, 2);
    vstd::arithmetic::div_mod::lemma_div_pos_is_pos(x, 2);
    assert(500000 * x == h * 1000000 + 500000 * r) by (nonlinear_arith)
        requires
            x == 2 * h + r,
    ;
    assert(0 <= 500000 * r < 1000000) by (nonlinear_arith)
        requires
            0 <= r < 2,
    ;
    vstd::arithmetic::mul::lemma_mul_nonnegative(500000, x);
    lemma_tdiv_exact(500000 * x, 1000000, h, 500000 * r);
}

/// Truncating division by a positive divisor is monotone in the
/// dividend.
pub proof fn lemma_tdiv_monotone(x: int, y: int, d: int)
    requires
        x <= y,
        d > 0,
    ensures
        tdiv(x, d) <= tdiv(y, d),
{
    if x >= 0 {
        lemma_div_is_ordered(x, y, d);
    } else if y >= 0 {
        vstd::arithmetic::div_mod::lemma_div_pos_is_pos(-x, d);
        vstd::arithmetic::div_mod::lemma_div_pos_is_pos(y, d);
    } else {
        lemma_div_is_ordered(-y, -x, d);
    }
}

/// The scaled quotient is monotone in the numerator.
pub proof fn lemma_fdiv_monotone(x: int, y: int, d: int)
    requires
        x <= y,
        d > 0,
    ensures
        fdivv(x, d) <= fdivv(y, d),
{
    lemma_mul_inequality(x, y, SCALE as int);
    lemma_tdiv_monotone(x * (SCALE as int), y * (SCALE as int), d);
}

/// A product of a nonnegative and a nonpositive factor stays nonpositive.
pub proof fn lemma_tmul_nonpos(a: int, b: int)
    requires
        a >= 0,
        b <= 0,
    ensures
        tmul(a, b) <= 0,
{
    assert(a * b <= 0) by (nonlinear_arith)
        requires
            a >= 0,
            b <= 0,
    ;
    vstd::arithmetic::div_mod::lemma_div_pos_is_pos(-(a * b), SCALE as int);
}

/// Evaluate a truncating division from its witness quotient and remainder.
pub proof fn lemma_tdiv_exact(a: int, b: int, q: int, r: int)
    requires
        b > 0,
        a >= 0,
        0 <= r < b,
        a == q * b + r,
    ensures
        tdiv(a, b) == q,
{
    vstd::arithmetic::div_mod::lemma_fundamental_div_mod_converse(a, b, q, r);
}

/// Magnitudes multiply through a product.
pub proof fn lemma_sabs_mul(a: int, b: int)
    ensures
        sabs(a * b) == sabs(a) * sabs(b),
{
    if a >= 0 && b >= 0 {
        assert(a * b >= 0) by (nonlinear_arith)
            requires
                a >= 0,
                b >= 0,
        ;
    } else if a >= 0 && b < 0 {
        assert(a * b <= 0 && -(a * b) == a * (-b)) by (nonlinear_arith)
            requires
                a >= 0,
                b < 0,
        ;
    } else if a < 0 && b >= 0 {
        assert(a * b <= 0 && -(a * b) == (-a) * b) by (nonlinear_arith)
            requires
                a < 0,
                b >= 0,
        ;
    } else {
        assert(a * b >= 0 && a * b == (-a) * (-b)) by (nonlinear_arith)
            requires
                a < 0,
                b < 0,
        ;
    }
}

/// Truncating division by the scale, on widened integers.
pub(crate) fn tdiv128(a: i128, b: i128) -> (r: i128)
    requires
        b != 0,
        a > i128::MIN,
        b > i128::MIN,
    ensures
        r as int == tdiv(a as int, b as int),
        sabs(r as int) <= sabs(a as int),
{
    let na: u128 = if a < 0 {
        (-a) as u128
    } else {
        a as u128
    };
    let nb: u128 = if b < 0 {
        (-b) as u128
    } else {
        b as u128
    };
    let q: u128 = na / nb;
    proof {
        assert(na as int == sabs(a as int));
        assert(nb as int == sabs(b as int));
        lemma_div_nonincreasing(na as int, nb as int);
        assert(q as int <= na as int);
    }
    if (a < 0) == (b < 0) {
        q as i128
    } else {
        -(q as i128)
    }
}

/// Fixed-point product on widened integers.
pub(crate) fn fmul128(a: i128, b: i128) -> (r: i128)
    requires
        sabs(a as int) <= 12000000000000000000,
        sabs(b as int) <= 12000000000000000000,
    ensures
        r as int == tmul(a as int, b as int),
        sabs(r as int) <= (sabs(a as int) * sabs(b as int)) / (SCALE as int),
{
    proof {
        assert(sabs((a as int) * (b as int)) == sabs(a as int) * sabs(b as int)
            <= 12000000000000000000int * 12000000000000000000int) by (nonlinear_arith)
            requires
                sabs(a as int) <= 12000000000000000000,
                sabs(b as int) <= 12000000000000000000,
        ;
        lemma_tdiv_bound((a as int) * (b as int), SCALE as int);
    }
    tdiv128(a * b, 1000000)
}

/// Fixed-point product on widened integers, for wide operands whose
/// integer product still fits.
pub(crate) fn fmul128w(a: i128, b: i128) -> (r: i128)
    requires
        sabs(a as int) * sabs(b as int) <= 160000000000000000000000000000000000000,
    ensures
        r as int == tmul(a as int, b as int),
        sabs(r as int) <= (sabs(a as int) * sabs(b as int)) / (SCALE as int),
{
    proof {
        lemma_sabs_mul(a as int, b as int);
        lemma_tdiv_bound((a as int) * (b as int), SCALE as int);
    }
    tdiv128(a * b, 1000000)
}

/// Fixed-point quotient on widened integers.
pub(crate) fn fdiv128(a: i128, b: i128) -> (r: i128)
    requires
        b != 0,
        sabs(a as int) <= 100000000000000000000000000000000,
        sabs(b as int) <= 100000000000000000000000000000000,
    ensures
        r as int == fdivv(a as int, b as int),
        sabs(r as int) <= sabs(a as int) * (SCALE as int),
{
    proof {
        assert(sabs((a as int) * (SCALE as int)) == sabs(a as int) * (SCALE as int))
            by (nonlinear_arith);
        assert(sabs(a as int) * (SCALE as int)
            <= 100000000000000000000000000000000int * 1000000int) by (nonlinear_arith)
            requires
                sabs(a as int) <= 100000000000000000000000000000000,
        ;
        lemma_tdiv_bound((a as int) * (SCALE as int), b as int);
    }
    tdiv128(a * 1000000, b)
}

/// Integer square root by bisection.
pub(crate) fn isqrt_u128(n: u128) -> (r: u128)
    requires
        (n as int) < 85070591730234615865843651857942052864,
    ensures
        is_sqrt(n as int, r as int),
{
    let mut lo: u128 = 0;
    let mut hi: u128 = 9223372036854775808;
    proof {
        assert((9223372036854775808int) * (9223372036854775808int)
            == 85070591730234615865843651857942052864int) by (nonlinear_arith);
    }
    while lo + 1 < hi
        invariant
            lo < hi,
            hi <= 9223372036854775808,
            (lo as int) * (lo as int) <= n as int,
            (n as int) < (hi as int) * (hi as int),
        decreases hi - lo,
    {
        let mid = lo + (hi - lo) / 2;
        proof {
            assert(lo < mid < hi);
            assert((mid as int) * (mid as int)
                <= 9223372036854775808int * 9223372036854775808int) by (nonlinear_arith)
                requires
                    0 <= mid as int <= 9223372036854775808int,
            ;
        }
        if mid * mid <= n {
            lo = mid;
        } else {
            hi = mid;
        }
    }
    lo
}

/// Fixed-point square root of a nonnegative raw value.
pub(crate) fn fsqrt128(a: i128) -> (r: i128)
    requires
        0 <= a,
        (a as int) <= 80000000000000000000000000000000,
    ensures
        r as int == fsqrt_v(a as int),
        is_sqrt((a as int) * (SCALE as int), r as int),
        0 <= r,
{
    let n: u128 = (a as u128) * 1000000;
    proof {
        assert(n as int == (a as int) * (SCALE as int));
    }
    let s = isqrt_u128(n);
    proof {
        lemma_sqrt_exists(n as int);
        lemma_sqrt_unique(n as int, s as int, sqrt_floor(n as int));
        assert((s as int) * (s as int) <= n as int);
        assert((s as int) < 9223372036854775808int) by (nonlinear_arith)
            requires
                0 <= s as int,
                (s as int) * (s as int) <= n as int,
                (n as int) < 85070591730234615865843651857942052864int,
                (9223372036854775808int) * (9223372036854775808int)
                    == 85070591730234615865843651857942052864int,
        ;
    }
    s as i128
}

} // verus!
