//! The one stochastic ingredient: a small seedable pseudo-random number
//! generator, taken from the rand crate and threaded explicitly through
//! every sampling call so that renders are reproducible per seed.
use vstd::prelude::*;
use rand::rngs::SmallRng;
use crate::fixed::SCALE;

verus! {

#[verifier::external_type_specification]
#[verifier::external_body]
pub struct ExSmallRng(SmallRng);

/// Relies on rand's `RngCore::next_u32` for `SmallRng`: returns the
/// generator's next 32 bits. Nothing is promised of the value.
#[verifier::external_body]
fn rng_next_u32(rng: &mut SmallRng) -> u32 {
    rand::RngCore::next_u32(rng)
}

/// A uniform fixed-point sample in `[0, 1)`: words at or above the
/// largest multiple of the scale are rejected, so every residue is
/// equally likely; after a bounded number of rejections (vanishingly
/// unlikely) the last word is reduced directly.
pub(crate) fn rand_unit(rng: &mut SmallRng) -> (r: i64)
    ensures
        0 <= r < SCALE,
{
    let mut i: u64 = 0;
    while i < 64
        invariant
            i <= 64,
        decreases 64 - i,
    {
        let w = rng_next_u32(rng);
        if w < 4294000000 {
            return (w % 1000000) as i64;
        }
        i = i + 1;
    }
    let w = rng_next_u32(rng);
    (w % 1000000) as i64
}

/// A uniform raw sample in `[lo, hi)`.
pub(crate) fn rand_range(rng: &mut SmallRng, lo: i64, hi: i64) -> (r: i64)
    requires
        lo < hi,
        hi - lo <= 0x7fffffffffffffff,
    ensures
        lo <= r < hi,
{
    let span = (hi - lo) as u64;
    let a = rng_next_u32(rng) as u64;
    let b = rng_next_u32(rng) as u64;
    let w = (a << 32) | b;
    let off = w % span;
    lo + (off as i64)
}

/// A uniform index below `n`.
pub(crate) fn rand_index(rng: &mut SmallRng, n: usize) -> (r: usize)
    requires
        n > 0,
    ensures
        r < n,
{
    let a = rng_next_u32(rng) as u64;
    let b = rng_next_u32(rng) as u64;
    let w = (a << 32) | b;
    (w % (n as u64)) as usize
}

} // verus!
