//! Colours as fixed-point red/green/blue triples, plus the mapping from an
//! accumulated linear colour to the integer channel values of the output
//! raster (gamma two, clamped, scaled to a byte range).
use vstd::prelude::*;
use rand::rngs::SmallRng;
use crate::fixed::{sabs, tmul, tdiv, fsqrt_v, fmul128, fsqrt128, tdiv128, SCALE, lemma_tdiv_bound};
use crate::rng::rand_range;

verus! {

/// Mathematical value of a colour.
pub struct ColorV {
    pub r: int,
    pub g: int,
    pub b: int,
}

impl ColorV {
    pub open spec fn add(self, o: ColorV) -> ColorV {
        ColorV { r: self.r + o.r, g: self.g + o.g, b: self.b + o.b }
    }

    pub open spec fn scale(self, k: int) -> ColorV {
        ColorV { r: tmul(self.r, k), g: tmul(self.g, k), b: tmul(self.b, k) }
    }

    pub open spec fn mul(self, o: ColorV) -> ColorV {
        ColorV { r: tmul(self.r, o.r), g: tmul(self.g, o.g), b: tmul(self.b, o.b) }
    }

    pub open spec fn within(self, m: int) -> bool {
        sabs(self.r) <= m && sabs(self.g) <= m && sabs(self.b) <= m
    }
}

#[derive(Debug, Clone, Copy)]
pub struct Color {
    pub r: i64,
    pub g: i64,
    pub b: i64,
}

impl View for Color {
    type V = ColorV;

    open spec fn view(&self) -> ColorV {
        ColorV { r: self.r as int, g: self.g as int, b: self.b as int }
    }
}

pub fn color(x: i64, y: i64, z: i64) -> (c: Color)
    ensures
        c@ == (ColorV { r: x as int, g: y as int, b: z as int }),
{
    Color { r: x, g: y, b: z }
}

impl Color {
    pub fn default() -> (c: Color)
        ensures
            c@ == (ColorV { r: 0, g: 0, b: 0 }),
    {
        Color { r: 0, g: 0, b: 0 }
    }

    pub fn add(self, rhs: Color) -> (c: Color)
        requires
            self@.within(4000000000000000000),
            rhs@.within(4000000000000000000),
        ensures
            c@ == self@.add(rhs@),
    {
        Color { r: self.r + rhs.r, g: self.g + rhs.g, b: self.b + rhs.b }
    }

    pub fn add_assign(&mut self, rhs: Color)
        requires
            old(self)@.within(4000000000000000000),
            rhs@.within(4000000000000000000),
        ensures
            final(self)@ == old(self)@.add(rhs@),
    {
        self.r = self.r + rhs.r;
        self.g = self.g + rhs.g;
        self.b = self.b + rhs.b;
    }

    /// Scale all channels by a fixed-point factor.
    pub fn scale(self, k: i64) -> (c: Color)
        requires
            self@.within(1000000000000),
            sabs(k as int) <= 1000000000000,
        ensures
            c@ == self@.scale(k as int),
            c@.within((1000000000000int * sabs(k as int)) / (SCALE as int)),
    {
        proof {
            crate::fixed::lemma_tmul_bound(self@.r, k as int, 1000000000000, sabs(k as int));
            crate::fixed::lemma_tmul_bound(self@.g, k as int, 1000000000000, sabs(k as int));
            crate::fixed::lemma_tmul_bound(self@.b, k as int, 1000000000000, sabs(k as int));
            assert((1000000000000int * sabs(k as int)) / (SCALE as int)
                <= 1000000000000000000int) by (nonlinear_arith)
                requires
                    sabs(k as int) <= 1000000000000,
            ;
        }
        let r = fmul128(self.r as i128, k as i128) as i64;
        let g = fmul128(self.g as i128, k as i128) as i64;
        let b = fmul128(self.b as i128, k as i128) as i64;
        Color { r, g, b }
    }

    /// Channel-wise product of two colours.
    pub fn mul(self, rhs: Color) -> (c: Color)
        requires
            self@.within(1000000000000),
            rhs@.within(1000000000000),
        ensures
            c@ == self@.mul(rhs@),
            c@.within(1000000000000000000),
    {
        proof {
            crate::fixed::lemma_tmul_bound(self@.r, rhs@.r, 1000000000000, 1000000000000);
            crate::fixed::lemma_tmul_bound(self@.g, rhs@.g, 1000000000000, 1000000000000);
            crate::fixed::lemma_tmul_bound(self@.b, rhs@.b, 1000000000000, 1000000000000);
        }
        let r = fmul128(self.r as i128, rhs.r as i128) as i64;
        let g = fmul128(self.g as i128, rhs.g as i128) as i64;
        let b = fmul128(self.b as i128, rhs.b as i128) as i64;
        Color { r, g, b }
    }

    /// A colour with each channel uniform in `[min, max)`.
    pub fn random(min: i64, max: i64, rng: &mut SmallRng) -> (c: Color)
        requires
            min < max,
            max - min <= 0x7fffffffffffffff,
        ensures
            min <= c@.r < max,
            min <= c@.g < max,
            min <= c@.b < max,
    {
        let r = rand_range(rng, min, max);
        let g = rand_range(rng, min, max);
        let b = rand_range(rng, min, max);
        Color { r, g, b }
    }
}

/// The integer output value of one accumulated channel: average over the
/// sample count, gamma-correct by square root, clamp to just below one,
/// and scale to the byte range. A negative accumulation maps to zero.
pub open spec fn channel_v(raw: int, samples: int) -> int {
    let avg = tdiv(raw, samples);
    if avg < 0 {
        0
    } else {
        let root = fsqrt_v(avg);
        let clamped = if root > 999000 {
            999000
        } else {
            root
        };
        tdiv(tmul(255999000, clamped), SCALE as int)
    }
}

/// The three integer channel values written for one pixel.
pub fn write_color_channels(c: Color, samples_per_pixel: u64) -> (out: (u64, u64, u64))
    requires
        1 <= samples_per_pixel,
        samples_per_pixel <= 1000000000,
        c@.within(4000000000000000000),
    ensures
        out.0 as int == channel_v(c@.r, samples_per_pixel as int),
        out.1 as int == channel_v(c@.g, samples_per_pixel as int),
        out.2 as int == channel_v(c@.b, samples_per_pixel as int),
{
    let r = one_channel(c.r, samples_per_pixel);
    let g = one_channel(c.g, samples_per_pixel);
    let b = one_channel(c.b, samples_per_pixel);
    (r, g, b)
}

fn one_channel(raw: i64, samples: u64) -> (out: u64)
    requires
        1 <= samples,
        samples <= 1000000000,
        sabs(raw as int) <= 4000000000000000000,
    ensures
        out as int == channel_v(raw as int, samples as int),
{
    let avg: i128 = tdiv128(raw as i128, samples as i128);
    if avg < 0 {
        0
    } else {
        proof {
            lemma_tdiv_bound(raw as int, samples as int);
        }
        let root: i128 = fsqrt128(avg);
        let clamped: i128 = if root > 999000 {
            999000
        } else {
            root
        };
        proof {
            crate::fixed::lemma_tmul_bound(255999000, clamped as int, 255999000, 999000);
            lemma_tdiv_bound(tmul(255999000, clamped as int), SCALE as int);
        }
        proof {
            crate::fixed::lemma_tmul_nonneg(255999000, clamped as int);
        }
        let scaled: i128 = fmul128(255999000, clamped);
        let v: i128 = tdiv128(scaled, 1000000);
        v as u64
    }
}

} // verus!
