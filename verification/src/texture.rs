//! Textures drive a material's colour response through one pure lookup,
//! `value(u, v, p) -> Color`. The solid colour answers one colour
//! everywhere; the lookup table carries externally produced content
//! (an image, a baked procedural pattern) as plain pixel values, indexed
//! by the surface coordinates.
use vstd::prelude::*;
use crate::color::{Color, ColorV, color};
use crate::vec::Vec3;
use crate::fixed::{tdiv, SCALE};
use crate::util::clamp_v;

verus! {

#[derive(Debug, Clone, Copy)]
pub struct SolidColor {
    pub color: Color,
}

impl SolidColor {
    pub fn new(r: i64, g: i64, b: i64) -> (t: Texture)
        ensures
            t == (Texture::SolidColor(SolidColor {
                color: Color { r, g, b },
            })),
    {
        Texture::SolidColor(SolidColor { color: color(r, g, b) })
    }

    pub fn default() -> (t: SolidColor)
        ensures
            t.color@ == (ColorV { r: 0, g: 0, b: 0 }),
    {
        SolidColor { color: Color::default() }
    }
}

/// A raster of colours in row-major order, row zero at the top as rasters
/// are stored; usable for image content or any baked pattern.
#[derive(Debug, Clone)]
pub struct LookupTexture {
    pub width: usize,
    pub height: usize,
    pub pixels: Vec<Color>,
}

/// A lookup table the sampler can index: nonempty, modestly sized, and
/// holding exactly one colour per cell.
pub open spec fn lookup_wf(t: LookupTexture) -> bool {
    &&& 1 <= t.width <= 65536
    &&& 1 <= t.height <= 65536
    &&& t.pixels@.len() == t.width * t.height
}

/// The cell a surface coordinate falls in: the unit interval divided
/// evenly, the upper end landing in the last cell.
pub open spec fn lookup_cell(c: int, n: int) -> int {
    let cc = clamp_v(c, 0, (SCALE - 1) as int);
    tdiv(cc * n, SCALE as int)
}

/// The colour a texture answers at surface coordinates `(u, v)` and point
/// `p`: a solid colour answers its stored colour everywhere; a
/// well-formed lookup table answers the cell the coordinates fall in,
/// with the vertical axis flipped as rasters are stored; a malformed
/// table answers black.
pub open spec fn texture_value_v(t: Texture, u: int, v: int, p: crate::vec::V3) -> ColorV {
    match t {
        Texture::SolidColor(s) => s.color@,
        Texture::Lookup(lt) => {
            if !lookup_wf(lt) {
                ColorV { r: 0, g: 0, b: 0 }
            } else {
                let col = lookup_cell(u, lt.width as int);
                let row = lookup_cell((SCALE as int) - v, lt.height as int);
                lt.pixels@[row * (lt.width as int) + col]@
            }
        },
    }
}

#[derive(Debug, Clone)]
pub enum Texture {
    SolidColor(SolidColor),
    Lookup(LookupTexture),
}

impl Texture {
    pub fn default() -> (t: Texture)
        ensures
            t matches Texture::SolidColor(s) && s.color@ == (ColorV { r: 0, g: 0, b: 0 }),
    {
        Texture::SolidColor(SolidColor::default())
    }

    pub fn value(&self, u: i64, v: i64, p: Vec3) -> (c: Color)
        ensures
            c@ == texture_value_v(*self, u as int, v as int, p@),
    {
        match self {
            Texture::SolidColor(s) => s.color,
            Texture::Lookup(lt) => {
                if !(1 <= lt.width && lt.width <= 65536 && 1 <= lt.height && lt.height
                    <= 65536) {
                    return color(0, 0, 0);
                }
                proof {
                    assert((lt.width as int) * (lt.height as int) <= 4294967296int)
                        by (nonlinear_arith)
                        requires
                            1 <= lt.width as int <= 65536,
                            1 <= lt.height as int <= 65536,
                    ;
                }
                let expected: u64 = (lt.width as u64) * (lt.height as u64);
                if (lt.pixels.len() as u64) != expected {
                    return color(0, 0, 0);
                }
                let col = lookup_index(u, lt.width);
                let fv: i64 = if v <= 0 {
                    999999
                } else if v >= 1000000 {
                    0
                } else {
                    1000000 - v
                };
                proof {
                    assert(fv as int == clamp_v((SCALE as int) - v, 0, (SCALE - 1) as int));
                }
                let row = lookup_index(fv, lt.height);
                proof {
                    assert((row as int) * (lt.width as int) + (col as int) < (lt.width as int)
                        * (lt.height as int)) by (nonlinear_arith)
                        requires
                            0 <= col as int,
                            (col as int) < lt.width as int,
                            0 <= row as int,
                            (row as int) < lt.height as int,
                    ;
                    assert((row as int) * (lt.width as int) + (col as int)
                        <= 65536int * 65536int - 1) by (nonlinear_arith)
                        requires
                            0 <= col as int,
                            (col as int) < lt.width as int <= 65536,
                            0 <= row as int,
                            (row as int) < lt.height as int <= 65536,
                    ;
                }
                lt.pixels[row * lt.width + col]
            },
        }
    }
}

/// Clamp a coordinate into the unit interval, top end exclusive.
fn clamp_i(c: i64) -> (r: i64)
    ensures
        0 <= r <= 999999,
        r as int == clamp_v(c as int, 0, (SCALE - 1) as int),
{
    if c < 0 {
        0
    } else if c > 999999 {
        999999
    } else {
        c
    }
}

/// The cell index of a coordinate, strictly below the cell count.
fn lookup_index(c: i64, n: usize) -> (r: usize)
    requires
        1 <= n <= 65536,
    ensures
        r as int == lookup_cell(c as int, n as int),
        r < n,
{
    let cc = clamp_i(c);
    proof {
        assert((cc as int) * (n as int) <= 65536000000000int) by (nonlinear_arith)
            requires
                0 <= cc as int <= 999999,
                1 <= n as int <= 65536,
        ;
    }
    let q: u64 = ((cc as u64) * (n as u64)) / 1000000;
    proof {
        crate::fixed::lemma_tdiv_bound((cc as int) * (n as int), SCALE as int);
        assert(((cc as int) * (n as int)) / (SCALE as int) < n as int) by (nonlinear_arith)
            requires
                0 <= cc as int <= 999999,
                1 <= n as int,
        ;
        vstd::arithmetic::mul::lemma_mul_nonnegative(cc as int, n as int);
    }
    q as usize
}

} // verus!
