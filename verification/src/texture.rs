//! Textures: a pure function from a surface UV to a color.
//!
//! UVs are fixed-point (SCALE is 1.0).  The checker pattern goes by the
//! parity of the floor-divided cell coordinates; the image texture is
//! sampled bilinearly with V flipped, exactly as the integer formulas in
//! the specs below state.

use vstd::prelude::*;

use crate::color::{Color, COLOR_ONE};
use crate::fixed::{s_abs, SCALE};

verus! {

/// An image held as a row-major grid of colors.
#[derive(Clone, Debug)]
pub struct ImageTexture {
    pub width: u32,
    pub height: u32,
    pub pixels: Vec<Color>,
}

impl ImageTexture {
    /// Nonempty, no larger than 65536 on a side, fully populated, and
    /// every texel usable as an attenuation.
    pub open spec fn wf(self) -> bool {
        &&& 0 < self.width <= 0x10000
        &&& 0 < self.height <= 0x10000
        &&& self.pixels@.len() == self.width * self.height
        &&& forall|i: int| 0 <= i < self.pixels@.len() ==> self.pixels@[i].is_attenuation()
    }

    pub open spec fn texel(self, ix: int, iy: int) -> Color {
        self.pixels@[iy * self.width + ix]
    }

    /// Runtime test of `wf`.
    pub fn check_wf(&self) -> (r: bool)
        ensures
            r == self.wf(),
    {
        if !(0 < self.width && self.width <= 0x10000 && 0 < self.height && self.height <= 0x10000) {
            return false;
        }
        proof {
            assert(self.width as int * self.height as int <= 0x100000000int) by (nonlinear_arith)
                requires
                    0 < self.width <= 0x10000,
                    0 < self.height <= 0x10000,
            ;
        }
        if (self.pixels.len() as u64) != (self.width as u64) * (self.height as u64) {
            return false;
        }
        let len = self.pixels.len();
        let mut i: usize = 0;
        while i < len
            invariant
                i <= len,
                len == self.pixels@.len(),
                forall|k: int| 0 <= k < i ==> self.pixels@[k].is_attenuation(),
            decreases len - i,
        {
            if !self.pixels[i].check_attenuation() {
                return false;
            }
            i += 1;
        }
        true
    }
}

/// Floor cell coordinate of a checker lookup: u / scale, rounded toward
/// negative infinity (Euclidean division by a positive scale).
pub open spec fn checker_cell(u: int, scale: int) -> int {
    u / scale
}

/// Whether a UV pair lands on the first checker color: even parity of
/// the summed cell coordinates.
pub open spec fn checker_even(u: int, v: int, scale: int) -> bool {
    (checker_cell(u, scale) + checker_cell(v, scale)) % 2 == 0
}

/// One channel of a bilinear blend: the four texel values weighted by
/// the fractional offsets fu, fv (each in [0, SCALE)), scaled back down.
pub open spec fn bilerp(c00: int, c10: int, c01: int, c11: int, fu: int, fv: int) -> int {
    (c00 * (SCALE as int - fu) * (SCALE as int - fv) + c10 * fu * (SCALE as int - fv) + c01 * (
    SCALE as int - fu) * fv + c11 * fu * fv) / (SCALE as int * SCALE as int)
}

/// The continuous texel coordinate of a normalized coordinate c in
/// [0, SCALE] over n texels: c * (n - 1), still in fixed point.
pub open spec fn texel_coord(c: int, n: int) -> int {
    c * (n - 1)
}

#[derive(Clone, Debug)]
pub enum Texture {
    Solid { color: Color },
    Checker { color1: Color, color2: Color, scale: i64 },
    Image { image: ImageTexture },
}

impl Texture {
    pub open spec fn wf(self) -> bool {
        match self {
            Texture::Solid { color } => color.is_attenuation(),
            Texture::Checker { color1, color2, scale } => {
                &&& color1.is_attenuation()
                &&& color2.is_attenuation()
                &&& 0 < scale <= 0x100000000int
            },
            Texture::Image { image } => image.wf(),
        }
    }

    /// Runtime test of `wf`.
    pub fn check_wf(&self) -> (r: bool)
        ensures
            r == self.wf(),
    {
        match self {
            Texture::Solid { color } => color.check_attenuation(),
            Texture::Checker { color1, color2, scale } => {
                color1.check_attenuation() && color2.check_attenuation() && 0 < *scale && *scale
                    <= 0x100000000i64
            },
            Texture::Image { image } => image.check_wf(),
        }
    }

    /// What `sample` returns; a pure function of the UV.
    pub open spec fn sample_spec(self, u: int, v: int) -> Color {
        match self {
            Texture::Solid { color } => color,
            Texture::Checker { color1, color2, scale } => {
                if checker_even(u, v, scale as int) {
                    color1
                } else {
                    color2
                }
            },
            Texture::Image { image } => {
                let fx = texel_coord(u, image.width as int);
                let fy = texel_coord(SCALE as int - v, image.height as int);
                let ix = fx / SCALE as int;
                let iy = fy / SCALE as int;
                let fu = fx % SCALE as int;
                let fv = fy % SCALE as int;
                let ix1 = if ix + 1 < image.width as int {
                    ix + 1
                } else {
                    image.width - 1
                };
                let iy1 = if iy + 1 < image.height as int {
                    iy + 1
                } else {
                    image.height - 1
                };
                (Color {
                    r: bilerp(
                        image.texel(ix, iy).r as int,
                        image.texel(ix1, iy).r as int,
                        image.texel(ix, iy1).r as int,
                        image.texel(ix1, iy1).r as int,
                        fu,
                        fv,
                    ) as u32,
                    g: bilerp(
                        image.texel(ix, iy).g as int,
                        image.texel(ix1, iy).g as int,
                        image.texel(ix, iy1).g as int,
                        image.texel(ix1, iy1).g as int,
                        fu,
                        fv,
                    ) as u32,
                    b: bilerp(
                        image.texel(ix, iy).b as int,
                        image.texel(ix1, iy).b as int,
                        image.texel(ix, iy1).b as int,
                        image.texel(ix1, iy1).b as int,
                        fu,
                        fv,
                    ) as u32,
                })
            },
        }
    }

    /// Sample the texture at a UV.  Image textures need the UV inside
    /// [0, 1]^2 (out-of-range lookups are a caller error); the other
    /// variants accept any UV within the stated magnitude.
    pub fn sample(&self, u: i64, v: i64) -> (c: Color)
        requires
            self.wf(),
            s_abs(u as int) <= 0x100000000int,
            s_abs(v as int) <= 0x100000000int,
            self is Image ==> 0 <= u <= SCALE && 0 <= v <= SCALE,
        ensures
            c == self.sample_spec(u as int, v as int),
            c.is_attenuation(),
    {
        match self {
            Texture::Solid { color } => *color,
            Texture::Checker { color1, color2, scale } => {
                if checker_lookup_even(u, v, *scale) {
                    *color1
                } else {
                    *color2
                }
            },
            Texture::Image { image } => {
                let flipped: i64 = SCALE - v;
                let (ix, fu) = split_texel_coord(u, image.width);
                let (iy, fv) = split_texel_coord(flipped, image.height);
                let ix1: u32 = if ix + 1 < image.width {
                    ix + 1
                } else {
                    image.width - 1
                };
                let iy1: u32 = if iy + 1 < image.height {
                    iy + 1
                } else {
                    image.height - 1
                };
                proof {
                    lemma_texel_index(image.width as int, image.height as int, ix as int, iy as int);
                    lemma_texel_index(image.width as int, image.height as int, ix1 as int, iy as int);
                    lemma_texel_index(image.width as int, image.height as int, ix as int, iy1 as int);
                    lemma_texel_index(
                        image.width as int,
                        image.height as int,
                        ix1 as int,
                        iy1 as int,
                    );
                }
                let c00 = image.pixels[(iy as usize) * (image.width as usize) + (ix as usize)];
                let c10 = image.pixels[(iy as usize) * (image.width as usize) + (ix1 as usize)];
                let c01 = image.pixels[(iy1 as usize) * (image.width as usize) + (ix as usize)];
                let c11 = image.pixels[(iy1 as usize) * (image.width as usize) + (ix1 as usize)];
                let r: u32 = bilerp_channel(c00.r, c10.r, c01.r, c11.r, fu, fv);
                let g: u32 = bilerp_channel(c00.g, c10.g, c01.g, c11.g, fu, fv);
                let b: u32 = bilerp_channel(c00.b, c10.b, c01.b, c11.b, fu, fv);
                Color { r, g, b }
            },
        }
    }
}

/// Checker parity of a UV pair.  Negative coordinates are handled by
/// shifting both cells up by one even offset per axis, which cannot
/// change the parity of their sum.
fn checker_lookup_even(u: i64, v: i64, scale: i64) -> (even: bool)
    requires
        0 < scale <= 0x100000000int,
        s_abs(u as int) <= 0x100000000int,
        s_abs(v as int) <= 0x100000000int,
    ensures
        even == checker_even(u as int, v as int, scale as int),
{
    let cu: i64 = shifted_cell(u, scale);
    let cv: i64 = shifted_cell(v, scale);
    proof {
        vstd::arithmetic::div_mod::lemma_mod_multiples_vanish(
            2 * (0x200000000int / scale as int),
            checker_cell(u as int, scale as int) + checker_cell(v as int, scale as int),
            2,
        );
    }
    (cu as u64 + cv as u64) % 2 == 0
}

/// The checker cell of u, shifted up by the even constant
/// 2 * (2^33 / scale); always nonnegative for |u| <= 2^32.
fn shifted_cell(u: i64, scale: i64) -> (c: i64)
    requires
        0 < scale <= 0x100000000int,
        s_abs(u as int) <= 0x100000000int,
    ensures
        c == checker_cell(u as int, scale as int) + 2 * (0x200000000int / scale as int),
        0 <= c <= 0x500000000int,
{
    let k: u64 = 0x200000000u64 / (scale as u64);
    proof {
        vstd::arithmetic::div_mod::lemma_fundamental_div_mod(0x200000000int, scale as int);
        vstd::arithmetic::div_mod::lemma_mod_bound(0x200000000int, scale as int);
        assert(scale as int * (0x200000000int / scale as int) == (0x200000000int / scale as int)
            * scale as int) by (nonlinear_arith);
        vstd::arithmetic::div_mod::lemma_div_is_ordered(0, 0x200000000int, scale as int);
        vstd::arithmetic::div_mod::lemma_div_of0(scale as int);
    }
    let off: u64 = 2 * (k * (scale as u64));
    proof {
        assert(2 * (k as int * scale as int) == (2 * k as int) * scale as int)
            by (nonlinear_arith);
        assert(off as int >= 2 * (0x200000000int - scale as int));
        assert(off >= 0x200000000u64);
        assert(off as int == (2 * (0x200000000int / scale as int)) * scale as int);
        vstd::arithmetic::div_mod::lemma_hoist_over_denominator(
            u as int,
            2 * (0x200000000int / scale as int),
            scale as nat,
        );
        vstd::arithmetic::div_mod::lemma_div_is_ordered(
            0,
            u as int + off as int,
            scale as int,
        );
        vstd::arithmetic::div_mod::lemma_div_is_ordered_by_denominator(
            u as int + off as int,
            1,
            scale as int,
        );
        vstd::arithmetic::div_mod::lemma_div_basics(u as int + off as int);
    }
    let shifted: u64 = ((u as i128 + off as i128) as u64) / (scale as u64);
    shifted as i64
}

/// Split a fixed-point coordinate c in [0, SCALE] over n texels into the
/// integer texel index and the fractional offset of c * (n - 1).
fn split_texel_coord(c: i64, n: u32) -> (r: (u32, u32))
    requires
        0 <= c <= SCALE,
        0 < n <= 0x10000,
    ensures
        r.0 == texel_coord(c as int, n as int) / SCALE as int,
        r.1 == texel_coord(c as int, n as int) % SCALE as int,
        r.0 < n,
        r.1 < SCALE,
{
    proof {
        assert(0 <= c as int * (n as int - 1) <= SCALE as int * (n as int - 1)) by (nonlinear_arith)
            requires
                0 <= c <= SCALE as int,
                0 < n,
        ;
        assert(SCALE as int * (n as int - 1) <= 0x10000 * 0x10000) by (nonlinear_arith)
            requires
                SCALE == 65536,
                0 < n as int <= 0x10000,
        ;
    }
    let fx: u64 = (c as u64) * ((n - 1) as u64);
    let ix: u64 = fx / (SCALE as u64);
    let fu: u64 = fx % (SCALE as u64);
    proof {
        vstd::arithmetic::div_mod::lemma_div_is_ordered(
            fx as int,
            SCALE as int * (n as int - 1),
            SCALE as int,
        );
        vstd::arithmetic::div_mod::lemma_div_multiples_vanish(n as int - 1, SCALE as int);
        assert(ix < n);
    }
    (ix as u32, fu as u32)
}

/// Valid texel coordinates give a valid row-major index.
proof fn lemma_texel_index(width: int, height: int, ix: int, iy: int)
    requires
        0 < width <= 0x10000,
        0 < height <= 0x10000,
        0 <= ix < width,
        0 <= iy < height,
    ensures
        0 <= iy * width + ix < width * height,
        iy * width + ix < 0x100000000int,
{
    assert(iy * width + ix < width * height) by (nonlinear_arith)
        requires
            0 <= ix < width,
            0 <= iy <= height - 1,
    ;
    assert(iy * width >= 0) by (nonlinear_arith)
        requires
            iy >= 0,
            width > 0,
    ;
    assert(width * height <= 0x100000000int) by (nonlinear_arith)
        requires
            0 < width <= 0x10000,
            0 < height <= 0x10000,
    ;
}

/// One bilinearly blended channel, exact per `bilerp`.  Weights within
/// [0, SCALE) and channels within an attenuation keep the result an
/// attenuation.
fn bilerp_channel(c00: u32, c10: u32, c01: u32, c11: u32, fu: u32, fv: u32) -> (r: u32)
    requires
        c00 <= COLOR_ONE,
        c10 <= COLOR_ONE,
        c01 <= COLOR_ONE,
        c11 <= COLOR_ONE,
        fu < SCALE,
        fv < SCALE,
    ensures
        r == bilerp(c00 as int, c10 as int, c01 as int, c11 as int, fu as int, fv as int),
        r <= COLOR_ONE,
{
    let s: u128 = SCALE as u128;
    let wu0: u128 = s - fu as u128;
    let wu1: u128 = fu as u128;
    let wv0: u128 = s - fv as u128;
    let wv1: u128 = fv as u128;
    proof {
        lemma_bilerp_term(c00 as int, wu0 as int, wv0 as int);
        lemma_bilerp_term(c10 as int, wu1 as int, wv0 as int);
        lemma_bilerp_term(c01 as int, wu0 as int, wv1 as int);
        lemma_bilerp_term(c11 as int, wu1 as int, wv1 as int);
    }
    let total: u128 = (c00 as u128) * wu0 * wv0 + (c10 as u128) * wu1 * wv0 + (c01 as u128) * wu0
        * wv1 + (c11 as u128) * wu1 * wv1;
    proof {
        lemma_bilerp_bound(
            c00 as int,
            c10 as int,
            c01 as int,
            c11 as int,
            wu0 as int,
            wu1 as int,
            wv0 as int,
            wv1 as int,
        );
        vstd::arithmetic::div_mod::lemma_div_is_ordered(
            total as int,
            COLOR_ONE as int * (SCALE as int * SCALE as int),
            SCALE as int * SCALE as int,
        );
        vstd::arithmetic::div_mod::lemma_div_multiples_vanish(
            COLOR_ONE as int,
            SCALE as int * SCALE as int,
        );
        assert(COLOR_ONE as int * (SCALE as int * SCALE as int) == (SCALE as int * SCALE as int)
            * COLOR_ONE as int) by (nonlinear_arith);
    }
    let r: u128 = total / (s * s);
    r as u32
}

/// One bilinear term stays below 2^48.
proof fn lemma_bilerp_term(c: int, wu: int, wv: int)
    requires
        0 <= c <= COLOR_ONE,
        0 <= wu <= SCALE as int,
        0 <= wv <= SCALE as int,
    ensures
        0 <= c * wu <= 0x100000000int,
        0 <= c * wu * wv <= 0x1000000000000int,
{
    assert(0 <= c * wu <= 0x100000000int) by (nonlinear_arith)
        requires
            0 <= c <= 0x10000,
            0 <= wu <= 0x10000,
            COLOR_ONE == 65536,
            c <= COLOR_ONE,
    ;
    assert(0 <= c * wu * wv <= 0x1000000000000int) by (nonlinear_arith)
        requires
            0 <= c * wu <= 0x100000000int,
            0 <= wv <= 0x10000,
    ;
}

/// The weighted sum of attenuation channels over weights that add up to
/// SCALE per axis is at most COLOR_ONE * SCALE^2.
proof fn lemma_bilerp_bound(
    c00: int,
    c10: int,
    c01: int,
    c11: int,
    wu0: int,
    wu1: int,
    wv0: int,
    wv1: int,
)
    requires
        0 <= c00 <= COLOR_ONE,
        0 <= c10 <= COLOR_ONE,
        0 <= c01 <= COLOR_ONE,
        0 <= c11 <= COLOR_ONE,
        0 <= wu0,
        0 <= wu1,
        0 <= wv0,
        0 <= wv1,
        wu0 + wu1 == SCALE as int,
        wv0 + wv1 == SCALE as int,
    ensures
        0 <= c00 * wu0 * wv0 + c10 * wu1 * wv0 + c01 * wu0 * wv1 + c11 * wu1 * wv1 <= COLOR_ONE
            as int * (SCALE as int * SCALE as int),
{
    assert(0 <= c00 * wu0 * wv0 + c10 * wu1 * wv0 + c01 * wu0 * wv1 + c11 * wu1 * wv1 <= COLOR_ONE
        as int * (SCALE as int * SCALE as int)) by (nonlinear_arith)
        requires
            0 <= c00 <= COLOR_ONE,
            0 <= c10 <= COLOR_ONE,
            0 <= c01 <= COLOR_ONE,
            0 <= c11 <= COLOR_ONE,
            0 <= wu0,
            0 <= wu1,
            0 <= wv0,
            0 <= wv1,
            wu0 + wu1 == SCALE as int,
            wv0 + wv1 == SCALE as int,
    ;
}

} // verus!
