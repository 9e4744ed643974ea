//! Fixed-point RGB colors.
//!
//! A channel value v stands for v / COLOR_ONE; 1.0 is full intensity.
//! Radiance sums saturate instead of wrapping, and attenuation is an
//! exact integer product scaled back down by COLOR_ONE.

use vstd::prelude::*;

verus! {

/// Number of fixed-point units in a channel intensity of 1.0.
pub const COLOR_ONE: u32 = 65536;

/// An RGB color with fixed-point channels in units of 1/COLOR_ONE.
#[derive(Clone, Copy, Debug, PartialEq, Eq, Structural)]
pub struct Color {
    pub r: u32,
    pub g: u32,
    pub b: u32,
}

/// Sum clamped to u32::MAX.
pub open spec fn sat_add(a: int, b: int) -> int {
    if a + b > u32::MAX as int {
        u32::MAX as int
    } else {
        a + b
    }
}

/// Floor of (t * c) / COLOR_ONE: c dimmed by the transmission factor t.
pub open spec fn scaled(t: int, c: int) -> int {
    (t * c) / (COLOR_ONE as int)
}

impl Color {
    /// Every channel at most 1.0: the color can serve as a transmission factor.
    pub open spec fn is_attenuation(self) -> bool {
        self.r <= COLOR_ONE && self.g <= COLOR_ONE && self.b <= COLOR_ONE
    }

    pub open spec fn is_black(self) -> bool {
        self.r == 0 && self.g == 0 && self.b == 0
    }

    /// Runtime test of `is_attenuation`.
    pub fn check_attenuation(self) -> (r: bool)
        ensures
            r == self.is_attenuation(),
    {
        self.r <= COLOR_ONE && self.g <= COLOR_ONE && self.b <= COLOR_ONE
    }

    pub fn black() -> (c: Color)
        ensures
            c.is_black(),
    {
        Color { r: 0, g: 0, b: 0 }
    }

    /// Full transmission: 1.0 in every channel.
    pub fn white() -> (c: Color)
        ensures
            c.r == COLOR_ONE && c.g == COLOR_ONE && c.b == COLOR_ONE,
            c.is_attenuation(),
    {
        Color { r: COLOR_ONE, g: COLOR_ONE, b: COLOR_ONE }
    }

    /// Channelwise saturating sum.
    pub fn add_sat(self, o: Color) -> (c: Color)
        ensures
            c.r == sat_add(self.r as int, o.r as int),
            c.g == sat_add(self.g as int, o.g as int),
            c.b == sat_add(self.b as int, o.b as int),
    {
        let r: u32 = if self.r > u32::MAX - o.r {
            u32::MAX
        } else {
            self.r + o.r
        };
        let g: u32 = if self.g > u32::MAX - o.g {
            u32::MAX
        } else {
            self.g + o.g
        };
        let b: u32 = if self.b > u32::MAX - o.b {
            u32::MAX
        } else {
            self.b + o.b
        };
        Color { r, g, b }
    }

    /// `self` taken as a transmission factor and applied to `o`:
    /// channelwise floor((self * o) / COLOR_ONE).  Never brightens `o`.
    pub fn attenuate(self, o: Color) -> (c: Color)
        requires
            self.is_attenuation(),
        ensures
            c.r == scaled(self.r as int, o.r as int),
            c.g == scaled(self.g as int, o.g as int),
            c.b == scaled(self.b as int, o.b as int),
            c.r <= o.r && c.g <= o.g && c.b <= o.b,
    {
        proof {
            lemma_scaled_bound(self.r as int, o.r as int);
            lemma_scaled_bound(self.g as int, o.g as int);
            lemma_scaled_bound(self.b as int, o.b as int);
        }
        let r: u32 = ((self.r as u64 * o.r as u64) / (COLOR_ONE as u64)) as u32;
        let g: u32 = ((self.g as u64 * o.g as u64) / (COLOR_ONE as u64)) as u32;
        let b: u32 = ((self.b as u64 * o.b as u64) / (COLOR_ONE as u64)) as u32;
        Color { r, g, b }
    }
}

/// A transmission factor of at most 1.0 never brightens a channel.
pub proof fn lemma_scaled_bound(t: int, c: int)
    requires
        0 <= t <= COLOR_ONE as int,
        0 <= c,
    ensures
        0 <= scaled(t, c) <= c,
{
    assert(0 <= (t * c) / (COLOR_ONE as int) * (COLOR_ONE as int) <= c * (COLOR_ONE as int))
        by (nonlinear_arith)
        requires
            0 <= t <= COLOR_ONE as int,
            0 <= c,
            COLOR_ONE == 65536,
    ;
    assert(scaled(t, c) <= c) by (nonlinear_arith)
        requires
            0 <= t <= COLOR_ONE as int,
            0 <= c,
            COLOR_ONE == 65536,
    ;
}

} // verus!
