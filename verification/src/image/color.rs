//! Colors in the RGB model, one byte per channel, with the saturating
//! channel arithmetic of the renderer.

use vstd::prelude::*;

use crate::math::{
    isqrt_u128, lemma_mul_bounds, lemma_sqrt_floor_lower, lemma_sqrt_floor_upper, sqrt_floor,
    tdiv, tdiv_i64, SCALE,
};

verus! {

/// Largest scale factor accepted by [`Color::scaled`].
pub const FACTOR_MAX: i64 = 0x2_0000_0000_0000;

/// Channel combination: the hypotenuse of the two contributions,
/// saturating at the channel maximum.
pub open spec fn hyp_model(a: int, b: int) -> int {
    let h = sqrt_floor(a * a + b * b);
    if h > 255 {
        255
    } else {
        h
    }
}

/// Channel scaling by a fixed-point factor of `SCALE` units to one,
/// truncating, saturating at the channel maximum.
pub open spec fn chan_scaled_model(c: int, k: int) -> int {
    let v = tdiv(c * k, SCALE as int);
    if v > 255 {
        255
    } else {
        v
    }
}

/// Channelwise [`hyp_model`] combination of two colors.
pub open spec fn color_add_model(a: Color, b: Color) -> Color {
    Color {
        r: hyp_model(a.r as int, b.r as int) as u8,
        g: hyp_model(a.g as int, b.g as int) as u8,
        b: hyp_model(a.b as int, b.b as int) as u8,
    }
}

/// Channelwise [`chan_scaled_model`] scaling of a color.
pub open spec fn color_scaled_model(c: Color, k: int) -> Color {
    Color {
        r: chan_scaled_model(c.r as int, k) as u8,
        g: chan_scaled_model(c.g as int, k) as u8,
        b: chan_scaled_model(c.b as int, k) as u8,
    }
}

/// Combine two channel contributions as the hypotenuse of the pair,
/// saturating at the channel maximum.
pub fn hypot_u8(a: u8, b: u8) -> (r: u8)
    ensures
        r == hyp_model(a as int, b as int),
{
    proof {
        lemma_mul_bounds(a as int, a as int, 255, 255);
        lemma_mul_bounds(b as int, b as int, 255, 255);
    }
    let s: u64 = (a as u64) * (a as u64) + (b as u64) * (b as u64);
    let h64: u64 = isqrt_u128(s as u128);
    proof {
        lemma_sqrt_floor_upper(s as int, 1000);
        lemma_sqrt_floor_lower(s as int, 0);
    }
    let h: u64 = h64;
    if h > 255 {
        255
    } else {
        h as u8
    }
}

/// Color in RGB model.
#[derive(Clone, Copy, Debug, PartialEq, Eq, Structural)]
pub struct Color {
    pub r: u8,
    pub g: u8,
    pub b: u8,
}

impl Color {
    /// Return new Color with given primary colors.
    pub fn new(r: u8, g: u8, b: u8) -> (c: Color)
        ensures
            c == (Color { r, g, b }),
    {
        Color { r, g, b }
    }

    /// Return new Color with given primary colors from array.
    pub fn new_from_arr(rgb: &[u8; 3]) -> (c: Color)
        ensures
            c == (Color { r: rgb[0], g: rgb[1], b: rgb[2] }),
    {
        Color { r: rgb[0], g: rgb[1], b: rgb[2] }
    }

    /// Set primary color of the light.
    pub fn set(&mut self, color: &Color)
        ensures
            *final(self) == *color,
    {
        self.r = color.r;
        self.g = color.g;
        self.b = color.b;
    }

    /// Combine with another color channelwise by [`hypot_u8`].
    pub fn add(&self, rhs: &Color) -> (c: Color)
        ensures
            c == color_add_model(*self, *rhs),
            c.r == hyp_model(self.r as int, rhs.r as int),
            c.g == hyp_model(self.g as int, rhs.g as int),
            c.b == hyp_model(self.b as int, rhs.b as int),
    {
        Color {
            r: hypot_u8(self.r, rhs.r),
            g: hypot_u8(self.g, rhs.g),
            b: hypot_u8(self.b, rhs.b),
        }
    }

    /// Scale every channel by a non-negative fixed-point factor.
    pub fn scaled(&self, k: i64) -> (c: Color)
        requires
            0 <= k <= FACTOR_MAX,
        ensures
            c == color_scaled_model(*self, k as int),
            c.r == chan_scaled_model(self.r as int, k as int),
            c.g == chan_scaled_model(self.g as int, k as int),
            c.b == chan_scaled_model(self.b as int, k as int),
    {
        Color {
            r: chan_scaled(self.r, k),
            g: chan_scaled(self.g, k),
            b: chan_scaled(self.b, k),
        }
    }

    /// Blend a reflection into this color: the own contribution is kept
    /// at `SCALE - rfl` and the reflected contribution at `rfl`, the two
    /// then combined channelwise by [`hypot_u8`].
    pub fn add_refl(self, rfl: i64, rht: Color) -> (c: Color)
        requires
            0 <= rfl <= SCALE,
        ensures
            c.r == hyp_model(
                chan_scaled_model(self.r as int, SCALE - rfl),
                chan_scaled_model(rht.r as int, rfl as int),
            ),
            c.g == hyp_model(
                chan_scaled_model(self.g as int, SCALE - rfl),
                chan_scaled_model(rht.g as int, rfl as int),
            ),
            c.b == hyp_model(
                chan_scaled_model(self.b as int, SCALE - rfl),
                chan_scaled_model(rht.b as int, rfl as int),
            ),
    {
        let own = self.scaled(SCALE - rfl);
        let refl = rht.scaled(rfl);
        own.add(&refl)
    }
}

fn chan_scaled(c: u8, k: i64) -> (r: u8)
    requires
        0 <= k <= FACTOR_MAX,
    ensures
        r == chan_scaled_model(c as int, k as int),
{
    proof {
        lemma_mul_bounds(c as int, k as int, 255, FACTOR_MAX as int);
    }
    let v: i64 = tdiv_i64((c as i64) * k, SCALE);
    if v > 255 {
        255
    } else {
        v as u8
    }
}

} // verus!
