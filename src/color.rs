//! RGB colors with unbounded fixed-point channels.
//!
//! Channels may leave `[0, 1]` during arithmetic; they are clamped only when
//! a color is rendered as text.

use vstd::prelude::*;
use crate::fixed::{approx, approx_eq, fits, fixed_mul, quot, spec_mul, wide_quot, SCALE};
use crate::text::{decimal, push_decimal, push_space};

verus! {

/// A color; each channel is fixed-point, one whole unit being full intensity.
#[derive(Clone, Copy, Debug)]
pub struct Color {
    pub r: i64,
    pub g: i64,
    pub b: i64,
}

/// Builds the color `(r, g, b)`.
pub fn new(r: i64, g: i64, b: i64) -> (c: Color)
    ensures
        c == (Color { r, g, b }),
{
    Color { r, g, b }
}

/// The output level of a channel: scaled to 255, rounded toward zero and
/// clamped to `[0, 255]`.
pub open spec fn channel_level(c: i64) -> int {
    let v = quot(c * 255, SCALE as int);
    if v < 0 {
        0
    } else if v > 255 {
        255
    } else {
        v
    }
}

/// Computes `channel_level`.
pub fn level(c: i64) -> (r: u64)
    ensures
        r == channel_level(c),
        r <= 255,
{
    let v = wide_quot(c as i128 * 255, SCALE as i128);
    if v < 0 {
        0
    } else if v > 255 {
        255
    } else {
        v as u64
    }
}

impl Color {
    /// All three channels agree within the tolerance.
    pub open spec fn approx_equal(self, o: Color) -> bool {
        &&& approx(self.r as int, o.r as int)
        &&& approx(self.g as int, o.g as int)
        &&& approx(self.b as int, o.b as int)
    }

    pub open spec fn add_fits(self, o: Color) -> bool {
        fits(self.r + o.r) && fits(self.g + o.g) && fits(self.b + o.b)
    }

    pub open spec fn subtract_fits(self, o: Color) -> bool {
        fits(self.r - o.r) && fits(self.g - o.g) && fits(self.b - o.b)
    }

    pub open spec fn scale_fits(self, k: i64) -> bool {
        &&& fits(spec_mul(self.r as int, k as int))
        &&& fits(spec_mul(self.g as int, k as int))
        &&& fits(spec_mul(self.b as int, k as int))
    }

    pub open spec fn multiply_fits(self, o: Color) -> bool {
        &&& fits(spec_mul(self.r as int, o.r as int))
        &&& fits(spec_mul(self.g as int, o.g as int))
        &&& fits(spec_mul(self.b as int, o.b as int))
    }

    /// The three output levels, separated by single spaces.
    pub open spec fn spec_text(self) -> Seq<char> {
        decimal(channel_level(self.r) as nat) + seq![' '] + decimal(channel_level(self.g) as nat)
            + seq![' '] + decimal(channel_level(self.b) as nat)
    }

    /// Channel-wise sum.
    pub fn add(self, other: Color) -> (c: Color)
        requires
            self.add_fits(other),
        ensures
            c == (Color { r: (self.r + other.r) as i64, g: (self.g + other.g) as i64, b: (self.b + other.b) as i64 }),
    {
        Color { r: self.r + other.r, g: self.g + other.g, b: self.b + other.b }
    }

    /// Channel-wise difference.
    pub fn subtract(self, other: Color) -> (c: Color)
        requires
            self.subtract_fits(other),
        ensures
            c == (Color { r: (self.r - other.r) as i64, g: (self.g - other.g) as i64, b: (self.b - other.b) as i64 }),
    {
        Color { r: self.r - other.r, g: self.g - other.g, b: self.b - other.b }
    }

    /// Every channel multiplied by the scalar `k`.
    pub fn scale(self, k: i64) -> (c: Color)
        requires
            self.scale_fits(k),
        ensures
            c == (Color {
                r: spec_mul(self.r as int, k as int) as i64,
                g: spec_mul(self.g as int, k as int) as i64,
                b: spec_mul(self.b as int, k as int) as i64,
            }),
    {
        Color { r: fixed_mul(self.r, k), g: fixed_mul(self.g, k), b: fixed_mul(self.b, k) }
    }

    /// Channel-wise (Hadamard) product, used for tinting.
    pub fn multiply(self, other: Color) -> (c: Color)
        requires
            self.multiply_fits(other),
        ensures
            c == (Color {
                r: spec_mul(self.r as int, other.r as int) as i64,
                g: spec_mul(self.g as int, other.g as int) as i64,
                b: spec_mul(self.b as int, other.b as int) as i64,
            }),
    {
        Color {
            r: fixed_mul(self.r, other.r),
            g: fixed_mul(self.g, other.g),
            b: fixed_mul(self.b, other.b),
        }
    }

    /// The output levels of the three channels as `"r g b"`.
    pub fn to_string(&self) -> (s: String)
        ensures
            s@ == self.spec_text(),
    {
        let mut s = String::new();
        self.push_text(&mut s);
        assert(s@ =~= self.spec_text());
        s
    }

    /// Appends the output levels of the three channels as `"r g b"`.
    pub fn push_text(&self, s: &mut String)
        ensures
            final(s)@ == old(s)@ + self.spec_text(),
    {
        push_decimal(s, level(self.r));
        push_space(s);
        push_decimal(s, level(self.g));
        push_space(s);
        push_decimal(s, level(self.b));
        assert(s@ =~= old(s)@ + self.spec_text());
    }
}

impl PartialEq for Color {
    /// Equality within the tolerance on all three channels.
    fn eq(&self, other: &Color) -> (r: bool) {
        approx_eq(self.r, other.r) && approx_eq(self.g, other.g) && approx_eq(self.b, other.b)
    }
}

impl vstd::std_specs::cmp::PartialEqSpecImpl for Color {
    open spec fn obeys_eq_spec() -> bool {
        true
    }

    open spec fn eq_spec(&self, other: &Color) -> bool {
        self.approx_equal(*other)
    }
}

} // verus!
