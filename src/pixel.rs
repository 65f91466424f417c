//! One cell of a canvas.

use vstd::prelude::*;
use crate::color::{self, Color};

verus! {

/// A canvas cell, holding its color.
#[derive(Clone, Copy, Debug)]
pub struct Pixel {
    pub color: Color,
}

/// A pixel of the color `(r, g, b)`.
pub fn new(r: i64, g: i64, b: i64) -> (p: Pixel)
    ensures
        p.color == (Color { r, g, b }),
{
    Pixel { color: color::new(r, g, b) }
}

} // verus!
