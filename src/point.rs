//! A standalone point record, for callers that keep points apart from
//! vectors. Its fields are fixed-point and `w` is one whole unit.

use vstd::prelude::*;
use crate::fixed::SCALE;

verus! {

/// A point in homogeneous coordinates; `w` is `SCALE`.
#[derive(Clone, Copy, Debug)]
pub struct Point {
    pub w: i64,
    pub x: i64,
    pub y: i64,
    pub z: i64,
}

/// The point `(x, y, z)`.
pub fn build_point(x: i64, y: i64, z: i64) -> (p: Point)
    ensures
        p == (Point { w: SCALE, x, y, z }),
{
    Point { w: SCALE, x, y, z }
}

} // verus!
