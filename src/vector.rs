//! Points and vectors in homogeneous coordinates.
//!
//! One flat type holds both: `w` is one whole unit (`SCALE`) for a point and
//! zero for a vector. Which combinations of operands are meaningful is stated
//! at each operation; the type itself does not forbid the others.

use vstd::prelude::*;
use crate::fixed::{
    approx, approx_eq, fits, fits_wide, fixed_div, fixed_mul, floor_sqrt, is_floor_sqrt, lemma_floor_sqrt,
    lemma_quot_negate, quot,
    spec_div, spec_mul, sqrt_floor, wide_mul, wide_quot, EPSILON, SCALE, SQRT_LIMIT,
};

verus! {

/// A point (`w == SCALE`) or a vector (`w == 0`), all fields fixed-point.
#[derive(Clone, Copy, Debug)]
pub struct Vector {
    pub w: i64,
    pub x: i64,
    pub y: i64,
    pub z: i64,
}

/// Why an operation that is defined on vectors only refused its receiver.
#[derive(Clone, Copy, Debug, PartialEq, Eq, Structural)]
pub enum VectorError {
    /// The receiver is classified as a point.
    PointOperand,
}

/// Factor by which the length of a short vector is refined before the
/// vector is divided by it.
pub const NORM_BOOST: i64 = 1_000_000;

/// Squared lengths below this bound (lengths below a thousand units) are
/// refined by `NORM_BOOST`; longer vectors have precision enough.
pub const BOOST_LIMIT: i128 = 1_000_000_000_000_000_000_000_000;

/// The point `(x, y, z)`.
pub open spec fn spec_point(x: i64, y: i64, z: i64) -> Vector {
    Vector { w: SCALE, x, y, z }
}

/// The vector `(x, y, z)`.
pub open spec fn spec_vector(x: i64, y: i64, z: i64) -> Vector {
    Vector { w: 0, x, y, z }
}

/// Builds the vector `(x, y, z)`, with `w` zero.
pub fn build_vector(x: i64, y: i64, z: i64) -> (r: Vector)
    ensures
        r == spec_vector(x, y, z),
{
    Vector { w: 0, x, y, z }
}

/// Builds the point `(x, y, z)`, with `w` one.
pub fn build_point(x: i64, y: i64, z: i64) -> (r: Vector)
    ensures
        r == spec_point(x, y, z),
{
    Vector { w: SCALE, x, y, z }
}

impl Vector {
    /// Classified as a point: `w` is one within the tolerance.
    pub open spec fn spec_is_point(self) -> bool {
        approx(self.w as int, SCALE as int)
    }

    /// All four components agree within the tolerance.
    pub open spec fn approx_equal(self, o: Vector) -> bool {
        &&& approx(self.w as int, o.w as int)
        &&& approx(self.x as int, o.x as int)
        &&& approx(self.y as int, o.y as int)
        &&& approx(self.z as int, o.z as int)
    }

    pub open spec fn add_fits(self, o: Vector) -> bool {
        &&& fits(self.w + o.w)
        &&& fits(self.x + o.x)
        &&& fits(self.y + o.y)
        &&& fits(self.z + o.z)
    }

    /// Component-wise sum, `w` included.
    pub open spec fn spec_add(self, o: Vector) -> Vector {
        Vector {
            w: (self.w + o.w) as i64,
            x: (self.x + o.x) as i64,
            y: (self.y + o.y) as i64,
            z: (self.z + o.z) as i64,
        }
    }

    pub open spec fn subtract_fits(self, o: Vector) -> bool {
        &&& fits(self.w - o.w)
        &&& fits(self.x - o.x)
        &&& fits(self.y - o.y)
        &&& fits(self.z - o.z)
    }

    /// Component-wise difference, `w` included.
    pub open spec fn spec_subtract(self, o: Vector) -> Vector {
        Vector {
            w: (self.w - o.w) as i64,
            x: (self.x - o.x) as i64,
            y: (self.y - o.y) as i64,
            z: (self.z - o.z) as i64,
        }
    }

    pub open spec fn negate_fits(self) -> bool {
        &&& fits(-self.w)
        &&& fits(-self.x)
        &&& fits(-self.y)
        &&& fits(-self.z)
    }

    /// Every component negated, `w` included.
    pub open spec fn spec_negate(self) -> Vector {
        Vector { w: -self.w as i64, x: -self.x as i64, y: -self.y as i64, z: -self.z as i64 }
    }

    pub open spec fn scale_fits(self, k: i64) -> bool {
        &&& fits(spec_mul(self.w as int, k as int))
        &&& fits(spec_mul(self.x as int, k as int))
        &&& fits(spec_mul(self.y as int, k as int))
        &&& fits(spec_mul(self.z as int, k as int))
    }

    /// Every component multiplied by the scalar `k`, `w` included.
    pub open spec fn spec_scale(self, k: i64) -> Vector {
        Vector {
            w: spec_mul(self.w as int, k as int) as i64,
            x: spec_mul(self.x as int, k as int) as i64,
            y: spec_mul(self.y as int, k as int) as i64,
            z: spec_mul(self.z as int, k as int) as i64,
        }
    }

    pub open spec fn divide_fits(self, k: i64) -> bool {
        &&& fits(spec_div(self.w as int, k as int))
        &&& fits(spec_div(self.x as int, k as int))
        &&& fits(spec_div(self.y as int, k as int))
        &&& fits(spec_div(self.z as int, k as int))
    }

    /// Every component divided by the scalar `k`, `w` included.
    pub open spec fn spec_divide(self, k: i64) -> Vector {
        Vector {
            w: spec_div(self.w as int, k as int) as i64,
            x: spec_div(self.x as int, k as int) as i64,
            y: spec_div(self.y as int, k as int) as i64,
            z: spec_div(self.z as int, k as int) as i64,
        }
    }

    /// Squared length of `(x, y, z)` in squared raw units.
    pub open spec fn sum_sq(self) -> int {
        self.x * self.x + self.y * self.y + self.z * self.z
    }

    /// The length fits an `i64`.
    pub open spec fn magnitude_fits(self) -> bool {
        self.sum_sq() < SQRT_LIMIT
    }

    /// Euclidean length of `(x, y, z)` in raw units, rounded down.
    pub open spec fn spec_magnitude(self) -> int {
        floor_sqrt(self.sum_sq())
    }

    /// The factor by which the length is refined before normalizing:
    /// `NORM_BOOST` for a squared length below `BOOST_LIMIT`, else one.
    pub open spec fn norm_boost(self) -> int {
        if self.sum_sq() < BOOST_LIMIT {
            NORM_BOOST as int
        } else {
            1
        }
    }

    /// The refined length: `norm_boost` times the length, rounded down.
    pub open spec fn norm_root(self) -> int {
        floor_sqrt(self.sum_sq() * (self.norm_boost() * self.norm_boost()))
    }

    /// `(x, y, z)` is not zero, its length fits, and so does the scaled `w`
    /// (always so for a vector, whose `w` is zero).
    pub open spec fn normalize_fits(self) -> bool {
        &&& self.magnitude_fits()
        &&& self.sum_sq() > 0
        &&& (self.w == 0 || fits(spec_div(self.w * self.norm_boost(), self.norm_root())))
    }

    /// Every component divided by the length, `w` included. Both sides of
    /// each division are refined by `norm_boost`, so that the length is
    /// known to at least a millionth of its size.
    pub open spec fn spec_normalized(self) -> Vector {
        let b = self.norm_boost();
        let m = self.norm_root();
        Vector {
            w: spec_div(self.w * b, m) as i64,
            x: spec_div(self.x * b, m) as i64,
            y: spec_div(self.y * b, m) as i64,
            z: spec_div(self.z * b, m) as i64,
        }
    }

    /// Exact four-component dot product in squared raw units.
    pub open spec fn dot_sum(self, o: Vector) -> int {
        self.w * o.w + self.x * o.x + self.y * o.y + self.z * o.z
    }

    pub open spec fn dot_fits(self, o: Vector) -> bool {
        &&& fits_wide(self.w * o.w + self.x * o.x)
        &&& fits_wide(self.w * o.w + self.x * o.x + self.y * o.y)
        &&& fits_wide(self.dot_sum(o))
        &&& fits(self.spec_dot(o))
    }

    /// Four-component dot product, rounded once toward zero.
    pub open spec fn spec_dot(self, o: Vector) -> int {
        quot(self.dot_sum(o), SCALE as int)
    }

    pub open spec fn cross_x(self, o: Vector) -> int {
        quot(self.y * o.z - self.z * o.y, SCALE as int)
    }

    pub open spec fn cross_y(self, o: Vector) -> int {
        quot(self.z * o.x - self.x * o.z, SCALE as int)
    }

    pub open spec fn cross_z(self, o: Vector) -> int {
        quot(self.x * o.y - self.y * o.x, SCALE as int)
    }

    pub open spec fn cross_fits(self, o: Vector) -> bool {
        &&& fits(self.cross_x(o))
        &&& fits(self.cross_y(o))
        &&& fits(self.cross_z(o))
    }

    /// Cross product of `(x, y, z)`, with `w` taken from `self`.
    pub open spec fn spec_cross(self, o: Vector) -> Vector {
        Vector {
            w: self.w,
            x: self.cross_x(o) as i64,
            y: self.cross_y(o) as i64,
            z: self.cross_z(o) as i64,
        }
    }

    /// Whether this tuple is a point, that is whether `w` is one within the tolerance.
    pub fn is_point(&self) -> (r: bool)
        ensures
            r == self.spec_is_point(),
    {
        approx_eq(self.w, SCALE)
    }

    /// Component-wise sum. Point plus vector is a point, vector plus vector a
    /// vector; point plus point is meaningless (`w` becomes two).
    pub fn add(self, other: Vector) -> (r: Vector)
        requires
            self.add_fits(other),
        ensures
            r == self.spec_add(other),
    {
        Vector {
            w: self.w + other.w,
            x: self.x + other.x,
            y: self.y + other.y,
            z: self.z + other.z,
        }
    }

    /// Component-wise difference. Point minus point is the vector between
    /// them, point minus vector a point, vector minus vector a vector.
    pub fn subtract(self, other: Vector) -> (r: Vector)
        requires
            self.subtract_fits(other),
        ensures
            r == self.spec_subtract(other),
    {
        Vector {
            w: self.w - other.w,
            x: self.x - other.x,
            y: self.y - other.y,
            z: self.z - other.z,
        }
    }

    /// Negation of every component; meaningful for vectors only.
    pub fn negate(self) -> (r: Vector)
        requires
            self.negate_fits(),
        ensures
            r == self.spec_negate(),
    {
        Vector { w: -self.w, x: -self.x, y: -self.y, z: -self.z }
    }

    /// Multiplication of every component by `k`; meaningful for vectors only.
    pub fn scale(self, k: i64) -> (r: Vector)
        requires
            self.scale_fits(k),
        ensures
            r == self.spec_scale(k),
    {
        Vector {
            w: fixed_mul(self.w, k),
            x: fixed_mul(self.x, k),
            y: fixed_mul(self.y, k),
            z: fixed_mul(self.z, k),
        }
    }

    /// Division of every component by `k`; meaningful for vectors only.
    pub fn divide(self, k: i64) -> (r: Vector)
        requires
            k != 0,
            self.divide_fits(k),
        ensures
            r == self.spec_divide(k),
    {
        Vector {
            w: fixed_div(self.w, k),
            x: fixed_div(self.x, k),
            y: fixed_div(self.y, k),
            z: fixed_div(self.z, k),
        }
    }

    /// Euclidean length of `(x, y, z)`; `w` is ignored.
    pub fn magnitude(&self) -> (r: i64)
        requires
            self.magnitude_fits(),
        ensures
            r == self.spec_magnitude(),
            r >= 0,
    {
        proof {
            lemma_squares_nonneg(*self);
        }
        let n = wide_mul(self.x, self.x) + wide_mul(self.y, self.y) + wide_mul(self.z, self.z);
        sqrt_floor(n)
    }

    /// This tuple divided by its length; meaningful for vectors only (the
    /// length ignores `w`, the division does not). Undefined for the zero
    /// vector. The result of a nonzero vector has length one within the
    /// tolerance, however short the vector.
    pub fn normalized(&self) -> (r: Vector)
        requires
            self.normalize_fits(),
        ensures
            r == self.spec_normalized(),
            self.norm_root() > 0,
            r.w == spec_div(self.w * self.norm_boost(), self.norm_root()),
            r.x == spec_div(self.x * self.norm_boost(), self.norm_root()),
            r.y == spec_div(self.y * self.norm_boost(), self.norm_root()),
            r.z == spec_div(self.z * self.norm_boost(), self.norm_root()),
            -SCALE <= r.x <= SCALE,
            -SCALE <= r.y <= SCALE,
            -SCALE <= r.z <= SCALE,
            r.magnitude_fits(),
            approx(r.spec_magnitude(), SCALE as int),
    {
        proof {
            lemma_squares_nonneg(*self);
            lemma_normalized_fits(*self);
            lemma_normalized_unit_length(*self);
        }
        let n = wide_mul(self.x, self.x) + wide_mul(self.y, self.y) + wide_mul(self.z, self.z);
        let boost: i64 = if n < BOOST_LIMIT { NORM_BOOST } else { 1 };
        let radicand: i128 = if n < BOOST_LIMIT {
            assert(n * 1_000_000_000_000 == n * (boost * boost)) by (nonlinear_arith)
                requires
                    boost == 1_000_000,
            ;
            n * 1_000_000_000_000
        } else {
            assert(n == n * (boost * boost)) by (nonlinear_arith)
                requires
                    boost == 1,
            ;
            n
        };
        let root = sqrt_floor(radicand);
        Vector {
            w: boosted_quot(self.w, boost, root),
            x: boosted_quot(self.x, boost, root),
            y: boosted_quot(self.y, boost, root),
            z: boosted_quot(self.z, boost, root),
        }
    }

    /// Dot product of all four components. Defined between vectors only:
    /// a receiver that is a point is refused.
    pub fn dot(&self, other: Vector) -> (r: Result<i64, VectorError>)
        requires
            !self.spec_is_point() ==> self.dot_fits(other),
        ensures
            self.spec_is_point() <==> r is Err,
            r is Err ==> r == Err::<i64, VectorError>(VectorError::PointOperand),
            r matches Ok(d) ==> d == self.spec_dot(other),
    {
        if self.is_point() {
            return Err(VectorError::PointOperand);
        }
        let s = wide_mul(self.w, other.w) + wide_mul(self.x, other.x) + wide_mul(self.y, other.y)
            + wide_mul(self.z, other.z);
        Ok(wide_quot(s, SCALE as i128) as i64)
    }

    /// Cross product of `(x, y, z)`, keeping the receiver's `w`. Defined
    /// between vectors only: a receiver that is a point is refused.
    pub fn cross(&self, other: Vector) -> (r: Result<Vector, VectorError>)
        requires
            !self.spec_is_point() ==> self.cross_fits(other),
        ensures
            self.spec_is_point() <==> r is Err,
            r is Err ==> r == Err::<Vector, VectorError>(VectorError::PointOperand),
            r matches Ok(c) ==> c == self.spec_cross(other),
    {
        if self.is_point() {
            return Err(VectorError::PointOperand);
        }
        let x = wide_mul(self.y, other.z) - wide_mul(self.z, other.y);
        let y = wide_mul(self.z, other.x) - wide_mul(self.x, other.z);
        let z = wide_mul(self.x, other.y) - wide_mul(self.y, other.x);
        Ok(
            Vector {
                w: self.w,
                x: wide_quot(x, SCALE as i128) as i64,
                y: wide_quot(y, SCALE as i128) as i64,
                z: wide_quot(z, SCALE as i128) as i64,
            },
        )
    }
}

impl PartialEq for Vector {
    /// Equality within the tolerance on all four components.
    fn eq(&self, other: &Vector) -> (r: bool) {
        approx_eq(self.w, other.w) && approx_eq(self.x, other.x) && approx_eq(self.y, other.y)
            && approx_eq(self.z, other.z)
    }
}

impl vstd::std_specs::cmp::PartialEqSpecImpl for Vector {
    open spec fn obeys_eq_spec() -> bool {
        true
    }

    open spec fn eq_spec(&self, other: &Vector) -> bool {
        self.approx_equal(*other)
    }
}

/// `c * b` divided by `d` at the fixed-point scale, for a refinement factor
/// `b` of at most `NORM_BOOST`.
fn boosted_quot(c: i64, b: i64, d: i64) -> (r: i64)
    requires
        1 <= b <= NORM_BOOST,
        d > 0,
        fits(spec_div(c * b, d as int)),
    ensures
        r == spec_div(c * b, d as int),
{
    assert(-0x100_0000_0000_0000_0000_0000 <= c * b <= 0x100_0000_0000_0000_0000_0000) by (nonlinear_arith)
        requires
            -0x8000_0000_0000_0000 <= c <= 0x7fff_ffff_ffff_ffff,
            1 <= b <= 1_000_000,
    ;
    let cb: i128 = c as i128 * b as i128;
    assert(-0x100_0000_0000_0000_0000_0000_0000_0000 <= cb * SCALE <= 0x100_0000_0000_0000_0000_0000_0000_0000)
        by (nonlinear_arith)
        requires
            -0x100_0000_0000_0000_0000_0000 <= cb <= 0x100_0000_0000_0000_0000_0000,
            SCALE == 1_000_000_000,
    ;
    let num: i128 = cb * SCALE as i128;
    wide_quot(num, d as i128) as i64
}

/// Each square is non-negative.
proof fn lemma_squares_nonneg(v: Vector)
    ensures
        v.x * v.x >= 0,
        v.y * v.y >= 0,
        v.z * v.z >= 0,
{
    assert(v.x * v.x >= 0) by (nonlinear_arith);
    assert(v.y * v.y >= 0) by (nonlinear_arith);
    assert(v.z * v.z >= 0) by (nonlinear_arith);
}

/// A coordinate whose square is at most `n` is at most the rounded-down
/// root of `n` in size.
proof fn lemma_coordinate_within_root(c: int, n: int, m: int)
    requires
        is_floor_sqrt(n, m),
        c * c <= n,
    ensures
        -m <= c <= m,
{
    assert(-m <= c <= m) by (nonlinear_arith)
        requires
            c * c <= n,
            n < (m + 1) * (m + 1),
            m >= 0,
    {
        if c > m {
            assert(c * c >= (m + 1) * (m + 1));
        }
        if c < -m {
            assert(c * c >= (m + 1) * (m + 1));
        }
    }
}

/// A coordinate whose square is at most `n`, divided by the rounded-down
/// root `m` of `n`, gives at most one whole unit.
proof fn lemma_component_over_root(c: int, n: int, m: int)
    requires
        is_floor_sqrt(n, m),
        m > 0,
        c * c <= n,
    ensures
        -SCALE <= spec_div(c, m) <= SCALE,
{
    lemma_coordinate_within_root(c, n, m);
    let a = if c >= 0 { c } else { -c };
    assert(0 <= a * SCALE <= m * SCALE) by (nonlinear_arith)
        requires
            0 <= a <= m,
    ;
    vstd::arithmetic::div_mod::lemma_div_is_ordered(a * SCALE, m * SCALE, m);
    vstd::arithmetic::div_mod::lemma_div_multiples_vanish(SCALE as int, m);
    vstd::arithmetic::div_mod::lemma_div_pos_is_pos(a * SCALE, m);
    assert(m * SCALE == SCALE * m) by (nonlinear_arith);
    assert(-c * SCALE == -(c * SCALE)) by (nonlinear_arith);
}

/// A normalized vector is well defined: the refined length is positive,
/// at least a millionth of a unit, and bounds each refined coordinate, so
/// that each of the `x`, `y` and `z` components is at most one whole unit
/// in size.
pub proof fn lemma_normalized_fits(v: Vector)
    requires
        v.normalize_fits(),
    ensures
        v.norm_root() >= NORM_BOOST,
        v.sum_sq() * (v.norm_boost() * v.norm_boost()) < SQRT_LIMIT,
        is_floor_sqrt(v.sum_sq() * (v.norm_boost() * v.norm_boost()), v.norm_root()),
        v.sum_sq() * (v.norm_boost() * v.norm_boost()) == (v.x * v.norm_boost()) * (v.x * v.norm_boost())
            + (v.y * v.norm_boost()) * (v.y * v.norm_boost()) + (v.z * v.norm_boost()) * (v.z
            * v.norm_boost()),
        -SCALE <= spec_div(v.x * v.norm_boost(), v.norm_root()) <= SCALE,
        -SCALE <= spec_div(v.y * v.norm_boost(), v.norm_root()) <= SCALE,
        -SCALE <= spec_div(v.z * v.norm_boost(), v.norm_root()) <= SCALE,
        fits(spec_div(v.w * v.norm_boost(), v.norm_root())),
{
    let n = v.sum_sq();
    let b = v.norm_boost();
    let nn = n * (b * b);
    let m = v.norm_root();
    let (cx, cy, cz) = (v.x * b, v.y * b, v.z * b);
    lemma_squares_nonneg(v);
    assert(nn == cx * cx + cy * cy + cz * cz) by (nonlinear_arith)
        requires
            n == v.x * v.x + v.y * v.y + v.z * v.z,
            nn == n * (b * b),
            cx == v.x * b && cy == v.y * b && cz == v.z * b,
    ;
    assert(cx * cx >= 0 && cy * cy >= 0 && cz * cz >= 0) by (nonlinear_arith);
    if n < BOOST_LIMIT {
        assert(1_000_000_000_000 <= nn < SQRT_LIMIT) by (nonlinear_arith)
            requires
                1 <= n < 1_000_000_000_000_000_000_000_000,
                nn == n * (b * b),
                b == 1_000_000,
        ;
    } else {
        assert(nn == n) by (nonlinear_arith)
            requires
                nn == n * (b * b),
                b == 1,
        ;
    }
    assert(nn >= 1_000_000_000_000);
    lemma_floor_sqrt(nn);
    assert(m >= 1_000_000) by (nonlinear_arith)
        requires
            nn >= 1_000_000_000_000,
            nn < (m + 1) * (m + 1),
            m >= 0,
    {
        if m < 1_000_000 {
            assert((m + 1) * (m + 1) <= 1_000_000 * 1_000_000);
        }
    }
    lemma_component_over_root(cx, nn, m);
    lemma_component_over_root(cy, nn, m);
    lemma_component_over_root(cz, nn, m);
    if v.w == 0 {
        assert(v.w * b * SCALE == 0 && (0int / m) == 0) by (nonlinear_arith)
            requires
                v.w == 0,
                m > 0,
        ;
    }
}

/// A tuple built as a point is classified as a point, and one built as a
/// vector is not.
pub proof fn lemma_point_classification(x: i64, y: i64, z: i64)
    ensures
        spec_point(x, y, z).spec_is_point(),
        !spec_vector(x, y, z).spec_is_point(),
{
}

/// Adding `b` and then subtracting it gives `a` back exactly.
pub proof fn lemma_add_then_subtract(a: Vector, b: Vector)
    requires
        a.add_fits(b),
    ensures
        a.spec_add(b).subtract_fits(b),
        a.spec_add(b).spec_subtract(b) == a,
{
}

/// Negating twice gives the tuple back exactly.
pub proof fn lemma_double_negation(a: Vector)
    requires
        a.negate_fits(),
    ensures
        a.spec_negate().negate_fits(),
        a.spec_negate().spec_negate() == a,
{
}

/// The dot product does not depend on the order of its operands.
pub proof fn lemma_dot_symmetric(v1: Vector, v2: Vector)
    requires
        v1.dot_fits(v2),
    ensures
        v2.dot_fits(v1),
        v1.spec_dot(v2) == v2.spec_dot(v1),
{
    assert(v1.w * v2.w == v2.w * v1.w) by (nonlinear_arith);
    assert(v1.x * v2.x == v2.x * v1.x) by (nonlinear_arith);
    assert(v1.y * v2.y == v2.y * v1.y) by (nonlinear_arith);
    assert(v1.z * v2.z == v2.z * v1.z) by (nonlinear_arith);
}

/// Swapping the operands of a cross product of two vectors negates it.
pub proof fn lemma_cross_antisymmetric(v1: Vector, v2: Vector)
    requires
        v1.w == 0,
        v2.w == 0,
        v1.cross_fits(v2),
        v2.cross_fits(v1),
    ensures
        v2.spec_cross(v1).negate_fits(),
        v1.spec_cross(v2) == v2.spec_cross(v1).spec_negate(),
{
    let s = SCALE as int;
    assert(v2.y * v1.z - v2.z * v1.y == -(v1.y * v2.z - v1.z * v2.y)) by (nonlinear_arith);
    assert(v2.z * v1.x - v2.x * v1.z == -(v1.z * v2.x - v1.x * v2.z)) by (nonlinear_arith);
    assert(v2.x * v1.y - v2.y * v1.x == -(v1.x * v2.y - v1.y * v2.x)) by (nonlinear_arith);
    lemma_quot_negate(v1.y * v2.z - v1.z * v2.y, s);
    lemma_quot_negate(v1.z * v2.x - v1.x * v2.z, s);
    lemma_quot_negate(v1.x * v2.y - v1.y * v2.x, s);
}

/// Bounds on the square of `q = spec_div(c, m)` for `|c| <= m`: the
/// truncated quotient never exceeds the exact one in size, and falls short
/// of it by less than one unit.
proof fn lemma_quotient_square(c: int, m: int)
    requires
        m >= 1,
        -m <= c <= m,
    ensures
        spec_div(c, m) * spec_div(c, m) * (m * m) <= c * c * (SCALE * SCALE),
        spec_div(c, m) * spec_div(c, m) * (m * m) >= c * c * (SCALE * SCALE) - 2 * (m * m) * SCALE,
{
    let s = SCALE as int;
    let t = c * s;
    let a = if t >= 0 { t } else { -t };
    let qa = a / m;
    let r = a % m;
    vstd::arithmetic::div_mod::lemma_fundamental_div_mod(a, m);
    vstd::arithmetic::div_mod::lemma_mod_pos_bound(a, m);
    vstd::arithmetic::div_mod::lemma_div_pos_is_pos(a, m);
    let q = spec_div(c, m);
    assert(q == qa || q == -qa);
    assert(q * q == qa * qa) by (nonlinear_arith)
        requires
            q == qa || q == -qa,
    ;
    assert(a <= m * s && a * a == c * c * (s * s)) by (nonlinear_arith)
        requires
            -m <= c <= m,
            s > 0,
            a == c * s || a == -(c * s),
            a >= 0,
    ;
    assert(qa * qa * (m * m) <= a * a && qa * qa * (m * m) >= a * a - 2 * a * m) by (nonlinear_arith)
        requires
            a == m * qa + r,
            0 <= r < m,
            qa >= 0,
            a >= 0,
    ;
    assert(2 * a * m <= 2 * (m * m) * s) by (nonlinear_arith)
        requires
            0 <= a <= m * s,
            m >= 1,
    ;
}

/// Dividing coordinates `(cx, cy, cz)` by the rounded-down root `m` of
/// their squared length, at the fixed-point scale, gives a vector of length
/// one within the tolerance once `m` is at least `SCALE / (EPSILON - 1)`.
proof fn lemma_unit_length_core(cx: int, cy: int, cz: int, n: int, m: int)
    requires
        n == cx * cx + cy * cy + cz * cz,
        is_floor_sqrt(n, m),
        m * (EPSILON - 1) >= SCALE,
    ensures
        spec_div(cx, m) * spec_div(cx, m) + spec_div(cy, m) * spec_div(cy, m) + spec_div(cz, m)
            * spec_div(cz, m) < SQRT_LIMIT,
        approx(
            floor_sqrt(
                spec_div(cx, m) * spec_div(cx, m) + spec_div(cy, m) * spec_div(cy, m) + spec_div(cz, m)
                    * spec_div(cz, m),
            ),
            SCALE as int,
        ),
{
    let s = SCALE as int;
    let e = EPSILON as int;
    assert(m > 0) by (nonlinear_arith)
        requires
            m * (e - 1) >= s,
            s == 1_000_000_000,
            e == 10_000,
    ;
    assert(cx * cx >= 0 && cy * cy >= 0 && cz * cz >= 0) by (nonlinear_arith);
    lemma_coordinate_within_root(cx, n, m);
    lemma_coordinate_within_root(cy, n, m);
    lemma_coordinate_within_root(cz, n, m);
    lemma_quotient_square(cx, m);
    lemma_quotient_square(cy, m);
    lemma_quotient_square(cz, m);
    let qx = spec_div(cx, m);
    let qy = spec_div(cy, m);
    let qz = spec_div(cz, m);
    let np = qx * qx + qy * qy + qz * qz;
    let mm = m * m;
    assert(np * mm == qx * qx * mm + qy * qy * mm + qz * qz * mm) by (nonlinear_arith)
        requires
            np == qx * qx + qy * qy + qz * qz,
    ;
    assert(n * (s * s) == cx * cx * (s * s) + cy * cy * (s * s) + cz * cz * (s * s))
        by (nonlinear_arith)
        requires
            n == cx * cx + cy * cy + cz * cz,
    ;
    let k = (s + e - 1) * (s + e - 1);
    assert(mm > 0) by (nonlinear_arith)
        requires
            m > 0,
            mm == m * m,
    ;
    assert(0 <= s * (m + 1) <= (s + e - 1) * m) by (nonlinear_arith)
        requires
            m * (e - 1) >= s,
            s > 0,
            m > 0,
    ;
    assert(n * (s * s) < k * mm) by (nonlinear_arith)
        requires
            n < (m + 1) * (m + 1),
            0 <= s * (m + 1) <= (s + e - 1) * m,
            k == (s + e - 1) * (s + e - 1),
            mm == m * m,
            s > 0,
    ;
    assert(np < k) by (nonlinear_arith)
        requires
            np * mm < k * mm,
            mm > 0,
    ;
    assert(np >= s * s - 6 * s) by (nonlinear_arith)
        requires
            np * mm >= n * (s * s) - 6 * mm * s,
            n >= mm,
            mm > 0,
            s > 0,
    ;
    assert(k < SQRT_LIMIT) by (nonlinear_arith)
        requires
            k == (s + e - 1) * (s + e - 1),
            s == 1_000_000_000,
            e == 10_000,
    ;
    assert(qx * qx >= 0 && qy * qy >= 0 && qz * qz >= 0) by (nonlinear_arith);
    lemma_floor_sqrt(np);
    let r = floor_sqrt(np);
    assert(r < s + e - 1) by (nonlinear_arith)
        requires
            r * r <= np,
            np < k,
            k == (s + e - 1) * (s + e - 1),
            r >= 0,
            s + e - 1 > 0,
    ;
    assert(r > s - 5) by (nonlinear_arith)
        requires
            np < (r + 1) * (r + 1),
            np >= s * s - 6 * s,
            r >= 0,
            s == 1_000_000_000,
    ;
}

/// Every nonzero vector normalized by `normalized` has length one within
/// the tolerance.
pub proof fn lemma_normalized_unit_length(v: Vector)
    requires
        v.normalize_fits(),
    ensures
        v.spec_normalized().magnitude_fits(),
        approx(v.spec_normalized().spec_magnitude(), SCALE as int),
{
    lemma_normalized_fits(v);
    let b = v.norm_boost();
    let m = v.norm_root();
    assert(m * (EPSILON - 1) >= SCALE);
    lemma_unit_length_core(v.x * b, v.y * b, v.z * b, v.sum_sq() * (b * b), m);
    let u = v.spec_normalized();
    assert(u.x == spec_div(v.x * b, m) && u.y == spec_div(v.y * b, m) && u.z == spec_div(v.z * b, m));
}

} // verus!
