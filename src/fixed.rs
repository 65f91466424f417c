//! Fixed-point scalars.
//!
//! A real number `v` is stored as the `i64` count `round(v * SCALE)`.
//! Products and quotients are computed exactly in `i128` and then divided
//! back to the scale, rounding toward zero as Rust's integer `/` does.
//! Approximate comparison allows a difference below `EPSILON` raw units.

use vstd::prelude::*;

verus! {

/// Raw units in one whole unit: quantities are counted in billionths.
pub const SCALE: i64 = 1_000_000_000;

/// Tolerance of approximate comparison in raw units, one hundred-thousandth.
pub const EPSILON: i64 = 10_000;

/// `v` can be stored in an `i64`.
pub open spec fn fits(v: int) -> bool {
    i64::MIN <= v <= i64::MAX
}

/// `v` can be held in an `i128` intermediate (and negated there).
pub open spec fn fits_wide(v: int) -> bool {
    -i128::MAX <= v <= i128::MAX
}

/// Integer division rounding toward zero (Rust's `/`), for `d != 0`.
pub open spec fn quot(a: int, d: int) -> int {
    if d > 0 {
        if a >= 0 {
            a / d
        } else {
            -((-a) / d)
        }
    } else {
        if a >= 0 {
            -(a / (-d))
        } else {
            (-a) / (-d)
        }
    }
}

/// Two raw values are equal up to the tolerance.
pub open spec fn approx(a: int, b: int) -> bool {
    -EPSILON < a - b < EPSILON
}

/// Fixed-point product of two raw values.
pub open spec fn spec_mul(a: int, b: int) -> int {
    quot(a * b, SCALE as int)
}

/// Fixed-point quotient of two raw values, for `b != 0`.
pub open spec fn spec_div(a: int, b: int) -> int {
    quot(a * SCALE, b)
}

/// Compares two fixed-point values within `EPSILON`.
pub fn approx_eq(a: i64, b: i64) -> (r: bool)
    ensures
        r == approx(a as int, b as int),
{
    let d: i128 = a as i128 - b as i128;
    -(EPSILON as i128) < d && d < EPSILON as i128
}

/// Quotient of a wide value rounded toward zero.
pub fn wide_quot(a: i128, d: i128) -> (r: i128)
    requires
        d != 0,
        fits_wide(a as int),
    ensures
        r == quot(a as int, d as int),
{
    proof {
        lemma_quot_bounded(a as int, d as int);
    }
    let q = a.checked_div(d);
    q.unwrap()
}

/// Product of two `i64` values, which always fits an `i128`.
pub fn wide_mul(a: i64, b: i64) -> (r: i128)
    ensures
        r == a * b,
        -0x3fff_ffff_ffff_ffff_8000_0000_0000_0000 <= r <= 0x4000_0000_0000_0000_0000_0000_0000_0000,
{
    proof {
        lemma_wide_product(a as int, b as int);
    }
    a as i128 * b as i128
}

/// Fixed-point product.
pub fn fixed_mul(a: i64, b: i64) -> (r: i64)
    requires
        fits(spec_mul(a as int, b as int)),
    ensures
        r == spec_mul(a as int, b as int),
{
    let p = wide_mul(a, b);
    wide_quot(p, SCALE as i128) as i64
}

/// Fixed-point quotient.
pub fn fixed_div(a: i64, b: i64) -> (r: i64)
    requires
        b != 0,
        fits(spec_div(a as int, b as int)),
    ensures
        r == spec_div(a as int, b as int),
{
    let p = wide_mul(a, SCALE);
    wide_quot(p, b as i128) as i64
}

/// The magnitude of a quotient rounded toward zero is at most that of the dividend.
pub proof fn lemma_quot_bounded(a: int, d: int)
    requires
        d != 0,
    ensures
        -(if a >= 0 { a } else { -a }) <= quot(a, d) <= (if a >= 0 { a } else { -a }),
{
    let n = if a >= 0 { a } else { -a };
    let e = if d > 0 { d } else { -d };
    assert(0 <= n / e <= n) by (nonlinear_arith)
        requires
            n >= 0,
            e >= 1,
    {
        vstd::arithmetic::div_mod::lemma_div_is_ordered_by_denominator(n, 1, e);
        vstd::arithmetic::div_mod::lemma_div_pos_is_pos(n, e);
    }
}

/// Rounding toward zero by a positive divisor loses less than the divisor.
pub proof fn lemma_quot_remainder(a: int, d: int)
    requires
        d > 0,
    ensures
        -d < a - quot(a, d) * d < d,
{
    let n = if a >= 0 { a } else { -a };
    vstd::arithmetic::div_mod::lemma_fundamental_div_mod(n, d);
    vstd::arithmetic::div_mod::lemma_mod_pos_bound(n, d);
    assert(d * (n / d) == (n / d) * d) by (nonlinear_arith);
    assert(-(n / d) * d == -((n / d) * d)) by (nonlinear_arith);
}

/// Rounding toward zero commutes with negation.
pub proof fn lemma_quot_negate(a: int, d: int)
    requires
        d > 0,
    ensures
        quot(-a, d) == -quot(a, d),
{
}

/// Scaling a value up and dividing it back down gives it again.
pub proof fn lemma_quot_scaled(v: int)
    ensures
        quot(v * SCALE, SCALE as int) == v,
{
    let a = if v >= 0 { v } else { -v };
    vstd::arithmetic::div_mod::lemma_div_multiples_vanish(a, SCALE as int);
    assert(SCALE * a == a * SCALE) by (nonlinear_arith);
    assert(-(v * SCALE) == (-v) * SCALE) by (nonlinear_arith);
}

/// A product of two `i64` values lies within `[-2^126 + 2^63, 2^126]`, so that
/// the sum or difference of two such products still fits an `i128`.
pub proof fn lemma_wide_product(a: int, b: int)
    requires
        fits(a),
        fits(b),
    ensures
        -0x3fff_ffff_ffff_ffff_8000_0000_0000_0000 <= a * b <= 0x4000_0000_0000_0000_0000_0000_0000_0000,
{
    assert(-0x3fff_ffff_ffff_ffff_8000_0000_0000_0000 <= a * b <= 0x4000_0000_0000_0000_0000_0000_0000_0000)
        by (nonlinear_arith)
        requires
            -0x8000_0000_0000_0000 <= a <= 0x7fff_ffff_ffff_ffff,
            -0x8000_0000_0000_0000 <= b <= 0x7fff_ffff_ffff_ffff,
    ;
}

/// `r` is the integer square root of `n`, rounded down.
pub open spec fn is_floor_sqrt(n: int, r: int) -> bool {
    0 <= r && r * r <= n && n < (r + 1) * (r + 1)
}

/// The integer square root of `n >= 0`, rounded down.
pub open spec fn floor_sqrt(n: int) -> int {
    choose|r: int| is_floor_sqrt(n, r)
}

/// Bound on the radicand of `sqrt_floor`: its root then fits an `i64`.
pub const SQRT_LIMIT: i128 = 0x4000_0000_0000_0000_0000_0000_0000_0000;

/// Every non-negative integer has a rounded-down square root.
pub proof fn lemma_floor_sqrt(n: int)
    requires
        n >= 0,
    ensures
        is_floor_sqrt(n, floor_sqrt(n)),
    decreases n,
{
    if n == 0 {
        assert(is_floor_sqrt(0, 0));
    } else {
        lemma_floor_sqrt(n - 1);
        let r = floor_sqrt(n - 1);
        if (r + 1) * (r + 1) <= n {
            assert(is_floor_sqrt(n, r + 1)) by (nonlinear_arith)
                requires
                    is_floor_sqrt(n - 1, r),
                    (r + 1) * (r + 1) <= n,
            ;
        } else {
            assert(is_floor_sqrt(n, r));
        }
    }
}

/// The rounded-down square root is unique.
pub proof fn lemma_floor_sqrt_unique(n: int, r: int)
    requires
        is_floor_sqrt(n, r),
    ensures
        floor_sqrt(n) == r,
{
    let c = floor_sqrt(n);
    assert(is_floor_sqrt(n, c));
    assert(c == r) by (nonlinear_arith)
        requires
            is_floor_sqrt(n, c),
            is_floor_sqrt(n, r),
    {
        if c < r {
            assert((c + 1) * (c + 1) <= r * r);
        } else if r < c {
            assert((r + 1) * (r + 1) <= c * c);
        }
    }
}

/// Integer square root, rounded down, by bisection.
pub fn sqrt_floor(n: i128) -> (r: i64)
    requires
        0 <= n < SQRT_LIMIT,
    ensures
        r == floor_sqrt(n as int),
        r >= 0,
{
    let mut lo: i128 = 0;
    let mut hi: i128 = 0x8000_0000_0000_0000;
    while hi - lo > 1
        invariant
            0 <= lo < hi <= 0x8000_0000_0000_0000,
            lo * lo <= n,
            n < hi * hi,
        decreases hi - lo,
    {
        let mid: i128 = lo + (hi - lo) / 2;
        assert(0 <= mid * mid < 0x4000_0000_0000_0000_0000_0000_0000_0000) by (nonlinear_arith)
            requires
                0 <= mid < 0x8000_0000_0000_0000,
        ;
        if mid * mid <= n {
            lo = mid;
        } else {
            hi = mid;
        }
    }
    proof {
        lemma_floor_sqrt_unique(n as int, lo as int);
    }
    lo as i64
}

} // verus!
