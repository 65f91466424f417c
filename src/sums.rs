//! Finite sums of integer terms and the algebra of them that the matrix
//! laws need: linearity and exchanging the order of a double sum.

use vstd::prelude::*;

verus! {

/// `f(0) + f(1) + ... + f(t - 1)`.
pub open spec fn sum(f: spec_fn(int) -> int, t: int) -> int
    decreases t,
{
    if t <= 0 {
        0
    } else {
        sum(f, t - 1) + f(t - 1)
    }
}

/// Sums of terms that agree are equal.
pub proof fn lemma_sum_ext(f: spec_fn(int) -> int, g: spec_fn(int) -> int, t: int)
    requires
        forall|k: int| 0 <= k < t ==> #[trigger] f(k) == g(k),
    ensures
        sum(f, t) == sum(g, t),
    decreases t,
{
    if t > 0 {
        lemma_sum_ext(f, g, t - 1);
    }
}

/// A sum of zero terms is zero.
pub proof fn lemma_sum_zero(f: spec_fn(int) -> int, t: int)
    requires
        forall|k: int| 0 <= k < t ==> #[trigger] f(k) == 0,
    ensures
        sum(f, t) == 0,
    decreases t,
{
    if t > 0 {
        lemma_sum_zero(f, t - 1);
    }
}

/// A factor on the left distributes over a sum.
pub proof fn lemma_sum_scale(f: spec_fn(int) -> int, c: int, t: int)
    ensures
        c * sum(f, t) == sum(|k: int| c * f(k), t),
    decreases t,
{
    if t > 0 {
        lemma_sum_scale(f, c, t - 1);
        assert(c * (sum(f, t - 1) + f(t - 1)) == c * sum(f, t - 1) + c * f(t - 1)) by (nonlinear_arith);
    }
}

/// A sum of sums, term by term, is the sum of the two sums.
pub proof fn lemma_sum_add(f: spec_fn(int) -> int, g: spec_fn(int) -> int, t: int)
    ensures
        sum(|k: int| f(k) + g(k), t) == sum(f, t) + sum(g, t),
    decreases t,
{
    if t > 0 {
        lemma_sum_add(f, g, t - 1);
    }
}

/// A sum of `t` terms each at most `m` in size is at most `t * m` in size.
pub proof fn lemma_sum_bound(f: spec_fn(int) -> int, m: int, t: int)
    requires
        t >= 0,
        forall|k: int| 0 <= k < t ==> -m <= #[trigger] f(k) <= m,
    ensures
        -(t * m) <= sum(f, t) <= t * m,
    decreases t,
{
    if t > 0 {
        lemma_sum_bound(f, m, t - 1);
        assert(t * m == (t - 1) * m + m) by (nonlinear_arith);
    }
}

/// The order of a finite double sum can be exchanged.
pub proof fn lemma_sum_swap(f: spec_fn(int, int) -> int, q: int, r: int)
    ensures
        sum(|l: int| sum(|k: int| f(k, l), q), r) == sum(|k: int| sum(|l: int| f(k, l), r), q),
    decreases r,
{
    if r > 0 {
        lemma_sum_swap(f, q, r - 1);
        let outer = |l: int| sum(|k: int| f(k, l), q);
        let g = |k: int| sum(|l: int| f(k, l), r - 1);
        let h = |k: int| f(k, r - 1);
        let whole = |k: int| sum(|l: int| f(k, l), r);
        assert(sum(outer, r) == sum(outer, r - 1) + sum(h, q));
        assert(sum(outer, r - 1) == sum(g, q));
        lemma_sum_add(g, h, q);
        assert forall|k: int| 0 <= k < q implies #[trigger] whole(k) == g(k) + h(k) by {
            assert(sum(|l: int| f(k, l), r) == sum(|l: int| f(k, l), r - 1) + f(k, r - 1));
        }
        lemma_sum_ext(whole, |k: int| g(k) + h(k), q);
    } else {
        lemma_sum_zero(|k: int| sum(|l: int| f(k, l), r), q);
    }
}

} // verus!
