//! Sums of products over chosen indices, and how they behave.

use vstd::prelude::*;

verus! {

/// The sum of `w[j] * x[j]` over the indices `j` below `k` that `keep` holds.
pub open spec fn masked_dot(keep: Seq<bool>, w: Seq<real>, x: Seq<real>, k: int) -> real
    decreases k,
{
    if k <= 0 {
        0real
    } else if keep[k - 1] {
        masked_dot(keep, w, x, k - 1) + w[k - 1] * x[k - 1]
    } else {
        masked_dot(keep, w, x, k - 1)
    }
}

/// The sum of the first `k` entries of `x`.
pub open spec fn total_upto(x: Seq<real>, k: int) -> real
    decreases k,
{
    if k <= 0 {
        0real
    } else {
        total_upto(x, k - 1) + x[k - 1]
    }
}

/// The sum of the entries of `x`.
pub open spec fn total(x: Seq<real>) -> real {
    total_upto(x, x.len() as int)
}

/// The sum of `w[j] * x[j]` over all indices of `w`.
pub open spec fn dot(w: Seq<real>, x: Seq<real>) -> real {
    masked_dot(Seq::new(w.len(), |j: int| true), w, x, w.len() as int)
}

/// A sum depends only on what lies below its end: on which indices are kept,
/// and on the weights and values at those.
pub proof fn masked_dot_agrees(
    keep1: Seq<bool>,
    w1: Seq<real>,
    x1: Seq<real>,
    keep2: Seq<bool>,
    w2: Seq<real>,
    x2: Seq<real>,
    k: int,
)
    requires
        forall|j: int| 0 <= j < k ==> keep1[j] == keep2[j],
        forall|j: int| 0 <= j < k && keep1[j] ==> w1[j] == w2[j] && x1[j] == x2[j],
    ensures
        masked_dot(keep1, w1, x1, k) == masked_dot(keep2, w2, x2, k),
    decreases k,
{
    if k > 0 {
        masked_dot_agrees(keep1, w1, x1, keep2, w2, x2, k - 1);
    }
}

/// Leaving an index out of a sum takes its term away.
pub proof fn masked_dot_without(keep: Seq<bool>, w: Seq<real>, x: Seq<real>, k: int, e: int)
    requires
        0 <= e < k <= keep.len(),
        keep[e],
    ensures
        masked_dot(keep, w, x, k) == masked_dot(keep.update(e, false), w, x, k) + w[e] * x[e],
    decreases k,
{
    if e == k - 1 {
        masked_dot_agrees(keep, w, x, keep.update(e, false), w, x, k - 1);
    } else {
        masked_dot_without(keep, w, x, k - 1, e);
    }
}

/// Taking an index into a sum adds its term.
pub proof fn masked_dot_with(keep: Seq<bool>, w: Seq<real>, x: Seq<real>, k: int, l: int)
    requires
        0 <= l < k <= keep.len(),
        !keep[l],
    ensures
        masked_dot(keep.update(l, true), w, x, k) == masked_dot(keep, w, x, k) + w[l] * x[l],
    decreases k,
{
    if l == k - 1 {
        masked_dot_agrees(keep, w, x, keep.update(l, true), w, x, k - 1);
    } else {
        masked_dot_with(keep, w, x, k - 1, l);
    }
}

/// Where each weight is one weight less a multiple of another, the sum is
/// the one sum less that multiple of the other.
pub proof fn masked_dot_combined(
    keep: Seq<bool>,
    w: Seq<real>,
    w1: Seq<real>,
    alpha: real,
    w2: Seq<real>,
    x: Seq<real>,
    k: int,
)
    requires
        forall|j: int| 0 <= j < k && keep[j] ==> w[j] == w1[j] - alpha * w2[j],
    ensures
        masked_dot(keep, w, x, k) == masked_dot(keep, w1, x, k) - alpha * masked_dot(
            keep,
            w2,
            x,
            k,
        ),
    decreases k,
{
    if k > 0 {
        masked_dot_combined(keep, w, w1, alpha, w2, x, k - 1);
        let (s1, s2) = (masked_dot(keep, w1, x, k - 1), masked_dot(keep, w2, x, k - 1));
        let (a, b, v) = (w1[k - 1], w2[k - 1], x[k - 1]);
        if keep[k - 1] {
            assert((s1 - alpha * s2) + (a - alpha * b) * v == (s1 + a * v) - alpha * (s2 + b * v))
                by (nonlinear_arith);
        }
    } else {
        assert(alpha * 0real == 0real) by (nonlinear_arith);
    }
}

/// Where each weight is another divided by `p`, the sum is the other sum
/// divided by `p`.
pub proof fn masked_dot_divided(
    keep: Seq<bool>,
    w: Seq<real>,
    w1: Seq<real>,
    p: real,
    x: Seq<real>,
    k: int,
)
    requires
        p != 0real,
        forall|j: int| 0 <= j < k && keep[j] ==> w[j] == w1[j] / p,
    ensures
        masked_dot(keep, w, x, k) == masked_dot(keep, w1, x, k) / p,
    decreases k,
{
    if k > 0 {
        masked_dot_divided(keep, w, w1, p, x, k - 1);
        let s1 = masked_dot(keep, w1, x, k - 1);
        let (a, v) = (w1[k - 1], x[k - 1]);
        if keep[k - 1] {
            assert(s1 / p + (a / p) * v == (s1 + a * v) / p) by (nonlinear_arith)
                requires
                    p != 0real,
            ;
        }
    } else {
        assert(0real / p == 0real) by (nonlinear_arith)
            requires
                p != 0real,
        ;
    }
}

/// A sum over variables whose values are all zero is zero.
pub proof fn masked_dot_of_zeros(keep: Seq<bool>, w: Seq<real>, x: Seq<real>, k: int)
    requires
        forall|j: int| 0 <= j < k && keep[j] ==> x[j] == 0real,
    ensures
        masked_dot(keep, w, x, k) == 0real,
    decreases k,
{
    if k > 0 {
        masked_dot_of_zeros(keep, w, x, k - 1);
        if keep[k - 1] {
            let c = w[k - 1];
            assert(c * 0real == 0real) by (nonlinear_arith);
        }
    }
}

/// A product grows with its first factor where the second is not negative.
proof fn product_grows(c: real, bound: real, v: real)
    requires
        c <= bound,
        v >= 0real,
    ensures
        c * v <= bound * v,
{
    let d = bound - c;
    assert(d * v >= 0real) by (nonlinear_arith)
        requires
            d >= 0real,
            v >= 0real,
    ;
    assert(d * v == bound * v - c * v) by (nonlinear_arith)
        requires
            d == bound - c,
    ;
}

/// Where no value is negative and no weight that counts exceeds `bound`,
/// the sum is at most `bound` times the sum of the values.
pub proof fn masked_dot_bounded(keep: Seq<bool>, w: Seq<real>, x: Seq<real>, bound: real, k: int)
    requires
        bound >= 0real,
        forall|j: int| 0 <= j < k ==> x[j] >= 0real,
        forall|j: int| 0 <= j < k && keep[j] ==> w[j] <= bound,
    ensures
        masked_dot(keep, w, x, k) <= bound * total_upto(x, k),
    decreases k,
{
    if k > 0 {
        masked_dot_bounded(keep, w, x, bound, k - 1);
        let (t, c, v) = (total_upto(x, k - 1), w[k - 1], x[k - 1]);
        assert(bound * (t + v) == bound * t + bound * v) by (nonlinear_arith);
        if keep[k - 1] {
            product_grows(c, bound, v);
        } else {
            product_grows(0real, bound, v);
            assert(0real * v == 0real) by (nonlinear_arith);
        }
    } else {
        assert(bound * 0real == 0real) by (nonlinear_arith);
    }
}

/// Indices that are not kept, or whose weight is zero, add nothing to a sum.
pub proof fn masked_dot_skips(keep: Seq<bool>, w: Seq<real>, x: Seq<real>, k1: int, k2: int)
    requires
        0 <= k1 <= k2,
        forall|j: int| k1 <= j < k2 ==> !keep[j] || w[j] == 0real,
    ensures
        masked_dot(keep, w, x, k2) == masked_dot(keep, w, x, k1),
    decreases k2 - k1,
{
    if k1 < k2 {
        masked_dot_skips(keep, w, x, k1, k2 - 1);
        if keep[k2 - 1] {
            let v = x[k2 - 1];
            assert(0real * v == 0real) by (nonlinear_arith);
        }
    }
}

/// A sum over some indices and the sum over the others make the sum over
/// all.
pub proof fn masked_dot_split(keep: Seq<bool>, w: Seq<real>, x: Seq<real>, k: int)
    requires
        0 <= k <= keep.len(),
    ensures
        masked_dot(keep, w, x, k) + masked_dot(Seq::new(keep.len(), |j: int| !keep[j]), w, x, k)
            == masked_dot(Seq::new(keep.len(), |j: int| true), w, x, k),
    decreases k,
{
    if k > 0 {
        masked_dot_split(keep, w, x, k - 1);
    }
}

} // verus!
