use vstd::prelude::*;

verus! {

use crate::arith::max_i64;
use crate::arith::min_i64;
use crate::set::intersect_seq;
use crate::set::is_universe;
use crate::set::lemma_nearest_idx_props;
use crate::set::lemma_universe_increasing;
use crate::set::nearest_idx;
use crate::set::spec_degree_of;
use crate::set::sum_of;
use crate::set::union_seq;
use crate::set::weighted_sum;
use crate::set::FuzzySet;
use crate::rule::FuzzyEngine;
use crate::shape::Triangular;
use vstd::arithmetic::div_mod::lemma_div_multiples_vanish;
use vstd::arithmetic::mul::lemma_mul_is_commutative;
use vstd::arithmetic::mul::lemma_mul_unary_negation;
use vstd::math::abs;

/// Reading a degree back at a universe point returns exactly the
/// membership value stored there: sampling and `degree_of` agree on the
/// universe itself.
pub proof fn lemma_degree_of_at_universe_point(u: Seq<i64>, m: Seq<i64>, i: int)
    requires
        is_universe(u),
        m.len() == u.len(),
        0 <= i < u.len(),
    ensures
        spec_degree_of(u, m, u[i] as int) == m[i],
{
    let x = u[i] as int;
    lemma_universe_increasing(u, 0, i);
    lemma_universe_increasing(u, i, u.len() - 1);
    lemma_nearest_idx_props(u, x);
    let n = nearest_idx(u, x);
    if n < i {
        lemma_universe_increasing(u, n, i);
        assert(abs(u[n] - x) <= abs(u[i] - x));
    } else if n > i {
        lemma_universe_increasing(u, i, n);
        assert(abs(u[n] - x) <= abs(u[i] - x));
    }
}

/// The standard union is idempotent: joining a membership vector with
/// itself changes nothing.
pub proof fn lemma_std_union_idempotent(m: Seq<i64>)
    ensures
        union_seq(m, m) == m,
{
    assert(union_seq(m, m) =~= m);
}

/// The standard union is commutative, and each of its values is the
/// pointwise maximum of the inputs.
pub proof fn lemma_std_union_commutative(x: Seq<i64>, y: Seq<i64>)
    requires
        x.len() == y.len(),
    ensures
        union_seq(x, y) == union_seq(y, x),
        forall|i: int| 0 <= i < x.len() ==> union_seq(x, y)[i] == max_i64(x[i], y[i]),
{
    assert(union_seq(x, y) =~= union_seq(y, x));
}

/// The standard intersection is commutative, and each of its values is
/// the pointwise minimum of the inputs.
pub proof fn lemma_std_intersect_commutative(x: Seq<i64>, y: Seq<i64>)
    requires
        x.len() == y.len(),
    ensures
        intersect_seq(x, y) == intersect_seq(y, x),
        forall|i: int| 0 <= i < x.len() ==> intersect_seq(x, y)[i] == min_i64(x[i], y[i]),
{
    assert(intersect_seq(x, y) =~= intersect_seq(y, x));
}

/// The sum of the products `(u[i] - c) * m[i]` over the index range
/// `[lo, hi)`.
pub open spec fn centered_range_sum(u: Seq<i64>, m: Seq<i64>, c: int, lo: int, hi: int) -> int
    decreases hi - lo,
{
    if lo >= hi {
        0
    } else {
        (u[lo] - c) * m[lo] + centered_range_sum(u, m, c, lo + 1, hi)
    }
}

/// Peeling the last index off a centered range sum.
proof fn lemma_centered_peel_back(u: Seq<i64>, m: Seq<i64>, c: int, lo: int, hi: int)
    requires
        lo <= hi,
    ensures
        centered_range_sum(u, m, c, lo, hi + 1) == centered_range_sum(u, m, c, lo, hi) + (u[hi]
            - c) * m[hi],
    decreases hi - lo,
{
    if lo < hi {
        lemma_centered_peel_back(u, m, c, lo + 1, hi);
    } else {
        assert(centered_range_sum(u, m, c, hi + 1, hi + 1) == 0);
        assert(centered_range_sum(u, m, c, lo, hi) == 0);
    }
}

/// The weighted sum of a prefix splits into its centered part and the
/// center times the plain sum.
proof fn lemma_weighted_sum_split(u: Seq<i64>, m: Seq<i64>, c: int, hi: int)
    requires
        u.len() == m.len(),
        0 <= hi <= u.len(),
    ensures
        weighted_sum(u.take(hi), m.take(hi)) == centered_range_sum(u, m, c, 0, hi) + c * sum_of(
            m.take(hi),
        ),
    decreases hi,
{
    if hi == 0 {
        assert(c * sum_of(m.take(0)) == 0) by (nonlinear_arith)
            requires
                sum_of(m.take(0)) == 0,
        ;
    } else {
        lemma_weighted_sum_split(u, m, c, hi - 1);
        lemma_centered_peel_back(u, m, c, 0, hi - 1);
        assert(u.take(hi).drop_last() == u.take(hi - 1));
        assert(m.take(hi).drop_last() == m.take(hi - 1));
        let s1 = sum_of(m.take(hi - 1));
        assert(m.take(hi).last() == m[hi - 1]);
        assert(u.take(hi).last() == u[hi - 1]);
        assert(sum_of(m.take(hi)) == s1 + m[hi - 1]);
        assert(weighted_sum(u.take(hi), m.take(hi)) == weighted_sum(u.take(hi - 1), m.take(hi - 1))
            + u[hi - 1] * m[hi - 1]);
        assert(centered_range_sum(u, m, c, 0, hi) == centered_range_sum(u, m, c, 0, hi - 1) + (u[hi
            - 1] - c) * m[hi - 1]);
        assert(u[hi - 1] * m[hi - 1] == (u[hi - 1] - c) * m[hi - 1] + c * (m[hi - 1] as int))
            by (nonlinear_arith);
        assert(c * (s1 + m[hi - 1]) == c * s1 + c * (m[hi - 1] as int)) by (nonlinear_arith);
    }
}

/// A centered sum over a window that is symmetric about its center
/// vanishes: mirrored terms cancel pairwise.
proof fn lemma_symmetric_window_vanishes(u: Seq<i64>, m: Seq<i64>, k: int, t: int)
    requires
        u.len() == m.len(),
        0 <= k < u.len(),
        0 <= t <= k,
        k + t < u.len(),
        forall|j: int| 1 <= j <= t ==> u[k + j] - u[k] == u[k] - #[trigger] u[k - j],
        forall|j: int| 1 <= j <= t ==> #[trigger] m[k + j] == m[k - j],
    ensures
        centered_range_sum(u, m, u[k] as int, k - t, k + t + 1) == 0,
    decreases t,
{
    let c = u[k] as int;
    if t == 0 {
        assert(centered_range_sum(u, m, c, k + 1, k + 1) == 0);
        assert(centered_range_sum(u, m, c, k, k + 1) == (u[k] - c) * m[k]);
        assert((u[k] - c) * m[k] == 0) by (nonlinear_arith)
            requires
                u[k] - c == 0,
        ;
    } else {
        lemma_symmetric_window_vanishes(u, m, k, t - 1);
        lemma_centered_peel_back(u, m, c, k - t + 1, k + t);
        assert(m[k + t] == m[k - t]);
        assert(u[k + t] - c == c - u[k - t]);
        lemma_mul_unary_negation(u[k + t] - c, m[k + t] as int);
        assert(centered_range_sum(u, m, c, k - t, k + t + 1) == (u[k - t] - c) * m[k - t]
            + centered_range_sum(u, m, c, k - t + 1, k + t) + (u[k + t] - c) * m[k + t]);
    }
}

/// A membership vector of non-negative degrees sums to at least any one
/// of its entries.
pub proof fn lemma_sum_of_at_least(m: Seq<i64>, i: int)
    requires
        forall|j: int| 0 <= j < m.len() ==> 0 <= #[trigger] m[j],
        0 <= i < m.len(),
    ensures
        sum_of(m) >= m[i],
        sum_of(m) >= 0,
    decreases m.len(),
{
    if m.len() > 0 {
        if i < m.len() - 1 {
            lemma_sum_of_at_least(m.drop_last(), i);
        } else if m.len() >= 2 {
            lemma_sum_of_at_least(m.drop_last(), 0);
        }
    }
}

/// The centroid of a membership vector that is symmetric about a
/// universe point is that point exactly: the weighted sum is the center
/// times the plain sum, so the division is exact.
pub proof fn lemma_centroid_symmetric(u: Seq<i64>, m: Seq<i64>, k: int)
    requires
        u.len() == m.len(),
        u.len() == 2 * k + 1,
        0 <= k,
        forall|j: int| 1 <= j <= k ==> u[k + j] - u[k] == u[k] - #[trigger] u[k - j],
        forall|j: int| 1 <= j <= k ==> #[trigger] m[k + j] == m[k - j],
        sum_of(m) > 0,
    ensures
        weighted_sum(u, m) / sum_of(m) == u[k],
{
    let c = u[k] as int;
    lemma_weighted_sum_split(u, m, c, u.len() as int);
    assert(u.take(u.len() as int) == u);
    assert(m.take(m.len() as int) == m);
    lemma_symmetric_window_vanishes(u, m, k, k);
    assert(weighted_sum(u, m) == c * sum_of(m));
    lemma_mul_is_commutative(c, sum_of(m));
    lemma_div_multiples_vanish(c, sum_of(m));
}

/// Sampling a triangular shape at points placed symmetrically about its
/// center yields mirrored degrees.
pub proof fn lemma_triangular_sampling_symmetric(t: Triangular, lo: i64, hi: i64)
    requires
        t.valid(),
        lo + hi == 2 * t.a,
    ensures
        t.spec_at(lo as int) == t.spec_at(hi as int),
{
    assert(abs(lo - t.a) == abs(hi - t.a));
}

/// The centroid of a fuzzy set sampled from a triangular shape over a
/// universe symmetric about the shape's center is the center itself,
/// whenever the peak has positive height so that the set is not
/// degenerate.
pub proof fn lemma_centroid_of_symmetric_triangular(s: FuzzySet, t: Triangular, k: int)
    requires
        s.wf(),
        t.valid(),
        1 <= t.b,
        0 <= k,
        s.universe@.len() == 2 * k + 1,
        s.universe@[k] == t.a,
        forall|j: int|
            1 <= j <= k ==> s.universe@[k + j] - s.universe@[k] == s.universe@[k]
                - #[trigger] s.universe@[k - j],
        forall|i: int|
            0 <= i < s.universe@.len() ==> #[trigger] s.membership@[i] == t.spec_at(
                s.universe@[i] as int,
            ),
    ensures
        sum_of(s.membership@) > 0,
        weighted_sum(s.universe@, s.membership@) / sum_of(s.membership@) == t.a,
{
    let u = s.universe@;
    let m = s.membership@;
    // the peak itself is sampled: m[k] == b
    assert(m[k] == t.spec_at(t.a as int));
    lemma_div_multiples_vanish(t.b as int, t.s as int);
    lemma_mul_is_commutative(t.b as int, t.s as int);
    assert(t.spec_at(t.a as int) == t.b * (t.s - abs(t.a - t.a)) / (t.s as int));
    assert(m[k] == t.b);
    lemma_sum_of_at_least(m, k);
    // mirrored points get mirrored degrees
    assert forall|j: int| 1 <= j <= k implies #[trigger] m[k + j] == m[k - j] by {
        lemma_triangular_sampling_symmetric(t, u[k - j], u[k + j]);
    };
    lemma_centroid_symmetric(u, m, k);
}

/// With several rules, an output's aggregate is the standard union of
/// every rule's clipped consequent — the last rule processed never
/// overwrites the earlier ones. Stated here for a two-rule base, where
/// the aggregate is exactly the union of the two clipped sets.
pub proof fn lemma_two_rules_aggregate_by_union(e: FuzzyEngine, inputs: Seq<i64>, m: int)
    ensures
        e.aggregated(inputs, m, 1) == union_seq(e.clipped(inputs, 0, m), e.clipped(inputs, 1, m)),
{
    assert(e.aggregated(inputs, m, 0) == e.clipped(inputs, 0, m));
}

} // verus!

