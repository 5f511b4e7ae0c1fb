use vstd::prelude::*;

verus! {

use crate::arith::MAX_LEN;
use crate::arith::MAX_VAL;
use crate::errors::FuzzyError;
use crate::shape::Shape;
use vstd::arithmetic::div_mod::lemma_fundamental_div_mod;
use vstd::arithmetic::div_mod::lemma_mod_bound;
use vstd::arithmetic::mul::lemma_mul_basics_3;
use vstd::arithmetic::mul::lemma_mul_inequality;
use vstd::arithmetic::mul::lemma_mul_is_commutative;
use vstd::arithmetic::mul::lemma_mul_is_distributive_add;
use crate::arith::max_i64;
use crate::arith::min_i64;
use vstd::arithmetic::div_mod::lemma_div_is_ordered;
use vstd::arithmetic::div_mod::lemma_div_multiples_vanish;
use vstd::arithmetic::mul::lemma_mul_nonnegative;
use vstd::math::abs;

/// A universe of discourse: a non-empty, strictly increasing sequence of
/// scaled points, short enough and small enough that every computation of
/// the library stays in range.
pub open spec fn is_universe(u: Seq<i64>) -> bool {
    &&& 1 <= u.len() <= MAX_LEN
    &&& forall|i: int| 0 <= i < u.len() ==> -MAX_VAL <= #[trigger] u[i] <= MAX_VAL
    &&& forall|i: int| 0 <= i < u.len() - 1 ==> #[trigger] u[i] < u[i + 1]
}

/// Points of a universe grow with their index.
pub proof fn lemma_universe_increasing(u: Seq<i64>, i: int, j: int)
    requires
        is_universe(u),
        0 <= i <= j < u.len(),
    ensures
        u[i] <= u[j],
        i < j ==> u[i] < u[j],
    decreases j - i,
{
    if i < j {
        lemma_universe_increasing(u, i, j - 1);
    }
}

/// The number of points `arange` produces for a well-formed request.
pub open spec fn arange_len(start: int, stop: int, step: int) -> int {
    (stop - start) / step + 1
}

/// Builds the universe `start, start + step, start + 2 * step, ...`,
/// stopping at the last point that does not pass `stop`. Each point is
/// computed from its index, so the construction is exact.
///
/// Fails with `Configuration` exactly when the request is malformed:
/// `stop < start`, a non-positive `step`, or a universe longer than
/// `MAX_LEN`.
pub fn arange(start: i64, stop: i64, step: i64) -> (r: Result<Vec<i64>, FuzzyError>)
    requires
        -MAX_VAL <= start <= MAX_VAL,
        -MAX_VAL <= stop <= MAX_VAL,
    ensures
        r is Err <==> (stop < start || step <= 0 || arange_len(
            start as int,
            stop as int,
            step as int,
        ) > MAX_LEN),
        r matches Err(e) ==> e == FuzzyError::Configuration,
        r matches Ok(v) ==> {
            &&& v@.len() == arange_len(start as int, stop as int, step as int)
            &&& forall|i: int| 0 <= i < v@.len() ==> #[trigger] v@[i] == start + i * step
            &&& is_universe(v@)
            &&& v@[0] == start
            &&& v@[v@.len() - 1] <= stop
            &&& v@[v@.len() - 1] > stop - step
        },
{
    if stop < start || step <= 0 {
        return Err(FuzzyError::Configuration);
    }
    let diff: u64 = (stop - start) as u64;
    let q: u64 = diff / (step as u64);
    proof {
        lemma_fundamental_div_mod(diff as int, step as int);
        lemma_mod_bound(diff as int, step as int);
        lemma_mul_is_commutative(step as int, q as int);
        lemma_mul_nonnegative(q as int, step as int);
    }
    if q + 1 > (MAX_LEN as u64) {
        return Err(FuzzyError::Configuration);
    }
    let len: usize = (q + 1) as usize;
    let mut v: Vec<i64> = Vec::new();
    let mut i: usize = 0;
    while i < len
        invariant
            i <= len,
            v@.len() == i,
            len == q + 1,
            q == (stop - start) / (step as int),
            q * step <= stop - start,
            1 <= step,
            -MAX_VAL <= start <= MAX_VAL,
            -MAX_VAL <= stop <= MAX_VAL,
            forall|k: int| 0 <= k < i ==> #[trigger] v@[k] == start + k * step,
        decreases len - i,
    {
        proof {
            lemma_mul_inequality(i as int, q as int, step as int);
            lemma_mul_nonnegative(i as int, step as int);
        }
        let x: i64 = start + (i as i64) * step;
        v.push(x);
        i += 1;
    }
    proof {
        assert forall|k: int| 0 <= k < len implies start <= #[trigger] v@[k] <= stop by {
            lemma_mul_inequality(k, q as int, step as int);
            lemma_mul_nonnegative(k, step as int);
        };
        assert forall|k: int| 0 <= k < len - 1 implies #[trigger] v@[k] < v@[k + 1] by {
            lemma_mul_is_distributive_add(step as int, k, 1);
            lemma_mul_is_commutative(step as int, k);
            lemma_mul_is_commutative(step as int, k + 1);
            lemma_mul_basics_3(step as int);
        };
    }
    Ok(v)
}

/// A named membership vector sampled over a universe: `membership[i]` is
/// the degree of `universe[i]`. Immutable once built; every operation
/// returns a new set.
#[derive(Clone, Debug)]
pub struct FuzzySet {
    pub name: String,
    pub universe: Vec<i64>,
    pub membership: Vec<i64>,
}

impl FuzzySet {
    /// Well-formedness: the universe is one, the two vectors run in
    /// step, and every degree is a non-negative scaled value.
    pub open spec fn wf(self) -> bool {
        &&& is_universe(self.universe@)
        &&& self.membership@.len() == self.universe@.len()
        &&& forall|i: int|
            0 <= i < self.membership@.len() ==> 0 <= #[trigger] self.membership@[i] <= MAX_VAL
    }

    /// Samples `shape` at every universe point.
    pub fn new(universe: &Vec<i64>, shape: &Shape, name: String) -> (r: FuzzySet)
        requires
            is_universe(universe@),
            shape.valid(),
        ensures
            r.wf(),
            r.name@ == name@,
            r.universe@ == universe@,
            forall|i: int|
                0 <= i < universe@.len() ==> #[trigger] r.membership@[i] == shape.spec_at(
                    universe@[i] as int,
                ),
    {
        let mut membership: Vec<i64> = Vec::new();
        let n: usize = universe.len();
        let mut i: usize = 0;
        while i < n
            invariant
                i <= n,
                n == universe@.len(),
                is_universe(universe@),
                shape.valid(),
                membership@.len() == i,
                forall|k: int|
                    0 <= k < i ==> #[trigger] membership@[k] == shape.spec_at(universe@[k] as int),
                forall|k: int| 0 <= k < i ==> 0 <= #[trigger] membership@[k] <= MAX_VAL,
            decreases n - i,
        {
            membership.push(shape.function(universe[i]));
            i += 1;
        }
        FuzzySet { name, universe: copy_points(universe), membership }
    }
}

/// The index of the universe point nearest to `x`; on a tie, the lower
/// index. Mirrors a first-wins linear scan.
pub open spec fn nearest_idx(u: Seq<i64>, x: int) -> int
    decreases u.len(),
{
    if u.len() <= 1 {
        0
    } else {
        let r = nearest_idx(u.drop_last(), x);
        if abs(u.last() - x) < abs(u[r] - x) {
            u.len() - 1
        } else {
            r
        }
    }
}

/// `nearest_idx` is in range, minimizes the distance to `x`, and is the
/// first index to do so.
pub proof fn lemma_nearest_idx_props(u: Seq<i64>, x: int)
    requires
        u.len() >= 1,
    ensures
        0 <= nearest_idx(u, x) < u.len(),
        forall|k: int| 0 <= k < u.len() ==> abs(u[nearest_idx(u, x)] - x) <= abs(#[trigger] u[k] - x),
        forall|k: int| 0 <= k < nearest_idx(u, x) ==> abs(#[trigger] u[k] - x) > abs(u[nearest_idx(u, x)] - x),
    decreases u.len(),
{
    if u.len() > 1 {
        let v = u.drop_last();
        lemma_nearest_idx_props(v, x);
        let r = nearest_idx(v, x);
        let n = nearest_idx(u, x);
        assert(forall|k: int| 0 <= k < v.len() ==> #[trigger] v[k] == u[k]);
        if abs(u.last() - x) < abs(u[r] - x) {
            assert(n == u.len() - 1);
            assert forall|k: int| 0 <= k < u.len() implies abs(u[n] - x) <= abs(#[trigger] u[k] - x) by {
                if k < u.len() - 1 {
                    assert(abs(v[r] - x) <= abs(v[k] - x));
                }
            };
            assert forall|k: int| 0 <= k < n implies abs(#[trigger] u[k] - x) > abs(u[n] - x) by {
                assert(abs(v[r] - x) <= abs(v[k] - x));
            };
        } else {
            assert(n == r);
            assert forall|k: int| 0 <= k < u.len() implies abs(u[n] - x) <= abs(#[trigger] u[k] - x) by {
                if k < u.len() - 1 {
                    assert(abs(v[r] - x) <= abs(v[k] - x));
                }
            };
            assert forall|k: int| 0 <= k < n implies abs(#[trigger] u[k] - x) > abs(u[n] - x) by {
                assert(abs(v[k] - x) > abs(v[r] - x));
            };
        }
    }
}

/// The degree a set assigns to an arbitrary scalar: the membership value
/// at the nearest universe point, clamped to the boundary values outside
/// the universe's range.
pub open spec fn spec_degree_of(u: Seq<i64>, m: Seq<i64>, x: int) -> i64 {
    if x < u[0] {
        m[0]
    } else if x > u[u.len() - 1] {
        m[m.len() - 1]
    } else {
        m[nearest_idx(u, x)]
    }
}

/// Clips a membership vector at a scalar: the pointwise minimum.
pub open spec fn clip_seq(m: Seq<i64>, a: i64) -> Seq<i64> {
    Seq::new(m.len(), |i: int| min_i64(m[i], a))
}

/// The pointwise maximum of two membership vectors.
pub open spec fn union_seq(x: Seq<i64>, y: Seq<i64>) -> Seq<i64> {
    Seq::new(x.len(), |i: int| max_i64(x[i], y[i]))
}

/// The pointwise minimum of two membership vectors.
pub open spec fn intersect_seq(x: Seq<i64>, y: Seq<i64>) -> Seq<i64> {
    Seq::new(x.len(), |i: int| min_i64(x[i], y[i]))
}

impl FuzzySet {
    /// The membership value at the universe point nearest to `input`
    /// (lowest index on a tie). Outside the universe's range the value
    /// clamps to the respective boundary's membership.
    pub fn degree_of(&self, input: i64) -> (r: i64)
        requires
            self.wf(),
            -MAX_VAL <= input <= MAX_VAL,
        ensures
            r == spec_degree_of(self.universe@, self.membership@, input as int),
            input < self.universe@[0] ==> r == self.membership@[0],
            input > self.universe@[self.universe@.len() - 1] ==> r == self.membership@[
                self.membership@.len() - 1],
            0 <= r <= MAX_VAL,
    {
        let n: usize = self.universe.len();
        proof {
            lemma_universe_increasing(self.universe@, 0, self.universe@.len() - 1);
        }
        if input < self.universe[0] {
            self.membership[0]
        } else if input > self.universe[n - 1] {
            self.membership[n - 1]
        } else {
            let u0: i64 = self.universe[0];
            let mut j: usize = 0;
            let mut best: i64 = if u0 >= input {
                u0 - input
            } else {
                input - u0
            };
            let mut i: usize = 1;
            while i < n
                invariant
                    1 <= i <= n,
                    n == self.universe@.len(),
                    self.wf(),
                    -MAX_VAL <= input <= MAX_VAL,
                    0 <= j < i,
                    j == nearest_idx(self.universe@.take(i as int), input as int),
                    best == abs(self.universe@[j as int] - input),
                decreases n - i,
            {
                let ui: i64 = self.universe[i];
                let d: i64 = if ui >= input {
                    ui - input
                } else {
                    input - ui
                };
                proof {
                    assert(self.universe@.take(i + 1 as int).drop_last() == self.universe@.take(
                        i as int,
                    ));
                }
                if d < best {
                    j = i;
                    best = d;
                }
                i += 1;
            }
            proof {
                assert(self.universe@.take(n as int) == self.universe@);
            }
            self.membership[j]
        }
    }

    /// Clips the set by a scalar: the pointwise minimum of the
    /// membership vector with `input`. Used to cut a consequent set down
    /// to a rule's firing strength.
    pub fn min(&self, input: i64, name: String) -> (r: FuzzySet)
        requires
            self.wf(),
            0 <= input,
        ensures
            r.wf(),
            r.name@ == name@,
            r.universe@ == self.universe@,
            r.membership@ == clip_seq(self.membership@, input),
    {
        let n: usize = self.membership.len();
        let mut membership: Vec<i64> = Vec::new();
        let mut i: usize = 0;
        while i < n
            invariant
                i <= n,
                n == self.membership@.len(),
                self.wf(),
                0 <= input,
                membership@.len() == i,
                forall|k: int|
                    0 <= k < i ==> #[trigger] membership@[k] == min_i64(
                        self.membership@[k],
                        input,
                    ),
            decreases n - i,
        {
            let m: i64 = self.membership[i];
            membership.push(if m <= input {
                m
            } else {
                input
            });
            i += 1;
        }
        proof {
            assert(membership@ =~= clip_seq(self.membership@, input));
        }
        FuzzySet { name, universe: copy_points(&self.universe), membership }
    }

    /// The standard fuzzy union: the pointwise maximum of the two
    /// membership vectors. Fails with `DomainMismatch` exactly when the
    /// two sets were sampled over different universes.
    pub fn std_union(&self, other: &FuzzySet, name: String) -> (r: Result<FuzzySet, FuzzyError>)
        requires
            self.wf(),
            other.wf(),
        ensures
            r is Err <==> self.universe@ != other.universe@,
            r matches Err(e) ==> e == FuzzyError::DomainMismatch,
            r matches Ok(s) ==> {
                &&& s.wf()
                &&& s.name@ == name@
                &&& s.universe@ == self.universe@
                &&& s.membership@ == union_seq(self.membership@, other.membership@)
            },
    {
        if !same_points(&self.universe, &other.universe) {
            Err(FuzzyError::DomainMismatch)
        } else {
            Ok(self.union_on_shared_universe(other, name))
        }
    }

    /// The standard fuzzy intersection: the pointwise minimum. Fails
    /// with `DomainMismatch` exactly when the universes differ.
    pub fn std_intersect(&self, other: &FuzzySet, name: String) -> (r: Result<
        FuzzySet,
        FuzzyError,
    >)
        requires
            self.wf(),
            other.wf(),
        ensures
            r is Err <==> self.universe@ != other.universe@,
            r matches Err(e) ==> e == FuzzyError::DomainMismatch,
            r matches Ok(s) ==> {
                &&& s.wf()
                &&& s.name@ == name@
                &&& s.universe@ == self.universe@
                &&& s.membership@ == intersect_seq(self.membership@, other.membership@)
            },
    {
        if !same_points(&self.universe, &other.universe) {
            return Err(FuzzyError::DomainMismatch);
        }
        let n: usize = self.membership.len();
        let mut membership: Vec<i64> = Vec::new();
        let mut i: usize = 0;
        while i < n
            invariant
                i <= n,
                n == self.membership@.len(),
                self.wf(),
                other.wf(),
                self.universe@ == other.universe@,
                membership@.len() == i,
                forall|k: int|
                    0 <= k < i ==> #[trigger] membership@[k] == min_i64(
                        self.membership@[k],
                        other.membership@[k],
                    ),
            decreases n - i,
        {
            let a: i64 = self.membership[i];
            let b: i64 = other.membership[i];
            membership.push(if a <= b {
                a
            } else {
                b
            });
            i += 1;
        }
        proof {
            assert(membership@ =~= intersect_seq(self.membership@, other.membership@));
        }
        Ok(FuzzySet { name, universe: copy_points(&self.universe), membership })
    }

    /// The pointwise maximum with a set over the same universe.
    pub(crate) fn union_on_shared_universe(&self, other: &FuzzySet, name: String) -> (r: FuzzySet)
        requires
            self.wf(),
            other.wf(),
            self.universe@ == other.universe@,
        ensures
            r.wf(),
            r.name@ == name@,
            r.universe@ == self.universe@,
            r.membership@ == union_seq(self.membership@, other.membership@),
    {
        let n: usize = self.membership.len();
        let mut membership: Vec<i64> = Vec::new();
        let mut i: usize = 0;
        while i < n
            invariant
                i <= n,
                n == self.membership@.len(),
                self.wf(),
                other.wf(),
                self.universe@ == other.universe@,
                membership@.len() == i,
                forall|k: int|
                    0 <= k < i ==> #[trigger] membership@[k] == max_i64(
                        self.membership@[k],
                        other.membership@[k],
                    ),
            decreases n - i,
        {
            let a: i64 = self.membership[i];
            let b: i64 = other.membership[i];
            membership.push(if a >= b {
                a
            } else {
                b
            });
            i += 1;
        }
        proof {
            assert(membership@ =~= union_seq(self.membership@, other.membership@));
        }
        FuzzySet { name, universe: copy_points(&self.universe), membership }
    }
}

/// The sum of a membership vector.
pub open spec fn sum_of(m: Seq<i64>) -> int
    decreases m.len(),
{
    if m.len() == 0 {
        0
    } else {
        sum_of(m.drop_last()) + m.last()
    }
}

/// The sum of universe points weighted by their membership values.
pub open spec fn weighted_sum(u: Seq<i64>, m: Seq<i64>) -> int
    decreases m.len(),
{
    if m.len() == 0 {
        0
    } else {
        weighted_sum(u.drop_last(), m.drop_last()) + u.last() * m.last()
    }
}

/// A vector of degrees in `[0, MAX_VAL]` sums to a value in
/// `[0, len * MAX_VAL]`.
pub proof fn lemma_sum_of_bounds(m: Seq<i64>)
    requires
        forall|i: int| 0 <= i < m.len() ==> 0 <= #[trigger] m[i] <= MAX_VAL,
    ensures
        0 <= sum_of(m) <= m.len() * MAX_VAL,
    decreases m.len(),
{
    if m.len() > 0 {
        lemma_sum_of_bounds(m.drop_last());
    }
}

/// The weighted sum lies within `MAX_VAL` times the plain sum, when the
/// weights are the degrees and the points are bounded.
pub proof fn lemma_weighted_sum_bounds(u: Seq<i64>, m: Seq<i64>)
    requires
        u.len() == m.len(),
        forall|i: int| 0 <= i < u.len() ==> -MAX_VAL <= #[trigger] u[i] <= MAX_VAL,
        forall|i: int| 0 <= i < m.len() ==> 0 <= #[trigger] m[i],
    ensures
        -MAX_VAL * sum_of(m) <= weighted_sum(u, m) <= MAX_VAL * sum_of(m),
    decreases m.len(),
{
    if m.len() > 0 {
        lemma_weighted_sum_bounds(u.drop_last(), m.drop_last());
        lemma_mul_inequality(u.last() as int, MAX_VAL as int, m.last() as int);
        lemma_mul_inequality(-(MAX_VAL as int), u.last() as int, m.last() as int);
        lemma_mul_is_commutative(u.last() as int, m.last() as int);
        lemma_mul_is_commutative(MAX_VAL as int, m.last() as int);
        lemma_mul_is_commutative(-(MAX_VAL as int), m.last() as int);
        lemma_mul_is_distributive_add(MAX_VAL as int, sum_of(m.drop_last()), m.last() as int);
        lemma_mul_is_distributive_add(-(MAX_VAL as int), sum_of(m.drop_last()), m.last() as int);
    }
}

impl FuzzySet {
    /// The centroid of the set: the membership-weighted average of the
    /// universe points, `weighted_sum / sum`, rounded toward negative
    /// infinity. An all-zero membership vector has no centroid; that
    /// case is reported as `DegenerateDefuzzification` rather than
    /// mapped to an arbitrary universe value.
    pub fn centroid_defuzz(&self) -> (r: Result<i64, FuzzyError>)
        requires
            self.wf(),
        ensures
            r is Err <==> sum_of(self.membership@) == 0,
            r matches Err(e) ==> e == FuzzyError::DegenerateDefuzzification,
            r matches Ok(c) ==> c == weighted_sum(self.universe@, self.membership@) / sum_of(
                self.membership@,
            ),
            r matches Ok(c) ==> -MAX_VAL <= c <= MAX_VAL,
    {
        let n: usize = self.membership.len();
        let mut top: i128 = 0;
        let mut bot: i128 = 0;
        let mut i: usize = 0;
        while i < n
            invariant
                i <= n,
                n == self.membership@.len(),
                self.wf(),
                bot == sum_of(self.membership@.take(i as int)),
                top == weighted_sum(self.universe@.take(i as int), self.membership@.take(i as int)),
                0 <= bot <= (i as int) * 1000000000000int,
                -((i as int) * 1000000000000000000000000int) <= top <= (i as int)
                    * 1000000000000000000000000int,
            decreases n - i,
        {
            let u: i64 = self.universe[i];
            let m: i64 = self.membership[i];
            proof {
                assert(self.membership@.take(i + 1 as int).drop_last() == self.membership@.take(
                    i as int,
                ));
                assert(self.universe@.take(i + 1 as int).drop_last() == self.universe@.take(
                    i as int,
                ));
                assert(-1000000000000000000000000int <= (u as int) * (m as int)
                    <= 1000000000000000000000000int) by (nonlinear_arith)
                    requires
                        -1000000000000 <= u as int <= 1000000000000,
                        0 <= m as int <= 1000000000000,
                ;
            }
            top = top + (u as i128) * (m as i128);
            bot = bot + (m as i128);
            i += 1;
        }
        proof {
            assert(self.membership@.take(n as int) == self.membership@);
            assert(self.universe@.take(n as int) == self.universe@);
        }
        if bot == 0 {
            Err(FuzzyError::DegenerateDefuzzification)
        } else {
            proof {
                lemma_weighted_sum_bounds(self.universe@, self.membership@);
                lemma_div_is_ordered(
                    -(MAX_VAL as int) * (bot as int),
                    top as int,
                    bot as int,
                );
                lemma_div_is_ordered(
                    top as int,
                    (MAX_VAL as int) * (bot as int),
                    bot as int,
                );
                lemma_mul_is_commutative(MAX_VAL as int, bot as int);
                lemma_mul_is_commutative(-(MAX_VAL as int), bot as int);
                lemma_div_multiples_vanish(MAX_VAL as int, bot as int);
                lemma_div_multiples_vanish(-(MAX_VAL as int), bot as int);
            }
            let c: i128 = crate::arith::div_floor(top, bot);
            Ok(c as i64)
        }
    }
}

/// Whether a sequence of sets holds one whose name is `name`.
pub open spec fn has_term(sets: Seq<FuzzySet>, name: Seq<char>) -> bool {
    exists|k: int| 0 <= k < sets.len() && #[trigger] sets[k].name@ == name
}

/// The index of the first set named `name` at or after position `i`;
/// the length when there is none.
pub open spec fn first_match(sets: Seq<FuzzySet>, name: Seq<char>, i: int) -> int
    decreases sets.len() - i,
{
    if i < 0 || i >= sets.len() {
        sets.len() as int
    } else if sets[i].name@ == name {
        i
    } else {
        first_match(sets, name, i + 1)
    }
}

/// `first_match` is in range, lands on a set with the right name when
/// one exists, and skips only mismatches.
pub proof fn lemma_first_match(sets: Seq<FuzzySet>, name: Seq<char>, i: int)
    requires
        0 <= i <= sets.len(),
    ensures
        i <= first_match(sets, name, i) <= sets.len(),
        first_match(sets, name, i) < sets.len() ==> sets[first_match(sets, name, i)].name@
            == name,
        forall|k: int| i <= k < first_match(sets, name, i) ==> #[trigger] sets[k].name@ != name,
        (exists|k: int| i <= k < sets.len() && #[trigger] sets[k].name@ == name) ==> first_match(
            sets,
            name,
            i,
        ) < sets.len(),
    decreases sets.len() - i,
{
    if i < sets.len() && sets[i].name@ != name {
        lemma_first_match(sets, name, i + 1);
    }
}

/// The index of the first set named `name`, from the front.
pub open spec fn term_index(sets: Seq<FuzzySet>, name: Seq<char>) -> int {
    first_match(sets, name, 0)
}

/// A named group of fuzzy sets sharing one universe.
#[derive(Clone, Debug)]
pub struct LinguisticVar {
    pub sets: Vec<FuzzySet>,
    pub universe: Vec<i64>,
}

impl LinguisticVar {
    /// Well-formedness: the universe is one and every contained set is
    /// well formed over that same universe.
    pub open spec fn wf(self) -> bool {
        &&& is_universe(self.universe@)
        &&& forall|i: int| 0 <= i < self.sets@.len() ==> (#[trigger] self.sets@[i]).wf()
        &&& forall|i: int|
            0 <= i < self.sets@.len() ==> (#[trigger] self.sets@[i]).universe@ == self.universe@
    }

    /// Builds one fuzzy set per `(shape, term name)` pair, all sampled
    /// over the given universe.
    pub fn new(inputs: Vec<(Shape, String)>, universe: Vec<i64>) -> (r: LinguisticVar)
        requires
            is_universe(universe@),
            forall|i: int| 0 <= i < inputs@.len() ==> (#[trigger] inputs@[i].0).valid(),
        ensures
            r.wf(),
            r.universe@ == universe@,
            r.sets@.len() == inputs@.len(),
            forall|i: int| 0 <= i < inputs@.len() ==> (#[trigger] r.sets@[i]).name@ == inputs@[i].1@,
            forall|i: int, k: int|
                0 <= i < inputs@.len() && 0 <= k < universe@.len() ==> (#[trigger] r.sets@[i].membership@[k])
                    == inputs@[i].0.spec_at(universe@[k] as int),
    {
        let mut sets: Vec<FuzzySet> = Vec::new();
        let n: usize = inputs.len();
        let mut i: usize = 0;
        while i < n
            invariant
                i <= n,
                n == inputs@.len(),
                is_universe(universe@),
                forall|k: int| 0 <= k < inputs@.len() ==> (#[trigger] inputs@[k].0).valid(),
                sets@.len() == i,
                forall|k: int| 0 <= k < i ==> (#[trigger] sets@[k]).wf(),
                forall|k: int| 0 <= k < i ==> (#[trigger] sets@[k]).universe@ == universe@,
                forall|k: int| 0 <= k < i ==> (#[trigger] sets@[k]).name@ == inputs@[k].1@,
                forall|k: int, j: int|
                    0 <= k < i && 0 <= j < universe@.len() ==> (#[trigger] sets@[k].membership@[j])
                        == inputs@[k].0.spec_at(universe@[j] as int),
            decreases n - i,
        {
            let name: String = inputs[i].1.clone();
            sets.push(FuzzySet::new(&universe, &inputs[i].0, name));
            i += 1;
        }
        LinguisticVar { sets, universe }
    }

    /// Looks up a term by name; the first set with that name, read-only.
    /// Fails with `UnknownTerm` exactly when no set has the name.
    pub fn term(&self, name: &String) -> (r: Result<&FuzzySet, FuzzyError>)
        requires
            self.wf(),
        ensures
            r is Ok <==> has_term(self.sets@, name@),
            r matches Ok(s) ==> s == self.sets@[term_index(self.sets@, name@)],
            r matches Err(e) ==> e == FuzzyError::UnknownTerm,
    {
        let n: usize = self.sets.len();
        let mut i: usize = 0;
        while i < n
            invariant
                i <= n,
                n == self.sets@.len(),
                first_match(self.sets@, name@, 0) == first_match(self.sets@, name@, i as int),
            decreases n - i,
        {
            if self.sets[i].name.eq(name) {
                proof {
                    lemma_first_match(self.sets@, name@, 0);
                    assert(has_term(self.sets@, name@)) by {
                        assert(self.sets@[i as int].name@ == name@);
                    };
                }
                return Ok(&self.sets[i]);
            }
            proof {
                assert(first_match(self.sets@, name@, i as int) == first_match(
                    self.sets@,
                    name@,
                    i as int + 1,
                ));
            }
            i += 1;
        }
        proof {
            lemma_first_match(self.sets@, name@, 0);
        }
        Err(FuzzyError::UnknownTerm)
    }
}

/// Looks up a term whose presence is already known, returning it
/// directly.
pub(crate) fn term_ref<'a>(sets: &'a Vec<FuzzySet>, name: &String) -> (r: &'a FuzzySet)
    requires
        has_term(sets@, name@),
    ensures
        *r == sets@[term_index(sets@, name@)],
{
    let n: usize = sets.len();
    let mut i: usize = 0;
    while i < n
        invariant
            i <= n,
            n == sets@.len(),
            first_match(sets@, name@, 0) == first_match(sets@, name@, i as int),
        decreases n - i,
    {
        if sets[i].name.eq(name) {
            proof {
                lemma_first_match(sets@, name@, 0);
            }
            return &sets[i];
        }
        proof {
            assert(first_match(sets@, name@, i as int) == first_match(sets@, name@, i as int + 1));
        }
        i += 1;
    }
    proof {
        lemma_first_match(sets@, name@, 0);
        assert(false);
    }
    &sets[0]
}

/// Whether two point vectors hold exactly the same points. Equality is
/// exact: there is no tolerance.
fn same_points(a: &Vec<i64>, b: &Vec<i64>) -> (r: bool)
    ensures
        r <==> a@ == b@,
{
    let n: usize = a.len();
    if n != b.len() {
        return false;
    }
    let mut i: usize = 0;
    while i < n
        invariant
            i <= n,
            n == a@.len(),
            n == b@.len(),
            forall|k: int| 0 <= k < i ==> #[trigger] a@[k] == b@[k],
        decreases n - i,
    {
        if a[i] != b[i] {
            return false;
        }
        i += 1;
    }
    proof {
        assert(a@ =~= b@);
    }
    true
}

/// Copies a vector of scaled points.
fn copy_points(v: &Vec<i64>) -> (r: Vec<i64>)
    ensures
        r@ == v@,
{
    let mut r: Vec<i64> = Vec::new();
    let n: usize = v.len();
    let mut i: usize = 0;
    while i < n
        invariant
            i <= n,
            n == v@.len(),
            r@ == v@.take(i as int),
        decreases n - i,
    {
        r.push(v[i]);
        proof {
            assert(v@.take(i + 1 as int) == v@.take(i as int).push(v@[i as int]));
        }
        i += 1;
    }
    proof {
        assert(v@.take(n as int) == v@);
    }
    r
}

} // verus!
