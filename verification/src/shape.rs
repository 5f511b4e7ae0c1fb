use vstd::prelude::*;

verus! {

use crate::arith::MAX_VAL;
use vstd::arithmetic::div_mod::lemma_div_is_ordered;
use vstd::arithmetic::div_mod::lemma_div_multiples_vanish;
use vstd::arithmetic::div_mod::lemma_div_nonincreasing;
use vstd::arithmetic::div_mod::lemma_div_pos_is_pos;
use vstd::arithmetic::mul::lemma_mul_inequality;
use vstd::arithmetic::mul::lemma_mul_is_commutative;
use vstd::arithmetic::mul::lemma_mul_nonnegative;
use vstd::arithmetic::mul::lemma_mul_upper_bound;
use vstd::math::abs;

/// A triangular membership shape: peak center `a`, peak height `b`,
/// half-width `s`. Inside `[a - s, a + s]` the degree is
/// `b * (s - |x - a|) / s`; outside it is zero.
#[derive(Clone, Copy, Debug, PartialEq, Eq, Structural)]
pub struct Triangular {
    pub a: i64,
    pub b: i64,
    pub s: i64,
}

/// A trapezoidal membership shape: rises from zero at `a` to `e` at `b`,
/// stays at `e` through `c`, falls back to zero at `d`.
#[derive(Clone, Copy, Debug, PartialEq, Eq, Structural)]
pub struct Trapezoidal {
    pub a: i64,
    pub b: i64,
    pub c: i64,
    pub d: i64,
    pub e: i64,
}

impl Triangular {
    /// Parameters on which the shape is well defined: a positive
    /// half-width (the formula divides by `s`), a non-negative height,
    /// and magnitudes that keep the arithmetic in range.
    pub open spec fn valid(self) -> bool {
        &&& -MAX_VAL <= self.a <= MAX_VAL
        &&& 0 <= self.b <= MAX_VAL
        &&& 1 <= self.s <= MAX_VAL
    }

    /// The membership degree of `x`, as a mathematical value.
    pub open spec fn spec_at(self, x: int) -> int {
        if self.a - self.s <= x <= self.a + self.s {
            self.b * (self.s - abs(x - self.a)) / (self.s as int)
        } else {
            0
        }
    }

    /// Evaluates the shape at `x`. Zero everywhere outside the support
    /// `[a - s, a + s]`, and exactly the peak height `b` at the center.
    pub fn function(&self, x: i64) -> (r: i64)
        requires
            self.valid(),
            -MAX_VAL <= x <= MAX_VAL,
        ensures
            r == self.spec_at(x as int),
            0 <= r <= self.b,
            x < self.a - self.s || x > self.a + self.s ==> r == 0,
            x == self.a ==> r == self.b,
    {
        if self.a - self.s <= x && x <= self.a + self.s {
            let d: i64 = if x >= self.a {
                x - self.a
            } else {
                self.a - x
            };
            proof {
                lemma_mul_nonnegative(self.b as int, self.s - d as int);
                lemma_mul_upper_bound(self.b as int, MAX_VAL as int, self.s - d as int, MAX_VAL as int);
            }
            let num: i128 = (self.b as i128) * ((self.s - d) as i128);
            let q: u128 = (num as u128) / (self.s as u128);
            proof {
                lemma_mul_inequality(self.s - d as int, self.s as int, self.b as int);
                lemma_mul_is_commutative(self.b as int, self.s as int);
                lemma_mul_is_commutative(self.b as int, self.s - d as int);
                lemma_div_is_ordered(num as int, self.b * self.s, self.s as int);
                lemma_div_multiples_vanish(self.b as int, self.s as int);
                lemma_div_pos_is_pos(num as int, self.s as int);
            }
            q as i64
        } else {
            0
        }
    }
}

/// Builds a triangular shape from its center, height and half-width.
pub fn triangular(a: i64, b: i64, s: i64) -> (r: Triangular)
    ensures
        r == (Triangular { a, b, s }),
{
    Triangular { a, b, s }
}

impl Trapezoidal {
    /// Parameters on which the shape is well defined: the two slopes must
    /// have positive runs (the formula divides by `b - a` and `d - c`),
    /// the plateau height is non-negative, and magnitudes keep the
    /// arithmetic in range.
    pub open spec fn valid(self) -> bool {
        &&& -MAX_VAL <= self.a <= MAX_VAL
        &&& -MAX_VAL <= self.b <= MAX_VAL
        &&& -MAX_VAL <= self.c <= MAX_VAL
        &&& -MAX_VAL <= self.d <= MAX_VAL
        &&& self.a < self.b
        &&& self.b <= self.c
        &&& self.c < self.d
        &&& 0 <= self.e <= MAX_VAL
    }

    /// The membership degree of `x`, as a mathematical value.
    pub open spec fn spec_at(self, x: int) -> int {
        if self.a <= x < self.b {
            (x - self.a) * self.e / (self.b - self.a)
        } else if self.b <= x <= self.c {
            self.e as int
        } else if self.c < x <= self.d {
            self.e * (self.d - x) / (self.d - self.c)
        } else {
            0
        }
    }

    /// Evaluates the shape at `x`. Zero outside `[a, d]`, the plateau
    /// height `e` on `[b, c]`, linear in between.
    pub fn function(&self, x: i64) -> (r: i64)
        requires
            self.valid(),
            -MAX_VAL <= x <= MAX_VAL,
        ensures
            r == self.spec_at(x as int),
            0 <= r <= self.e,
            x < self.a || x > self.d ==> r == 0,
            self.b <= x <= self.c ==> r == self.e,
    {
        if x >= self.a && x < self.b {
            let run: i64 = self.b - self.a;
            proof {
                lemma_mul_nonnegative(x - self.a as int, self.e as int);
                lemma_mul_upper_bound(x - self.a as int, 2 * MAX_VAL as int, self.e as int, MAX_VAL as int);
            }
            let num: i128 = ((x - self.a) as i128) * (self.e as i128);
            proof {
                lemma_mul_inequality(x - self.a as int, run as int, self.e as int);
                lemma_mul_is_commutative(self.e as int, run as int);
                lemma_div_is_ordered(num as int, run * self.e, run as int);
                lemma_div_multiples_vanish(self.e as int, run as int);
                lemma_div_pos_is_pos(num as int, run as int);
            }
            let q: u128 = (num as u128) / (run as u128);
            q as i64
        } else if x >= self.b && x <= self.c {
            self.e
        } else if x > self.c && x <= self.d {
            let run: i64 = self.d - self.c;
            proof {
                lemma_mul_nonnegative(self.e as int, self.d - x as int);
                lemma_mul_upper_bound(self.e as int, MAX_VAL as int, self.d - x as int, 2 * MAX_VAL as int);
            }
            let num: i128 = (self.e as i128) * ((self.d - x) as i128);
            proof {
                lemma_mul_inequality(self.d - x as int, run as int, self.e as int);
                lemma_mul_is_commutative(self.e as int, run as int);
                lemma_mul_is_commutative(self.e as int, self.d - x as int);
                lemma_div_is_ordered(num as int, run * self.e, run as int);
                lemma_div_multiples_vanish(self.e as int, run as int);
                lemma_div_pos_is_pos(num as int, run as int);
            }
            let q: u128 = (num as u128) / (run as u128);
            q as i64
        } else {
            0
        }
    }
}

/// Builds a trapezoidal shape from its four corners and plateau height.
pub fn trapezoidal(a: i64, b: i64, c: i64, d: i64, e: i64) -> (r: Trapezoidal)
    ensures
        r == (Trapezoidal { a, b, c, d, e }),
{
    Trapezoidal { a, b, c, d, e }
}

/// The closed set of membership shapes the library knows.
#[derive(Clone, Copy, Debug, PartialEq, Eq, Structural)]
pub enum Shape {
    Triangular(Triangular),
    Trapezoidal(Trapezoidal),
}

impl Shape {
    /// Parameters on which the underlying shape is well defined.
    pub open spec fn valid(self) -> bool {
        match self {
            Shape::Triangular(t) => t.valid(),
            Shape::Trapezoidal(t) => t.valid(),
        }
    }

    /// The peak height of the shape; every degree it yields lies in
    /// `[0, height]`.
    pub open spec fn height(self) -> i64 {
        match self {
            Shape::Triangular(t) => t.b,
            Shape::Trapezoidal(t) => t.e,
        }
    }

    /// The membership degree of `x`, as a mathematical value.
    pub open spec fn spec_at(self, x: int) -> int {
        match self {
            Shape::Triangular(t) => t.spec_at(x),
            Shape::Trapezoidal(t) => t.spec_at(x),
        }
    }

    /// Evaluates the shape at `x`.
    pub fn function(&self, x: i64) -> (r: i64)
        requires
            self.valid(),
            -MAX_VAL <= x <= MAX_VAL,
        ensures
            r == self.spec_at(x as int),
            0 <= r <= self.height(),
    {
        match self {
            Shape::Triangular(t) => t.function(x),
            Shape::Trapezoidal(t) => t.function(x),
        }
    }
}

} // verus!
