use vstd::prelude::*;

verus! {

use vstd::arithmetic::div_mod::lemma_div_is_ordered;
use vstd::arithmetic::div_mod::lemma_div_multiples_vanish;
use vstd::arithmetic::div_mod::lemma_div_nonincreasing;
use vstd::arithmetic::div_mod::lemma_fundamental_div_mod;
use vstd::arithmetic::div_mod::lemma_fundamental_div_mod_converse;
use vstd::arithmetic::mul::lemma_mul_inequality;
use vstd::arithmetic::mul::lemma_mul_is_commutative;
use vstd::arithmetic::mul::lemma_mul_unary_negation;

/// Magnitude bound on every scaled value the library works with: universe
/// points, membership degrees, prices, signals, shape parameters. Products
/// of two such values summed over `MAX_LEN` terms then stay well inside
/// `i128`.
pub const MAX_VAL: i64 = 1_000_000_000_000;

/// Bound on the length of any universe or price series.
pub const MAX_LEN: usize = 1_000_000;

/// The smaller of two degrees.
pub open spec fn min_i64(a: i64, b: i64) -> i64 {
    if a <= b {
        a
    } else {
        b
    }
}

/// The larger of two degrees.
pub open spec fn max_i64(a: i64, b: i64) -> i64 {
    if a >= b {
        a
    } else {
        b
    }
}

/// A bound on a dividend carries over to the quotient when the divisor
/// is at least one.
pub proof fn lemma_div_stays_bounded(num: int, e: int, k: int)
    requires
        1 <= e,
        0 <= k,
        -k <= num <= k,
    ensures
        -k <= num / e <= k,
{
    lemma_mul_inequality(1, e, k);
    lemma_mul_is_commutative(e, k);
    lemma_mul_unary_negation(k, e);
    lemma_mul_is_commutative(-k, e);
    lemma_div_is_ordered(-(k * e), num, e);
    lemma_div_is_ordered(num, k * e, e);
    lemma_div_multiples_vanish(k, e);
    lemma_div_multiples_vanish(-k, e);
}

/// Division by a positive divisor, rounding toward negative infinity;
/// this is exactly what `/` means on `int` in specifications when the
/// divisor is positive.
pub fn div_floor(a: i128, b: i128) -> (q: i128)
    requires
        i128::MIN < a,
        1 <= b,
    ensures
        q == a as int / b as int,
{
    if a >= 0 {
        let qu: u128 = (a as u128) / (b as u128);
        proof {
            lemma_div_nonincreasing(a as int, b as int);
        }
        qu as i128
    } else {
        let n: u128 = (-a) as u128;
        let d: u128 = b as u128;
        let qu: u128 = n / d;
        let ru: u128 = n % d;
        proof {
            lemma_fundamental_div_mod(n as int, d as int);
        }
        if ru == 0 {
            proof {
                assert(a as int == (-(qu as int)) * (b as int) + 0) by (nonlinear_arith)
                    requires
                        n as int == d as int * (qu as int) + (ru as int),
                        ru as int == 0,
                        a as int == -(n as int),
                        d as int == b as int,
                ;
                lemma_fundamental_div_mod_converse(a as int, b as int, -(qu as int), 0);
            }
            -(qu as i128)
        } else {
            proof {
                assert(a as int == (-(qu as int) - 1) * (b as int) + (b as int - ru as int))
                    by (nonlinear_arith)
                    requires
                        n as int == d as int * (qu as int) + (ru as int),
                        a as int == -(n as int),
                        d as int == b as int,
                ;
                assert(qu as int + 1 <= n as int) by (nonlinear_arith)
                    requires
                        n as int == d as int * (qu as int) + (ru as int),
                        1 <= d as int,
                        0 <= qu as int,
                        1 <= ru as int,
                ;
                lemma_fundamental_div_mod_converse(
                    a as int,
                    b as int,
                    -(qu as int) - 1,
                    b as int - ru as int,
                );
            }
            -((qu as i128) + 1)
        }
    }
}

} // verus!
