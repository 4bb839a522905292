//! Linear interpolation between two keys.
//!
//! Values are integer scalars, so the reconstructed value is defined with the
//! time quotient rounded toward negative infinity; when the query time falls
//! on the right key the reconstruction is exact.

use vstd::prelude::*;
use vstd::arithmetic::div_mod::{
    lemma_div_is_ordered, lemma_div_multiples_vanish, lemma_div_pos_is_pos,
    lemma_fundamental_div_mod, lemma_fundamental_div_mod_converse,
    lemma_mod_division_less_than_divisor,
};
use vstd::arithmetic::mul::{
    lemma_mul_inequality, lemma_mul_is_commutative, lemma_mul_nonnegative,
    lemma_mul_unary_negation, lemma_mul_upper_bound,
};

verus! {

/// The value at time `t` on the straight line through `(x0, y0)` and
/// `(x1, y1)`, with the quotient rounded toward negative infinity.
pub open spec fn lerp(x0: int, y0: int, x1: int, y1: int, t: int) -> int {
    y0 + (t - x0) * (y1 - y0) / (x1 - x0)
}

/// Rounding toward negative infinity turns into a ceiling when the numerator
/// is negated: `(-n) / d == -((n + d - 1) / d)`.
proof fn lemma_div_neg_is_neg_ceil(n: int, d: int)
    requires
        n >= 0,
        d > 0,
    ensures
        (-n) / d == -((n + d - 1) / d),
{
    let q = (n + d - 1) / d;
    let r = (n + d - 1) % d;
    lemma_fundamental_div_mod(n + d - 1, d);
    lemma_mod_division_less_than_divisor(n + d - 1, d);
    assert(n + d - 1 == d * q + r);
    lemma_mul_is_commutative(d, q);
    lemma_mul_unary_negation(q, d);
    assert(-n == (-q) * d + (d - 1 - r));
    lemma_fundamental_div_mod_converse(-n, d, -q, d - 1 - r);
}

/// A nonnegative slope scaled by `a / d` with `0 <= a <= d` does not grow:
/// `(a * m) / d <= m`.
proof fn lemma_scaled_slope_bound(a: int, m: int, d: int)
    requires
        0 <= a <= d,
        0 < d,
        0 <= m,
    ensures
        0 <= (a * m) / d <= m,
{
    lemma_mul_nonnegative(a, m);
    lemma_div_pos_is_pos(a * m, d);
    lemma_mul_inequality(a, d, m);
    lemma_div_is_ordered(a * m, d * m, d);
    lemma_div_multiples_vanish(m, d);
}

/// The ceiling variant of the bound above: `(a * m + d - 1) / d <= m`.
proof fn lemma_scaled_slope_ceil_bound(a: int, m: int, d: int)
    requires
        0 <= a <= d,
        0 < d,
        0 <= m,
    ensures
        0 <= (a * m + d - 1) / d <= m,
{
    lemma_mul_nonnegative(a, m);
    lemma_div_pos_is_pos(a * m + d - 1, d);
    lemma_mul_inequality(a, d, m);
    lemma_mul_is_commutative(d, m);
    assert(a * m + d - 1 <= m * d + (d - 1));
    lemma_div_is_ordered(a * m + d - 1, m * d + (d - 1), d);
    lemma_fundamental_div_mod_converse(m * d + (d - 1), d, m, d - 1);
}

/// Querying exactly at the right key reconstructs its value: the
/// interpolation is exact there, whatever the left key holds.
pub proof fn lemma_lerp_at_right(x0: int, y0: int, x1: int, y1: int)
    requires
        x0 < x1,
    ensures
        lerp(x0, y0, x1, y1, x1) == y1,
{
    lemma_div_multiples_vanish(y1 - y0, x1 - x0);
    assert((x1 - x0) * (y1 - y0) / (x1 - x0) == y1 - y0);
}

/// Linear interpolation between the keys `(x0, y0)` and `(x1, y1)` at time
/// `t`, for a query time lying between the two key times.
pub fn between(x0: u64, y0: i64, x1: u64, y1: i64, t: u64) -> (r: i64)
    requires
        x0 < x1,
        x0 <= t <= x1,
    ensures
        r as int == lerp(x0 as int, y0 as int, x1 as int, y1 as int, t as int),
        (y0 <= y1 ==> y0 <= r <= y1) && (y1 <= y0 ==> y1 <= r <= y0),
{
    let a: u128 = (t - x0) as u128;
    let d: u128 = (x1 - x0) as u128;
    let ghost ai: int = t - x0;
    let ghost di: int = x1 - x0;
    if y0 <= y1 {
        let diff: i128 = y1 as i128 - y0 as i128;
        let m: u128 = diff as u128;
        proof {
            lemma_mul_upper_bound(ai, u64::MAX as int, m as int, u64::MAX as int);
        }
        let q: u128 = (a * m) / d;
        proof {
            lemma_scaled_slope_bound(ai, m as int, di);
        }
        let res: i128 = y0 as i128 + q as i128;
        res as i64
    } else {
        let diff: i128 = y0 as i128 - y1 as i128;
        let m: u128 = diff as u128;
        proof {
            lemma_mul_upper_bound(ai, u64::MAX as int, m as int, u64::MAX as int);
        }
        let q: u128 = (a * m + (d - 1)) / d;
        proof {
            lemma_scaled_slope_ceil_bound(ai, m as int, di);
            lemma_div_neg_is_neg_ceil(ai * (m as int), di);
            lemma_mul_unary_negation(m as int, ai);
            lemma_mul_is_commutative(m as int, ai);
            lemma_mul_is_commutative(-(m as int), ai);
            assert(ai * ((y1 - y0) as int) == -(ai * (m as int)));
        }
        let res: i128 = y0 as i128 - q as i128;
        res as i64
    }
}

} // verus!
