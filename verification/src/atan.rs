//! Fixed-point two-argument arctangent.
//!
//! The central angle of the haversine formula is
//! `2 * atan2(sqrt(a), sqrt(1 - a))`, with both arguments non-negative, so
//! only the first octant of `atan2` is needed. A ratio at most
//! `tan(pi/8) ~ 0.414213562` in billionths is evaluated by the Taylor
//! polynomial `u - u^3/3 + u^5/5 - u^7/7`, which converges quickly there;
//! a larger ratio `t` is folded down with
//! `atan(t) = pi/4 - atan((1 - t) / (1 + t))`, and a pair with `y > x` with
//! `atan2(y, x) = pi/2 - atan2(x, y)`. Angles are in billionths of a radian:
//! `pi/4` is `785_398_163` and `pi/2` is `1_570_796_327`.

use vstd::prelude::*;
use vstd::arithmetic::div_mod::{
    lemma_div_is_ordered, lemma_div_is_ordered_by_denominator, lemma_div_nonincreasing,
    lemma_div_pos_is_pos, lemma_multiply_divide_le,
};
use crate::lemmas::lemma_mul_frac_le;

verus! {

/// Taylor polynomial for the arctangent of a ratio `u` at most
/// `tan(pi/8)`, both in billionths.
pub open spec fn atan_core_spec(u: int) -> int {
    let u2 = u * u / 1_000_000_000;
    let u3 = u2 * u / 1_000_000_000;
    let u5 = u3 * u2 / 1_000_000_000;
    let u7 = u5 * u2 / 1_000_000_000;
    u - u3 / 3 + u5 / 5 - u7 / 7
}

/// Arctangent of a ratio `t` in `[0, 1_000_000_000]`: directly by the
/// polynomial below `tan(pi/8)`, and through the half-angle fold
/// `pi/4 - atan((1 - t) / (1 + t))` above it.
pub open spec fn atan_unit_spec(t: int) -> int {
    if t <= 414_213_562 {
        atan_core_spec(t)
    } else {
        785_398_163 - atan_core_spec(
            (1_000_000_000 - t) * 1_000_000_000 / (1_000_000_000 + t),
        )
    }
}

/// Two-argument arctangent for non-negative fixed-point coordinates, in
/// billionths of a radian. `atan2(0, 0)` is `0`, as the double-precision
/// operation also has it.
pub open spec fn atan2_units_spec(y: int, x: int) -> int {
    if y <= x {
        if x == 0 {
            0
        } else {
            atan_unit_spec(y * 1_000_000_000 / x)
        }
    } else {
        1_570_796_327 - atan_unit_spec(x * 1_000_000_000 / y)
    }
}

/// Bounds on the arctangent polynomial and its intermediate terms: the
/// rescaled powers shrink, the subtractions never underflow, and the result
/// stays between zero and its argument.
pub proof fn lemma_atan_core_bounds(u: int)
    requires
        0 <= u <= 414_213_563,
    ensures
        ({
            let u2 = u * u / 1_000_000_000;
            let u3 = u2 * u / 1_000_000_000;
            let u5 = u3 * u2 / 1_000_000_000;
            let u7 = u5 * u2 / 1_000_000_000;
            &&& 0 <= u2 <= u
            &&& 0 <= u3 <= u2
            &&& 0 <= u5 <= u3
            &&& 0 <= u7 <= u5
            &&& 0 <= u3 / 3 <= u
            &&& 0 <= u7 / 7 <= u5 / 5
            &&& 0 <= u5 / 5 <= u3 / 3
            &&& 0 <= atan_core_spec(u) <= u
        }),
{
    let u2 = u * u / 1_000_000_000;
    let u3 = u2 * u / 1_000_000_000;
    let u5 = u3 * u2 / 1_000_000_000;
    let u7 = u5 * u2 / 1_000_000_000;
    lemma_mul_frac_le(u, u, 1_000_000_000);
    lemma_mul_frac_le(u2, u, 1_000_000_000);
    lemma_mul_frac_le(u3, u2, 1_000_000_000);
    lemma_mul_frac_le(u5, u2, 1_000_000_000);
    lemma_div_pos_is_pos(u3, 3);
    lemma_div_nonincreasing(u3, 3);
    lemma_div_pos_is_pos(u7, 7);
    lemma_div_is_ordered(u7, u5, 7);
    lemma_div_is_ordered_by_denominator(u5, 5, 7);
    lemma_div_pos_is_pos(u5, 5);
    lemma_div_is_ordered(u5, u3, 5);
    lemma_div_is_ordered_by_denominator(u3, 3, 5);
}

/// The folded ratio `(1 - t) / (1 + t)` of the half-angle identity lands
/// back below `tan(pi/8)` whenever `t` itself lies above it.
pub proof fn lemma_atan_fold_bounds(t: int)
    requires
        414_213_562 < t <= 1_000_000_000,
    ensures
        ({
            let v = (1_000_000_000 - t) * 1_000_000_000 / (1_000_000_000 + t);
            0 <= v <= 414_213_563
        }),
{
    let num = (1_000_000_000 - t) * 1_000_000_000;
    let den = 1_000_000_000 + t;
    lemma_div_pos_is_pos(num, den);
    assert(num <= 414_213_563 * den);
    lemma_multiply_divide_le(num, den, 414_213_563);
}

/// The unit arctangent lies between zero and `pi/4`.
pub proof fn lemma_atan_unit_bounds(t: int)
    requires
        0 <= t <= 1_000_000_000,
    ensures
        0 <= atan_unit_spec(t) <= 785_398_163,
{
    if t <= 414_213_562 {
        lemma_atan_core_bounds(t);
    } else {
        lemma_atan_fold_bounds(t);
        lemma_atan_core_bounds((1_000_000_000 - t) * 1_000_000_000 / (1_000_000_000 + t));
    }
}

/// The first-octant `atan2` lies between zero and `pi/2`.
pub proof fn lemma_atan2_units_bounds(y: int, x: int)
    requires
        0 <= y <= 1_000_000_000,
        0 <= x <= 1_000_000_000,
    ensures
        0 <= atan2_units_spec(y, x) <= 1_570_796_327,
{
    if y <= x {
        if x != 0 {
            lemma_div_pos_is_pos(y * 1_000_000_000, x);
            assert(y * 1_000_000_000 <= x * 1_000_000_000);
            lemma_multiply_divide_le(y * 1_000_000_000, x, 1_000_000_000);
            lemma_atan_unit_bounds(y * 1_000_000_000 / x);
        }
    } else {
        lemma_div_pos_is_pos(x * 1_000_000_000, y);
        assert(x * 1_000_000_000 <= y * 1_000_000_000);
        lemma_multiply_divide_le(x * 1_000_000_000, y, 1_000_000_000);
        lemma_atan_unit_bounds(x * 1_000_000_000 / y);
    }
}

/// Arctangent by Taylor polynomial, for ratios up to `tan(pi/8)`.
pub(crate) fn atan_core(u: u64) -> (r: u64)
    requires
        u <= 414_213_563,
    ensures
        r == atan_core_spec(u as int),
        r <= u,
{
    proof {
        lemma_atan_core_bounds(u as int);
        assert(u * u <= 414_213_563 * 414_213_563) by (nonlinear_arith)
            requires
                0 <= u <= 414_213_563,
        ;
    }
    let u2: u64 = u * u / 1_000_000_000;
    proof {
        assert(u2 * u <= 414_213_563 * 414_213_563) by (nonlinear_arith)
            requires
                0 <= u2 <= 414_213_563,
                0 <= u <= 414_213_563,
        ;
    }
    let u3: u64 = u2 * u / 1_000_000_000;
    proof {
        assert(u3 * u2 <= 414_213_563 * 414_213_563) by (nonlinear_arith)
            requires
                0 <= u3 <= 414_213_563,
                0 <= u2 <= 414_213_563,
        ;
    }
    let u5: u64 = u3 * u2 / 1_000_000_000;
    proof {
        assert(u5 * u2 <= 414_213_563 * 414_213_563) by (nonlinear_arith)
            requires
                0 <= u5 <= 414_213_563,
                0 <= u2 <= 414_213_563,
        ;
    }
    let u7: u64 = u5 * u2 / 1_000_000_000;
    u - u3 / 3 + u5 / 5 - u7 / 7
}

/// Arctangent of a ratio in `[0, 1_000_000_000]` billionths.
pub(crate) fn atan_unit(t: u64) -> (r: u64)
    requires
        t <= 1_000_000_000,
    ensures
        r == atan_unit_spec(t as int),
        r <= 785_398_163,
{
    if t <= 414_213_562 {
        atan_core(t)
    } else {
        proof {
            lemma_atan_fold_bounds(t as int);
        }
        let num: u64 = (1_000_000_000 - t) * 1_000_000_000;
        let den: u64 = 1_000_000_000 + t;
        let v: u64 = num / den;
        785_398_163 - atan_core(v)
    }
}

/// Two-argument arctangent for non-negative fixed-point coordinates, in
/// billionths of a radian.
pub fn atan2_units(y: u64, x: u64) -> (r: u64)
    requires
        y <= 1_000_000_000,
        x <= 1_000_000_000,
    ensures
        r == atan2_units_spec(y as int, x as int),
        r <= 1_570_796_327,
{
    if y <= x {
        if x == 0 {
            0
        } else {
            proof {
                assert(y * 1_000_000_000 <= x * 1_000_000_000);
                lemma_multiply_divide_le(y * 1_000_000_000, x as int, 1_000_000_000);
            }
            let t: u64 = y * 1_000_000_000 / x;
            atan_unit(t)
        }
    } else {
        proof {
            assert(x * 1_000_000_000 <= y * 1_000_000_000);
            lemma_multiply_divide_le(x * 1_000_000_000, y as int, 1_000_000_000);
        }
        let t: u64 = x * 1_000_000_000 / y;
        let a: u64 = atan_unit(t);
        1_570_796_327 - a
    }
}

} // verus!
