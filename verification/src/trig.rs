//! Fixed-point sine, cosine and haversine.
//!
//! Angles are measured in microdegrees (millionths of a degree) and
//! trigonometric values in billionths, so `sin 90 degrees` is exactly
//! `1_000_000_000`. A full turn is `360_000_000` microdegrees; reduction
//! modulo a turn is exact, after which a quarter-turn argument is converted
//! to billionths of a radian (`17_453_292_520 / 1_000_000_000` of them per
//! microdegree) and evaluated by a short Taylor polynomial. Arguments at most
//! an eighth of a turn use the sine polynomial directly; the rest of the
//! first quarter goes through the cosine polynomial of the complement, which
//! keeps the polynomial error a few parts in a thousand million.

use vstd::prelude::*;
use vstd::math::abs;
use vstd::arithmetic::div_mod::{
    lemma_div_is_ordered, lemma_div_is_ordered_by_denominator, lemma_div_nonincreasing,
    lemma_div_pos_is_pos, lemma_mod_bound, lemma_multiply_divide_le,
};
use crate::lemmas::lemma_mul_frac_le;

verus! {

/// An angle congruent to `x` modulo a full turn, landing in
/// `[0, 360_000_000)`. The shift by `9_360_000_000_000_000_000`, itself a
/// multiple of a turn, keeps the dividend non-negative for every `i64` input.
pub open spec fn reduce_spec(x: int) -> int {
    (x + 9_360_000_000_000_000_000) % 360_000_000
}

/// Microdegrees to billionths of a radian, rounded down.
pub open spec fn nrad_spec(x: int) -> int {
    x * 17_453_292_520 / 1_000_000_000
}

/// Taylor polynomial for sine in billionths:
/// `th - th^3/6 + th^5/120 - th^7/5040`, with each power rescaled as it is
/// formed so that no intermediate outgrows the scale.
pub open spec fn sin_poly_spec(th: int) -> int {
    let t2 = th * th / 1_000_000_000;
    let t3 = t2 * th / 1_000_000_000;
    let t5 = t3 * t2 / 1_000_000_000;
    let t7 = t5 * t2 / 1_000_000_000;
    th - t3 / 6 + t5 / 120 - t7 / 5040
}

/// Taylor polynomial for cosine in billionths:
/// `1 - th^2/2 + th^4/24 - th^6/720`.
pub open spec fn cos_poly_spec(th: int) -> int {
    let t2 = th * th / 1_000_000_000;
    let t4 = t2 * t2 / 1_000_000_000;
    let t6 = t4 * t2 / 1_000_000_000;
    1_000_000_000 - t2 / 2 + t4 / 24 - t6 / 720
}

/// Sine of an angle in the first quarter turn, `0 <= x <= 90_000_000`.
pub open spec fn quarter_sin_spec(x: int) -> int {
    if x <= 45_000_000 {
        sin_poly_spec(nrad_spec(x))
    } else {
        cos_poly_spec(nrad_spec(90_000_000 - x))
    }
}

/// Sine of a reduced angle, `0 <= x < 360_000_000`, by quadrant symmetry.
pub open spec fn sin_reduced_spec(x: int) -> int {
    if x <= 90_000_000 {
        quarter_sin_spec(x)
    } else if x <= 180_000_000 {
        quarter_sin_spec(180_000_000 - x)
    } else if x < 270_000_000 {
        -quarter_sin_spec(x - 180_000_000)
    } else {
        -quarter_sin_spec(360_000_000 - x)
    }
}

/// Sine of an angle in microdegrees, in billionths.
pub open spec fn sin_udeg_spec(x: int) -> int {
    sin_reduced_spec(reduce_spec(x))
}

/// Cosine of an angle in microdegrees, in billionths: the sine of the angle
/// shifted by a quarter turn.
pub open spec fn cos_udeg_spec(x: int) -> int {
    sin_reduced_spec(reduce_spec(x + 90_000_000))
}

/// The haversine of an angle difference `d` in microdegrees: the square of
/// the sine of half the angle, in billionths. Taking the absolute value
/// before halving makes the definition even in `d` by construction.
pub open spec fn hav_spec(d: int) -> int {
    let h = abs(d) as int / 2;
    let s = sin_reduced_spec(reduce_spec(h));
    s * s / 1_000_000_000
}

/// Reduction lands in `[0, 360_000_000)`.
pub proof fn lemma_reduce_range(x: int)
    ensures
        0 <= reduce_spec(x) < 360_000_000,
{
    lemma_mod_bound(x + 9_360_000_000_000_000_000, 360_000_000);
}

/// Conversion to billionths of a radian stays within an eighth of a turn.
pub proof fn lemma_nrad_bounds(x: int)
    requires
        0 <= x <= 45_000_000,
    ensures
        0 <= nrad_spec(x) <= 785_398_163,
{
    lemma_div_pos_is_pos(x * 17_453_292_520, 1_000_000_000);
    assert(x * 17_453_292_520 <= 45_000_000 * 17_453_292_520);
    lemma_div_is_ordered(x * 17_453_292_520, 45_000_000int * 17_453_292_520, 1_000_000_000);
}

/// Bounds on the sine polynomial and its intermediate terms over an eighth
/// of a turn: every rescaled power shrinks, the subtracted terms never
/// underflow, and the result stays within the fixed-point scale.
pub proof fn lemma_sin_poly_bounds(th: int)
    requires
        0 <= th <= 785_398_163,
    ensures
        ({
            let t2 = th * th / 1_000_000_000;
            let t3 = t2 * th / 1_000_000_000;
            let t5 = t3 * t2 / 1_000_000_000;
            let t7 = t5 * t2 / 1_000_000_000;
            &&& 0 <= t2 <= th
            &&& 0 <= t3 <= t2
            &&& 0 <= t5 <= t3
            &&& 0 <= t7 <= t5
            &&& 0 <= t3 / 6 <= th
            &&& 0 <= t7 / 5040 <= t5 / 120
            &&& 0 <= t5 / 120 <= 6_544_985
            &&& 0 <= sin_poly_spec(th) <= 792_000_000
        }),
{
    let t2 = th * th / 1_000_000_000;
    let t3 = t2 * th / 1_000_000_000;
    let t5 = t3 * t2 / 1_000_000_000;
    let t7 = t5 * t2 / 1_000_000_000;
    lemma_mul_frac_le(th, th, 1_000_000_000);
    lemma_mul_frac_le(t2, th, 1_000_000_000);
    lemma_mul_frac_le(t3, t2, 1_000_000_000);
    lemma_mul_frac_le(t5, t2, 1_000_000_000);
    lemma_div_pos_is_pos(t3, 6);
    lemma_div_nonincreasing(t3, 6);
    lemma_div_pos_is_pos(t7, 5040);
    lemma_div_is_ordered(t7, t5, 5040);
    lemma_div_is_ordered_by_denominator(t5, 120, 5040);
    lemma_div_pos_is_pos(t5, 120);
    lemma_div_is_ordered(t5, 785_398_163, 120);
}

/// Bounds on the cosine polynomial over an eighth of a turn: the result
/// stays between zero and the fixed-point scale.
pub proof fn lemma_cos_poly_bounds(th: int)
    requires
        0 <= th <= 785_398_163,
    ensures
        ({
            let t2 = th * th / 1_000_000_000;
            let t4 = t2 * t2 / 1_000_000_000;
            let t6 = t4 * t2 / 1_000_000_000;
            &&& 0 <= t2 <= 616_850_285
            &&& 0 <= t4 <= t2
            &&& 0 <= t6 <= t4
            &&& 0 <= t4 / 24 <= t2 / 2
            &&& t2 / 2 + t6 / 720 <= 1_000_000_000
            &&& 0 <= cos_poly_spec(th) <= 1_000_000_000
        }),
{
    let t2 = th * th / 1_000_000_000;
    let t4 = t2 * t2 / 1_000_000_000;
    let t6 = t4 * t2 / 1_000_000_000;
    lemma_mul_frac_le(th, th, 1_000_000_000);
    assert(th * th <= 785_398_163 * 785_398_163) by (nonlinear_arith)
        requires
            0 <= th <= 785_398_163,
    ;
    lemma_div_is_ordered(th * th, 785_398_163int * 785_398_163, 1_000_000_000);
    lemma_mul_frac_le(t2, t2, 1_000_000_000);
    lemma_mul_frac_le(t4, t2, 1_000_000_000);
    lemma_div_pos_is_pos(t4, 24);
    lemma_div_is_ordered(t4, t2, 24);
    lemma_div_is_ordered_by_denominator(t2, 2, 24);
    lemma_div_pos_is_pos(t2, 2);
    lemma_div_is_ordered(t2, 616_850_285, 2);
    lemma_div_pos_is_pos(t6, 720);
    lemma_div_is_ordered(t6, 616_850_285, 720);
}

/// The first-quarter sine stays between zero and the fixed-point scale.
pub proof fn lemma_quarter_sin_bounds(x: int)
    requires
        0 <= x <= 90_000_000,
    ensures
        0 <= quarter_sin_spec(x) <= 1_000_000_000,
{
    if x <= 45_000_000 {
        lemma_nrad_bounds(x);
        lemma_sin_poly_bounds(nrad_spec(x));
    } else {
        lemma_nrad_bounds(90_000_000 - x);
        lemma_cos_poly_bounds(nrad_spec(90_000_000 - x));
    }
}

/// The reduced sine stays between minus and plus the fixed-point scale.
pub proof fn lemma_sin_reduced_bounds(x: int)
    requires
        0 <= x < 360_000_000,
    ensures
        -1_000_000_000 <= sin_reduced_spec(x) <= 1_000_000_000,
{
    if x <= 90_000_000 {
        lemma_quarter_sin_bounds(x);
    } else if x <= 180_000_000 {
        lemma_quarter_sin_bounds(180_000_000 - x);
    } else if x < 270_000_000 {
        lemma_quarter_sin_bounds(x - 180_000_000);
    } else {
        lemma_quarter_sin_bounds(360_000_000 - x);
    }
}

/// The haversine of any angle difference lies within the unit interval of
/// the fixed-point scale.
pub proof fn lemma_hav_bounds(d: int)
    ensures
        0 <= hav_spec(d) <= 1_000_000_000,
{
    let h = abs(d) as int / 2;
    lemma_reduce_range(h);
    let s = sin_reduced_spec(reduce_spec(h));
    lemma_sin_reduced_bounds(reduce_spec(h));
    assert(0 <= s * s <= 1_000_000_000 * 1_000_000_000) by (nonlinear_arith)
        requires
            -1_000_000_000 <= s <= 1_000_000_000,
    ;
    lemma_div_pos_is_pos(s * s, 1_000_000_000);
    lemma_multiply_divide_le(s * s, 1_000_000_000, 1_000_000_000);
}

/// Reduce an angle in microdegrees to `[0, 360_000_000)`.
pub(crate) fn reduce(x: i128) -> (r: u64)
    requires
        -9_223_372_036_854_775_808 <= x <= 9_223_373_000_000_000_000,
    ensures
        r == reduce_spec(x as int),
        r < 360_000_000,
{
    proof {
        lemma_reduce_range(x as int);
    }
    let shifted: i128 = x + 9_360_000_000_000_000_000;
    let m: u128 = (shifted as u128) % 360_000_000;
    m as u64
}

/// Convert a first-eighth angle to billionths of a radian.
pub(crate) fn nrad(x: u64) -> (r: u64)
    requires
        x <= 45_000_000,
    ensures
        r == nrad_spec(x as int),
        r <= 785_398_163,
{
    proof {
        lemma_nrad_bounds(x as int);
    }
    x * 17_453_292_520 / 1_000_000_000
}

/// Sine by Taylor polynomial, for angles up to an eighth of a turn.
pub(crate) fn sin_poly(th: u64) -> (r: u64)
    requires
        th <= 785_398_163,
    ensures
        r == sin_poly_spec(th as int),
        r <= 792_000_000,
{
    proof {
        lemma_sin_poly_bounds(th as int);
        assert(th * th <= 785_398_163 * 785_398_163) by (nonlinear_arith)
            requires
                0 <= th <= 785_398_163,
        ;
    }
    let t2: u64 = th * th / 1_000_000_000;
    proof {
        assert(t2 * th <= 785_398_163 * 785_398_163) by (nonlinear_arith)
            requires
                0 <= t2 <= 785_398_163,
                0 <= th <= 785_398_163,
        ;
    }
    let t3: u64 = t2 * th / 1_000_000_000;
    proof {
        assert(t3 * t2 <= 785_398_163 * 785_398_163) by (nonlinear_arith)
            requires
                0 <= t3 <= 785_398_163,
                0 <= t2 <= 785_398_163,
        ;
    }
    let t5: u64 = t3 * t2 / 1_000_000_000;
    proof {
        assert(t5 * t2 <= 785_398_163 * 785_398_163) by (nonlinear_arith)
            requires
                0 <= t5 <= 785_398_163,
                0 <= t2 <= 785_398_163,
        ;
    }
    let t7: u64 = t5 * t2 / 1_000_000_000;
    th - t3 / 6 + t5 / 120 - t7 / 5040
}

/// Cosine by Taylor polynomial, for angles up to an eighth of a turn.
pub(crate) fn cos_poly(th: u64) -> (r: u64)
    requires
        th <= 785_398_163,
    ensures
        r == cos_poly_spec(th as int),
        r <= 1_000_000_000,
{
    proof {
        lemma_cos_poly_bounds(th as int);
        assert(th * th <= 785_398_163 * 785_398_163) by (nonlinear_arith)
            requires
                0 <= th <= 785_398_163,
        ;
    }
    let t2: u64 = th * th / 1_000_000_000;
    proof {
        assert(t2 * t2 <= 785_398_163 * 785_398_163) by (nonlinear_arith)
            requires
                0 <= t2 <= 785_398_163,
        ;
    }
    let t4: u64 = t2 * t2 / 1_000_000_000;
    proof {
        assert(t4 * t2 <= 785_398_163 * 785_398_163) by (nonlinear_arith)
            requires
                0 <= t4 <= 785_398_163,
                0 <= t2 <= 785_398_163,
        ;
    }
    let t6: u64 = t4 * t2 / 1_000_000_000;
    1_000_000_000 - t2 / 2 + t4 / 24 - t6 / 720
}

/// Sine over the first quarter turn.
pub(crate) fn quarter_sin(x: u64) -> (r: u64)
    requires
        x <= 90_000_000,
    ensures
        r == quarter_sin_spec(x as int),
        r <= 1_000_000_000,
{
    if x <= 45_000_000 {
        let th: u64 = nrad(x);
        sin_poly(th)
    } else {
        let th: u64 = nrad(90_000_000 - x);
        cos_poly(th)
    }
}

/// Sine over a full reduced turn.
pub(crate) fn sin_reduced(x: u64) -> (r: i64)
    requires
        x < 360_000_000,
    ensures
        r == sin_reduced_spec(x as int),
        -1_000_000_000 <= r <= 1_000_000_000,
{
    if x <= 90_000_000 {
        quarter_sin(x) as i64
    } else if x <= 180_000_000 {
        quarter_sin(180_000_000 - x) as i64
    } else if x < 270_000_000 {
        -(quarter_sin(x - 180_000_000) as i64)
    } else {
        -(quarter_sin(360_000_000 - x) as i64)
    }
}

/// Sine of an angle in microdegrees, in billionths.
pub fn sin_udeg(x: i64) -> (r: i64)
    ensures
        r == sin_udeg_spec(x as int),
        -1_000_000_000 <= r <= 1_000_000_000,
{
    let red: u64 = reduce(x as i128);
    sin_reduced(red)
}

/// Cosine of an angle in microdegrees, in billionths.
pub fn cos_udeg(x: i64) -> (r: i64)
    ensures
        r == cos_udeg_spec(x as int),
        -1_000_000_000 <= r <= 1_000_000_000,
{
    let red: u64 = reduce(x as i128 + 90_000_000);
    sin_reduced(red)
}

/// Haversine of an angle difference in microdegrees, in billionths.
pub(crate) fn hav_udeg(d: i128) -> (r: u64)
    requires
        -18_446_744_073_709_551_616 <= d <= 18_446_744_073_709_551_616,
    ensures
        r == hav_spec(d as int),
        r <= 1_000_000_000,
{
    let m: u128 = if d < 0 {
        (-d) as u128
    } else {
        d as u128
    };
    assert(m == abs(d as int));
    let h: u128 = m / 2;
    let red: u64 = reduce(h as i128);
    let s: i64 = sin_reduced(red);
    let sa: u64 = if s < 0 {
        (-s) as u64
    } else {
        s as u64
    };
    proof {
        lemma_hav_bounds(d as int);
        assert(sa * sa == s * s) by (nonlinear_arith)
            requires
                sa == if s < 0 { -(s as int) } else { s as int },
        ;
        assert(sa * sa <= 1_000_000_000 * 1_000_000_000) by (nonlinear_arith)
            requires
                0 <= sa <= 1_000_000_000,
        ;
    }
    sa * sa / 1_000_000_000
}

} // verus!
