//! Great-circle distance between two geographic points by the haversine
//! formula, entirely in fixed-point integer arithmetic.
//!
//! A point is a latitude and a longitude in microdegrees; the distance comes
//! back in metres along the surface of a sphere of radius `6_371_000` metres.
//! The computation follows the classical formula: with `a` the haversine sum
//! `hav(dlat) + cos(lat1) * cos(lat2) * hav(dlon)`, the central angle is
//! `2 * atan2(sqrt(a), sqrt(1 - a))` and the distance is the radius times
//! that angle. Inputs are taken modulo a full turn, so coordinates outside
//! the geographic ranges are accepted and treated mechanically, exactly as
//! the real-valued formula would treat them. For such inputs the product of
//! cosines can push the sum outside the unit interval, where the real
//! formula has no real square root; the sum is clamped to the interval, so
//! the result is defined, and unchanged wherever the formula itself is.

use vstd::prelude::*;
use vstd::math::abs;
use vstd::arithmetic::div_mod::{
    lemma_div_is_ordered, lemma_div_pos_is_pos, lemma_multiply_divide_le,
};
use crate::sqrt::{isqrt64, lemma_sqrt_floor_props, lemma_sqrt_floor_unique, sqrt_floor};
use crate::trig::{cos_udeg, cos_udeg_spec, hav_spec, hav_udeg};
use crate::atan::{atan2_units, atan2_units_spec, lemma_atan2_units_bounds};

verus! {

/// Clamp a fixed-point value into the unit interval `[0, 1_000_000_000]`.
pub open spec fn clamp_unit_spec(a: int) -> int {
    if a < 0 {
        0
    } else if a > 1_000_000_000 {
        1_000_000_000
    } else {
        a
    }
}

/// The haversine sum `hav(dlat) + cos(lat1) * cos(lat2) * hav(dlon)` in
/// billionths, clamped into the unit interval. The product of cosines is
/// rescaled through its absolute value so that every division rounds a
/// non-negative quantity down.
pub open spec fn hav_sum_spec(lat1: int, lon1: int, lat2: int, lon2: int) -> int {
    let hl = hav_spec(lat2 - lat1);
    let ho = hav_spec(lon2 - lon1);
    let p = cos_udeg_spec(lat1) * cos_udeg_spec(lat2);
    let t = if p >= 0 {
        p / 1_000_000_000 * ho / 1_000_000_000
    } else {
        -((-p) / 1_000_000_000 * ho / 1_000_000_000)
    };
    clamp_unit_spec(hl + t)
}

/// The central angle `2 * atan2(sqrt(a), sqrt(1 - a))` in billionths of a
/// radian, for a haversine sum `a` in the unit interval.
pub open spec fn central_angle_spec(a: int) -> int {
    2 * atan2_units_spec(
        sqrt_floor(a * 1_000_000_000),
        sqrt_floor((1_000_000_000 - a) * 1_000_000_000),
    )
}

/// The distance in metres between `(lat1, lon1)` and `(lat2, lon2)`, both in
/// microdegrees, on a sphere of radius `6_371_000` metres.
pub open spec fn distance_spec(lat1: int, lon1: int, lat2: int, lon2: int) -> int {
    central_angle_spec(hav_sum_spec(lat1, lon1, lat2, lon2)) * 6_371_000 / 1_000_000_000
}

/// The central angle of a unit-interval haversine sum lies between zero and
/// `pi` in billionths of a radian.
pub proof fn lemma_central_angle_range(a: int)
    requires
        0 <= a <= 1_000_000_000,
    ensures
        0 <= central_angle_spec(a) <= 3_141_592_654,
{
    let aq = a * 1_000_000_000;
    let bq = (1_000_000_000 - a) * 1_000_000_000;
    lemma_sqrt_floor_props(aq);
    lemma_sqrt_floor_props(bq);
    let y = sqrt_floor(aq);
    let x = sqrt_floor(bq);
    assert(y <= 1_000_000_000) by (nonlinear_arith)
        requires
            0 <= y,
            y * y <= 1_000_000_000_000_000_000,
    ;
    assert(x <= 1_000_000_000) by (nonlinear_arith)
        requires
            0 <= x,
            x * x <= 1_000_000_000_000_000_000,
    ;
    lemma_atan2_units_bounds(y, x);
}

/// A zero angle difference has haversine zero.
proof fn lemma_hav_zero()
    ensures
        hav_spec(0) == 0,
{
    assert(abs(0) == 0);
    assert(crate::trig::reduce_spec(0) == 0);
    assert(crate::trig::nrad_spec(0) == 0);
    assert(crate::trig::sin_poly_spec(0) == 0);
    assert(crate::trig::quarter_sin_spec(0) == 0);
    assert(crate::trig::sin_reduced_spec(0) == 0);
}

/// A zero haversine sum gives a zero central angle.
proof fn lemma_central_angle_zero()
    ensures
        central_angle_spec(0) == 0,
{
    lemma_sqrt_floor_unique(0, 0);
    lemma_sqrt_floor_unique(1_000_000_000_000_000_000, 1_000_000_000);
    assert(atan2_units_spec(0, 1_000_000_000) == 0);
}

/// The distance is symmetric in its two points: swapping the endpoints of
/// the path does not change its length.
pub proof fn lemma_distance_symmetric(lat1: int, lon1: int, lat2: int, lon2: int)
    ensures
        distance_spec(lat1, lon1, lat2, lon2) == distance_spec(lat2, lon2, lat1, lon1),
{
    assert(abs(lat2 - lat1) == abs(lat1 - lat2));
    assert(abs(lon2 - lon1) == abs(lon1 - lon2));
    assert(hav_spec(lat2 - lat1) == hav_spec(lat1 - lat2));
    assert(hav_spec(lon2 - lon1) == hav_spec(lon1 - lon2));
    assert(cos_udeg_spec(lat1) * cos_udeg_spec(lat2) == cos_udeg_spec(lat2) * cos_udeg_spec(
        lat1,
    ));
    assert(hav_sum_spec(lat1, lon1, lat2, lon2) == hav_sum_spec(lat2, lon2, lat1, lon1));
}

/// The distance from any point to itself is exactly zero.
pub proof fn lemma_distance_identity(lat: int, lon: int)
    ensures
        distance_spec(lat, lon, lat, lon) == 0,
{
    lemma_hav_zero();
    let p = cos_udeg_spec(lat) * cos_udeg_spec(lat);
    if p >= 0 {
        assert(p / 1_000_000_000 * 0 / 1_000_000_000 == 0);
    } else {
        assert((-p) / 1_000_000_000 * 0 / 1_000_000_000 == 0);
    }
    assert(hav_sum_spec(lat, lon, lat, lon) == 0);
    lemma_central_angle_zero();
}

/// The distance is never negative.
pub proof fn lemma_distance_nonneg(lat1: int, lon1: int, lat2: int, lon2: int)
    ensures
        distance_spec(lat1, lon1, lat2, lon2) >= 0,
{
    let a = hav_sum_spec(lat1, lon1, lat2, lon2);
    lemma_central_angle_range(a);
    lemma_div_pos_is_pos(central_angle_spec(a) * 6_371_000, 1_000_000_000);
}

/// The distance never exceeds half the circumference of the sphere,
/// `pi * 6_371_000` metres, and so stays below `20_015_087` metres.
pub proof fn lemma_distance_bounded(lat1: int, lon1: int, lat2: int, lon2: int)
    ensures
        distance_spec(lat1, lon1, lat2, lon2) <= 20_015_087,
{
    let a = hav_sum_spec(lat1, lon1, lat2, lon2);
    lemma_central_angle_range(a);
    let ca = central_angle_spec(a);
    assert(ca * 6_371_000 <= 3_141_592_654 * 6_371_000);
    lemma_div_is_ordered(ca * 6_371_000, 3_141_592_654int * 6_371_000, 1_000_000_000);
}

/// The great-circle distance in metres between two points given as
/// `(latitude, longitude)` pairs in microdegrees, on a sphere of radius
/// `6_371_000` metres. Any `i64` coordinates are accepted; values outside
/// the geographic ranges are reduced modulo a full turn, as the formula
/// itself would.
pub fn calculate_distance(lat1: i64, lon1: i64, lat2: i64, lon2: i64) -> (d: u64)
    ensures
        d == distance_spec(lat1 as int, lon1 as int, lat2 as int, lon2 as int),
        d <= 20_015_087,
        lat1 == lat2 && lon1 == lon2 ==> d == 0,
{
    let hl: u64 = hav_udeg(lat2 as i128 - lat1 as i128);
    let ho: u64 = hav_udeg(lon2 as i128 - lon1 as i128);
    let c1: i64 = cos_udeg(lat1);
    let c2: i64 = cos_udeg(lat2);
    proof {
        assert(-1_000_000_000_000_000_000 <= c1 as int * c2 as int <= 1_000_000_000_000_000_000)
            by (nonlinear_arith)
            requires
                -1_000_000_000 <= c1 <= 1_000_000_000,
                -1_000_000_000 <= c2 <= 1_000_000_000,
        ;
    }
    let p: i128 = (c1 as i128) * (c2 as i128);
    let apre: i64 = if p >= 0 {
        let q: u64 = ((p as u128) / 1_000_000_000) as u64;
        proof {
            lemma_div_pos_is_pos(p as int, 1_000_000_000);
            lemma_multiply_divide_le(p as int, 1_000_000_000, 1_000_000_000);
            assert(q * ho <= 1_000_000_000 * 1_000_000_000) by (nonlinear_arith)
                requires
                    0 <= q <= 1_000_000_000,
                    0 <= ho <= 1_000_000_000,
            ;
            lemma_multiply_divide_le(q as int * ho as int, 1_000_000_000, 1_000_000_000);
            lemma_div_pos_is_pos(q as int * ho as int, 1_000_000_000);
        }
        let tq: u64 = q * ho / 1_000_000_000;
        hl as i64 + tq as i64
    } else {
        let np: u128 = (-p) as u128;
        let q: u64 = (np / 1_000_000_000) as u64;
        proof {
            lemma_div_pos_is_pos(np as int, 1_000_000_000);
            lemma_multiply_divide_le(np as int, 1_000_000_000, 1_000_000_000);
            assert(q * ho <= 1_000_000_000 * 1_000_000_000) by (nonlinear_arith)
                requires
                    0 <= q <= 1_000_000_000,
                    0 <= ho <= 1_000_000_000,
            ;
            lemma_multiply_divide_le(q as int * ho as int, 1_000_000_000, 1_000_000_000);
            lemma_div_pos_is_pos(q as int * ho as int, 1_000_000_000);
        }
        let tq: u64 = q * ho / 1_000_000_000;
        hl as i64 - tq as i64
    };
    let a: u64 = if apre < 0 {
        0
    } else if apre > 1_000_000_000 {
        1_000_000_000
    } else {
        apre as u64
    };
    proof {
        assert(a == hav_sum_spec(lat1 as int, lon1 as int, lat2 as int, lon2 as int));
    }
    let y: u64 = isqrt64(a * 1_000_000_000);
    let x: u64 = isqrt64((1_000_000_000 - a) * 1_000_000_000);
    proof {
        assert(y <= 1_000_000_000) by (nonlinear_arith)
            requires
                0 <= y,
                y * y <= 1_000_000_000_000_000_000,
        ;
        assert(x <= 1_000_000_000) by (nonlinear_arith)
            requires
                0 <= x,
                x * x <= 1_000_000_000_000_000_000,
        ;
    }
    let ang: u64 = atan2_units(y, x);
    let ca: u64 = 2 * ang;
    proof {
        lemma_distance_bounded(lat1 as int, lon1 as int, lat2 as int, lon2 as int);
        if lat1 == lat2 && lon1 == lon2 {
            lemma_distance_identity(lat1 as int, lon1 as int);
        }
    }
    ca * 6_371_000 / 1_000_000_000
}

} // verus!
