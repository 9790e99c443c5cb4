use haversine::atan::atan2_units;
use haversine::trig::{cos_udeg, sin_udeg};

// Angles are microdegrees; sines and cosines come back in billionths.

#[test]
fn sine_of_right_angle_is_exactly_one() {
    assert_eq!(sin_udeg(90_000_000), 1_000_000_000);
}

#[test]
fn cosine_of_zero_is_exactly_one() {
    assert_eq!(cos_udeg(0), 1_000_000_000);
}

#[test]
fn sine_of_thirty_degrees_is_one_half() {
    let s = sin_udeg(30_000_000);
    assert!(499_999_000 <= s && s <= 500_001_000, "got {s}");
}

#[test]
fn cosine_of_sixty_degrees_is_one_half() {
    let c = cos_udeg(60_000_000);
    assert!(499_999_000 <= c && c <= 500_001_000, "got {c}");
}

#[test]
fn sine_of_forty_five_degrees() {
    // sqrt(2)/2 is about 0.707106781.
    let s = sin_udeg(45_000_000);
    assert!(707_000_000 <= s && s <= 707_200_000, "got {s}");
}

#[test]
fn sine_is_odd() {
    assert_eq!(sin_udeg(-30_000_000), -sin_udeg(30_000_000));
    assert_eq!(sin_udeg(-123_456_789), -sin_udeg(123_456_789));
}

#[test]
fn sine_repeats_each_full_turn() {
    assert_eq!(sin_udeg(30_000_000), sin_udeg(30_000_000 + 360_000_000));
    assert_eq!(cos_udeg(60_000_000), cos_udeg(60_000_000 - 360_000_000));
}

#[test]
fn arctangent_of_equal_legs_is_quarter_pi() {
    assert_eq!(atan2_units(1_000_000_000, 1_000_000_000), 785_398_163);
}

#[test]
fn arctangent_of_zero_is_zero() {
    assert_eq!(atan2_units(0, 1_000_000_000), 0);
    assert_eq!(atan2_units(0, 0), 0);
}

#[test]
fn arctangent_of_vertical_is_half_pi() {
    assert_eq!(atan2_units(1_000_000_000, 0), 1_570_796_327);
}
