use haversine::distance::calculate_distance;

// Coordinates are microdegrees; distances are metres.

#[test]
fn identity_is_exactly_zero() {
    assert_eq!(calculate_distance(40_712_800, -74_006_000, 40_712_800, -74_006_000), 0);
    assert_eq!(calculate_distance(0, 0, 0, 0), 0);
    assert_eq!(calculate_distance(-90_000_000, 13_000_000, -90_000_000, 13_000_000), 0);
}

#[test]
fn symmetry_on_landmarks() {
    let there = calculate_distance(40_712_800, -74_006_000, 51_507_400, -127_800);
    let back = calculate_distance(51_507_400, -127_800, 40_712_800, -74_006_000);
    assert_eq!(there, back);
    let there = calculate_distance(-33_865_100, 151_209_300, 48_856_600, 2_352_200);
    let back = calculate_distance(48_856_600, 2_352_200, -33_865_100, 151_209_300);
    assert_eq!(there, back);
}

#[test]
fn new_york_to_london() {
    // About 5570 km.
    let d = calculate_distance(40_712_800, -74_006_000, 51_507_400, -127_800);
    assert!(5_569_000 <= d && d <= 5_571_000, "got {d}");
}

#[test]
fn quarter_circumference_along_equator() {
    // (0, 0) to (0, 90 degrees): about pi/2 * 6371 km.
    let d = calculate_distance(0, 0, 0, 90_000_000);
    assert!(10_006_500 <= d && d <= 10_008_500, "got {d}");
}

#[test]
fn antipodal_points_half_circumference() {
    // (0, 0) to (0, 180 degrees): about pi * 6371 km.
    let d = calculate_distance(0, 0, 0, 180_000_000);
    assert!(20_014_100 <= d && d <= 20_015_087, "got {d}");
}

#[test]
fn pole_to_pole() {
    let d = calculate_distance(90_000_000, 0, -90_000_000, 0);
    assert!(20_014_100 <= d && d <= 20_015_087, "got {d}");
}

#[test]
fn bounded_by_half_circumference() {
    let pairs = [
        (40_712_800, -74_006_000, 51_507_400, -127_800),
        (-33_865_100, 151_209_300, 40_712_800, -74_006_000),
        (48_856_600, 2_352_200, 35_676_200, 139_650_300),
        (0, 0, 0, 180_000_000),
        (89_999_999, 179_999_999, -89_999_999, -179_999_999),
        (12_345_678, -98_765_432, -87_654_321, 23_456_789),
    ];
    for (lat1, lon1, lat2, lon2) in pairs {
        let d = calculate_distance(lat1, lon1, lat2, lon2);
        assert!(d <= 20_015_087, "got {d}");
    }
}

#[test]
fn short_hop_along_equator() {
    // A hundredth of a degree of longitude is about 1.11 km at the equator;
    // the fixed-point grid resolves it to within half a kilometre.
    let d = calculate_distance(0, 0, 0, 10_000);
    assert!(600 <= d && d <= 1_600, "got {d}");
}

#[test]
fn out_of_range_coordinates_are_taken_mechanically() {
    // Latitudes of 200 and 210 degrees are not rejected; the formula treats
    // them as the angles they are, ten degrees apart along a meridian.
    let d = calculate_distance(200_000_000, 0, 210_000_000, 0);
    assert!(1_111_000 <= d && d <= 1_113_000, "got {d}");
}

#[test]
fn distance_grows_to_the_antipode_then_shrinks() {
    // Moving the second point along the equator: non-decreasing out to
    // 180 degrees, then non-increasing on the way back around.
    let lons_up = [0i64, 20, 45, 60, 90, 120, 150, 179, 180];
    let mut prev: u64 = 0;
    for lon in lons_up {
        let d = calculate_distance(0, 0, 0, lon * 1_000_000);
        assert!(d >= prev, "distance shrank before the antipode at {lon}");
        prev = d;
    }
    let lons_down = [180i64, 181, 210, 240, 300, 359, 360];
    for lon in lons_down {
        let d = calculate_distance(0, 0, 0, lon * 1_000_000);
        assert!(d <= prev, "distance grew past the antipode at {lon}");
        prev = d;
    }
    assert_eq!(prev, 0);
}

#[test]
fn paris_to_tokyo() {
    // About 9712 km.
    let d = calculate_distance(48_856_600, 2_352_200, 35_676_200, 139_650_300);
    assert!(9_710_800 <= d && d <= 9_712_800, "got {d}");
}

#[test]
fn full_turn_apart_is_zero_or_nearly() {
    // 360 degrees of longitude apart is the same point on the sphere.
    let d = calculate_distance(10_000_000, 20_000_000, 10_000_000, 380_000_000);
    assert!(d <= 1_000, "got {d}");
}
