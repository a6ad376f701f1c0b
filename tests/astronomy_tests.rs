use telescope_controller::astronomy::{
    ALTITUDE_MAX, AZIMUTH_MAX, DEGREE,
};
use telescope_controller::{
    altitude_sine, azimuth_terms, degrees_to_radians, horizontal_position, hour_angle,
    radians_to_degrees, Position, PI, ONE,
};

fn fixed(x: f32) -> i64 {
    (x as f64 * 1e9).round() as i64
}

fn to_real(x: i64) -> f32 {
    (x as f64 / 1e9) as f32
}

fn fixed_radians(x: f32) -> i128 {
    (x as f64 * 1e18).round() as i128
}

fn radians_real(x: i128) -> f32 {
    (x as f64 / 1e18) as f32
}

fn unit(x: f32) -> i64 {
    fixed(x).clamp(-ONE, ONE)
}

fn pointing(ra: f32, dec: f32, lat: f32, lst: f32) -> Position {
    let dec_rad = radians_real(degrees_to_radians(fixed(dec)));
    let lat_rad = radians_real(degrees_to_radians(fixed(lat)));
    let ha = radians_real(hour_angle(fixed(ra), fixed(lst)));
    let (sin_dec, cos_dec) = (unit(libm::sinf(dec_rad)), unit(libm::cosf(dec_rad)));
    let (sin_lat, cos_lat) = (unit(libm::sinf(lat_rad)), unit(libm::cosf(lat_rad)));
    let (sin_ha, cos_ha) = (unit(libm::sinf(ha)), unit(libm::cosf(ha)));
    let sin_alt = altitude_sine(sin_dec, cos_dec, sin_lat, cos_lat, cos_ha);
    let alt = fixed_radians(libm::asinf(to_real(sin_alt)));
    let (y, x) = azimuth_terms(sin_dec, cos_dec, sin_lat, cos_lat, sin_ha, sin_alt);
    let az = fixed_radians(libm::atan2f(to_real(y), to_real(x)));
    horizontal_position(alt, az)
}

fn in_range(pos: Position) -> bool {
    pos.azimuth >= 0 && pos.azimuth <= 360 * ONE && pos.altitude >= -90 * ONE && pos.altitude <= 90 * ONE
}

#[test]
fn test_degree_radian_conversion() {
    assert!((degrees_to_radians(180 * ONE) - PI).abs() <= 1_000_000_000_000);
    assert!((radians_to_degrees(PI) - 180 * ONE).abs() <= 1_000);
    assert!((degrees_to_radians(90 * ONE) - PI / 2).abs() <= 1_000_000_000_000);
}

#[test]
fn conversion_of_right_angles_is_exact() {
    assert_eq!(degrees_to_radians(180 * ONE), PI);
    assert_eq!(degrees_to_radians(90 * ONE), PI / 2);
    assert_eq!(degrees_to_radians(-180 * ONE), -PI);
}

#[test]
fn one_degree_in_radians() {
    assert_eq!(degrees_to_radians(ONE), 17_453_292_519_944_444);
    assert_eq!(radians_to_degrees(1_000_000_000_000_000_000), 57_295_779_514);
}

#[test]
fn degrees_radians_round_trip() {
    for d in [123_456_789_012i64, -987_654_321, 58_000_000, 1, 0, -720 * ONE, i64::MAX, i64::MIN] {
        let back = radians_to_degrees(degrees_to_radians(d));
        assert_eq!(back, d);
    }
}

#[test]
fn hour_angle_is_lst_less_ra() {
    assert_eq!(hour_angle(0, 180 * ONE), PI);
    assert_eq!(hour_angle(100 * ONE, 100 * ONE), 0);
    assert_eq!(hour_angle(180 * ONE, 0), -PI);
}

#[test]
fn altitude_sine_values() {
    let half = ONE / 2;
    assert_eq!(altitude_sine(half, half, half, half, ONE), half);
    assert_eq!(altitude_sine(half, half, half, half, -ONE), 0);
    assert_eq!(altitude_sine(ONE, ONE, ONE, ONE, ONE), ONE);
    assert_eq!(altitude_sine(-ONE, ONE, ONE, ONE, -ONE), -ONE);
}

#[test]
fn azimuth_term_values() {
    let half = ONE / 2;
    assert_eq!(azimuth_terms(ONE, ONE, ONE, ONE, half, half), (-half, half));
    assert_eq!(azimuth_terms(0, half, half, half, -ONE, -ONE), (250_000_000, half));
}

#[test]
fn horizontal_position_values() {
    let pos = horizontal_position(PI / 2, 0);
    assert_eq!(pos.altitude, 90 * ONE);
    assert_eq!(pos.azimuth, 180 * ONE);
    let pos = horizontal_position(0, -PI);
    assert_eq!(pos.azimuth, 0);
}

#[test]
fn horizontal_position_stays_in_range() {
    let pos = horizontal_position(i128::MAX, i128::MIN);
    assert_eq!(pos, Position { azimuth: 0, altitude: ALTITUDE_MAX });
    let pos = horizontal_position(i128::MIN, i128::MAX);
    assert_eq!(pos, Position { azimuth: AZIMUTH_MAX, altitude: -ALTITUDE_MAX });
    let pos = horizontal_position(PI / 2 + 100, PI + 100);
    assert!(in_range(pos));
}

#[test]
fn arcsine_near_right_angle_is_near_zenith() {
    assert!(altitude_of_value(1_553_796_326_000_000_000) >= 89 * DEGREE);
}

fn altitude_of_value(alt_rad: i128) -> i64 {
    horizontal_position(alt_rad, 0).altitude
}

#[test]
fn test_equatorial_to_horizontal_polaris() {
    let ra = 37.95;
    let dec = 89.26;
    let lat = 40.0;
    let lst = 37.95;

    let pos = pointing(ra, dec, lat, lst);

    assert!((to_real(pos.altitude) - lat).abs() <= 2.0);
}

#[test]
fn test_equatorial_to_horizontal_zenith() {
    let lat = 40.0;
    let dec = lat;
    let ra = 100.0;
    let lst = ra;

    let pos = pointing(ra, dec, lat, lst);

    assert!((to_real(pos.altitude) - 90.0).abs() <= 1.0);
}

#[test]
fn test_star_tracking_sirius() {
    let sirius_ra: f32 = 101.287;
    let sirius_dec: f32 = -16.716;
    let observer_lat: f32 = 38.6783;

    let lst_values: [f32; 4] = [90.0, 101.287, 120.0, 150.0];

    for lst in lst_values.iter() {
        let pos = pointing(sirius_ra, sirius_dec, observer_lat, *lst);

        assert!(pos.azimuth >= 0 && pos.azimuth <= 360 * ONE);
        assert!(pos.altitude >= -90 * ONE && pos.altitude <= 90 * ONE);

        if (lst - sirius_ra).abs() < 1.0 {
            assert!(pos.altitude > -20 * ONE);
        }
    }
}

#[test]
fn test_coordinate_system_consistency() {
    let test_objects: [(f32, f32); 4] = [(0.0, 0.0), (90.0, 0.0), (180.0, 0.0), (270.0, 0.0)];

    let observer_lat: f32 = 45.0;

    for (ra, dec) in test_objects.iter() {
        for lst_offset in [0.0f32, 90.0, 180.0, 270.0].iter() {
            let lst = ra + lst_offset;
            let pos = pointing(*ra, *dec, observer_lat, lst);

            assert!(pos.azimuth >= 0 && pos.azimuth <= 360 * ONE);
            assert!(pos.altitude >= -90 * ONE && pos.altitude <= 90 * ONE);
        }
    }
}

#[test]
fn zenith_culmination_points_up() {
    for lat in [-60.0f32, 0.0, 12.5, 40.0, 75.0] {
        let pos = pointing(200.0, lat, lat, 200.0);
        assert!((to_real(pos.altitude) - 90.0).abs() <= 1.0);
    }
}

#[test]
fn equator_transit_altitude_is_colatitude() {
    let pos = pointing(0.0, 0.0, 45.0, 0.0);
    assert!((to_real(pos.altitude) - 45.0).abs() <= 1e-3);
    assert_eq!(pos.azimuth, AZIMUTH_MAX);
}

#[test]
fn small_angle_conversion_is_precise() {
    let d: i64 = 1_000_000;
    let r = degrees_to_radians(d);
    assert_eq!(r, 17_453_292_519_944);
    let exact = d as f64 * std::f64::consts::PI / 180.0 * 1e9;
    assert!(((r as f64) - exact).abs() <= 1e-6 * exact);
    assert_eq!(radians_to_degrees(r), d);
}
