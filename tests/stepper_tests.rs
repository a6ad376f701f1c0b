use telescope_controller::{
    position_to_steps, steps_to_position, MotorPosition, Position, Ratio, TelescopeConfig, ONE,
};

fn custom_config() -> TelescopeConfig {
    TelescopeConfig {
        steps_per_degree_azimuth: Ratio { numer: 400, denom: 360 },
        steps_per_degree_altitude: Ratio { numer: 3200, denom: 360 },
        azimuth_gear_ratio: Ratio { numer: 50, denom: 1 },
        altitude_gear_ratio: Ratio { numer: 7, denom: 2 },
    }
}

#[test]
fn test_position_conversion_roundtrip() {
    let config = TelescopeConfig::default();
    let start_pos = Position { azimuth: 45 * ONE, altitude: 30 * ONE };

    let motor_pos = position_to_steps(start_pos, &config);
    let converted_back = steps_to_position(motor_pos, &config);

    assert!((converted_back.azimuth - start_pos.azimuth).abs() <= ONE / 10);
    assert!((converted_back.altitude - start_pos.altitude).abs() <= ONE / 10);
}

#[test]
fn test_zero_position() {
    let config = TelescopeConfig::default();
    let zero_pos = Position { azimuth: 0, altitude: 0 };

    let motor_pos = position_to_steps(zero_pos, &config);

    assert_eq!(motor_pos.azimuth_steps, 0);
    assert_eq!(motor_pos.altitude_steps, 0);
}

#[test]
fn zero_position_on_custom_config() {
    let motor_pos = position_to_steps(Position { azimuth: 0, altitude: 0 }, &custom_config());
    assert_eq!(motor_pos, MotorPosition { azimuth_steps: 0, altitude_steps: 0 });
}

#[test]
fn default_config_scales() {
    let config = TelescopeConfig::default();
    assert_eq!(config.steps_per_degree_azimuth, Ratio { numer: 3200, denom: 360 });
    assert_eq!(config.steps_per_degree_altitude, Ratio { numer: 3200, denom: 360 });
    assert_eq!(config.azimuth_gear_ratio, Ratio { numer: 100, denom: 1 });
    assert_eq!(config.altitude_gear_ratio, Ratio { numer: 100, denom: 1 });
}

#[test]
fn steps_for_default_config_are_exact() {
    let config = TelescopeConfig::default();
    let motor_pos = position_to_steps(Position { azimuth: 45 * ONE, altitude: 30 * ONE }, &config);
    assert_eq!(motor_pos, MotorPosition { azimuth_steps: 40_000, altitude_steps: 26_666 });
    let back = steps_to_position(motor_pos, &config);
    assert_eq!(back.azimuth, 45 * ONE);
    assert_eq!(back.altitude, 29_999_250_000);
}

#[test]
fn negative_positions_truncate_toward_zero() {
    let config = TelescopeConfig::default();
    let motor_pos = position_to_steps(Position { azimuth: -45 * ONE, altitude: -30 * ONE }, &config);
    assert_eq!(motor_pos, MotorPosition { azimuth_steps: -40_000, altitude_steps: -26_666 });
    let back = steps_to_position(motor_pos, &config);
    assert_eq!(back.altitude, -29_999_250_000);
}

#[test]
fn twice_the_angle_gives_twice_the_steps() {
    let config = TelescopeConfig::default();
    let motor_pos = position_to_steps(Position { azimuth: 720 * ONE, altitude: 0 }, &config);
    assert_eq!(motor_pos.azimuth_steps, 640_000);
    let half = position_to_steps(Position { azimuth: 360 * ONE, altitude: 0 }, &config);
    assert_eq!(half.azimuth_steps * 2, motor_pos.azimuth_steps);
}

#[test]
fn scaled_position_steps_stay_within_factor() {
    let config = custom_config();
    let p = Position { azimuth: 12_345_678_901, altitude: -7_654_321_987 };
    let k: i64 = 3;
    let kp = Position { azimuth: k * p.azimuth, altitude: k * p.altitude };
    let single = position_to_steps(p, &config);
    let scaled = position_to_steps(kp, &config);
    assert!(((scaled.azimuth_steps as i64) - k * (single.azimuth_steps as i64)).abs() < k);
    assert!(((scaled.altitude_steps as i64) - k * (single.altitude_steps as i64)).abs() < k);
}

#[test]
fn custom_config_round_trip() {
    let config = custom_config();
    let p = Position { azimuth: 123_456_789_000, altitude: -12_345_678_000 };
    let motor_pos = position_to_steps(p, &config);
    assert_eq!(motor_pos.azimuth_steps, 6_858);
    assert_eq!(motor_pos.altitude_steps, -384);
    let back = steps_to_position(motor_pos, &config);
    assert!((back.azimuth - p.azimuth).abs() <= ONE / 10);
    assert!((back.altitude - p.altitude).abs() <= ONE / 10);
}

#[test]
fn huge_positions_saturate() {
    let config = TelescopeConfig::default();
    let motor_pos = position_to_steps(Position { azimuth: i64::MAX, altitude: i64::MIN }, &config);
    assert_eq!(motor_pos, MotorPosition { azimuth_steps: i32::MAX, altitude_steps: i32::MIN });
}

#[test]
fn one_step_maps_back_to_one_step() {
    let config = custom_config();
    let motor_pos = MotorPosition { azimuth_steps: 1, altitude_steps: 1 };
    let p = steps_to_position(motor_pos, &config);
    assert_eq!(p.altitude, 32_142_858);
    assert_eq!(position_to_steps(p, &config), motor_pos);
}

#[test]
fn step_counts_survive_the_way_back() {
    let config = custom_config();
    for s in [-1_000_003, -384, -1, 0, 1, 2, 383, 6_858, 77_777, 1_000_003] {
        let motor_pos = MotorPosition { azimuth_steps: s, altitude_steps: -s };
        let p = steps_to_position(motor_pos, &config);
        assert_eq!(position_to_steps(p, &config), motor_pos);
    }
}

#[test]
fn fractional_factor_steps_stay_close() {
    let config = custom_config();
    let p = Position { azimuth: 12_345_678_901, altitude: -7_654_321_987 };
    let (kn, kd): (i64, i64) = (3, 2);
    let kp = Position { azimuth: kn * p.azimuth / kd, altitude: kn * p.altitude / kd };
    let single = position_to_steps(p, &config);
    let scaled = position_to_steps(kp, &config);
    let az_target = kn * single.azimuth_steps as i64 / kd;
    let alt_target = kn * single.altitude_steps as i64 / kd;
    assert!(kd * ((scaled.azimuth_steps as i64) - az_target).abs() < kn.abs() + 2 * kd);
    assert!(kd * ((scaled.altitude_steps as i64) - alt_target).abs() < kn.abs() + 2 * kd);
}
