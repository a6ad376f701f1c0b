use crate::fixed::{
    away_div, clamp, div_away_from_zero, div_toward_zero, lemma_away_div_remainder, lemma_trunc_div_remainder,
    lemma_trunc_div_scaled, lemma_trunc_div_unique, magnitude, trunc_div, ONE,
};
use crate::{Degrees, MotorPosition, Position, Steps};
use vstd::prelude::*;

verus! {

/// A positive real number held as the ratio of two integers.
#[derive(Debug, Clone, Copy, PartialEq, Eq, Structural)]
pub struct Ratio {
    pub numer: u32,
    pub denom: u32,
}

impl Ratio {
    /// Both terms are positive.
    pub open spec fn wf(self) -> bool {
        self.numer > 0 && self.denom > 0
    }
}

/// Full steps in one turn of the motor shaft in the default configuration.
pub const FULL_STEPS_PER_REVOLUTION: u32 = 200;

/// Microsteps per full step in the default configuration.
pub const MICROSTEPS: u32 = 16;

/// Turns of the motor per turn of the telescope axis in the default configuration.
pub const GEAR_REDUCTION: u32 = 100;

/// Mechanical scales of the mount: motor steps per degree of motor shaft and
/// the reduction between shaft and telescope axis, for each axis.
#[derive(Debug, Clone, Copy, PartialEq, Eq, Structural)]
pub struct TelescopeConfig {
    pub steps_per_degree_azimuth: Ratio,
    pub steps_per_degree_altitude: Ratio,
    pub azimuth_gear_ratio: Ratio,
    pub altitude_gear_ratio: Ratio,
}

impl TelescopeConfig {
    /// All four scales are positive, and each axis takes at most one step per
    /// billionth of a degree of sky, the resolution of `Degrees`: a finer axis
    /// would have step counts that no angle can tell apart. (A real mount takes
    /// some hundreds or thousands of steps per degree.)
    pub open spec fn wf(self) -> bool {
        &&& self.steps_per_degree_azimuth.wf()
        &&& self.steps_per_degree_altitude.wf()
        &&& self.azimuth_gear_ratio.wf()
        &&& self.altitude_gear_ratio.wf()
        &&& scale_numer(self.steps_per_degree_azimuth, self.azimuth_gear_ratio) <= ONE * scale_denom(
            self.steps_per_degree_azimuth,
            self.azimuth_gear_ratio,
        )
        &&& scale_numer(self.steps_per_degree_altitude, self.altitude_gear_ratio) <= ONE * scale_denom(
            self.steps_per_degree_altitude,
            self.altitude_gear_ratio,
        )
    }
}

impl Default for TelescopeConfig {
    /// 200 full steps per turn with 16 microsteps, over 360 degrees, and a
    /// 100:1 reduction on both axes.
    fn default() -> (c: Self)
        ensures
            c.wf(),
            c.steps_per_degree_azimuth == (Ratio { numer: 3200, denom: 360 }),
            c.steps_per_degree_altitude == (Ratio { numer: 3200, denom: 360 }),
            c.azimuth_gear_ratio == (Ratio { numer: 100, denom: 1 }),
            c.altitude_gear_ratio == (Ratio { numer: 100, denom: 1 }),
    {
        let steps_per_degree = Ratio { numer: FULL_STEPS_PER_REVOLUTION * MICROSTEPS, denom: 360 };
        let gear = Ratio { numer: GEAR_REDUCTION, denom: 1 };
        TelescopeConfig {
            steps_per_degree_azimuth: steps_per_degree,
            steps_per_degree_altitude: steps_per_degree,
            azimuth_gear_ratio: gear,
            altitude_gear_ratio: gear,
        }
    }
}

/// Motor steps per `ONE * scale_denom` fixed-point units of sky angle.
pub open spec fn scale_numer(steps_per_degree: Ratio, gear: Ratio) -> int {
    steps_per_degree.numer * gear.numer
}

/// Denominator of the combined scale of an axis.
pub open spec fn scale_denom(steps_per_degree: Ratio, gear: Ratio) -> int {
    steps_per_degree.denom * gear.denom
}

/// Steps for an angle before saturation: `angle * steps_per_degree * gear`,
/// rounded toward zero.
pub open spec fn raw_steps(angle: int, steps_per_degree: Ratio, gear: Ratio) -> int {
    trunc_div(angle * scale_numer(steps_per_degree, gear), ONE * scale_denom(steps_per_degree, gear))
}

/// Steps for an angle, saturated to the range of `Steps`.
pub open spec fn steps_of(angle: int, steps_per_degree: Ratio, gear: Ratio) -> int {
    clamp(raw_steps(angle, steps_per_degree, gear), i32::MIN as int, i32::MAX as int)
}

/// Angle for a step count: `steps / (steps_per_degree * gear)`, rounded away
/// from zero, so that the angle maps back to the same step count.
pub open spec fn angle_of(steps: int, steps_per_degree: Ratio, gear: Ratio) -> int {
    away_div(steps * ONE * scale_denom(steps_per_degree, gear), scale_numer(steps_per_degree, gear))
}

/// Products of two `u32` values are below `2^64`.
proof fn lemma_u32_product(a: u32, b: u32)
    ensures
        0 <= a * b <= 0xffff_ffff * 0xffff_ffff,
{
    assert(0 <= a * b <= 0xffff_ffff * 0xffff_ffff) by (nonlinear_arith)
        requires
            0 <= a <= 0xffff_ffff,
            0 <= b <= 0xffff_ffff,
    ;
}

/// Steps of one axis.
fn axis_steps(angle: Degrees, steps_per_degree: Ratio, gear: Ratio) -> (s: Steps)
    requires
        steps_per_degree.wf(),
        gear.wf(),
    ensures
        s == steps_of(angle as int, steps_per_degree, gear),
{
    proof {
        lemma_u32_product(steps_per_degree.numer, gear.numer);
        lemma_u32_product(steps_per_degree.denom, gear.denom);
    }
    let n = (steps_per_degree.numer as i128) * (gear.numer as i128);
    let d = (steps_per_degree.denom as i128) * (gear.denom as i128);
    proof {
        assert(-0x8000_0000_0000_0000 * 0xffff_ffff * 0xffff_ffff <= angle * n <= 0x8000_0000_0000_0000
            * 0xffff_ffff * 0xffff_ffff) by (nonlinear_arith)
            requires
                -0x8000_0000_0000_0000 <= angle <= 0x8000_0000_0000_0000,
                0 <= n <= 0xffff_ffff * 0xffff_ffff,
        ;
        assert(ONE * d <= ONE * (0xffff_ffff * 0xffff_ffff)) by (nonlinear_arith)
            requires
                0 <= d <= 0xffff_ffff * 0xffff_ffff,
                ONE > 0,
        ;
        assert(d >= 1) by (nonlinear_arith)
            requires
                d == steps_per_degree.denom * gear.denom,
                steps_per_degree.denom >= 1,
                gear.denom >= 1,
        ;
    }
    let q = div_toward_zero((angle as i128) * n, (ONE as i128) * d);
    if q < i32::MIN as i128 {
        i32::MIN
    } else if q > i32::MAX as i128 {
        i32::MAX
    } else {
        q as i32
    }
}

/// Angle of one axis.
fn axis_angle(steps: Steps, steps_per_degree: Ratio, gear: Ratio) -> (a: Degrees)
    requires
        steps_per_degree.wf(),
        gear.wf(),
        i64::MIN <= angle_of(steps as int, steps_per_degree, gear) <= i64::MAX,
    ensures
        a == angle_of(steps as int, steps_per_degree, gear),
{
    proof {
        lemma_u32_product(steps_per_degree.numer, gear.numer);
        lemma_u32_product(steps_per_degree.denom, gear.denom);
    }
    let n = (steps_per_degree.numer as i128) * (gear.numer as i128);
    let d = (steps_per_degree.denom as i128) * (gear.denom as i128);
    proof {
        assert(-0x8000_0000 * ONE * 0xffff_ffff * 0xffff_ffff <= steps * ONE * d <= 0x8000_0000 * ONE
            * 0xffff_ffff * 0xffff_ffff) by (nonlinear_arith)
            requires
                -0x8000_0000 <= steps <= 0x8000_0000,
                0 <= d <= 0xffff_ffff * 0xffff_ffff,
                ONE > 0,
        ;
        assert(n >= 1) by (nonlinear_arith)
            requires
                n == steps_per_degree.numer * gear.numer,
                steps_per_degree.numer >= 1,
                gear.numer >= 1,
        ;
    }
    assert(n <= 0xffff_ffff * 0xffff_ffff);
    div_away_from_zero((steps as i128) * (ONE as i128) * d, n) as i64
}

/// Motor steps that point the mount at `pos`: each angle times the axis's
/// steps per degree and gear ratio, rounded toward zero and saturated to the
/// range of `Steps`.
pub fn position_to_steps(pos: Position, config: &TelescopeConfig) -> (m: MotorPosition)
    requires
        config.wf(),
    ensures
        m.azimuth_steps == steps_of(pos.azimuth as int, config.steps_per_degree_azimuth, config.azimuth_gear_ratio),
        m.altitude_steps == steps_of(pos.altitude as int, config.steps_per_degree_altitude, config.altitude_gear_ratio),
{
    let azimuth_steps = axis_steps(pos.azimuth, config.steps_per_degree_azimuth, config.azimuth_gear_ratio);
    let altitude_steps = axis_steps(pos.altitude, config.steps_per_degree_altitude, config.altitude_gear_ratio);
    MotorPosition { azimuth_steps, altitude_steps }
}

/// Position that the mount points at for step counts `motor_pos`: each count
/// divided by the axis's steps per degree and gear ratio, rounded away from zero so
/// that the angle maps back to the same counts.
pub fn steps_to_position(motor_pos: MotorPosition, config: &TelescopeConfig) -> (p: Position)
    requires
        config.wf(),
        i64::MIN <= angle_of(motor_pos.azimuth_steps as int, config.steps_per_degree_azimuth, config.azimuth_gear_ratio) <= i64::MAX,
        i64::MIN <= angle_of(motor_pos.altitude_steps as int, config.steps_per_degree_altitude, config.altitude_gear_ratio) <= i64::MAX,
    ensures
        p.azimuth == angle_of(motor_pos.azimuth_steps as int, config.steps_per_degree_azimuth, config.azimuth_gear_ratio),
        p.altitude == angle_of(motor_pos.altitude_steps as int, config.steps_per_degree_altitude, config.altitude_gear_ratio),
{
    let azimuth = axis_angle(motor_pos.azimuth_steps, config.steps_per_degree_azimuth, config.azimuth_gear_ratio);
    let altitude = axis_angle(motor_pos.altitude_steps, config.steps_per_degree_altitude, config.altitude_gear_ratio);
    Position { azimuth, altitude }
}

/// Round trip of one axis: the angle moves toward zero, by less than one
/// step's worth of angle.
proof fn lemma_axis_round_trip(a: int, n: int, d: int)
    requires
        n >= 1,
        d >= 1,
    ensures
        ({
            let back = away_div(trunc_div(a * n, ONE * d) * ONE * d, n);
            &&& a >= 0 ==> 0 <= back <= a && (a - back) * n < ONE * d
            &&& a < 0 ==> a <= back <= 0 && (back - a) * n < ONE * d
        }),
{
    let b = ONE * d;
    let s = trunc_div(a * n, b);
    let t = s * ONE * d;
    let back = away_div(t, n);
    assert(b >= 1) by (nonlinear_arith)
        requires
            b == ONE * d,
            d >= 1,
            ONE > 0,
    ;
    assert(t == s * b) by (nonlinear_arith)
        requires
            t == s * ONE * d,
            b == ONE * d,
    ;
    lemma_trunc_div_remainder(a * n, b);
    lemma_away_div_remainder(t, n);
    if a >= 0 {
        assert(a * n >= 0) by (nonlinear_arith)
            requires
                a >= 0,
                n >= 1,
        ;
        assert(t >= 0) by (nonlinear_arith)
            requires
                t == s * b,
                s >= 0,
                b >= 1,
        ;
        assert(0 <= back <= a && (a - back) * n < b) by (nonlinear_arith)
            requires
                0 <= a * n - b * s < b,
                0 <= n * back - t < n,
                back >= 0,
                t == s * b,
                n >= 1,
        ;
    } else {
        assert(a * n < 0) by (nonlinear_arith)
            requires
                a < 0,
                n >= 1,
        ;
        assert(t <= 0) by (nonlinear_arith)
            requires
                t == s * b,
                s <= 0,
                b >= 1,
        ;
        if t == 0 {
            assert(back == 0) by (nonlinear_arith)
                requires
                    0 <= n * back < n,
            ;
        }
        assert(a <= back <= 0 && (back - a) * n < b) by (nonlinear_arith)
            requires
                -b < a * n - b * s <= 0,
                t < 0 ==> -n < n * back - t <= 0 && back <= 0,
                t == 0 ==> back == 0,
                t <= 0,
                t == s * b,
                n >= 1,
        ;
    }
}

/// Positive terms give a positive product.
proof fn lemma_positive_product(a: u32, b: u32)
    requires
        a >= 1,
        b >= 1,
    ensures
        a * b >= 1,
{
    assert(a * b >= 1) by (nonlinear_arith)
        requires
            a >= 1,
            b >= 1,
    ;
}

/// Round trip of one axis, stated on the configuration's ratios.
proof fn lemma_axis_round_trip_ratio(a: int, steps_per_degree: Ratio, gear: Ratio)
    requires
        steps_per_degree.wf(),
        gear.wf(),
        i32::MIN <= raw_steps(a, steps_per_degree, gear) <= i32::MAX,
    ensures
        ({
            let n = scale_numer(steps_per_degree, gear);
            let d = scale_denom(steps_per_degree, gear);
            let back = angle_of(steps_of(a, steps_per_degree, gear), steps_per_degree, gear);
            &&& a >= 0 ==> 0 <= back <= a
            &&& a < 0 ==> a <= back <= 0
            &&& magnitude(back - a) * n < ONE * d
            &&& n >= 10 * d ==> magnitude(back - a) <= ONE / 10
        }),
{
    let n = scale_numer(steps_per_degree, gear);
    let d = scale_denom(steps_per_degree, gear);
    lemma_positive_product(steps_per_degree.numer, gear.numer);
    lemma_positive_product(steps_per_degree.denom, gear.denom);
    lemma_axis_round_trip(a, n, d);
    let e = magnitude(angle_of(steps_of(a, steps_per_degree, gear), steps_per_degree, gear) - a);
    assert(n >= 10 * d ==> e <= ONE / 10) by (nonlinear_arith)
        requires
            e * n < ONE * d,
            e >= 0,
            n >= 1,
            d >= 1,
            ONE == 1_000_000_000,
    ;
}

/// Converting a position to steps and back moves each angle toward zero by
/// less than one step's worth of angle. On an
/// axis with at least ten steps per degree of sky that is at most a tenth of a
/// degree. This holds wherever the step counts do not saturate; the way back
/// then always fits.
pub proof fn lemma_position_round_trip(p: Position, config: TelescopeConfig)
    requires
        config.wf(),
        i32::MIN <= raw_steps(p.azimuth as int, config.steps_per_degree_azimuth, config.azimuth_gear_ratio) <= i32::MAX,
        i32::MIN <= raw_steps(p.altitude as int, config.steps_per_degree_altitude, config.altitude_gear_ratio) <= i32::MAX,
    ensures
        ({
            let az_spd = config.steps_per_degree_azimuth;
            let az_gear = config.azimuth_gear_ratio;
            let alt_spd = config.steps_per_degree_altitude;
            let alt_gear = config.altitude_gear_ratio;
            let az_back = angle_of(steps_of(p.azimuth as int, az_spd, az_gear), az_spd, az_gear);
            let alt_back = angle_of(steps_of(p.altitude as int, alt_spd, alt_gear), alt_spd, alt_gear);
            &&& i64::MIN <= az_back <= i64::MAX
            &&& i64::MIN <= alt_back <= i64::MAX
            &&& p.azimuth >= 0 ==> 0 <= az_back <= p.azimuth
            &&& p.azimuth < 0 ==> p.azimuth <= az_back <= 0
            &&& p.altitude >= 0 ==> 0 <= alt_back <= p.altitude
            &&& p.altitude < 0 ==> p.altitude <= alt_back <= 0
            &&& magnitude(az_back - p.azimuth) * scale_numer(az_spd, az_gear) < ONE * scale_denom(az_spd, az_gear)
            &&& magnitude(alt_back - p.altitude) * scale_numer(alt_spd, alt_gear) < ONE * scale_denom(alt_spd, alt_gear)
            &&& scale_numer(az_spd, az_gear) >= 10 * scale_denom(az_spd, az_gear) ==> magnitude(az_back - p.azimuth) <= ONE / 10
            &&& scale_numer(alt_spd, alt_gear) >= 10 * scale_denom(alt_spd, alt_gear) ==> magnitude(alt_back - p.altitude) <= ONE / 10
        }),
{
    lemma_axis_round_trip_ratio(p.azimuth as int, config.steps_per_degree_azimuth, config.azimuth_gear_ratio);
    lemma_axis_round_trip_ratio(p.altitude as int, config.steps_per_degree_altitude, config.altitude_gear_ratio);
}

/// An angle that came from a step count maps back to that count, on an axis
/// with at most one step per billionth of a degree.
proof fn lemma_axis_steps_round_trip(s: int, steps_per_degree: Ratio, gear: Ratio)
    requires
        steps_per_degree.wf(),
        gear.wf(),
        scale_numer(steps_per_degree, gear) <= ONE * scale_denom(steps_per_degree, gear),
        i32::MIN <= s <= i32::MAX,
    ensures
        steps_of(angle_of(s, steps_per_degree, gear), steps_per_degree, gear) == s,
{
    let n = scale_numer(steps_per_degree, gear);
    let d = scale_denom(steps_per_degree, gear);
    lemma_positive_product(steps_per_degree.numer, gear.numer);
    lemma_positive_product(steps_per_degree.denom, gear.denom);
    let b = ONE * d;
    let t = s * ONE * d;
    let back = angle_of(s, steps_per_degree, gear);
    assert(b >= 1 && t == s * b) by (nonlinear_arith)
        requires
            b == ONE * d,
            t == s * ONE * d,
            d >= 1,
    ;
    lemma_away_div_remainder(t, n);
    if s >= 0 {
        assert(t >= 0) by (nonlinear_arith)
            requires
                t == s * b,
                s >= 0,
                b >= 1,
        ;
        assert(back * n >= 0) by (nonlinear_arith)
            requires
                back >= 0,
                n >= 1,
        ;
        assert(b * s <= back * n < b * s + b) by (nonlinear_arith)
            requires
                0 <= n * back - t < n,
                t == s * b,
                n <= b,
        ;
    } else {
        assert(t < 0) by (nonlinear_arith)
            requires
                t == s * b,
                s < 0,
                b >= 1,
        ;
        assert(back * n <= 0) by (nonlinear_arith)
            requires
                back <= 0,
                n >= 1,
        ;
        assert(back * n < 0 ==> b * s - b < back * n <= b * s) by (nonlinear_arith)
            requires
                -n < n * back - t <= 0,
                t == s * b,
                n <= b,
        ;
        assert(back * n < 0) by (nonlinear_arith)
            requires
                n * back <= t,
                t < 0,
        ;
    }
    lemma_trunc_div_unique(back * n, b, s);
}

/// Step counts are an exact grid for the way back: converting steps to a
/// position and that position to steps returns the same counts, for every
/// well-formed configuration.
pub proof fn lemma_steps_round_trip(m: MotorPosition, config: TelescopeConfig)
    requires
        config.wf(),
    ensures
        steps_of(
            angle_of(m.azimuth_steps as int, config.steps_per_degree_azimuth, config.azimuth_gear_ratio),
            config.steps_per_degree_azimuth,
            config.azimuth_gear_ratio,
        ) == m.azimuth_steps,
        steps_of(
            angle_of(m.altitude_steps as int, config.steps_per_degree_altitude, config.altitude_gear_ratio),
            config.steps_per_degree_altitude,
            config.altitude_gear_ratio,
        ) == m.altitude_steps,
{
    lemma_axis_steps_round_trip(m.azimuth_steps as int, config.steps_per_degree_azimuth, config.azimuth_gear_ratio);
    lemma_axis_steps_round_trip(m.altitude_steps as int, config.steps_per_degree_altitude, config.altitude_gear_ratio);
}

/// Steps of one axis are linear in the angle up to rounding.
proof fn lemma_axis_linear(a: int, k: int, steps_per_degree: Ratio, gear: Ratio)
    requires
        steps_per_degree.wf(),
        gear.wf(),
    ensures
        k != 0 ==> magnitude(raw_steps(k * a, steps_per_degree, gear) - k * raw_steps(a, steps_per_degree, gear))
            < magnitude(k),
        k == 0 ==> raw_steps(k * a, steps_per_degree, gear) == 0,
{
    let n = scale_numer(steps_per_degree, gear);
    let d = scale_denom(steps_per_degree, gear);
    lemma_positive_product(steps_per_degree.denom, gear.denom);
    assert(ONE * d >= 1) by (nonlinear_arith)
        requires
            d >= 1,
    ;
    assert((k * a) * n == k * (a * n)) by (nonlinear_arith);
    lemma_trunc_div_scaled(a * n, k, ONE * d);
}

/// Steps are linear in the position up to rounding: for an integer factor `k`,
/// the steps for `k` times a position differ from `k` times its steps by less
/// than `|k|` on each axis, and are zero for a factor of zero. This holds
/// wherever neither step count saturates.
pub proof fn lemma_steps_linear(p: Position, k: int, config: TelescopeConfig)
    requires
        config.wf(),
        i32::MIN <= raw_steps(p.azimuth as int, config.steps_per_degree_azimuth, config.azimuth_gear_ratio) <= i32::MAX,
        i32::MIN <= raw_steps(p.altitude as int, config.steps_per_degree_altitude, config.altitude_gear_ratio) <= i32::MAX,
        i32::MIN <= raw_steps(k * p.azimuth, config.steps_per_degree_azimuth, config.azimuth_gear_ratio) <= i32::MAX,
        i32::MIN <= raw_steps(k * p.altitude, config.steps_per_degree_altitude, config.altitude_gear_ratio) <= i32::MAX,
    ensures
        ({
            let az_spd = config.steps_per_degree_azimuth;
            let az_gear = config.azimuth_gear_ratio;
            let alt_spd = config.steps_per_degree_altitude;
            let alt_gear = config.altitude_gear_ratio;
            &&& k != 0 ==> magnitude(steps_of(k * p.azimuth, az_spd, az_gear) - k * steps_of(p.azimuth as int, az_spd, az_gear))
                < magnitude(k)
            &&& k != 0 ==> magnitude(steps_of(k * p.altitude, alt_spd, alt_gear) - k * steps_of(p.altitude as int, alt_spd, alt_gear))
                < magnitude(k)
            &&& k == 0 ==> steps_of(k * p.azimuth, az_spd, az_gear) == 0
            &&& k == 0 ==> steps_of(k * p.altitude, alt_spd, alt_gear) == 0
        }),
{
    lemma_axis_linear(p.azimuth as int, k, config.steps_per_degree_azimuth, config.azimuth_gear_ratio);
    lemma_axis_linear(p.altitude as int, k, config.steps_per_degree_altitude, config.altitude_gear_ratio);
}

/// Steps of one axis for a fractional factor `kn / kd`: the steps for the
/// scaled angle stay within `|k| + 2` of `k` times the angle's steps.
proof fn lemma_axis_scaled(a: int, kn: int, kd: int, steps_per_degree: Ratio, gear: Ratio)
    requires
        steps_per_degree.wf(),
        gear.wf(),
        kd >= 1,
        scale_numer(steps_per_degree, gear) <= ONE * scale_denom(steps_per_degree, gear),
    ensures
        kd * magnitude(
            raw_steps(trunc_div(kn * a, kd), steps_per_degree, gear) - trunc_div(
                kn * raw_steps(a, steps_per_degree, gear),
                kd,
            ),
        ) < magnitude(kn) + 2 * kd,
{
    let n = scale_numer(steps_per_degree, gear);
    let d = scale_denom(steps_per_degree, gear);
    lemma_positive_product(steps_per_degree.numer, gear.numer);
    lemma_positive_product(steps_per_degree.denom, gear.denom);
    let bb = ONE * d;
    assert(bb >= 1) by (nonlinear_arith)
        requires
            bb == ONE * d,
            d >= 1,
    ;
    let x = a * n;
    let q1 = trunc_div(x, bb);
    let b = trunc_div(kn * a, kd);
    let q2 = trunc_div(b * n, bb);
    let t = trunc_div(kn * q1, kd);
    let r1 = x - bb * q1;
    let e1 = kn * a - kd * b;
    let r2 = b * n - bb * q2;
    let e3 = kn * q1 - kd * t;
    lemma_trunc_div_remainder(x, bb);
    lemma_trunc_div_remainder(kn * a, kd);
    lemma_trunc_div_remainder(b * n, bb);
    lemma_trunc_div_remainder(kn * q1, kd);
    assert(-bb < r1 < bb && -kd < e1 < kd && -bb < r2 < bb && -kd < e3 < kd);
    let an = kn * (a * n);
    let bn = kd * (b * n);
    let p1 = kn * (bb * q1);
    let p2 = (kd * bb) * q2;
    let p3 = (kd * bb) * t;
    assert(e1 * n == an - bn) by (nonlinear_arith)
        requires
            e1 == kn * a - kd * b,
            an == kn * (a * n),
            bn == kd * (b * n),
    ;
    assert(kd * r2 == bn - p2) by (nonlinear_arith)
        requires
            r2 == b * n - bb * q2,
            bn == kd * (b * n),
            p2 == (kd * bb) * q2,
    ;
    assert(kn * r1 == an - p1) by (nonlinear_arith)
        requires
            r1 == a * n - bb * q1,
            an == kn * (a * n),
            p1 == kn * (bb * q1),
    ;
    assert(bb * e3 == p1 - p3) by (nonlinear_arith)
        requires
            e3 == kn * q1 - kd * t,
            p1 == kn * (bb * q1),
            p3 == (kd * bb) * t,
    ;
    assert(kd * bb * (q2 - t) == p2 - p3) by (nonlinear_arith)
        requires
            p2 == (kd * bb) * q2,
            p3 == (kd * bb) * t,
    ;
    assert(kd * bb * (q2 - t) == -(e1 * n) - kd * r2 + kn * r1 + bb * e3);
    let m = magnitude(kn);
    assert((a >= 0 ==> x >= 0) && (a <= 0 ==> x <= 0)) by (nonlinear_arith)
        requires
            x == a * n,
            n >= 1,
    ;
    assert((b >= 0 ==> b * n >= 0) && (b <= 0 ==> b * n <= 0)) by (nonlinear_arith)
        requires
            n >= 1,
    ;
    assert(a >= 0 ==> 0 <= r1 && q1 >= 0);
    assert(a <= 0 ==> r1 <= 0 && q1 <= 0);
    assert(kn * a >= 0 ==> 0 <= e1 && b >= 0);
    assert(kn * a <= 0 ==> e1 <= 0 && b <= 0);
    assert(b >= 0 ==> 0 <= r2);
    assert(b <= 0 ==> r2 <= 0);
    assert(kn * q1 >= 0 ==> 0 <= e3);
    assert(kn * q1 <= 0 ==> e3 <= 0);
    if kn * a >= 0 {
        assert(kn * r1 >= 0 && kn * q1 >= 0) by (nonlinear_arith)
            requires
                kn * a >= 0,
                a >= 0 ==> 0 <= r1 && q1 >= 0,
                a <= 0 ==> r1 <= 0 && q1 <= 0,
        ;
        assert(0 <= e1 * n < kd * bb && 0 <= kd * r2 < kd * bb && 0 <= kn * r1 <= m * bb && 0 <= bb * e3 < kd * bb) by (nonlinear_arith)
            requires
                0 <= e1 < kd,
                1 <= n <= bb,
                0 <= r2 < bb,
                kd >= 1,
                0 <= e3 < kd,
                -bb < r1 < bb,
                kn * r1 >= 0,
                m == magnitude(kn),
        ;
    } else {
        assert(kn * r1 <= 0 && kn * q1 <= 0) by (nonlinear_arith)
            requires
                kn * a < 0,
                a >= 0 ==> 0 <= r1 && q1 >= 0,
                a <= 0 ==> r1 <= 0 && q1 <= 0,
        ;
        assert(-(kd * bb) < e1 * n <= 0 && -(kd * bb) < kd * r2 <= 0 && -(m * bb) <= kn * r1 <= 0 && -(kd * bb) < bb * e3 <= 0) by (nonlinear_arith)
            requires
                -kd < e1 <= 0,
                1 <= n <= bb,
                -bb < r2 <= 0,
                kd >= 1,
                -kd < e3 <= 0,
                -bb < r1 < bb,
                kn * r1 <= 0,
                m == magnitude(kn),
        ;
    }
    assert(kd * magnitude(q2 - t) < m + 2 * kd) by (nonlinear_arith)
        requires
            kd * bb * (q2 - t) == -(e1 * n) - kd * r2 + kn * r1 + bb * e3,
            -(m * bb) - kd * bb - kd * bb < -(e1 * n) - kd * r2 + kn * r1 + bb * e3 < m * bb + kd * bb + kd * bb,
            bb >= 1,
            kd >= 1,
            m >= 0,
    ;
}

/// Steps are linear in the position up to rounding for a fractional factor
/// `k = kn / kd` too: with the scaled position taken as `k` times each angle
/// rounded toward zero, its steps stay within `|k| + 2` of `k` times the
/// position's steps rounded toward zero. This holds wherever the scaled
/// position fits and no step count saturates.
pub proof fn lemma_steps_scaled(p: Position, kn: int, kd: int, config: TelescopeConfig)
    requires
        config.wf(),
        kd >= 1,
        i32::MIN <= raw_steps(p.azimuth as int, config.steps_per_degree_azimuth, config.azimuth_gear_ratio) <= i32::MAX,
        i32::MIN <= raw_steps(p.altitude as int, config.steps_per_degree_altitude, config.altitude_gear_ratio) <= i32::MAX,
        i32::MIN <= raw_steps(trunc_div(kn * p.azimuth, kd), config.steps_per_degree_azimuth, config.azimuth_gear_ratio)
            <= i32::MAX,
        i32::MIN <= raw_steps(trunc_div(kn * p.altitude, kd), config.steps_per_degree_altitude, config.altitude_gear_ratio)
            <= i32::MAX,
    ensures
        ({
            let az_spd = config.steps_per_degree_azimuth;
            let az_gear = config.azimuth_gear_ratio;
            let alt_spd = config.steps_per_degree_altitude;
            let alt_gear = config.altitude_gear_ratio;
            &&& kd * magnitude(
                steps_of(trunc_div(kn * p.azimuth, kd), az_spd, az_gear) - trunc_div(kn * steps_of(p.azimuth as int, az_spd, az_gear), kd),
            ) < magnitude(kn) + 2 * kd
            &&& kd * magnitude(
                steps_of(trunc_div(kn * p.altitude, kd), alt_spd, alt_gear) - trunc_div(kn * steps_of(p.altitude as int, alt_spd, alt_gear), kd),
            ) < magnitude(kn) + 2 * kd
        }),
{
    lemma_axis_scaled(p.azimuth as int, kn, kd, config.steps_per_degree_azimuth, config.azimuth_gear_ratio);
    lemma_axis_scaled(p.altitude as int, kn, kd, config.steps_per_degree_altitude, config.altitude_gear_ratio);
}

/// The zero position takes zero steps on both axes, and zero steps give the
/// zero position, for every configuration.
pub proof fn lemma_zero_position(config: TelescopeConfig)
    requires
        config.wf(),
    ensures
        steps_of(0, config.steps_per_degree_azimuth, config.azimuth_gear_ratio) == 0,
        steps_of(0, config.steps_per_degree_altitude, config.altitude_gear_ratio) == 0,
        angle_of(0, config.steps_per_degree_azimuth, config.azimuth_gear_ratio) == 0,
        angle_of(0, config.steps_per_degree_altitude, config.altitude_gear_ratio) == 0,
{
    lemma_axis_linear(0, 0, config.steps_per_degree_azimuth, config.azimuth_gear_ratio);
    lemma_axis_linear(0, 0, config.steps_per_degree_altitude, config.altitude_gear_ratio);
    lemma_axis_zero_angle(config.steps_per_degree_azimuth, config.azimuth_gear_ratio);
    lemma_axis_zero_angle(config.steps_per_degree_altitude, config.altitude_gear_ratio);
}

/// Zero steps of one axis are the zero angle.
proof fn lemma_axis_zero_angle(steps_per_degree: Ratio, gear: Ratio)
    requires
        steps_per_degree.wf(),
        gear.wf(),
    ensures
        angle_of(0, steps_per_degree, gear) == 0,
{
    let n = scale_numer(steps_per_degree, gear);
    lemma_positive_product(steps_per_degree.numer, gear.numer);
    assert(0 * ONE * scale_denom(steps_per_degree, gear) == 0) by (nonlinear_arith);
    lemma_away_div_remainder(0, n);
    let q = away_div(0, n);
    assert(q == 0) by (nonlinear_arith)
        requires
            0 <= n * q < n,
    ;
}

} // verus!
