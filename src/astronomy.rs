use crate::fixed::{
    away_div, clamp, div_away_from_zero, div_toward_zero, lemma_away_div_remainder, lemma_trunc_div_remainder,
    lemma_trunc_div_shrinks, magnitude, trunc_div, ONE,
};
use crate::{Degrees, Position, Radians};
use vstd::prelude::*;

verus! {

/// Numerator of the rational value of pi, 3.14159265359.
pub const PI_NUMER: i128 = 314_159_265_359;

/// Denominator of the rational value of pi.
pub const PI_DENOM: i128 = 100_000_000_000;

/// Divisor that turns an angle in billionths of a degree times `PI_NUMER`
/// into billionths of a billionth of a radian: `180 * PI_DENOM / 10^9`.
pub const HALF_TURN_DENOM: i128 = 18_000;

/// Pi in billionths of a billionth of a radian; exact for the rational pi.
pub const PI: Radians = 3_141_592_653_590_000_000;

/// `d * pi / 180`, rounded toward zero.
pub open spec fn deg_to_rad(d: int) -> int {
    trunc_div(d * PI_NUMER, HALF_TURN_DENOM as int)
}

/// `r * 180 / pi`, rounded away from zero, so that an angle converted to
/// radians comes back unchanged.
pub open spec fn rad_to_deg(r: int) -> int {
    away_div(r * HALF_TURN_DENOM, PI_NUMER as int)
}

/// A converted angle is at most `PI_NUMER` times the input in size.
proof fn lemma_deg_to_rad_bound(d: Degrees)
    ensures
        -0x8000_0000_0000_0000 * PI_NUMER <= deg_to_rad(d as int) <= 0x8000_0000_0000_0000 * PI_NUMER,
{
    assert(-0x8000_0000_0000_0000 * PI_NUMER <= d * PI_NUMER <= 0x8000_0000_0000_0000 * PI_NUMER)
        by (nonlinear_arith)
        requires
            -0x8000_0000_0000_0000 <= d <= 0x8000_0000_0000_0000,
    ;
    lemma_trunc_div_shrinks(d * PI_NUMER, 1, HALF_TURN_DENOM as int);
}

/// Converts an angle from degrees to radians.
pub fn degrees_to_radians(degrees: Degrees) -> (r: Radians)
    ensures
        r == deg_to_rad(degrees as int),
{
    let d = degrees as i128;
    proof {
        lemma_deg_to_rad_bound(degrees);
    }
    div_toward_zero(d * PI_NUMER, HALF_TURN_DENOM)
}

/// Converts an angle from radians to degrees.
pub fn radians_to_degrees(radians: Radians) -> (d: Degrees)
    requires
        i64::MIN <= rad_to_deg(radians as int) <= i64::MAX,
    ensures
        d == rad_to_deg(radians as int),
{
    proof {
        lemma_away_div_remainder(radians * HALF_TURN_DENOM, PI_NUMER as int);
    }
    div_away_from_zero(radians * HALF_TURN_DENOM, PI_NUMER) as i64
}

/// Converting degrees to radians and back gives the same angle, for every
/// angle; the radians are within one unit of `d * pi / 180`, which is within
/// a millionth of it relatively.
pub proof fn lemma_degrees_radians_round_trip(d: Degrees)
    ensures
        rad_to_deg(deg_to_rad(d as int)) == d,
        -HALF_TURN_DENOM < d * PI_NUMER - HALF_TURN_DENOM * deg_to_rad(d as int) < HALF_TURN_DENOM,
        magnitude(d * PI_NUMER - HALF_TURN_DENOM * deg_to_rad(d as int)) * 1_000_000 <= magnitude(d * PI_NUMER),
{
    let p = PI_NUMER as int;
    let q = HALF_TURN_DENOM as int;
    let r = deg_to_rad(d as int);
    let back = rad_to_deg(r);
    lemma_trunc_div_remainder(d * p, q);
    lemma_away_div_remainder(r * q, p);
    if d >= 0 {
        assert(d * p >= 0) by (nonlinear_arith)
            requires
                d >= 0,
                p > 0,
        ;
        assert(back == d) by (nonlinear_arith)
            requires
                0 <= d * p - q * r < q,
                0 <= p * back - r * q < p,
                p == 314_159_265_359,
                q == 18_000,
        ;
        assert(d * p >= p || d == 0) by (nonlinear_arith)
            requires
                d >= 0,
                p > 0,
        ;
    } else {
        assert(d * p < 0) by (nonlinear_arith)
            requires
                d < 0,
                p > 0,
        ;
        assert(back == d) by (nonlinear_arith)
            requires
                -q < d * p - q * r <= 0,
                -p < p * back - r * q <= 0,
                p == 314_159_265_359,
                q == 18_000,
        ;
        assert(d * p <= -p) by (nonlinear_arith)
            requires
                d < 0,
                p > 0,
        ;
    }
}

/// A dimensionless value in billionths, such as a sine or a cosine.
pub type Scalar = i64;

/// A value in `[-1, 1]`, as every sine and cosine is.
pub open spec fn is_unit(v: int) -> bool {
    -ONE <= v <= ONE
}

/// One degree in fixed point.
pub const DEGREE: i64 = ONE;

/// Upper end of the altitude range, in fixed-point degrees.
pub const ALTITUDE_MAX: i64 = 90 * DEGREE;

/// Shift added to the raw azimuth so that it counts clockwise from north.
pub const AZIMUTH_SHIFT: i64 = 180 * DEGREE;

/// Upper end of the azimuth range, in fixed-point degrees.
pub const AZIMUTH_MAX: i64 = 360 * DEGREE;

/// Hour angle `LST - RA` in radians; each angle is converted on its own.
pub open spec fn hour_angle_spec(ra: int, lst: int) -> int {
    deg_to_rad(lst) - deg_to_rad(ra)
}

/// Hour angle of a target of right ascension `ra` at local sidereal time `lst`.
pub fn hour_angle(ra: Degrees, lst: Degrees) -> (ha: Radians)
    ensures
        ha == hour_angle_spec(ra as int, lst as int),
{
    proof {
        lemma_deg_to_rad_bound(ra);
        lemma_deg_to_rad_bound(lst);
    }
    degrees_to_radians(lst) - degrees_to_radians(ra)
}

/// Sine of the altitude, `sin(dec) sin(lat) + cos(dec) cos(lat) cos(HA)`,
/// rounded toward zero and held in `[-1, 1]`.
pub open spec fn altitude_sine_spec(sin_dec: int, cos_dec: int, sin_lat: int, cos_lat: int, cos_ha: int) -> int {
    clamp(
        trunc_div(sin_dec * sin_lat * ONE + cos_dec * cos_lat * cos_ha, ONE * ONE),
        -ONE as int,
        ONE as int,
    )
}

/// Bounds on products of values in `[-1, 1]`.
proof fn lemma_unit_products(a: int, b: int, c: int)
    requires
        is_unit(a),
        is_unit(b),
        is_unit(c),
    ensures
        -ONE * ONE <= a * b <= ONE * ONE,
        -ONE * ONE * ONE <= a * b * c <= ONE * ONE * ONE,
{
    let one = ONE as int;
    assert(-one * one <= a * b <= one * one) by (nonlinear_arith)
        requires
            -one <= a <= one,
            -one <= b <= one,
            one > 0,
    ;
    assert(-one * one * one <= a * b * c <= one * one * one) by (nonlinear_arith)
        requires
            -one * one <= a * b <= one * one,
            -one <= c <= one,
            one > 0,
    ;
}

/// Sine of the altitude of a target, from the sines and cosines of its
/// declination, of the observer's latitude and of the hour angle.
pub fn altitude_sine(sin_dec: Scalar, cos_dec: Scalar, sin_lat: Scalar, cos_lat: Scalar, cos_ha: Scalar) -> (r: Scalar)
    requires
        is_unit(sin_dec as int),
        is_unit(cos_dec as int),
        is_unit(sin_lat as int),
        is_unit(cos_lat as int),
        is_unit(cos_ha as int),
    ensures
        r == altitude_sine_spec(sin_dec as int, cos_dec as int, sin_lat as int, cos_lat as int, cos_ha as int),
        is_unit(r as int),
{
    proof {
        lemma_unit_products(sin_dec as int, sin_lat as int, ONE as int);
        lemma_unit_products(cos_dec as int, cos_lat as int, cos_ha as int);
    }
    let one = ONE as i128;
    let sum = (sin_dec as i128) * (sin_lat as i128) * one + (cos_dec as i128) * (cos_lat as i128) * (cos_ha as i128);
    let q = div_toward_zero(sum, one * one);
    if q < -one {
        -ONE
    } else if q > one {
        ONE
    } else {
        q as i64
    }
}

/// East-west term of the azimuth, `-cos(dec) cos(lat) sin(HA)`, rounded toward zero.
pub open spec fn azimuth_y_spec(cos_dec: int, cos_lat: int, sin_ha: int) -> int {
    trunc_div(-(cos_dec * cos_lat * sin_ha), ONE * ONE)
}

/// North-south term of the azimuth, `sin(dec) - sin(lat) sin(alt)`, the product
/// rounded toward zero.
pub open spec fn azimuth_x_spec(sin_dec: int, sin_lat: int, sin_alt: int) -> int {
    sin_dec - trunc_div(sin_lat * sin_alt, ONE as int)
}

/// The two terms `(y, x)` whose angle `atan2(y, x)` is the azimuth less 180 degrees.
pub fn azimuth_terms(
    sin_dec: Scalar,
    cos_dec: Scalar,
    sin_lat: Scalar,
    cos_lat: Scalar,
    sin_ha: Scalar,
    sin_alt: Scalar,
) -> (r: (Scalar, Scalar))
    requires
        is_unit(sin_dec as int),
        is_unit(cos_dec as int),
        is_unit(sin_lat as int),
        is_unit(cos_lat as int),
        is_unit(sin_ha as int),
        is_unit(sin_alt as int),
    ensures
        r.0 == azimuth_y_spec(cos_dec as int, cos_lat as int, sin_ha as int),
        r.1 == azimuth_x_spec(sin_dec as int, sin_lat as int, sin_alt as int),
        is_unit(r.0 as int),
        -2 * ONE <= r.1 <= 2 * ONE,
{
    proof {
        lemma_unit_products(sin_lat as int, sin_alt as int, ONE as int);
        lemma_unit_products(cos_dec as int, cos_lat as int, sin_ha as int);
        lemma_trunc_div_shrinks(-(cos_dec * cos_lat * sin_ha), 1, ONE * ONE);
        lemma_trunc_div_remainder(-(cos_dec * cos_lat * sin_ha), ONE * ONE);
        lemma_trunc_div_remainder(sin_lat * sin_alt, ONE as int);
    }
    let one = ONE as i128;
    let y = div_toward_zero(-((cos_dec as i128) * (cos_lat as i128) * (sin_ha as i128)), one * one);
    let p = div_toward_zero((sin_lat as i128) * (sin_alt as i128), one);
    (y as i64, sin_dec - p as i64)
}

/// Altitude in degrees for an arcsine result in radians, held in `[-90, 90]`.
pub open spec fn altitude_of(alt_rad: int) -> int {
    clamp(rad_to_deg(alt_rad), -ALTITUDE_MAX as int, ALTITUDE_MAX as int)
}

/// Azimuth in degrees for an `atan2` result in radians: the angle plus 180
/// degrees, held in `[0, 360]`.
pub open spec fn azimuth_of(az_rad: int) -> int {
    clamp(rad_to_deg(az_rad) + AZIMUTH_SHIFT, 0, AZIMUTH_MAX as int)
}

/// Radians to degrees for an angle of any size, held in `[-360, 360]` degrees.
fn degrees_within_turn(r: Radians) -> (d: i64)
    ensures
        d == clamp(rad_to_deg(r as int), -AZIMUTH_MAX as int, AZIMUTH_MAX as int),
{
    let limit: i128 = 1_000_000_000_000_000_000_000_000_000;
    proof {
        lemma_away_div_remainder(r * HALF_TURN_DENOM, PI_NUMER as int);
    }
    if r > limit {
        AZIMUTH_MAX
    } else if r < -limit {
        -AZIMUTH_MAX
    } else {
        let q = div_away_from_zero(r * HALF_TURN_DENOM, PI_NUMER);
        if q > AZIMUTH_MAX as i128 {
            AZIMUTH_MAX
        } else if q < -(AZIMUTH_MAX as i128) {
            -AZIMUTH_MAX
        } else {
            q as i64
        }
    }
}

/// Horizontal position from the arcsine of the altitude sine and from
/// `atan2(y, x)` of the azimuth terms, both in radians.
///
/// The azimuth is held at 360 degrees rather than wrapped to 0: whether the
/// motion layer takes values just past a full turn is left to it, and the
/// hold only trims rounding overshoot of an `atan2` result at a half turn.
pub fn horizontal_position(alt_rad: Radians, az_rad: Radians) -> (p: Position)
    ensures
        p.altitude == altitude_of(alt_rad as int),
        p.azimuth == azimuth_of(az_rad as int),
        -ALTITUDE_MAX <= p.altitude <= ALTITUDE_MAX,
        0 <= p.azimuth <= AZIMUTH_MAX,
{
    let alt = degrees_within_turn(alt_rad);
    let altitude = if alt < -ALTITUDE_MAX {
        -ALTITUDE_MAX
    } else if alt > ALTITUDE_MAX {
        ALTITUDE_MAX
    } else {
        alt
    };
    let az = degrees_within_turn(az_rad);
    let azimuth = if az < -AZIMUTH_SHIFT {
        0
    } else if az > AZIMUTH_MAX - AZIMUTH_SHIFT {
        AZIMUTH_MAX
    } else {
        az + AZIMUTH_SHIFT
    };
    Position { azimuth, altitude }
}

/// A target whose declination equals the observer's latitude culminates at
/// the zenith: when the local sidereal time equals its right ascension the
/// hour angle is zero; given a sine `s` and cosine `c` of the declination whose
/// squares sum to 1 within a millionth, the altitude sine with an hour-angle
/// cosine of 1 is within a millionth of 1; and an arcsine within 0.97 degrees
/// of a right angle, as the arcsine of any value within a millionth of 1 is,
/// gives an altitude of at least 89 degrees.
pub proof fn lemma_zenith_at_culmination(ra: Degrees, s: Scalar, c: Scalar, alt_rad: Radians)
    requires
        is_unit(s as int),
        is_unit(c as int),
        s * s + c * c >= ONE * ONE - 1000 * ONE,
    ensures
        hour_angle_spec(ra as int, ra as int) == 0,
        altitude_sine_spec(s as int, c as int, s as int, c as int, ONE as int) >= ONE - 1000,
        alt_rad >= 1_553_796_326_000_000_000 ==> altitude_of(alt_rad as int) >= 89 * DEGREE,
{
    let one = ONE as int;
    assert(s * s * one + c * c * one == (s * s + c * c) * one) by (nonlinear_arith);
    assert((s * s + c * c) * one >= (one - 1000) * (one * one)) by (nonlinear_arith)
        requires
            s * s + c * c >= one * one - 1000 * one,
            one > 0,
    ;
    lemma_trunc_div_remainder((s * s + c * c) * one, one * one);
    let q = trunc_div((s * s + c * c) * one, one * one);
    assert(q >= one - 1000) by (nonlinear_arith)
        requires
            (s * s + c * c) * one - one * one * q < one * one,
            (s * s + c * c) * one >= (one - 1000) * (one * one),
            one > 0,
    ;
    lemma_trunc_div_remainder(alt_rad * HALF_TURN_DENOM, PI_NUMER as int);
}

} // verus!
