use vstd::arithmetic::div_mod::{lemma_div_pos_is_pos, lemma_fundamental_div_mod, lemma_mod_pos_bound};
use vstd::prelude::*;

verus! {

/// Number of fixed-point units in one degree, one radian, or the value 1.
pub const ONE: i64 = 1_000_000_000;

/// Integer quotient rounded toward zero, for a positive divisor.
pub open spec fn trunc_div(a: int, b: int) -> int {
    if a >= 0 {
        a / b
    } else {
        -((-a) / b)
    }
}

/// Integer quotient rounded away from zero, for a positive divisor.
pub open spec fn away_div(a: int, b: int) -> int {
    if a >= 0 {
        (a + b - 1) / b
    } else {
        -((-a + b - 1) / b)
    }
}

/// `a` bounded to the range `[lo, hi]`.
pub open spec fn clamp(a: int, lo: int, hi: int) -> int {
    if a < lo {
        lo
    } else if a > hi {
        hi
    } else {
        a
    }
}

/// Absolute value.
pub open spec fn magnitude(a: int) -> int {
    if a >= 0 {
        a
    } else {
        -a
    }
}

/// Truncating division on wide integers.
pub fn div_toward_zero(a: i128, b: i128) -> (q: i128)
    requires
        b > 0,
        a > i128::MIN,
    ensures
        q == trunc_div(a as int, b as int),
{
    if a >= 0 {
        a / b
    } else {
        -((-a) / b)
    }
}

/// Division rounding away from zero on wide integers.
pub fn div_away_from_zero(a: i128, b: i128) -> (q: i128)
    requires
        0 < b <= 0x4000_0000_0000_0000_0000_0000_0000_0000,
        -0x4000_0000_0000_0000_0000_0000_0000_0000 <= a <= 0x4000_0000_0000_0000_0000_0000_0000_0000,
    ensures
        q == away_div(a as int, b as int),
{
    if a >= 0 {
        (a + (b - 1)) / b
    } else {
        -((-a + (b - 1)) / b)
    }
}

/// A quotient rounded away from zero overshoots the dividend by less than the
/// divisor; the quotient has the dividend's sign.
pub proof fn lemma_away_div_remainder(a: int, b: int)
    requires
        b > 0,
    ensures
        a >= 0 ==> 0 <= b * away_div(a, b) - a < b && away_div(a, b) >= 0,
        a < 0 ==> -b < b * away_div(a, b) - a <= 0 && away_div(a, b) <= 0,
{
    if a >= 0 {
        lemma_trunc_div_remainder(a + b - 1, b);
    } else {
        lemma_trunc_div_remainder(-a + b - 1, b);
        let q = (-a + b - 1) / b;
        assert(b * (-q) == -(b * q)) by (nonlinear_arith);
    }
}

/// A quotient rounded toward zero is the one integer whose multiple lies
/// between zero and the dividend within one divisor.
pub proof fn lemma_trunc_div_unique(a: int, b: int, q: int)
    requires
        b > 0,
        a >= 0 ==> b * q <= a < b * q + b,
        a < 0 ==> b * q - b < a <= b * q,
    ensures
        trunc_div(a, b) == q,
{
    lemma_trunc_div_remainder(a, b);
    let r = trunc_div(a, b);
    assert(r == q) by (nonlinear_arith)
        requires
            b > 0,
            a >= 0 ==> b * q <= a < b * q + b && 0 <= a - b * r < b,
            a < 0 ==> b * q - b < a <= b * q && -b < a - b * r <= 0,
    ;
}

/// A quotient rounded toward zero leaves a remainder smaller than the divisor
/// and of the dividend's sign; the quotient has the dividend's sign.
pub proof fn lemma_trunc_div_remainder(a: int, b: int)
    requires
        b > 0,
    ensures
        a >= 0 ==> 0 <= a - b * trunc_div(a, b) < b && trunc_div(a, b) >= 0,
        a < 0 ==> -b < a - b * trunc_div(a, b) <= 0 && trunc_div(a, b) <= 0,
        a == 0 ==> trunc_div(a, b) == 0,
{
    if a >= 0 {
        lemma_fundamental_div_mod(a, b);
        lemma_mod_pos_bound(a, b);
        lemma_div_pos_is_pos(a, b);
        let q = a / b;
        assert(a == 0 ==> q == 0) by (nonlinear_arith)
            requires
                0 <= a - b * q < b,
                q >= 0,
                b > 0,
        ;
    } else {
        lemma_fundamental_div_mod(-a, b);
        lemma_mod_pos_bound(-a, b);
        lemma_div_pos_is_pos(-a, b);
        let q = (-a) / b;
        assert(b * (-q) == -(b * q)) by (nonlinear_arith);
    }
}

/// Scaling by a factor of at most one never increases the magnitude.
pub proof fn lemma_trunc_div_shrinks(a: int, p: int, b: int)
    requires
        0 <= p <= b,
        b > 0,
    ensures
        a >= 0 ==> 0 <= trunc_div(a * p, b) <= a,
        a < 0 ==> a <= trunc_div(a * p, b) <= 0,
{
    lemma_trunc_div_remainder(a * p, b);
    let q = trunc_div(a * p, b);
    if a >= 0 {
        assert(a * p >= 0) by (nonlinear_arith)
            requires
                a >= 0,
                p >= 0,
        ;
        assert(q <= a) by (nonlinear_arith)
            requires
                b * q <= a * p,
                p <= b,
                a >= 0,
                b > 0,
        ;
    } else {
        assert(a * p <= 0) by (nonlinear_arith)
            requires
                a < 0,
                p >= 0,
        ;
        assert(q >= a) by (nonlinear_arith)
            requires
                b * q >= a * p,
                p <= b,
                a < 0,
                b > 0,
        ;
    }
}

/// Dividing `k` times a value differs from `k` times the divided value by less
/// than `|k|`.
pub proof fn lemma_trunc_div_scaled(x: int, k: int, b: int)
    requires
        b > 0,
    ensures
        k != 0 ==> magnitude(trunc_div(k * x, b) - k * trunc_div(x, b)) < magnitude(k),
        k == 0 ==> trunc_div(k * x, b) == 0,
{
    let q1 = trunc_div(x, b);
    let q2 = trunc_div(k * x, b);
    let r1 = x - b * q1;
    let r2 = k * x - b * q2;
    lemma_trunc_div_remainder(x, b);
    lemma_trunc_div_remainder(k * x, b);
    assert(b * (q2 - k * q1) == k * r1 - r2) by (nonlinear_arith)
        requires
            r1 == x - b * q1,
            r2 == k * x - b * q2,
    ;
    let m = magnitude(k);
    if k == 0 {
        assert(k * x == 0);
    } else {
        if x >= 0 {
            assert(k > 0 ==> k * x >= 0) by (nonlinear_arith)
                requires
                    x >= 0,
            ;
            assert(k < 0 ==> k * x <= 0) by (nonlinear_arith)
                requires
                    x >= 0,
            ;
        } else {
            assert(k > 0 ==> k * x < 0) by (nonlinear_arith)
                requires
                    x < 0,
            ;
            assert(k < 0 ==> k * x > 0) by (nonlinear_arith)
                requires
                    x < 0,
            ;
        }
        assert(-(m * b) < k * r1 - r2 < m * b) by (nonlinear_arith)
            requires
                m == magnitude(k),
                m >= 1,
                b > 0,
                x >= 0 ==> 0 <= r1 < b,
                x < 0 ==> -b < r1 <= 0,
                k * x >= 0 ==> 0 <= r2 < b,
                k * x <= 0 ==> -b < r2 <= 0,
                k > 0 && x >= 0 ==> k * x >= 0,
                k > 0 && x < 0 ==> k * x < 0,
                k < 0 && x >= 0 ==> k * x <= 0,
                k < 0 && x < 0 ==> k * x > 0,
        ;
        assert(-m < q2 - k * q1 < m) by (nonlinear_arith)
            requires
                b * (q2 - k * q1) == k * r1 - r2,
                -(m * b) < k * r1 - r2 < m * b,
                b > 0,
        ;
    }
}

} // verus!
