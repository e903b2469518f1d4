//! Conversions between the duty scale (ten-thousandths, 0-10000) and the
//! raw hardware PWM register scale (0-255), rounded to nearest.

use vstd::prelude::*;
use crate::fan::round_div;

verus! {

/// The PWM register value for a duty in ten-thousandths:
/// `round(duty * 255 / 10000)`.
pub open spec fn spec_duty_to_pwm(duty: int) -> int {
    round_div(duty * 255, 10000)
}

/// The duty in ten-thousandths for a PWM register value:
/// `round(pwm * 10000 / 255)`.
pub open spec fn spec_pwm_to_duty(pwm: int) -> int {
    round_div(pwm * 10000, 255)
}

/// Converts a duty in ten-thousandths (0-10000) to the raw PWM value.
pub fn duty_to_pwm(duty: u16) -> (pwm: u8)
    requires
        duty <= 10000,
    ensures
        pwm as int == spec_duty_to_pwm(duty as int),
{
    let n: u32 = 2 * (duty as u32) * 255 + 10000;
    let q: u32 = n / 20000;
    proof {
        crate::fan::lemma_round_div_le((duty as int) * 255, 10000, 255);
        assert((2 * (duty as int)) * 255 == 2 * ((duty as int) * 255)) by (nonlinear_arith);
    }
    q as u8
}

/// Converts a raw PWM value to the duty scale in ten-thousandths.
pub fn pwm_to_duty(pwm: u8) -> (duty: u16)
    ensures
        duty as int == spec_pwm_to_duty(pwm as int),
{
    let n: u32 = 2 * (pwm as u32) * 10000 + 255;
    let q: u32 = n / 510;
    proof {
        crate::fan::lemma_round_div_le((pwm as int) * 10000, 255, 10000);
        assert((2 * (pwm as int)) * 10000 == 2 * ((pwm as int) * 10000)) by (nonlinear_arith);
    }
    q as u16
}

/// Rounding a quotient leaves an error of at most half the divisor:
/// `|b * round_div(a, b) - a| <= b / 2`.
proof fn lemma_round_div_err(a: int, b: int)
    requires
        b > 0,
    ensures
        -b <= 2 * (b * round_div(a, b) - a) <= b,
{
    if a >= 0 {
        let q = (2 * a + b) / (2 * b);
        vstd::arithmetic::div_mod::lemma_fundamental_div_mod(2 * a + b, 2 * b);
        vstd::arithmetic::div_mod::lemma_mod_bound(2 * a + b, 2 * b);
        assert((2 * b) * q == 2 * (b * q)) by (nonlinear_arith);
    } else {
        let q = (2 * (-a) + b) / (2 * b);
        vstd::arithmetic::div_mod::lemma_fundamental_div_mod(2 * (-a) + b, 2 * b);
        vstd::arithmetic::div_mod::lemma_mod_bound(2 * (-a) + b, 2 * b);
        assert((2 * b) * q == 2 * (b * q)) by (nonlinear_arith);
        assert(b * -q == -(b * q)) by (nonlinear_arith);
    }
}

/// Law: converting a duty to the PWM scale and back differs from the
/// original by at most 20 ten-thousandths — half of the 10000/255 step
/// that one PWM unit stands for, rounded each way.
pub proof fn lemma_pwm_round_trip_close(d: int)
    requires
        0 <= d <= 10000,
    ensures
        -20 <= spec_pwm_to_duty(spec_duty_to_pwm(d)) - d <= 20,
{
    let p = spec_duty_to_pwm(d);
    let d2 = spec_pwm_to_duty(p);
    lemma_round_div_err(d * 255, 10000);
    assert(10000 * round_div(d * 255, 10000) == p * 10000) by (nonlinear_arith)
        requires
            p == round_div(d * 255, 10000),
    ;
    lemma_round_div_err(p * 10000, 255);
    assert(255 * round_div(p * 10000, 255) == d2 * 255) by (nonlinear_arith)
        requires
            d2 == round_div(p * 10000, 255),
    ;
    // |p * 10000 - d * 255| <= 5000 and |d2 * 255 - p * 10000| <= 127,
    // so |d2 - d| * 255 <= 5127 < 255 * 21.
    assert(-5127 <= d2 * 255 - d * 255 <= 5127);
    assert(d2 * 255 - d * 255 == (d2 - d) * 255) by (nonlinear_arith);
    if d2 - d > 20 {
        assert((d2 - d) * 255 >= 21 * 255) by (nonlinear_arith)
            requires
                d2 - d >= 21,
        ;
        assert(false);
    }
    if d2 - d < -20 {
        assert((d2 - d) * 255 <= -21 * 255) by (nonlinear_arith)
            requires
                d2 - d <= -21,
        ;
        assert(false);
    }
}

/// Law: converting a PWM value to the duty scale and back recovers it
/// exactly; the duty scale is fine enough to keep every PWM step.
pub proof fn lemma_duty_of_pwm_exact(p: int)
    requires
        0 <= p <= 255,
    ensures
        spec_duty_to_pwm(spec_pwm_to_duty(p)) == p,
{
    let d = spec_pwm_to_duty(p);
    let p2 = spec_duty_to_pwm(d);
    lemma_round_div_err(p * 10000, 255);
    assert(255 * round_div(p * 10000, 255) == d * 255) by (nonlinear_arith)
        requires
            d == round_div(p * 10000, 255),
    ;
    lemma_round_div_err(d * 255, 10000);
    assert(10000 * round_div(d * 255, 10000) == p2 * 10000) by (nonlinear_arith)
        requires
            p2 == round_div(d * 255, 10000),
    ;
    // |d * 255 - p * 10000| <= 127 and |p2 * 10000 - d * 255| <= 5000,
    // so |p2 - p| * 10000 <= 5127 < 10000: they are equal.
    assert(-5127 <= p2 * 10000 - p * 10000 <= 5127);
    assert(p2 * 10000 - p * 10000 == (p2 - p) * 10000) by (nonlinear_arith);
    if p2 != p {
        assert((p2 - p) * 10000 >= 10000 || (p2 - p) * 10000 <= -10000) by (nonlinear_arith)
            requires
                p2 - p >= 1 || p2 - p <= -1,
        ;
        assert(false);
    }
}

} // verus!
