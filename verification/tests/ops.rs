//! Concrete cases for the three Q16.16 operations: identities, fractions,
//! signs, the divide-by-zero sentinels, the square-root domain edges, and
//! the deterministic wrap-around of out-of-range results.

use fixed_math::div;
use fixed_math::sqrt;
use fixed_math::FP_ONE;

#[test]
fn fp_one_is_the_unit() {
    assert_eq!(FP_ONE, 65536);
}

#[test]
fn mul_one_times_one() {
    assert_eq!(fixed_math::mul(65536, 65536), 65536);
}

#[test]
fn mul_three_halves_times_one() {
    assert_eq!(fixed_math::mul(98304, 65536), 98304);
}

#[test]
fn mul_by_one_is_identity() {
    for x in [0, 1, -1, 2, 65536, -65536, 98304, i32::MAX, i32::MIN] {
        assert_eq!(fixed_math::mul(x, FP_ONE), x);
    }
}

#[test]
fn mul_half_times_half() {
    assert_eq!(fixed_math::mul(32768, 32768), 16384);
}

#[test]
fn mul_negative_operand() {
    assert_eq!(fixed_math::mul(-65536, 65536), -65536);
    assert_eq!(fixed_math::mul(-98304, 32768), -49152);
    assert_eq!(fixed_math::mul(-65537, 32768), -32769);
}

#[test]
fn mul_rounds_toward_negative_infinity() {
    assert_eq!(fixed_math::mul(1, 1), 0);
    assert_eq!(fixed_math::mul(-1, 1), -1);
}

#[test]
fn mul_overflow_wraps() {
    assert_eq!(fixed_math::mul(i32::MAX, i32::MAX), -65536);
}

#[test]
fn div_two_by_one() {
    assert_eq!(div(131072, 65536), 131072);
}

#[test]
fn div_two_by_two() {
    assert_eq!(div(131072, 131072), 65536);
}

#[test]
fn div_one_by_two() {
    assert_eq!(div(65536, 131072), 32768);
}

#[test]
fn div_by_one_is_identity() {
    for x in [0, 1, -1, 2, 65536, -65536, 98304, -131072] {
        assert_eq!(div(x, FP_ONE), x);
    }
}

#[test]
fn div_truncates_toward_zero() {
    assert_eq!(div(-3, 131072), -1);
    assert_eq!(div(3, 131072), 1);
    assert_eq!(div(-1, 2), -32768);
}

#[test]
fn div_by_zero_sentinels() {
    assert_eq!(div(5, 0), i32::MAX);
    assert_eq!(div(0, 0), i32::MAX);
    assert_eq!(div(i32::MAX, 0), i32::MAX);
    assert_eq!(div(-5, 0), i32::MIN);
    assert_eq!(div(i32::MIN, 0), i32::MIN);
}

#[test]
fn div_overflow_wraps() {
    assert_eq!(div(i32::MIN, -1), 0);
    assert_eq!(div(i32::MAX, 1), -65536);
}

#[test]
fn sqrt_of_four() {
    assert_eq!(sqrt(262144), 131072);
}

#[test]
fn sqrt_of_nine() {
    assert_eq!(sqrt(589824), 196608);
}

#[test]
fn sqrt_of_one() {
    assert_eq!(sqrt(65536), 65536);
}

#[test]
fn sqrt_non_positive_is_zero() {
    assert_eq!(sqrt(0), 0);
    assert_eq!(sqrt(-1), 0);
    assert_eq!(sqrt(-65536), 0);
    assert_eq!(sqrt(i32::MIN), 0);
}

#[test]
fn sqrt_rounds_down_to_coarse_grid() {
    // The raw integer root of 2.0 is 362, rescaled by 256: below the best
    // Q16.16 approximation of sqrt(2), by the documented rescaling rule.
    assert_eq!(sqrt(131072), 92672);
    assert_eq!(sqrt(1), 256);
}

#[test]
fn sqrt_of_largest_input() {
    assert_eq!(sqrt(i32::MAX), 11863040);
}

#[test]
fn repeated_calls_are_bit_identical() {
    for _ in 0..3 {
        assert_eq!(fixed_math::mul(98304, 32768), 49152);
        assert_eq!(div(98304, 32768), 196608);
        assert_eq!(sqrt(1048576), 262144);
    }
}
