use rray::math::{
    scalar_abs, scalar_add, scalar_div, scalar_mul, scalar_neg, scalar_pow, scalar_sqrt,
    scalar_sub, Clamp, FX_ONE,
};

#[test]
fn add_exact() {
    // 5.0 + 0.75 == 5.75
    assert_eq!(scalar_add(5 * FX_ONE, 786432), 5 * FX_ONE + 786432);
}

#[test]
fn add_saturates_high() {
    assert_eq!(scalar_add(i64::MAX, 1), i64::MAX);
}

#[test]
fn sub_saturates_low() {
    assert_eq!(scalar_sub(-i64::MAX, 1), -i64::MAX);
}

#[test]
fn neg_of_minimum_saturates() {
    assert_eq!(scalar_neg(i64::MIN), i64::MAX);
    assert_eq!(scalar_neg(7 * FX_ONE), -7 * FX_ONE);
}

#[test]
fn mul_exact() {
    assert_eq!(scalar_mul(3 * FX_ONE, 2 * FX_ONE), 6 * FX_ONE);
    assert_eq!(scalar_mul(-3 * FX_ONE, 2 * FX_ONE), -6 * FX_ONE);
}

#[test]
fn mul_truncates_toward_zero() {
    // -1 (one fixed-point unit below zero) times 0.5 rounds to zero,
    // not away from it.
    assert_eq!(scalar_mul(-1, FX_ONE / 2), 0);
}

#[test]
fn div_rounds_toward_zero() {
    // 1/3 in fixed point.
    assert_eq!(scalar_div(FX_ONE, 3 * FX_ONE), 349525);
    // and -1/3 is its exact negation, not the floor.
    assert_eq!(scalar_div(-FX_ONE, 3 * FX_ONE), -349525);
}

#[test]
fn div_by_zero_is_zero() {
    assert_eq!(scalar_div(FX_ONE, 0), 0);
}

#[test]
fn sqrt_perfect_square() {
    assert_eq!(scalar_sqrt(4 * FX_ONE), 2 * FX_ONE);
    assert_eq!(scalar_sqrt(25 * FX_ONE), 5 * FX_ONE);
}

#[test]
fn sqrt_rounds_down() {
    // sqrt(2) = 1.41421356...; 1482910 is its floor in fixed point.
    assert_eq!(scalar_sqrt(2 * FX_ONE), 1482910);
}

#[test]
fn sqrt_of_nonpositive_is_zero() {
    assert_eq!(scalar_sqrt(0), 0);
    assert_eq!(scalar_sqrt(-5 * FX_ONE), 0);
}

#[test]
fn pow_whole_exponent() {
    assert_eq!(scalar_pow(2 * FX_ONE, 10), 1024 * FX_ONE);
    assert_eq!(scalar_pow(5 * FX_ONE, 0), FX_ONE);
    assert_eq!(scalar_pow(0, 3), 0);
}

#[test]
fn abs_value() {
    assert_eq!(scalar_abs(-5), 5);
    assert_eq!(scalar_abs(5), 5);
    assert_eq!(scalar_abs(i64::MIN), i64::MAX);
}

#[test]
fn clamp_interval() {
    assert_eq!(Clamp::clamp(&(10 * FX_ONE), 0, 5 * FX_ONE), 5 * FX_ONE);
    assert_eq!(Clamp::clamp(&(-FX_ONE), 0, 5 * FX_ONE), 0);
    assert_eq!(Clamp::clamp(&FX_ONE, 0, 5 * FX_ONE), FX_ONE);
}
