use rray::geometry::{quad_root, QuadRoots, EPSILON};
use rray::math::FX_ONE;

#[test]
fn below_epsilon_degenerates_to_one_linear_root() {
    // 0*t^2 + 1*t - 2 == 0 has the single root t == 2.
    let r = quad_root(0, FX_ONE, -2 * FX_ONE);
    assert_eq!(r, QuadRoots::One(2 * FX_ONE));
}

#[test]
fn just_below_epsilon_still_degenerates() {
    let r = quad_root(EPSILON - 1, FX_ONE, -2 * FX_ONE);
    assert!(matches!(r, QuadRoots::One(_)));
}

#[test]
fn zero_discriminant_yields_repeated_root() {
    // t^2 - 2t + 1 == (t - 1)^2: tangency, both reported roots equal 1.
    let r = quad_root(FX_ONE, -2 * FX_ONE, FX_ONE);
    assert_eq!(r, QuadRoots::Two(FX_ONE, FX_ONE));
}

#[test]
fn negative_discriminant_yields_no_roots() {
    // t^2 + 1 == 0 has no real roots.
    let r = quad_root(FX_ONE, 0, FX_ONE);
    assert_eq!(r, QuadRoots::Zero);
}

#[test]
fn distinct_real_roots() {
    // t^2 - 3t + 2 == (t - 1)(t - 2): roots 2 and 1, larger first.
    let r = quad_root(FX_ONE, -3 * FX_ONE, 2 * FX_ONE);
    assert_eq!(r, QuadRoots::Two(2 * FX_ONE, FX_ONE));
}

#[test]
fn degenerate_with_zero_linear_coefficient() {
    // Both leading coefficients vanish: the total division makes the
    // fallback root zero rather than undefined.
    let r = quad_root(0, 0, FX_ONE);
    assert_eq!(r, QuadRoots::One(0));
}
