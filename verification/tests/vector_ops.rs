use rray::math::{MathVector, Vec2, Vec2fx, Vec3, Vec3fx, FX_ONE};

fn v3(x: i64, y: i64, z: i64) -> Vec3fx {
    Vec3::new(x * FX_ONE, y * FX_ONE, z * FX_ONE)
}

#[test]
fn vec3_componentwise_ops() {
    let a = v3(1, 2, 3);
    let b = v3(4, 5, 6);
    assert_eq!(a.add_v(&b), v3(5, 7, 9));
    assert_eq!(a.sub_v(&b), v3(-3, -3, -3));
    assert_eq!(a.mul_v(&b), v3(4, 10, 18));
    assert_eq!(a.mul_t(2 * FX_ONE), v3(2, 4, 6));
}

#[test]
fn vec3_dot_product() {
    let a = v3(1, 2, 3);
    let b = v3(4, 5, 6);
    assert_eq!(a.dot(&b), 32 * FX_ONE);
}

#[test]
fn vec3_cross_product() {
    let x = v3(1, 0, 0);
    let y = v3(0, 1, 0);
    assert_eq!(x.cross(&y), v3(0, 0, 1));
    assert_eq!(y.cross(&x), v3(0, 0, -1));
}

#[test]
fn vec3_length() {
    let a = v3(3, 4, 0);
    assert_eq!(a.length2(), 25 * FX_ONE);
    assert_eq!(a.length(), 5 * FX_ONE);
}

#[test]
fn vec3_normalize_rounds_down() {
    // 1/3 truncates, so each scaled component lands one unit under 1.0.
    let a = v3(3, 0, 0);
    let n = a.normalize();
    assert_eq!(n, Vec3fx { x: FX_ONE - 1, y: 0, z: 0 });
}

#[test]
fn vec3_normalize_zero_is_zero() {
    let z: Vec3fx = Vec3::zero();
    assert_eq!(z.normalize(), z);
}

#[test]
fn vec2_ops() {
    let a: Vec2fx = Vec2::new(FX_ONE, 2 * FX_ONE);
    let b: Vec2fx = Vec2::new(3 * FX_ONE, 4 * FX_ONE);
    assert_eq!(a.add_v(&b), Vec2::new(4 * FX_ONE, 6 * FX_ONE));
    assert_eq!(a.dot(&b), 11 * FX_ONE);
    let z: Vec2fx = Vec2::zero();
    assert_eq!(z, Vec2::new(0, 0));
}
