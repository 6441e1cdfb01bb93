use voxelinator::vec3::{mul_scalar, Vec3, UNIT};

#[test]
fn vectors_add_by_component() {
    let a = Vec3 { x: 1, y: -2, z: 3 };
    let b = Vec3 { x: 10, y: 20, z: -30 };
    assert_eq!(a + b, Vec3 { x: 11, y: 18, z: -27 });
}

#[test]
fn vectors_subtract_by_component() {
    let a = Vec3 { x: 1, y: -2, z: 3 };
    let b = Vec3 { x: 10, y: 20, z: -30 };
    assert_eq!(a - b, Vec3 { x: -9, y: -22, z: 33 });
    assert_eq!(a - a, Vec3::uniform(0));
}

#[test]
fn scalar_product_is_fixed_point() {
    let v = Vec3 { x: 3 * UNIT, y: -UNIT, z: UNIT / 2 };
    assert_eq!(v * (UNIT / 2), Vec3 { x: 1_500_000, y: -500_000, z: 250_000 });
    assert_eq!(v * UNIT, v);
    assert_eq!(v * -UNIT, Vec3 { x: -3 * UNIT, y: UNIT, z: -UNIT / 2 });
    assert_eq!(v * 0, Vec3::uniform(0));
}

#[test]
fn scalar_product_commutes() {
    let v = Vec3 { x: 3 * UNIT, y: -UNIT, z: 7 };
    assert_eq!(v * 250_000, 250_000 * v);
    assert_eq!(250_000 * v, Vec3 { x: 750_000, y: -250_000, z: 1 });
}

#[test]
fn scalar_product_rounds_toward_zero() {
    assert_eq!(mul_scalar(3, 500_000), 1);
    assert_eq!(mul_scalar(-3, 500_000), -1);
    assert_eq!(mul_scalar(1, 999_999), 0);
    assert_eq!(mul_scalar(-1, 999_999), 0);
    assert_eq!(mul_scalar(i64::MAX, UNIT), i64::MAX);
    assert_eq!(mul_scalar(i64::MIN, UNIT), i64::MIN);
}

#[test]
fn uniform_vector_repeats_its_scalar() {
    assert_eq!(Vec3::uniform(7), Vec3 { x: 7, y: 7, z: 7 });
}
