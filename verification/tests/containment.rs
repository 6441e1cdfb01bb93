use voxelinator::cube::{test_cube, Cube, TexQuad};
use voxelinator::material::{Color, Mtl};
use voxelinator::vec3::{Vec3, UNIT};

fn cube(pos: Vec3, scale: Vec3) -> Cube {
    Cube { pos, mat: Mtl::new_from_color(Color { r: 0, g: 0, b: 0 }), scale, text_coord: None }
}

fn unit_cube_at_origin() -> Cube {
    cube(Vec3::uniform(0), Vec3::uniform(UNIT))
}

#[test]
fn corner_of_unit_cube_is_inside() {
    assert!(unit_cube_at_origin().point_in_cube(Vec3::uniform(UNIT / 2)));
    assert!(unit_cube_at_origin().point_in_cube(Vec3::uniform(-UNIT / 2)));
}

#[test]
fn unit_cube_holds_its_corner() {
    assert!(test_cube());
}

#[test]
fn point_just_outside_unit_cube_is_outside() {
    let c = unit_cube_at_origin();
    assert!(!c.point_in_cube(Vec3 { x: 510_000, y: 0, z: 0 }));
    assert!(!c.point_in_cube(Vec3 { x: 500_001, y: 0, z: 0 }));
    assert!(!c.point_in_cube(Vec3 { x: 0, y: -500_001, z: 0 }));
    assert!(!c.point_in_cube(Vec3 { x: 0, y: 0, z: 500_001 }));
}

#[test]
fn centre_of_cube_is_inside() {
    let c = cube(Vec3 { x: 3 * UNIT, y: -2 * UNIT, z: UNIT }, Vec3 { x: 4 * UNIT, y: UNIT, z: 2 * UNIT });
    assert!(c.point_in_cube(Vec3 { x: 3 * UNIT, y: -2 * UNIT, z: UNIT }));
    assert!(c.point_in_cube(Vec3 { x: 5 * UNIT, y: -2 * UNIT - UNIT / 2, z: 0 }));
    assert!(!c.point_in_cube(Vec3 { x: 5 * UNIT + 1, y: -2 * UNIT, z: UNIT }));
    assert!(!c.point_in_cube(Vec3 { x: 3 * UNIT, y: -UNIT, z: UNIT }));
}

#[test]
fn negative_extent_spans_the_same_interval() {
    let c = cube(Vec3::uniform(0), Vec3::uniform(-UNIT));
    assert!(c.point_in_cube(Vec3::uniform(UNIT / 2)));
    assert!(!c.point_in_cube(Vec3 { x: 510_000, y: 0, z: 0 }));
}

#[test]
fn odd_extent_is_halved_toward_zero() {
    let c = cube(Vec3::uniform(0), Vec3::uniform(3));
    assert!(c.point_in_cube(Vec3::uniform(1)));
    assert!(!c.point_in_cube(Vec3 { x: 2, y: 0, z: 0 }));
}

#[test]
fn containment_does_not_overflow_at_the_ends_of_the_range() {
    let c = cube(Vec3::uniform(i64::MAX), Vec3::uniform(i64::MAX));
    assert!(c.point_in_cube(Vec3::uniform(i64::MAX)));
    let d = cube(Vec3::uniform(i64::MIN), Vec3::uniform(i64::MIN));
    assert!(d.point_in_cube(Vec3::uniform(i64::MIN)));
    assert!(!d.point_in_cube(Vec3::uniform(0)));
}

#[test]
fn splat_quad_repeats_one_point() {
    let p = Vec3 { x: 1, y: 2, z: 3 };
    let q = TexQuad::splat(p);
    assert_eq!(q, TexQuad { c0: p, c1: p, c2: p, c3: p });
}
