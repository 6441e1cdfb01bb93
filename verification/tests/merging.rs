use voxelinator::cube::{Cube, TexQuad};
use voxelinator::material::{Color, Mtl};
use voxelinator::optimize::{can_merge, merge, optimize_cubes, Direction};
use voxelinator::vec3::{Vec3, UNIT};

fn grey(level: i64) -> Mtl {
    Mtl::new_from_color(Color { r: level, g: level, b: level })
}

fn unit_at(col: i64, row: i64, layer: i64, mat: Mtl) -> Cube {
    Cube {
        pos: Vec3 { x: col * UNIT, y: -row * UNIT, z: layer * UNIT },
        mat,
        scale: Vec3::uniform(UNIT),
        text_coord: None,
    }
}

fn block(cols: (i64, i64), rows: (i64, i64), mat: Mtl) -> Cube {
    Cube {
        pos: Vec3 {
            x: (cols.0 + cols.1 - 1) * (UNIT / 2),
            y: -(rows.0 + rows.1 - 1) * (UNIT / 2),
            z: 0,
        },
        mat,
        scale: Vec3 { x: (cols.1 - cols.0) * UNIT, y: (rows.1 - rows.0) * UNIT, z: UNIT },
        text_coord: None,
    }
}

fn occupies(c: &Cube, p: (i64, i64, i64)) -> bool {
    let holds = |pos: i64, scale: i64, p: i64| 2 * pos - scale <= 2 * p && 2 * p < 2 * pos + scale;
    holds(c.pos.x, c.scale.x, p.0) && holds(c.pos.y, c.scale.y, p.1) && holds(c.pos.z, c.scale.z, p.2)
}

/// How many cubes occupy the centre of each cell of a window around the origin.
fn occupancy(cubes: &[Cube]) -> Vec<usize> {
    let mut counts = Vec::new();
    for layer in -1..3 {
        for row in -1..7 {
            for col in -1..7 {
                let p = (col * UNIT, -row * UNIT, layer * UNIT);
                counts.push(cubes.iter().filter(|c| occupies(c, p)).count());
            }
        }
    }
    counts
}

fn no_pair_can_merge(cubes: &[Cube]) -> bool {
    let dirs = [Direction::PosX, Direction::NegX, Direction::PosY, Direction::NegY, Direction::PosZ, Direction::NegZ];
    for (i, a) in cubes.iter().enumerate() {
        for (j, b) in cubes.iter().enumerate() {
            if i != j && dirs.iter().any(|d| can_merge(a, b, *d)) {
                return false;
            }
        }
    }
    true
}

#[test]
fn empty_list_stays_empty() {
    let mut cubes: Vec<Cube> = Vec::new();
    optimize_cubes(&mut cubes);
    assert!(cubes.is_empty());
}

#[test]
fn single_cube_is_left_alone() {
    let mut cubes = vec![unit_at(2, 3, 0, grey(1))];
    optimize_cubes(&mut cubes);
    assert_eq!(cubes, vec![unit_at(2, 3, 0, grey(1))]);
}

#[test]
fn two_neighbours_in_a_row_become_one_box() {
    let mut cubes = vec![unit_at(0, 0, 0, grey(1)), unit_at(1, 0, 0, grey(1))];
    optimize_cubes(&mut cubes);
    assert_eq!(cubes, vec![block((0, 2), (0, 1), grey(1))]);
    assert_eq!(cubes[0].pos, Vec3 { x: 500_000, y: 0, z: 0 });
    assert_eq!(cubes[0].scale, Vec3 { x: 2_000_000, y: UNIT, z: UNIT });
}

#[test]
fn two_neighbours_in_reverse_order_become_the_same_box() {
    let mut cubes = vec![unit_at(1, 0, 0, grey(1)), unit_at(0, 0, 0, grey(1))];
    optimize_cubes(&mut cubes);
    assert_eq!(cubes, vec![block((0, 2), (0, 1), grey(1))]);
}

#[test]
fn two_neighbours_in_a_column_become_one_box() {
    let mut cubes = vec![unit_at(0, 0, 0, grey(1)), unit_at(0, 1, 0, grey(1))];
    optimize_cubes(&mut cubes);
    assert_eq!(cubes, vec![block((0, 1), (0, 2), grey(1))]);
}

#[test]
fn two_neighbours_in_depth_become_one_box() {
    let mut cubes = vec![unit_at(0, 0, 0, grey(1)), unit_at(0, 0, 1, grey(1))];
    optimize_cubes(&mut cubes);
    assert_eq!(cubes.len(), 1);
    assert_eq!(cubes[0].pos, Vec3 { x: 0, y: 0, z: 500_000 });
    assert_eq!(cubes[0].scale, Vec3 { x: UNIT, y: UNIT, z: 2 * UNIT });
}

#[test]
fn full_rectangle_becomes_one_box() {
    for (w, h) in [(1i64, 1i64), (1, 5), (5, 1), (2, 2), (3, 2), (4, 5), (6, 6)] {
        let mut cubes = Vec::new();
        for row in 0..h {
            for col in 0..w {
                cubes.push(unit_at(col, row, 0, grey(1)));
            }
        }
        optimize_cubes(&mut cubes);
        assert_eq!(cubes, vec![block((0, w), (0, h), grey(1))]);
    }
}

#[test]
fn full_rectangle_in_any_order_becomes_one_box() {
    let (w, h) = (4i64, 3i64);
    let n = (w * h) as usize;
    for stride in [1usize, 5, 7, 11] {
        for start in 0..n {
            let mut cubes = Vec::new();
            for k in 0..n {
                let cell = ((start + k * stride) % n) as i64;
                cubes.push(unit_at(cell % w, cell / w, 0, grey(1)));
            }
            optimize_cubes(&mut cubes);
            assert_eq!(cubes, vec![block((0, w), (0, h), grey(1))]);
        }
    }
}

#[test]
fn chessboard_pattern_is_left_alone() {
    let mut cubes = Vec::new();
    for row in 0..4 {
        for col in 0..4 {
            if (row + col) % 2 == 0 {
                cubes.push(unit_at(col, row, 0, grey(1)));
            }
        }
    }
    let before = cubes.clone();
    optimize_cubes(&mut cubes);
    assert_eq!(cubes, before);
}

#[test]
fn neighbours_of_different_material_are_left_alone() {
    let mut cubes = Vec::new();
    for row in 0..3 {
        for col in 0..3 {
            cubes.push(unit_at(col, row, 0, grey(1 + (row * 3 + col))));
        }
    }
    let before = cubes.clone();
    optimize_cubes(&mut cubes);
    assert_eq!(cubes, before);
    assert_eq!(cubes.len(), 9);
}

#[test]
fn stripes_merge_within_each_material_only() {
    let mut cubes = Vec::new();
    for row in 0..2 {
        for col in 0..4 {
            cubes.push(unit_at(col, row, 0, grey(if col < 2 { 1 } else { 2 })));
        }
    }
    optimize_cubes(&mut cubes);
    assert_eq!(cubes, vec![block((0, 2), (0, 2), grey(1)), block((2, 4), (0, 2), grey(2))]);
}

#[test]
fn differing_texture_quads_forbid_merging() {
    let quad = |k: i64| Some(TexQuad::splat(Vec3 { x: k, y: 0, z: 0 }));
    let mut a = unit_at(0, 0, 0, grey(1));
    let mut b = unit_at(1, 0, 0, grey(1));
    a.text_coord = quad(0);
    b.text_coord = quad(1);
    let mut cubes = vec![a, b];
    optimize_cubes(&mut cubes);
    assert_eq!(cubes, vec![a, b]);
    b.text_coord = None;
    let mut cubes = vec![a, b];
    optimize_cubes(&mut cubes);
    assert_eq!(cubes, vec![a, b]);
}

#[test]
fn equal_texture_quads_are_kept_by_the_merged_box() {
    let quad = Some(TexQuad::splat(Vec3 { x: 3, y: 4, z: 0 }));
    let mut a = unit_at(0, 0, 0, grey(1));
    let mut b = unit_at(1, 0, 0, grey(1));
    a.text_coord = quad;
    b.text_coord = quad;
    let mut cubes = vec![a, b];
    optimize_cubes(&mut cubes);
    assert_eq!(cubes.len(), 1);
    assert_eq!(cubes[0].text_coord, quad);
    assert_eq!(cubes[0].mat, grey(1));
}

#[test]
fn hole_is_not_filled_and_no_cell_is_lost() {
    // A 5 by 5 square with a hole in the middle and a notch at one corner.
    let mut cubes = Vec::new();
    for row in 0..5 {
        for col in 0..5 {
            if (col, row) != (2, 2) && (col, row) != (4, 4) {
                cubes.push(unit_at(col, row, 0, grey(1)));
            }
        }
    }
    let before = occupancy(&cubes);
    optimize_cubes(&mut cubes);
    assert_eq!(occupancy(&cubes), before);
    assert!(occupancy(&cubes).iter().all(|n| *n <= 1));
    assert!(cubes.len() < 23);
    assert!(no_pair_can_merge(&cubes));
}

#[test]
fn l_shape_keeps_its_cells() {
    let cells = [(0, 0), (0, 1), (0, 2), (1, 2), (2, 2)];
    let mut cubes: Vec<Cube> = cells.iter().map(|(c, r)| unit_at(*c, *r, 0, grey(1))).collect();
    let before = occupancy(&cubes);
    optimize_cubes(&mut cubes);
    assert_eq!(occupancy(&cubes), before);
    assert_eq!(cubes, vec![block((0, 1), (0, 3), grey(1)), block((1, 3), (2, 3), grey(1))]);
}

#[test]
fn two_layers_keep_their_cells() {
    let mut cubes = Vec::new();
    for layer in 0..2 {
        for row in 0..3 {
            for col in 0..3 {
                if (col + row + layer) % 3 != 0 {
                    cubes.push(unit_at(col, row, layer, grey(1 + (col % 2))));
                }
            }
        }
    }
    let before = occupancy(&cubes);
    let count = cubes.len();
    optimize_cubes(&mut cubes);
    assert_eq!(occupancy(&cubes), before);
    assert!(cubes.len() <= count);
    assert!(no_pair_can_merge(&cubes));
}

#[test]
fn merge_is_decided_per_direction() {
    let a = unit_at(0, 0, 0, grey(1));
    let right = unit_at(1, 0, 0, grey(1));
    let below = unit_at(0, 1, 0, grey(1));
    let far = unit_at(2, 0, 0, grey(1));
    assert!(can_merge(&a, &right, Direction::PosX));
    assert!(!can_merge(&a, &right, Direction::NegX));
    assert!(can_merge(&right, &a, Direction::NegX));
    assert!(can_merge(&a, &below, Direction::NegY));
    assert!(!can_merge(&a, &below, Direction::PosY));
    assert!(!can_merge(&a, &far, Direction::PosX));
    assert!(!can_merge(&a, &a, Direction::PosX));
    assert!(!can_merge(&a, &unit_at(1, 0, 0, grey(2)), Direction::PosX));
    assert!(can_merge(&a, &unit_at(0, 0, 1, grey(1)), Direction::PosZ));
    assert!(can_merge(&a, &unit_at(0, 0, -1, grey(1)), Direction::NegZ));
}

#[test]
fn boxes_of_different_outline_do_not_merge() {
    let wide = block((0, 2), (0, 1), grey(1));
    let below = unit_at(0, 1, 0, grey(1));
    assert!(!can_merge(&wide, &below, Direction::NegY));
    let mut cubes = vec![wide, below];
    optimize_cubes(&mut cubes);
    assert_eq!(cubes, vec![wide, below]);
}

#[test]
fn odd_or_empty_extents_do_not_merge() {
    let odd = |x: i64| Cube { pos: Vec3 { x, y: 0, z: 0 }, mat: grey(1), scale: Vec3 { x: 3, y: 2, z: 2 }, text_coord: None };
    assert!(!can_merge(&odd(0), &odd(3), Direction::PosX));
    let flat = |x: i64| Cube { pos: Vec3 { x, y: 0, z: 0 }, mat: grey(1), scale: Vec3 { x: 2, y: 0, z: 2 }, text_coord: None };
    assert!(!can_merge(&flat(0), &flat(2), Direction::PosX));
    let even = |x: i64| Cube { pos: Vec3 { x, y: 0, z: 0 }, mat: grey(1), scale: Vec3 { x: 2, y: 2, z: 2 }, text_coord: None };
    assert!(can_merge(&even(0), &even(2), Direction::PosX));
}

#[test]
fn extents_too_long_to_represent_do_not_merge() {
    let big = i64::MAX - 1;
    let a = Cube { pos: Vec3 { x: -(big / 2), y: 0, z: 0 }, mat: grey(1), scale: Vec3 { x: big, y: 2, z: 2 }, text_coord: None };
    let b = Cube { pos: Vec3 { x: big / 2, y: 0, z: 0 }, mat: grey(1), scale: Vec3 { x: big, y: 2, z: 2 }, text_coord: None };
    assert!(!can_merge(&a, &b, Direction::PosX));
    let mut cubes = vec![a, b];
    optimize_cubes(&mut cubes);
    assert_eq!(cubes, vec![a, b]);
}

#[test]
fn merged_box_spans_both() {
    let a = block((1, 3), (0, 2), grey(1));
    let b = block((3, 4), (0, 2), grey(1));
    assert_eq!(merge(&a, &b, Direction::PosX), block((1, 4), (0, 2), grey(1)));
    assert_eq!(merge(&b, &a, Direction::NegX), block((1, 4), (0, 2), grey(1)));
    let c = block((1, 3), (2, 5), grey(1));
    assert_eq!(merge(&a, &c, Direction::NegY), block((1, 3), (0, 5), grey(1)));
    assert_eq!(merge(&c, &a, Direction::PosY), block((1, 3), (0, 5), grey(1)));
}

#[test]
fn full_block_of_three_layers_keeps_its_cells_in_any_order() {
    // Two columns wide, three rows, three layers; the cells of column 0 come
    // first, in an order that lets a ring of boxes close around the middle.
    let ring = [(2, 0), (2, 1), (0, 0), (1, 0), (0, 1), (0, 2), (1, 2), (2, 2), (1, 1)];
    let mut cubes = Vec::new();
    for (row, layer) in ring {
        cubes.push(unit_at(0, row, layer, grey(1)));
    }
    for (row, layer) in ring {
        cubes.push(unit_at(1, row, layer, grey(1)));
    }
    let before = occupancy(&cubes);
    optimize_cubes(&mut cubes);
    assert_eq!(occupancy(&cubes), before);
    assert!(occupancy(&cubes).iter().all(|n| *n <= 1));
    assert!(no_pair_can_merge(&cubes));
    assert_eq!(cubes.len(), 5);
}

#[test]
fn full_block_of_three_layers_in_scan_order_becomes_one_box() {
    let mut cubes = Vec::new();
    for layer in 0..3 {
        for row in 0..3 {
            for col in 0..2 {
                cubes.push(unit_at(col, row, layer, grey(1)));
            }
        }
    }
    optimize_cubes(&mut cubes);
    assert_eq!(cubes.len(), 1);
    assert_eq!(cubes[0].pos, Vec3 { x: 500_000, y: -UNIT, z: UNIT });
    assert_eq!(cubes[0].scale, Vec3 { x: 2 * UNIT, y: 3 * UNIT, z: 3 * UNIT });
}
