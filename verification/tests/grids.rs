use voxelinator::cube::{Cube, TexQuad};
use voxelinator::grid::{get_cubes, Grid, MaterialMode, Sample};
use voxelinator::material::{Color, Mtl, MtlParams};
use voxelinator::model::build_model;
use voxelinator::obj::Obj;
use voxelinator::optimize::optimize_cubes;
use voxelinator::vec3::{Vec3, UNIT};

fn px(r: u8, g: u8, b: u8, a: u8) -> Sample {
    Sample { r, g, b, a }
}

fn grid(width: u32, height: u32, samples: Vec<Sample>) -> Grid {
    Grid::new(width, height, samples).unwrap()
}

fn white_textured() -> Mtl {
    let white = Color { r: UNIT, g: UNIT, b: UNIT };
    Mtl::builder(MtlParams { ambient_color: white, diffuse_color: white, specular_color: white })
        .with_diffuse_texture_map(Some(0))
        .build()
}

#[test]
fn grid_needs_one_sample_per_cell() {
    assert!(Grid::new(2, 2, vec![px(0, 0, 0, 0); 4]).is_some());
    assert!(Grid::new(2, 2, vec![px(0, 0, 0, 0); 3]).is_none());
    assert!(Grid::new(2, 2, vec![px(0, 0, 0, 0); 5]).is_none());
    assert!(Grid::new(0, 7, Vec::new()).is_some());
    assert!(Grid::new(0, 0, vec![px(0, 0, 0, 0)]).is_none());
    let g = grid(3, 1, vec![px(1, 2, 3, 4); 3]);
    assert_eq!((g.width, g.height, g.samples.len()), (3, 1, 3));
}

#[test]
fn coloured_cubes_stand_at_their_cells() {
    let g = grid(2, 2, vec![px(255, 0, 0, 255), px(0, 255, 0, 1), px(0, 0, 255, 128), px(51, 51, 51, 255)]);
    let cubes = get_cubes(&g, MaterialMode::SampleColor);
    let at = |col: i64, row: i64, r: i64, g: i64, b: i64| Cube {
        pos: Vec3 { x: col * UNIT, y: -row * UNIT, z: 0 },
        mat: Mtl::new_from_color(Color { r, g, b }),
        scale: Vec3::uniform(UNIT),
        text_coord: None,
    };
    assert_eq!(
        cubes,
        vec![
            at(0, 0, UNIT, 0, 0),
            at(1, 0, 0, UNIT, 0),
            at(0, 1, 0, 0, UNIT),
            at(1, 1, 200_000, 200_000, 200_000),
        ]
    );
}

#[test]
fn textured_cubes_share_one_material_and_sample_their_cell() {
    let g = grid(4, 2, vec![px(9, 9, 9, 255); 8]);
    let cubes = get_cubes(&g, MaterialMode::SharedTexture);
    assert_eq!(cubes.len(), 8);
    for (i, c) in cubes.iter().enumerate() {
        let (col, row) = ((i % 4) as i64, (i / 4) as i64);
        assert_eq!(c.pos, Vec3 { x: col * UNIT, y: -row * UNIT, z: 0 });
        assert_eq!(c.scale, Vec3::uniform(UNIT));
        assert_eq!(c.mat, white_textured());
        let p = Vec3 { x: col * 250_000, y: -row * 500_000, z: 0 };
        assert_eq!(c.text_coord, Some(TexQuad { c0: p, c1: p, c2: p, c3: p }));
    }
}

#[test]
fn texture_point_is_rounded_toward_zero() {
    let g = grid(3, 3, vec![px(0, 0, 0, 255); 9]);
    let cubes = get_cubes(&g, MaterialMode::SharedTexture);
    assert_eq!(cubes[4].text_coord.unwrap().c0, Vec3 { x: 333_333, y: -333_333, z: 0 });
    assert_eq!(cubes[8].text_coord.unwrap().c3, Vec3 { x: 666_666, y: -666_666, z: 0 });
}

#[test]
fn transparent_samples_have_no_cube() {
    let g = grid(3, 2, vec![
        px(1, 1, 1, 0), px(2, 2, 2, 255), px(3, 3, 3, 0),
        px(4, 4, 4, 0), px(5, 5, 5, 0), px(6, 6, 6, 7),
    ]);
    for mode in [MaterialMode::SampleColor, MaterialMode::SharedTexture] {
        let cubes = get_cubes(&g, mode);
        assert_eq!(cubes.len(), 2);
        assert_eq!(cubes[0].pos, Vec3 { x: UNIT, y: 0, z: 0 });
        assert_eq!(cubes[1].pos, Vec3 { x: 2 * UNIT, y: -UNIT, z: 0 });
    }
}

#[test]
fn fully_transparent_grid_gives_an_empty_mesh() {
    let g = grid(2, 2, vec![px(255, 255, 255, 0); 4]);
    assert!(get_cubes(&g, MaterialMode::SampleColor).is_empty());
    assert!(get_cubes(&g, MaterialMode::SharedTexture).is_empty());
    let model = build_model(&g, MaterialMode::SampleColor, "in.png");
    assert_eq!(model.vertices.len(), 0);
    assert_eq!(model.faces.len(), 0);
    assert_eq!(model.materials.len(), 0);
    assert_eq!(model.texture_coordinates.len(), 0);
    assert_eq!(model.textures, vec!["in.png".to_string()]);
}

#[test]
fn single_transparent_sample_contributes_nothing() {
    let g = grid(1, 1, vec![px(10, 20, 30, 0)]);
    let mut cubes = get_cubes(&g, MaterialMode::SampleColor);
    assert_eq!(cubes.len(), 0);
    optimize_cubes(&mut cubes);
    let mut model = Obj::new();
    model.add_cubes(&cubes);
    assert_eq!((model.vertices.len(), model.faces.len()), (0, 0));
}

#[test]
fn empty_grid_gives_no_cubes() {
    let g = grid(0, 0, Vec::new());
    assert!(get_cubes(&g, MaterialMode::SampleColor).is_empty());
}

#[test]
fn two_equal_pixels_round_trip() {
    let g = grid(2, 1, vec![px(255, 0, 0, 255), px(255, 0, 0, 255)]);
    let mut cubes = get_cubes(&g, MaterialMode::SampleColor);
    assert_eq!(cubes.len(), 2);
    optimize_cubes(&mut cubes);
    assert_eq!(cubes.len(), 1);
    assert_eq!(cubes[0].pos, Vec3 { x: 500_000, y: 0, z: 0 });
    assert_eq!(cubes[0].scale, Vec3 { x: 2 * UNIT, y: UNIT, z: UNIT });
    let mut model = Obj::new();
    model.add_cubes(&cubes);
    assert_eq!(model.vertices.len(), 8);
    assert_eq!(model.faces.len(), 6);
    assert_eq!(model.materials.len(), 1);
    let geometry = model.export_obj("two.mtl");
    assert_eq!(geometry.lines().filter(|l| *l == "usemtl m0").count(), 1);
    assert_eq!(geometry.lines().filter(|l| l.starts_with("usemtl")).count(), 1);
    assert_eq!(geometry.lines().filter(|l| l.starts_with("f ")).count(), 6);
    assert_eq!(geometry.lines().filter(|l| l.starts_with("v ")).count(), 8);
    assert_eq!(geometry.lines().nth(1), Some("v 1.5 0.5 0.5"));
    assert_eq!(geometry.lines().nth(8), Some("v -0.5 -0.5 -0.5"));
    assert_eq!(model.export_mtl(), "newmtl m0\nKa 1.0 0.0 0.0\nKd 1.0 0.0 0.0\nKs 1.0 1.0 1.0\n");
}

#[test]
fn model_of_two_equal_pixels() {
    let g = grid(2, 1, vec![px(255, 0, 0, 255), px(255, 0, 0, 255)]);
    let model = build_model(&g, MaterialMode::SampleColor, "two.png");
    assert_eq!((model.vertices.len(), model.faces.len(), model.materials.len()), (8, 6, 1));
    assert_eq!(model.textures, vec!["two.png".to_string()]);
    assert!(model.is_consistent());
    assert!(model.textures_resolved());
    assert_eq!(model.export_mtl(), "newmtl m0\nKa 1.0 0.0 0.0\nKd 1.0 0.0 0.0\nKs 1.0 1.0 1.0\n");
}

#[test]
fn textured_model_keeps_one_cube_per_pixel() {
    let g = grid(2, 2, vec![px(1, 2, 3, 255); 4]);
    let model = build_model(&g, MaterialMode::SharedTexture, "art.png");
    assert_eq!((model.vertices.len(), model.faces.len(), model.materials.len()), (32, 24, 1));
    assert_eq!(model.texture_coordinates.len(), 16);
    assert!(model.is_consistent());
    assert!(model.textures_resolved());
    let mtl = model.export_mtl();
    assert_eq!(mtl, "newmtl m0\nKa 1.0 1.0 1.0\nKd 1.0 1.0 1.0\nKs 1.0 1.0 1.0\nmap_Kd art.png\n");
    let geometry = model.export_obj("art.mtl");
    assert_eq!(geometry.lines().filter(|l| l.starts_with("vt ")).count(), 16);
    assert_eq!(geometry.lines().nth(1 + 32 + 4), Some("vt 0.5 0"));
    assert_eq!(geometry.lines().nth(1 + 32 + 8), Some("vt 0 -0.5"));
    assert_eq!(geometry.lines().last(), Some("f 27/13 28/14 32/15 31/16"));
}

#[test]
fn picture_with_two_colours_merges_each_area() {
    let red = px(255, 0, 0, 255);
    let blue = px(0, 0, 255, 255);
    let clear = px(0, 0, 0, 0);
    let g = grid(4, 3, vec![
        red, red, blue, blue,
        red, red, blue, blue,
        clear, clear, blue, blue,
    ]);
    let model = build_model(&g, MaterialMode::SampleColor, "p.png");
    assert_eq!(model.materials.len(), 2);
    assert_eq!(model.faces.len(), 12);
    assert_eq!(model.vertices.len(), 16);
    assert_eq!(model.vertices[0], Vec3 { x: 1_500_000, y: 500_000, z: 500_000 });
    assert_eq!(model.vertices[7], Vec3 { x: -500_000, y: -1_500_000, z: -500_000 });
    assert_eq!(model.vertices[8], Vec3 { x: 3_500_000, y: 500_000, z: 500_000 });
    assert_eq!(model.vertices[15], Vec3 { x: 1_500_000, y: -2_500_000, z: -500_000 });
}
