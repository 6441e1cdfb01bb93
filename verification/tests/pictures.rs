use image::{DynamicImage, GrayImage, RgbImage, RgbaImage};
use voxelinator::grid::{get_cubes, Grid, MaterialMode, Sample};
use voxelinator::model::build_model;

#[test]
fn grid_of_an_rgba_picture_keeps_every_channel() {
    let raw = vec![1, 2, 3, 4, 5, 6, 7, 8, 9, 10, 11, 12, 13, 14, 15, 16, 17, 18, 19, 20, 21, 22, 23, 0];
    let img = DynamicImage::ImageRgba8(RgbaImage::from_raw(3, 2, raw).unwrap());
    let grid = Grid::from_image(&img).unwrap();
    assert_eq!((grid.width, grid.height), (3, 2));
    assert_eq!(
        grid.samples,
        vec![
            Sample { r: 1, g: 2, b: 3, a: 4 },
            Sample { r: 5, g: 6, b: 7, a: 8 },
            Sample { r: 9, g: 10, b: 11, a: 12 },
            Sample { r: 13, g: 14, b: 15, a: 16 },
            Sample { r: 17, g: 18, b: 19, a: 20 },
            Sample { r: 21, g: 22, b: 23, a: 0 },
        ]
    );
    assert_eq!(get_cubes(&grid, MaterialMode::SampleColor).len(), 5);
}

#[test]
fn grid_of_a_picture_without_alpha_is_opaque() {
    let img = DynamicImage::ImageRgb8(RgbImage::from_raw(1, 2, vec![10, 20, 30, 40, 50, 60]).unwrap());
    let grid = Grid::from_image(&img).unwrap();
    assert_eq!((grid.width, grid.height), (1, 2));
    assert_eq!(
        grid.samples,
        vec![Sample { r: 10, g: 20, b: 30, a: 255 }, Sample { r: 40, g: 50, b: 60, a: 255 }]
    );
}

#[test]
fn grid_of_a_grey_picture_repeats_the_level() {
    let img = DynamicImage::ImageLuma8(GrayImage::from_raw(2, 1, vec![0, 200]).unwrap());
    let grid = Grid::from_image(&img).unwrap();
    assert_eq!(
        grid.samples,
        vec![Sample { r: 0, g: 0, b: 0, a: 255 }, Sample { r: 200, g: 200, b: 200, a: 255 }]
    );
}

#[test]
fn grid_of_a_picture_ignores_bytes_beyond_the_last_row() {
    let raw = vec![9, 9, 9, 9, 8, 8, 8, 8, 7, 7, 7, 7];
    let img = DynamicImage::ImageRgba8(RgbaImage::from_raw(2, 1, raw).unwrap());
    let grid = Grid::from_image(&img).unwrap();
    assert_eq!((grid.width, grid.height), (2, 1));
    assert_eq!(grid.samples, vec![Sample { r: 9, g: 9, b: 9, a: 9 }, Sample { r: 8, g: 8, b: 8, a: 8 }]);
}

#[test]
fn grid_of_an_empty_picture_is_empty() {
    let img = DynamicImage::ImageRgba8(RgbaImage::from_raw(0, 0, Vec::new()).unwrap());
    let grid = Grid::from_image(&img).unwrap();
    assert_eq!((grid.width, grid.height, grid.samples.len()), (0, 0, 0));
    let wide = DynamicImage::ImageRgba8(RgbaImage::from_raw(5, 0, Vec::new()).unwrap());
    let grid = Grid::from_image(&wide).unwrap();
    assert_eq!((grid.width, grid.height, grid.samples.len()), (5, 0, 0));
}

#[test]
fn pixels_fill_whole_rows_or_there_is_no_grid() {
    let px = (1u8, 2u8, 3u8, 4u8);
    assert!(Grid::from_pixels(0, &vec![px]).is_none());
    assert!(Grid::from_pixels(2, &vec![px; 3]).is_none());
    let g = Grid::from_pixels(2, &vec![px; 6]).unwrap();
    assert_eq!((g.width, g.height), (2, 3));
    assert_eq!(g.samples[5], Sample { r: 1, g: 2, b: 3, a: 4 });
    let e = Grid::from_pixels(0, &Vec::new()).unwrap();
    assert_eq!((e.width, e.height), (0, 0));
    let f = Grid::from_pixels(7, &Vec::new()).unwrap();
    assert_eq!((f.width, f.height), (7, 0));
}

#[test]
fn picture_of_one_colour_becomes_one_box() {
    let mut raw = Vec::new();
    for _ in 0..12 {
        raw.extend_from_slice(&[0, 128, 255, 255]);
    }
    let img = DynamicImage::ImageRgba8(RgbaImage::from_raw(4, 3, raw).unwrap());
    let grid = Grid::from_image(&img).unwrap();
    let model = build_model(&grid, MaterialMode::SampleColor, "blue.png");
    assert_eq!((model.vertices.len(), model.faces.len(), model.materials.len()), (8, 6, 1));
    assert_eq!(
        model.export_mtl(),
        "newmtl m0\nKa 0.0 0.501961 1.0\nKd 0.0 0.501961 1.0\nKs 1.0 1.0 1.0\n"
    );
    let geometry = model.export_obj("blue.mtl");
    assert_eq!(geometry.lines().nth(1), Some("v 3.5 0.5 0.5"));
    assert_eq!(geometry.lines().nth(8), Some("v -0.5 -2.5 -0.5"));
}
