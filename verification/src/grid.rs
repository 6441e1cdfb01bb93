//! From a grid of colour samples to unit boxes, one per sample that is not
//! fully transparent.

use vstd::prelude::*;
use crate::cube::{Cube, TexQuad};
use crate::material::{channel_of, Color, Mtl, MtlParams};
use crate::optimize::{bounded, disjoint, occupies, within};
use crate::sheet::{is_sheet, Sheet};
use crate::vec3::{Vec3, UNIT};

verus! {

/// One cell of the grid: 8-bit red, green, blue and alpha.
#[derive(Clone, Copy, Debug, PartialEq, Eq, Structural)]
pub struct Sample {
    pub r: u8,
    pub g: u8,
    pub b: u8,
    pub a: u8,
}

/// A grid of samples, stored row by row from the top.
pub struct Grid {
    pub width: u32,
    pub height: u32,
    pub samples: Vec<Sample>,
}

/// A decoded picture of the `image` crate, whatever its pixel format.
#[verifier::external_type_specification]
#[verifier::external_body]
pub struct ExDynamicImage(image::DynamicImage);

/// The width of a picture in pixels, as `image::DynamicImage::width` gives it.
pub uninterp spec fn image_width(img: image::DynamicImage) -> u32;

/// The pixels of a picture as 8-bit red, green, blue and alpha, row by row
/// from the top and each row from the left: what the iterator
/// `image::ImageBuffer::pixels` yields for the copy that
/// `image::DynamicImage::to_rgba8` makes.
pub uninterp spec fn image_pixels(img: image::DynamicImage) -> Seq<(u8, u8, u8, u8)>;

/// Calls `image::DynamicImage::width`. Nothing is claimed of the width but
/// that it is a property of the picture.
#[verifier::external_body]
fn width_of(img: &image::DynamicImage) -> (width: u32)
    ensures
        width == image_width(*img),
{
    img.width()
}

/// Calls `image::DynamicImage::to_rgba8` and walks the copy with
/// `image::ImageBuffer::pixels`, moving the four channels of each pixel into
/// a tuple. Nothing is claimed of the pixels but that they are a property of
/// the picture.
#[verifier::external_body]
fn pixels_of(img: &image::DynamicImage) -> (pixels: Vec<(u8, u8, u8, u8)>)
    ensures
        pixels@ == image_pixels(*img),
{
    img.to_rgba8().pixels().map(|p| (p.0[0], p.0[1], p.0[2], p.0[3])).collect()
}

/// The samples of a sequence of pixels.
pub open spec fn samples_of(pixels: Seq<(u8, u8, u8, u8)>) -> Seq<Sample> {
    Seq::new(
        pixels.len(),
        |i: int| Sample { r: pixels[i].0, g: pixels[i].1, b: pixels[i].2, a: pixels[i].3 },
    )
}

/// The height of a grid of the given width that holds `count` samples in
/// full rows, if there is one: no sample fits a grid without width, and
/// the rows must be countable.
pub open spec fn rows_for(width: int, count: int) -> Option<int> {
    if width == 0 {
        if count == 0 {
            Some(0int)
        } else {
            None
        }
    } else if count % width == 0 && count / width <= u32::MAX {
        Some(count / width)
    } else {
        None
    }
}

/// Where the boxes get their material from.
#[derive(Clone, Copy, Debug, PartialEq, Eq, Structural)]
pub enum MaterialMode {
    /// Every box carries the same white material that refers to texture 0,
    /// and samples that texture at the place of its own cell.
    SharedTexture,
    /// Every box carries the matte material of its own sample's colour and
    /// no texture coordinates.
    SampleColor,
}

/// The white material that refers to the first texture file.
pub open spec fn textured_material() -> Mtl {
    Mtl {
        diffuse_texture_map: Some(0usize),
        ..(MtlParams {
            ambient_color: Color::white(),
            diffuse_color: Color::white(),
            specular_color: Color::white(),
        }).material()
    }
}

/// The matte material of a sample's colour.
pub open spec fn colored_material(s: Sample) -> Mtl {
    (MtlParams {
        ambient_color: Color {
            r: channel_of(s.r as int) as i64,
            g: channel_of(s.g as int) as i64,
            b: channel_of(s.b as int) as i64,
        },
        diffuse_color: Color {
            r: channel_of(s.r as int) as i64,
            g: channel_of(s.g as int) as i64,
            b: channel_of(s.b as int) as i64,
        },
        specular_color: Color::white(),
    }).material()
}

/// The place of a cell in the texture: the column as a fraction of the
/// width, and the row as a fraction of the height, negated.
pub open spec fn texture_point(width: int, height: int, col: int, row: int) -> Vec3 {
    Vec3 { x: (col * UNIT / width) as i64, y: (-(row * UNIT / height)) as i64, z: 0 }
}

/// The unit box of the sample in column `col` and row `row`: columns run
/// along x, rows downward along y, and z is zero.
pub open spec fn sample_cube(
    width: int,
    height: int,
    s: Sample,
    col: int,
    row: int,
    mode: MaterialMode,
) -> Cube {
    Cube {
        pos: Vec3 { x: (col * UNIT) as i64, y: (-(row * UNIT)) as i64, z: 0 },
        mat: match mode {
            MaterialMode::SharedTexture => textured_material(),
            MaterialMode::SampleColor => colored_material(s),
        },
        scale: Vec3 { x: UNIT, y: UNIT, z: UNIT },
        text_coord: match mode {
            MaterialMode::SharedTexture => Some(
                TexQuad {
                    c0: texture_point(width, height, col, row),
                    c1: texture_point(width, height, col, row),
                    c2: texture_point(width, height, col, row),
                    c3: texture_point(width, height, col, row),
                },
            ),
            MaterialMode::SampleColor => None,
        },
    }
}

/// How many of the first `n` samples are not fully transparent.
pub open spec fn opaque_count(samples: Seq<Sample>, n: int) -> int
    decreases n,
{
    if n <= 0 {
        0
    } else {
        opaque_count(samples, n - 1) + if samples[n - 1].a == 0 {
            0int
        } else {
            1int
        }
    }
}

impl Grid {
    /// Whether there is exactly one sample for every cell.
    pub open spec fn wf(&self) -> bool {
        self.samples@.len() == self.width * self.height
    }

    /// The unit box of sample `i`, which stands in column `i % width` of row
    /// `i / width`.
    pub open spec fn box_at(&self, mode: MaterialMode, i: int) -> Cube {
        sample_cube(
            self.width as int,
            self.height as int,
            self.samples@[i],
            i % (self.width as int),
            i / (self.width as int),
            mode,
        )
    }

    /// The boxes of the first `n` samples, in scan order. A sample whose
    /// alpha is zero has no box.
    pub open spec fn cubes_of(&self, mode: MaterialMode, n: int) -> Seq<Cube>
        decreases n,
    {
        if n <= 0 {
            Seq::empty()
        } else if self.samples@[n - 1].a == 0 {
            self.cubes_of(mode, n - 1)
        } else {
            self.cubes_of(mode, n - 1).push(self.box_at(mode, n - 1))
        }
    }

    /// The grid of the given width over `pixels`, taken row by row, if they
    /// fill whole rows.
    pub fn from_pixels(width: u32, pixels: &Vec<(u8, u8, u8, u8)>) -> (grid: Option<Grid>)
        ensures
            match grid {
                Some(g) => g.wf() && g.width == width && Some(g.height as int) == rows_for(
                    width as int,
                    pixels@.len() as int,
                ) && g.samples@ == samples_of(pixels@),
                None => rows_for(width as int, pixels@.len() as int) is None,
            },
    {
        let n: usize = pixels.len();
        let height: u32 = if width == 0 {
            if n != 0 {
                return None;
            }
            0
        } else {
            if n % (width as usize) != 0 || n / (width as usize) > u32::MAX as usize {
                return None;
            }
            (n / (width as usize)) as u32
        };
        let mut samples: Vec<Sample> = Vec::new();
        let mut i: usize = 0;
        while i < n
            invariant
                i <= n,
                n == pixels@.len(),
                samples@ == samples_of(pixels@).subrange(0, i as int),
            decreases n - i,
        {
            let p: (u8, u8, u8, u8) = pixels[i];
            samples.push(Sample { r: p.0, g: p.1, b: p.2, a: p.3 });
            i += 1;
            assert(samples@ =~= samples_of(pixels@).subrange(0, i as int));
        }
        assert(samples@ =~= samples_of(pixels@));
        proof {
            if width > 0 {
                vstd::arithmetic::div_mod::lemma_fundamental_div_mod(n as int, width as int);
            }
        }
        Some(Grid { width, height, samples })
    }

    /// The grid of a decoded picture, if its pixels fill whole rows.
    pub fn from_image(img: &image::DynamicImage) -> (grid: Option<Grid>)
        ensures
            match grid {
                Some(g) => g.wf() && g.width == image_width(*img) && Some(g.height as int)
                    == rows_for(image_width(*img) as int, image_pixels(*img).len() as int)
                    && g.samples@ == samples_of(image_pixels(*img)),
                None => rows_for(image_width(*img) as int, image_pixels(*img).len() as int)
                    is None,
            },
    {
        let width: u32 = width_of(img);
        let pixels: Vec<(u8, u8, u8, u8)> = pixels_of(img);
        Grid::from_pixels(width, &pixels)
    }

    /// The grid of the given size over `samples`, if there is one sample for
    /// every cell.
    pub fn new(width: u32, height: u32, samples: Vec<Sample>) -> (grid: Option<Grid>)
        ensures
            match grid {
                Some(g) => g.wf() && g.width == width && g.height == height && g.samples@
                    == samples@,
                None => samples@.len() != width * height,
            },
    {
        assert(width * height <= 0xffff_ffff * 0xffff_ffff) by (nonlinear_arith)
            requires
                0 <= width <= 0xffff_ffff,
                0 <= height <= 0xffff_ffff,
        ;
        let cells: u64 = (width as u64) * (height as u64);
        if samples.len() as u64 == cells {
            Some(Grid { width, height, samples })
        } else {
            None
        }
    }
}

/// Over a whole grid, every box stands for a distinct sample that is not
/// fully transparent: there are as many boxes as such samples.
pub proof fn lemma_one_cube_per_opaque_sample(grid: Grid, mode: MaterialMode, n: int)
    ensures
        grid.cubes_of(mode, n).len() == opaque_count(grid.samples@, n),
    decreases n,
{
    if n > 0 {
        lemma_one_cube_per_opaque_sample(grid, mode, n - 1);
    }
}

/// The boxes of two samples of a grid share no point.
proof fn lemma_boxes_apart(grid: Grid, mode: MaterialMode, i: int, j: int, p: (int, int, int))
    requires
        grid.wf(),
        0 <= i < j < grid.samples@.len(),
    ensures
        !(occupies(grid.box_at(mode, i), p) && occupies(grid.box_at(mode, j), p)),
{
    let w = grid.width as int;
    let h = grid.height as int;
    assert(w > 0) by (nonlinear_arith)
        requires
            w * h > 0,
            w >= 0,
    ;
    lemma_next_cell(w, h, i);
    lemma_next_cell(w, h, j);
    vstd::arithmetic::div_mod::lemma_fundamental_div_mod(i, w);
    vstd::arithmetic::div_mod::lemma_fundamental_div_mod(j, w);
    let a = grid.box_at(mode, i);
    let b = grid.box_at(mode, j);
    assert(a.pos.x == (i % w) * 1_000_000 && a.pos.y == -((i / w) * 1_000_000));
    assert(b.pos.x == (j % w) * 1_000_000 && b.pos.y == -((j / w) * 1_000_000));
    assert(a.scale.x == 1_000_000 && a.scale.y == 1_000_000);
    assert(b.scale.x == 1_000_000 && b.scale.y == 1_000_000);
    if i % w == j % w && i / w == j / w {
        assert(false);
    }
}

/// Every box of a grid is the box of one of its samples.
proof fn lemma_cubes_are_boxes(grid: Grid, mode: MaterialMode, n: int)
    requires
        0 <= n <= grid.samples@.len(),
    ensures
        forall|k: int|
            0 <= k < grid.cubes_of(mode, n).len() ==> exists|i: int|
                0 <= i < n && #[trigger] grid.cubes_of(mode, n)[k] == #[trigger] grid.box_at(
                    mode,
                    i,
                ),
    decreases n,
{
    if n > 0 {
        lemma_cubes_are_boxes(grid, mode, n - 1);
        let before = grid.cubes_of(mode, n - 1);
        let now = grid.cubes_of(mode, n);
        assert forall|k: int| 0 <= k < now.len() implies exists|i: int|
            0 <= i < n && #[trigger] now[k] == #[trigger] grid.box_at(mode, i) by {
            if k < before.len() {
                let i = choose|i: int|
                    0 <= i < n - 1 && #[trigger] before[k] == #[trigger] grid.box_at(mode, i);
                assert(now[k] == grid.box_at(mode, i));
            } else {
                assert(now[k] == grid.box_at(mode, n - 1));
            }
        }
    }
}

/// No point is occupied by two boxes of a grid.
pub proof fn lemma_grid_cubes_disjoint(grid: Grid, mode: MaterialMode, n: int)
    requires
        grid.wf(),
        0 <= n <= grid.samples@.len(),
    ensures
        disjoint(grid.cubes_of(mode, n)),
    decreases n,
{
    if n > 0 {
        lemma_grid_cubes_disjoint(grid, mode, n - 1);
        lemma_cubes_are_boxes(grid, mode, n - 1);
        let before = grid.cubes_of(mode, n - 1);
        let now = grid.cubes_of(mode, n);
        assert forall|a: int, b: int, p: (int, int, int)|
            0 <= a < now.len() && 0 <= b < now.len() && a != b implies !(#[trigger] occupies(
            now[a],
            p,
        ) && #[trigger] occupies(now[b], p)) by {
            if a < before.len() && b < before.len() {
                assert(!(occupies(before[a], p) && occupies(before[b], p)));
            } else {
                let old = if a < before.len() {
                    a
                } else {
                    b
                };
                let i = choose|i: int|
                    0 <= i < n - 1 && #[trigger] before[old] == #[trigger] grid.box_at(mode, i);
                lemma_boxes_apart(grid, mode, i, n - 1, p);
            }
        }
    }
}

/// A bound, in half scalars, within which every box of a grid lies.
pub open spec fn grid_bound() -> int {
    10_000_000_000_000_000
}

/// Whether the box's material names no texture, or the first one.
pub open spec fn first_texture_only(c: Cube) -> bool {
    c.mat.diffuse_texture_map is None || c.mat.diffuse_texture_map == Some(0usize)
}

/// The boxes of a grid lie within [`grid_bound`], and none names a texture
/// but the first.
pub(crate) proof fn lemma_grid_cubes(grid: Grid, mode: MaterialMode, n: int)
    requires
        grid.wf(),
        0 <= n <= grid.samples@.len(),
    ensures
        bounded(grid.cubes_of(mode, n), -grid_bound(), grid_bound()),
        forall|k: int|
            0 <= k < grid.cubes_of(mode, n).len() ==> first_texture_only(
                #[trigger] grid.cubes_of(mode, n)[k],
            ),
    decreases n,
{
    if n > 0 {
        lemma_grid_cubes(grid, mode, n - 1);
        let w = grid.width as int;
        let h = grid.height as int;
        assert(w > 0) by (nonlinear_arith)
            requires
                w * h > 0,
                w >= 0,
        ;
        lemma_next_cell(w, h, n - 1);
        let col = (n - 1) % w;
        let row = (n - 1) / w;
        let c = sample_cube(w, h, grid.samples@[n - 1], col, row, mode);
        assert(c.pos.x == col * 1_000_000);
        assert(c.pos.y == -(row * 1_000_000));
        assert(within(c, -grid_bound(), grid_bound()));
        assert(first_texture_only(c));
    }
}

/// The sheet that a grid without transparent samples and of the one colour
/// of `s` makes: its row 0 is the bottom row of the grid.
pub open spec fn sheet_of(grid: Grid, s: Sample) -> Sheet {
    Sheet {
        origin: Vec3 { x: 0, y: (-((grid.height - 1) * UNIT)) as i64, z: 0 },
        cols: grid.width as int,
        rows: grid.height as int,
        mat: colored_material(s),
        text_coord: None,
    }
}

/// Whether no sample is fully transparent and all have the colour of `s`.
pub open spec fn uniform(samples: Seq<Sample>, s: Sample) -> bool {
    forall|i: int|
        0 <= i < samples.len() ==> (#[trigger] samples[i]).a != 0 && samples[i].r == s.r
            && samples[i].g == s.g && samples[i].b == s.b
}

/// Without transparent samples, sample `k` has box `k`.
proof fn lemma_uniform_cubes(grid: Grid, s: Sample, n: int)
    requires
        uniform(grid.samples@, s),
        0 <= n <= grid.samples@.len(),
    ensures
        grid.cubes_of(MaterialMode::SampleColor, n).len() == n,
        forall|k: int|
            0 <= k < n ==> #[trigger] grid.cubes_of(MaterialMode::SampleColor, n)[k] == sample_cube(
                grid.width as int,
                grid.height as int,
                s,
                k % (grid.width as int),
                k / (grid.width as int),
                MaterialMode::SampleColor,
            ),
    decreases n,
{
    if n > 0 {
        lemma_uniform_cubes(grid, s, n - 1);
        assert(grid.samples@[n - 1].a != 0);
        assert(colored_material(grid.samples@[n - 1]) == colored_material(s));
    }
}

/// The boxes of a non-empty grid without transparent samples and of one
/// colour, each with the matte material of that colour, are a sheet.
pub proof fn lemma_uniform_grid_is_sheet(grid: Grid, s: Sample)
    requires
        grid.wf(),
        grid.width >= 1,
        grid.height >= 1,
        uniform(grid.samples@, s),
    ensures
        is_sheet(
            grid.cubes_of(MaterialMode::SampleColor, grid.samples@.len() as int),
            sheet_of(grid, s),
        ),
{
    let n = grid.samples@.len() as int;
    let w = grid.width as int;
    let h = grid.height as int;
    let cubes = grid.cubes_of(MaterialMode::SampleColor, n);
    let sheet = sheet_of(grid, s);
    lemma_uniform_cubes(grid, s, n);
    assert(sheet.origin.y == -((h - 1) * 1_000_000));
    assert forall|k: int| 0 <= k < n implies 0 <= k % w < w && 0 <= k / w < h && #[trigger] cubes[k]
        == sheet.cell(k % w, h - 1 - k / w) by {
        lemma_next_cell(w, h, k);
        let c = k % w;
        let r = h - 1 - k / w;
        let cell = sheet.cell(c, r);
        assert(cell.pos.x == c * 1_000_000);
        assert(cell.pos.y == -((k / w) * 1_000_000));
        assert(cubes[k].pos.x == c * 1_000_000);
        assert(cubes[k].pos.y == -((k / w) * 1_000_000));
    }
    assert forall|k: int| 0 <= k < cubes.len() implies sheet.is_cell(#[trigger] cubes[k]) by {
        assert(cubes[k] == sheet.cell(k % w, h - 1 - k / w));
    }
    assert forall|i: int, j: int| 0 <= i < cubes.len() && 0 <= j < cubes.len() && i
        != j implies cubes[i] != cubes[j] by {
        vstd::arithmetic::div_mod::lemma_fundamental_div_mod(i, w);
        vstd::arithmetic::div_mod::lemma_fundamental_div_mod(j, w);
        assert(cubes[i] == sheet.cell(i % w, h - 1 - i / w));
        assert(cubes[j] == sheet.cell(j % w, h - 1 - j / w));
        if i % w == j % w && i / w == j / w {
            assert(false);
        }
        assert(cubes[i].pos.x == (i % w) * 1_000_000);
        assert(cubes[j].pos.x == (j % w) * 1_000_000);
        assert(cubes[i].pos.y == -((i / w) * 1_000_000));
        assert(cubes[j].pos.y == -((j / w) * 1_000_000));
    }
    assert forall|c: int, r: int| 0 <= c < w && 0 <= r < h implies cubes.contains(
        #[trigger] sheet.cell(c, r),
    ) by {
        let row = h - 1 - r;
        let k = row * w + c;
        assert(0 <= k < w * h) by (nonlinear_arith)
            requires
                0 <= c < w,
                0 <= row < h,
                k == row * w + c,
        ;
        vstd::arithmetic::div_mod::lemma_fundamental_div_mod_converse(k, w, row, c);
        assert(cubes[k] == sheet.cell(k % w, h - 1 - k / w));
    }
}

fn cell_texture(width: u32, height: u32, col: u32, row: u32) -> (p: Vec3)
    requires
        col < width,
        row < height,
    ensures
        p == texture_point(width as int, height as int, col as int, row as int),
{
    let x: i64 = (col as i64) * UNIT / (width as i64);
    let y: i64 = (row as i64) * UNIT / (height as i64);
    Vec3 { x, y: -y, z: 0 }
}

/// Builds the unit boxes of a grid, in scan order.
pub fn get_cubes(grid: &Grid, mode: MaterialMode) -> (cubes: Vec<Cube>)
    requires
        grid.wf(),
    ensures
        cubes@ == grid.cubes_of(mode, grid.samples@.len() as int),
        cubes@.len() == opaque_count(grid.samples@, grid.samples@.len() as int),
        disjoint(cubes@),
{
    let mut cubes: Vec<Cube> = Vec::new();
    let n: usize = grid.samples.len();
    let mut i: usize = 0;
    let mut col: u32 = 0;
    let mut row: u32 = 0;
    proof {
        if n > 0 {
            assert(grid.width > 0) by (nonlinear_arith)
                requires
                    grid.width * grid.height > 0,
            ;
            lemma_next_cell(grid.width as int, grid.height as int, 0);
        }
    }
    while i < n
        invariant
            i <= n,
            n == grid.samples@.len(),
            grid.wf(),
            i < n ==> grid.width > 0 && col < grid.width && row < grid.height,
            i < n ==> col as int == (i as int) % (grid.width as int) && row as int == (i as int) / (
            grid.width as int),
            cubes@ == grid.cubes_of(mode, i as int),
        decreases n - i,
    {
        let s: Sample = grid.samples[i];
        if s.a != 0 {
            let mat: Mtl = match mode {
                MaterialMode::SharedTexture => {
                    let white = Color { r: UNIT, g: UNIT, b: UNIT };
                    Mtl::builder(
                        MtlParams {
                            ambient_color: white,
                            diffuse_color: white,
                            specular_color: white,
                        },
                    ).with_diffuse_texture_map(Some(0)).build()
                },
                MaterialMode::SampleColor => Mtl::new_from_color(Color::from_rgb8(s.r, s.g, s.b)),
            };
            let text_coord: Option<TexQuad> = match mode {
                MaterialMode::SharedTexture => Some(
                    TexQuad::splat(cell_texture(grid.width, grid.height, col, row)),
                ),
                MaterialMode::SampleColor => None,
            };
            let c = Cube {
                pos: Vec3 { x: (col as i64) * UNIT, y: -((row as i64) * UNIT), z: 0 },
                mat,
                scale: Vec3::uniform(UNIT),
                text_coord,
            };
            cubes.push(c);
        }
        proof {
            lemma_next_cell(grid.width as int, grid.height as int, i as int);
            if i + 1 < n {
                lemma_next_cell(grid.width as int, grid.height as int, i + 1);
            }
        }
        i += 1;
        if col + 1 < grid.width {
            col += 1;
        } else {
            col = 0;
            if i < n {
                row += 1;
            }
        }
    }
    proof {
        lemma_one_cube_per_opaque_sample(*grid, mode, n as int);
        lemma_grid_cubes_disjoint(*grid, mode, n as int);
    }
    cubes
}

/// Where the sample after sample `i` stands: one column on, or at the
/// start of the next row.
proof fn lemma_next_cell(width: int, height: int, i: int)
    requires
        width > 0,
        0 <= i < width * height,
    ensures
        0 <= i % width < width,
        0 <= i / width < height,
        i % width + 1 < width ==> (i + 1) % width == i % width + 1 && (i + 1) / width == i / width,
        i % width + 1 == width ==> (i + 1) % width == 0 && (i + 1) / width == i / width + 1,
{
    let col = i % width;
    let row = i / width;
    vstd::arithmetic::div_mod::lemma_fundamental_div_mod(i, width);
    assert(0 <= row < height) by (nonlinear_arith)
        requires
            i == width * row + col,
            0 <= col < width,
            0 <= i < width * height,
    ;
    if col + 1 < width {
        assert(i + 1 == row * width + (col + 1)) by (nonlinear_arith)
            requires
                i == width * row + col,
        ;
        vstd::arithmetic::div_mod::lemma_fundamental_div_mod_converse(i + 1, width, row, col + 1);
    } else {
        assert(i + 1 == (row + 1) * width + 0) by (nonlinear_arith)
            requires
                i == width * row + col,
                col + 1 == width,
        ;
        vstd::arithmetic::div_mod::lemma_fundamental_div_mod_converse(i + 1, width, row + 1, 0);
    }
}

} // verus!
