//! Sheets: one layer of unit boxes that fills a rectangle, all of one
//! material, and the proof that merging turns such a sheet into one box.

use vstd::prelude::*;
use crate::cube::{Cube, TexQuad};
use crate::material::Mtl;
use crate::optimize::{
    absorbed, covered, directions, disjoint, joins, lemma_absorbed_volume, mergeable, merged,
    occupies, settled, span_holds, stuck, Direction,
};
use crate::vec3::{Vec3, UNIT};

verus! {

/// A rectangle of `cols` by `rows` unit cells in a plane of constant z.
/// `origin` is the centre of the cell in column 0 and row 0; columns run
/// along x and rows along y.
pub struct Sheet {
    pub origin: Vec3,
    pub cols: int,
    pub rows: int,
    pub mat: Mtl,
    pub text_coord: Option<TexQuad>,
}

/// The cells of columns `c0..c1` and rows `r0..r1`.
pub struct Rect {
    pub c0: int,
    pub c1: int,
    pub r0: int,
    pub r1: int,
}

impl Sheet {
    /// Whether the sheet is not empty and every box in it is representable.
    pub open spec fn valid(self) -> bool {
        &&& self.cols >= 1
        &&& self.rows >= 1
        &&& self.cols * UNIT <= i64::MAX
        &&& self.rows * UNIT <= i64::MAX
        &&& self.origin.x + (self.cols - 1) * UNIT <= i64::MAX
        &&& self.origin.y + (self.rows - 1) * UNIT <= i64::MAX
    }

    /// Whether `r` is a non-empty rectangle inside the sheet.
    pub open spec fn holds(self, r: Rect) -> bool {
        0 <= r.c0 < r.c1 <= self.cols && 0 <= r.r0 < r.r1 <= self.rows
    }

    /// The box that covers exactly the cells of `r`.
    pub open spec fn block(self, r: Rect) -> Cube {
        Cube {
            pos: Vec3 {
                x: (self.origin.x + (r.c0 + r.c1 - 1) * (UNIT / 2)) as i64,
                y: (self.origin.y + (r.r0 + r.r1 - 1) * (UNIT / 2)) as i64,
                z: self.origin.z,
            },
            mat: self.mat,
            scale: Vec3 {
                x: ((r.c1 - r.c0) * UNIT) as i64,
                y: ((r.r1 - r.r0) * UNIT) as i64,
                z: UNIT,
            },
            text_coord: self.text_coord,
        }
    }

    /// The unit box of the cell in column `c` and row `r`.
    pub open spec fn cell(self, c: int, r: int) -> Cube {
        self.block(Rect { c0: c, c1: c + 1, r0: r, r1: r + 1 })
    }

    /// The one box that covers the whole sheet.
    pub open spec fn whole(self) -> Cube {
        self.block(Rect { c0: 0, c1: self.cols, r0: 0, r1: self.rows })
    }

    /// The centre of the cell in column `c` and row `r`.
    pub open spec fn centre(self, c: int, r: int) -> (int, int, int) {
        (self.origin.x + c * UNIT, self.origin.y + r * UNIT, self.origin.z as int)
    }

    /// Whether `cube` is the unit box of some cell of the sheet.
    pub open spec fn is_cell(self, cube: Cube) -> bool {
        exists|c: int, r: int|
            0 <= c < self.cols && 0 <= r < self.rows && cube == #[trigger] self.cell(c, r)
    }

    /// The rectangle of cells that `cube` covers, if it covers one.
    #[verifier::opaque]
    pub closed spec fn rect_of(self, cube: Cube) -> Rect {
        Rect {
            c0: (2 * cube.pos.x - cube.scale.x - 2 * self.origin.x + UNIT) / (2 * UNIT),
            c1: (2 * cube.pos.x + cube.scale.x - 2 * self.origin.x + UNIT) / (2 * UNIT),
            r0: (2 * cube.pos.y - cube.scale.y - 2 * self.origin.y + UNIT) / (2 * UNIT),
            r1: (2 * cube.pos.y + cube.scale.y - 2 * self.origin.y + UNIT) / (2 * UNIT),
        }
    }

    /// Whether `cube` is the block of some rectangle inside the sheet.
    pub closed spec fn piece(self, cube: Cube) -> bool {
        self.holds(self.rect_of(cube)) && cube == self.block(self.rect_of(cube))
    }
}

/// Whether `cubes` holds, in any order, exactly the unit boxes of the cells
/// of `sheet`, each once.
pub open spec fn is_sheet(cubes: Seq<Cube>, sheet: Sheet) -> bool {
    &&& sheet.valid()
    &&& cubes.no_duplicates()
    &&& forall|k: int| 0 <= k < cubes.len() ==> sheet.is_cell(#[trigger] cubes[k])
    &&& forall|c: int, r: int|
        0 <= c < sheet.cols && 0 <= r < sheet.rows ==> cubes.contains(#[trigger] sheet.cell(c, r))
}

/// A single cell.
spec fn unit(r: Rect) -> bool {
    r.c1 == r.c0 + 1 && r.r1 == r.r0 + 1
}

/// A band of whole rows.
spec fn wide(sheet: Sheet, r: Rect) -> bool {
    r.c0 == 0 && r.c1 == sheet.cols
}

/// What the box that is growing may look like once it has finished with
/// `stage` directions: a band of whole rows, or part of one row that reaches
/// the right edge after the first direction and the left edge after the second.
spec fn seed_shape(sheet: Sheet, r: Rect, stage: int) -> bool {
    wide(sheet, r) || (r.r1 == r.r0 + 1 && (stage >= 1 ==> r.c1 == sheet.cols) && (stage >= 2
        ==> r.c0 == 0))
}

/// The state of a list that began as `sheet`, while the box at `seed` (none
/// if `seed` is negative) is growing and has finished with `stage` directions:
/// the boxes are apart, cover every cell, and each is a single cell or a band
/// of whole rows, but for the growing one.
pub(crate) closed spec fn on_sheet(cubes: Seq<Cube>, sheet: Sheet, seed: int, stage: int) -> bool {
    &&& sheet.valid()
    &&& disjoint(cubes)
    &&& forall|c: int, r: int|
        0 <= c < sheet.cols && 0 <= r < sheet.rows ==> covered(cubes, #[trigger] sheet.centre(c, r))
    &&& forall|k: int|
        0 <= k < cubes.len() ==> sheet.piece(#[trigger] cubes[k]) && (if k == seed {
            seed_shape(sheet, sheet.rect_of(cubes[k]), stage)
        } else {
            unit(sheet.rect_of(cubes[k])) || wide(sheet, sheet.rect_of(cubes[k]))
        })
}

/// The fields of a block, its rectangle, and which cell centres it occupies.
proof fn lemma_block(sheet: Sheet, r: Rect)
    requires
        sheet.valid(),
        sheet.holds(r),
    ensures
        sheet.block(r).pos.x == sheet.origin.x + (r.c0 + r.c1 - 1) * 500_000,
        sheet.block(r).pos.y == sheet.origin.y + (r.r0 + r.r1 - 1) * 500_000,
        sheet.block(r).scale.x == (r.c1 - r.c0) * 1_000_000,
        sheet.block(r).scale.y == (r.r1 - r.r0) * 1_000_000,
        sheet.rect_of(sheet.block(r)) == r,
        sheet.piece(sheet.block(r)),
        forall|c: int, w: int| #[trigger]
            occupies(sheet.block(r), sheet.centre(c, w)) == (r.c0 <= c < r.c1 && r.r0 <= w < r.r1),
{
    reveal(Sheet::rect_of);
    let b = sheet.block(r);
    assert(b.pos.x == sheet.origin.x + (r.c0 + r.c1 - 1) * 500_000);
    assert(b.pos.y == sheet.origin.y + (r.r0 + r.r1 - 1) * 500_000);
    assert(b.scale.x == (r.c1 - r.c0) * 1_000_000);
    assert(b.scale.y == (r.r1 - r.r0) * 1_000_000);
    assert(2 * b.pos.x - b.scale.x - 2 * sheet.origin.x + 1_000_000 == 2_000_000 * r.c0);
    assert(2 * b.pos.x + b.scale.x - 2 * sheet.origin.x + 1_000_000 == 2_000_000 * r.c1);
    assert(2 * b.pos.y - b.scale.y - 2 * sheet.origin.y + 1_000_000 == 2_000_000 * r.r0);
    assert(2 * b.pos.y + b.scale.y - 2 * sheet.origin.y + 1_000_000 == 2_000_000 * r.r1);
    vstd::arithmetic::div_mod::lemma_div_multiples_vanish(r.c0, 2_000_000);
    vstd::arithmetic::div_mod::lemma_div_multiples_vanish(r.c1, 2_000_000);
    vstd::arithmetic::div_mod::lemma_div_multiples_vanish(r.r0, 2_000_000);
    vstd::arithmetic::div_mod::lemma_div_multiples_vanish(r.r1, 2_000_000);
    assert(2 * UNIT == 2_000_000);
    assert(sheet.rect_of(b).c0 == (2_000_000 * r.c0) / 2_000_000);
    assert(sheet.rect_of(b).c1 == (2_000_000 * r.c1) / 2_000_000);
    assert(sheet.rect_of(b).r0 == (2_000_000 * r.r0) / 2_000_000);
    assert(sheet.rect_of(b).r1 == (2_000_000 * r.r1) / 2_000_000);
    assert(sheet.rect_of(b).c0 == r.c0);
    assert(sheet.rect_of(b).c1 == r.c1);
    assert(sheet.rect_of(b).r0 == r.r0);
    assert(sheet.rect_of(b).r1 == r.r1);
    assert forall|c: int, w: int| #[trigger]
        occupies(b, sheet.centre(c, w)) == (r.c0 <= c < r.c1 && r.r0 <= w < r.r1) by {
        let p = sheet.centre(c, w);
        assert(span_holds(b.pos.x as int, b.scale.x as int, p.0) == (r.c0 <= c < r.c1));
        assert(span_holds(b.pos.y as int, b.scale.y as int, p.1) == (r.r0 <= w < r.r1));
        assert(span_holds(b.pos.z as int, b.scale.z as int, p.2));
    }
}

/// What is known of a piece: it is the block of its rectangle.
proof fn lemma_piece(sheet: Sheet, cube: Cube)
    requires
        sheet.valid(),
        sheet.piece(cube),
    ensures
        sheet.holds(sheet.rect_of(cube)),
        cube == sheet.block(sheet.rect_of(cube)),
        cube.mat == sheet.mat,
        cube.text_coord == sheet.text_coord,
        cube.pos.z == sheet.origin.z,
        cube.scale.z == UNIT,
        cube.pos.x == sheet.origin.x + (sheet.rect_of(cube).c0 + sheet.rect_of(cube).c1 - 1) * 500_000,
        cube.pos.y == sheet.origin.y + (sheet.rect_of(cube).r0 + sheet.rect_of(cube).r1 - 1) * 500_000,
        cube.scale.x == (sheet.rect_of(cube).c1 - sheet.rect_of(cube).c0) * 1_000_000,
        cube.scale.y == (sheet.rect_of(cube).r1 - sheet.rect_of(cube).r0) * 1_000_000,
        forall|c: int, w: int| #[trigger]
            occupies(cube, sheet.centre(c, w)) == (sheet.rect_of(cube).c0 <= c < sheet.rect_of(
                cube,
            ).c1 && sheet.rect_of(cube).r0 <= w < sheet.rect_of(cube).r1),
{
    lemma_block(sheet, sheet.rect_of(cube));
}

/// Two pieces whose rectangles share a cell share a point.
proof fn lemma_pieces_apart(cubes: Seq<Cube>, sheet: Sheet, i: int, j: int, c: int, w: int)
    requires
        sheet.valid(),
        disjoint(cubes),
        0 <= i < cubes.len(),
        0 <= j < cubes.len(),
        sheet.piece(cubes[i]),
        sheet.piece(cubes[j]),
        sheet.rect_of(cubes[i]).c0 <= c < sheet.rect_of(cubes[i]).c1,
        sheet.rect_of(cubes[i]).r0 <= w < sheet.rect_of(cubes[i]).r1,
        sheet.rect_of(cubes[j]).c0 <= c < sheet.rect_of(cubes[j]).c1,
        sheet.rect_of(cubes[j]).r0 <= w < sheet.rect_of(cubes[j]).r1,
    ensures
        i == j,
{
    lemma_piece(sheet, cubes[i]);
    lemma_piece(sheet, cubes[j]);
    assert(occupies(cubes[i], sheet.centre(c, w)));
    assert(occupies(cubes[j], sheet.centre(c, w)));
}

/// The box that covers a given cell.
proof fn lemma_cover(cubes: Seq<Cube>, sheet: Sheet, seed: int, stage: int, c: int, w: int) -> (k:
    int)
    requires
        on_sheet(cubes, sheet, seed, stage),
        0 <= c < sheet.cols,
        0 <= w < sheet.rows,
    ensures
        0 <= k < cubes.len(),
        sheet.piece(cubes[k]),
        sheet.rect_of(cubes[k]).c0 <= c < sheet.rect_of(cubes[k]).c1,
        sheet.rect_of(cubes[k]).r0 <= w < sheet.rect_of(cubes[k]).r1,
{
    let p = sheet.centre(c, w);
    assert(covered(cubes, p));
    let k = choose|k: int| 0 <= k < cubes.len() && occupies(#[trigger] cubes[k], p);
    lemma_piece(sheet, cubes[k]);
    k
}

/// Two blocks side by side in a row, or two bands one above the other, can
/// be merged.
proof fn lemma_blocks_mergeable(sheet: Sheet, a: Rect, b: Rect, dir: Direction)
    requires
        sheet.valid(),
        sheet.holds(a),
        sheet.holds(b),
        match dir {
            Direction::PosX => a.r0 == b.r0 && a.r1 == b.r1 && a.c1 == b.c0,
            Direction::NegX => a.r0 == b.r0 && a.r1 == b.r1 && b.c1 == a.c0,
            Direction::PosY => a.c0 == b.c0 && a.c1 == b.c1 && a.r1 == b.r0,
            Direction::NegY => a.c0 == b.c0 && a.c1 == b.c1 && b.r1 == a.r0,
            _ => false,
        },
    ensures
        mergeable(sheet.block(a), sheet.block(b), dir),
{
    lemma_block(sheet, a);
    lemma_block(sheet, b);
    let x = sheet.block(a);
    let y = sheet.block(b);
    assert(x.scale.x % 2 == 0 && y.scale.x % 2 == 0 && x.scale.y % 2 == 0 && y.scale.y % 2 == 0);
    match dir {
        Direction::PosX => {
            assert(joins(x.pos.x as int, x.scale.x as int, y.pos.x as int, y.scale.x as int));
        },
        Direction::NegX => {
            assert(joins(y.pos.x as int, y.scale.x as int, x.pos.x as int, x.scale.x as int));
        },
        Direction::PosY => {
            assert(joins(x.pos.y as int, x.scale.y as int, y.pos.y as int, y.scale.y as int));
        },
        Direction::NegY => {
            assert(joins(y.pos.y as int, y.scale.y as int, x.pos.y as int, x.scale.y as int));
        },
        _ => {},
    }
}

/// Two runs of cells with the same centre and length are the same run.
proof fn lemma_same_run(o: int, a0: int, a1: int, b0: int, b1: int)
    requires
        o + (a0 + a1 - 1) * 500_000 == o + (b0 + b1 - 1) * 500_000,
        (a1 - a0) * 1_000_000 == (b1 - b0) * 1_000_000,
    ensures
        a0 == b0,
        a1 == b1,
{
}

/// A run that begins where another ends begins at the cell after it, and
/// the two together are one run.
proof fn lemma_next_run(o: int, a0: int, a1: int, b0: int, b1: int)
    requires
        2 * (o + (a0 + a1 - 1) * 500_000) + (a1 - a0) * 1_000_000 == 2 * (o + (b0 + b1 - 1)
            * 500_000) - (b1 - b0) * 1_000_000,
    ensures
        a1 == b0,
        o + (a0 + a1 - 1) * 500_000 + ((b1 - b0) * 1_000_000) / 2 == o + (a0 + b1 - 1) * 500_000,
        o + (b0 + b1 - 1) * 500_000 - ((a1 - a0) * 1_000_000) / 2 == o + (a0 + b1 - 1) * 500_000,
        (a1 - a0) * 1_000_000 + (b1 - b0) * 1_000_000 == (b1 - a0) * 1_000_000,
{
}

/// The rectangle that a merge of two pieces covers.
spec fn joined(a: Rect, b: Rect, dir: Direction) -> Rect {
    match dir {
        Direction::PosX => Rect { c1: b.c1, ..a },
        Direction::NegX => Rect { c0: b.c0, ..a },
        Direction::PosY => Rect { r1: b.r1, ..a },
        Direction::NegY => Rect { r0: b.r0, ..a },
        _ => a,
    }
}

/// Two pieces that can be merged lie side by side in the sheet, and their
/// merge is the block of the two rectangles joined.
proof fn lemma_merge_pieces(sheet: Sheet, x: Cube, y: Cube, dir: Direction)
    requires
        sheet.valid(),
        sheet.piece(x),
        sheet.piece(y),
        mergeable(x, y, dir),
    ensures
        ({
            let a = sheet.rect_of(x);
            let b = sheet.rect_of(y);
            &&& match dir {
                Direction::PosX => a.r0 == b.r0 && a.r1 == b.r1 && a.c1 == b.c0,
                Direction::NegX => a.r0 == b.r0 && a.r1 == b.r1 && b.c1 == a.c0,
                Direction::PosY => a.c0 == b.c0 && a.c1 == b.c1 && a.r1 == b.r0,
                Direction::NegY => a.c0 == b.c0 && a.c1 == b.c1 && b.r1 == a.r0,
                _ => false,
            }
            &&& sheet.holds(joined(a, b, dir))
            &&& merged(x, y, dir) == sheet.block(joined(a, b, dir))
        }),
{
    lemma_piece(sheet, x);
    lemma_piece(sheet, y);
    let a = sheet.rect_of(x);
    let b = sheet.rect_of(y);
    let j = joined(a, b, dir);
    let ox = sheet.origin.x as int;
    let oy = sheet.origin.y as int;
    match dir {
        Direction::PosX => {
            lemma_same_run(oy, a.r0, a.r1, b.r0, b.r1);
            lemma_next_run(ox, a.c0, a.c1, b.c0, b.c1);
            lemma_block(sheet, j);
            assert(merged(x, y, dir).pos.x == sheet.block(j).pos.x);
            assert(merged(x, y, dir).scale.x == sheet.block(j).scale.x);
        },
        Direction::NegX => {
            lemma_same_run(oy, a.r0, a.r1, b.r0, b.r1);
            lemma_next_run(ox, b.c0, b.c1, a.c0, a.c1);
            lemma_block(sheet, j);
            assert(merged(x, y, dir).pos.x == sheet.block(j).pos.x);
            assert(merged(x, y, dir).scale.x == sheet.block(j).scale.x);
        },
        Direction::PosY => {
            lemma_same_run(ox, a.c0, a.c1, b.c0, b.c1);
            lemma_next_run(oy, a.r0, a.r1, b.r0, b.r1);
            lemma_block(sheet, j);
            assert(merged(x, y, dir).pos.y == sheet.block(j).pos.y);
            assert(merged(x, y, dir).scale.y == sheet.block(j).scale.y);
        },
        Direction::NegY => {
            lemma_same_run(ox, a.c0, a.c1, b.c0, b.c1);
            lemma_next_run(oy, b.r0, b.r1, a.r0, a.r1);
            lemma_block(sheet, j);
            assert(merged(x, y, dir).pos.y == sheet.block(j).pos.y);
            assert(merged(x, y, dir).scale.y == sheet.block(j).scale.y);
        },
        Direction::PosZ => {
            assert(false);
        },
        Direction::NegZ => {
            assert(false);
        },
    }
}

/// A sheet as it is handed in is in the state from which growing starts.
pub(crate) proof fn lemma_sheet_start(cubes: Seq<Cube>, sheet: Sheet)
    requires
        is_sheet(cubes, sheet),
    ensures
        on_sheet(cubes, sheet, -1, 0),
{
    assert forall|k: int| 0 <= k < cubes.len() implies sheet.piece(#[trigger] cubes[k]) && unit(
        sheet.rect_of(cubes[k]),
    ) by {
        assert(sheet.is_cell(cubes[k]));
        let (c, r) = choose|c: int, r: int|
            0 <= c < sheet.cols && 0 <= r < sheet.rows && cubes[k] == #[trigger] sheet.cell(c, r);
        lemma_block(sheet, Rect { c0: c, c1: c + 1, r0: r, r1: r + 1 });
    }
    assert forall|c: int, r: int| 0 <= c < sheet.cols && 0 <= r < sheet.rows implies covered(
        cubes,
        #[trigger] sheet.centre(c, r),
    ) by {
        assert(cubes.contains(sheet.cell(c, r)));
        let k = choose|k: int| 0 <= k < cubes.len() && cubes[k] == sheet.cell(c, r);
        lemma_block(sheet, Rect { c0: c, c1: c + 1, r0: r, r1: r + 1 });
        assert(occupies(cubes[k], sheet.centre(c, r)));
    }
    assert forall|i: int, j: int, p: (int, int, int)|
        0 <= i < cubes.len() && 0 <= j < cubes.len() && i != j implies !(#[trigger] occupies(
        cubes[i],
        p,
    ) && #[trigger] occupies(cubes[j], p)) by {
        lemma_piece(sheet, cubes[i]);
        lemma_piece(sheet, cubes[j]);
        let a = sheet.rect_of(cubes[i]);
        let b = sheet.rect_of(cubes[j]);
        assert(unit(a) && unit(b));
        if a == b {
            assert(cubes[i] == cubes[j]);
        }
    }
}

/// Any box may take its turn at growing.
pub(crate) proof fn lemma_sheet_turn(cubes: Seq<Cube>, sheet: Sheet, seed: int)
    requires
        on_sheet(cubes, sheet, -1, 0),
        0 <= seed < cubes.len(),
    ensures
        on_sheet(cubes, sheet, seed, 0),
{
}

/// A box that has finished with all six directions is a band of whole rows.
pub(crate) proof fn lemma_sheet_turn_over(cubes: Seq<Cube>, sheet: Sheet, seed: int)
    requires
        on_sheet(cubes, sheet, seed, 6),
    ensures
        on_sheet(cubes, sheet, -1, 0),
{
}

/// A box that cannot grow any further in the direction it is working on has
/// reached the edge of the sheet there.
pub(crate) proof fn lemma_sheet_stuck(cubes: Seq<Cube>, sheet: Sheet, seed: int, stage: int)
    requires
        on_sheet(cubes, sheet, seed, stage),
        0 <= seed < cubes.len(),
        0 <= stage < 6,
        stuck(cubes, seed, directions()[stage]),
    ensures
        on_sheet(cubes, sheet, seed, stage + 1),
{
    let s = sheet.rect_of(cubes[seed]);
    lemma_piece(sheet, cubes[seed]);
    if !wide(sheet, s) {
        if stage == 0 && s.c1 < sheet.cols {
            let k = lemma_cover(cubes, sheet, seed, stage, s.c1, s.r0);
            let t = sheet.rect_of(cubes[k]);
            lemma_piece(sheet, cubes[k]);
            if wide(sheet, t) {
                lemma_pieces_apart(cubes, sheet, seed, k, s.c0, s.r0);
            } else {
                lemma_blocks_mergeable(sheet, s, t, Direction::PosX);
                assert(mergeable(cubes[seed], cubes[k], directions()[0]));
            }
            assert(false);
        }
        if stage == 1 && s.c0 > 0 {
            let k = lemma_cover(cubes, sheet, seed, stage, s.c0 - 1, s.r0);
            let t = sheet.rect_of(cubes[k]);
            lemma_piece(sheet, cubes[k]);
            if wide(sheet, t) {
                lemma_pieces_apart(cubes, sheet, seed, k, s.c0, s.r0);
            } else {
                lemma_blocks_mergeable(sheet, s, t, Direction::NegX);
                assert(mergeable(cubes[seed], cubes[k], directions()[1]));
            }
            assert(false);
        }
    }
}

/// Swallowing a neighbour keeps the list in a state that growing may be in.
pub(crate) proof fn lemma_sheet_absorb(cubes: Seq<Cube>, sheet: Sheet, seed: int, other: int, stage: int)
    requires
        on_sheet(cubes, sheet, seed, stage),
        0 <= seed < cubes.len(),
        0 <= other < cubes.len(),
        seed != other,
        0 <= stage < 6,
        mergeable(cubes[seed], cubes[other], directions()[stage]),
    ensures
        on_sheet(
            absorbed(cubes, seed, other, directions()[stage]),
            sheet,
            if other < seed {
                seed - 1
            } else {
                seed
            },
            stage,
        ),
{
    let dir = directions()[stage];
    let after = absorbed(cubes, seed, other, dir);
    let at = if other < seed {
        seed - 1
    } else {
        seed
    };
    lemma_absorbed_volume(cubes, seed, other, dir);
    lemma_merge_pieces(sheet, cubes[seed], cubes[other], dir);
    let a = sheet.rect_of(cubes[seed]);
    let b = sheet.rect_of(cubes[other]);
    let j = joined(a, b, dir);
    lemma_block(sheet, j);
    assert(after[at] == sheet.block(j));
    assert(seed_shape(sheet, j, stage));
    assert forall|k: int| 0 <= k < after.len() implies sheet.piece(#[trigger] after[k]) && (if k
        == at {
        seed_shape(sheet, sheet.rect_of(after[k]), stage)
    } else {
        unit(sheet.rect_of(after[k])) || wide(sheet, sheet.rect_of(after[k]))
    }) by {
        if k != at {
            let k0 = if k < other {
                k
            } else {
                k + 1
            };
            assert(after[k] == cubes[k0]);
        }
    }
    assert forall|c: int, r: int| 0 <= c < sheet.cols && 0 <= r < sheet.rows implies covered(
        after,
        #[trigger] sheet.centre(c, r),
    ) by {
        assert(covered(cubes, sheet.centre(c, r)));
    }
}

/// Once no box of the list can grow, the list is the one box that covers the
/// sheet.
pub(crate) proof fn lemma_sheet_settled(cubes: Seq<Cube>, sheet: Sheet)
    requires
        on_sheet(cubes, sheet, -1, 0),
        settled(cubes),
    ensures
        cubes == seq![sheet.whole()],
{
    // No single cell is left, unless the sheet is one column wide.
    assert forall|k: int| 0 <= k < cubes.len() implies wide(
        sheet,
        sheet.rect_of(#[trigger] cubes[k]),
    ) by {
        let s = sheet.rect_of(cubes[k]);
        lemma_piece(sheet, cubes[k]);
        if !wide(sheet, s) {
            let c = if s.c1 < sheet.cols {
                s.c1
            } else {
                s.c0 - 1
            };
            let n = lemma_cover(cubes, sheet, -1, 0, c, s.r0);
            let t = sheet.rect_of(cubes[n]);
            lemma_piece(sheet, cubes[n]);
            if wide(sheet, t) {
                lemma_pieces_apart(cubes, sheet, k, n, s.c0, s.r0);
            } else if s.c1 < sheet.cols {
                lemma_blocks_mergeable(sheet, s, t, Direction::PosX);
                assert(mergeable(cubes[k], cubes[n], Direction::PosX));
            } else {
                lemma_blocks_mergeable(sheet, s, t, Direction::NegX);
                assert(mergeable(cubes[k], cubes[n], Direction::NegX));
            }
            assert(false);
        }
    }
    // The band that holds row 0 reaches the last row.
    let first = lemma_cover(cubes, sheet, -1, 0, 0, 0);
    let s = sheet.rect_of(cubes[first]);
    lemma_piece(sheet, cubes[first]);
    if s.r1 < sheet.rows {
        let n = lemma_cover(cubes, sheet, -1, 0, 0, s.r1);
        let t = sheet.rect_of(cubes[n]);
        lemma_piece(sheet, cubes[n]);
        if t.r0 < s.r1 {
            lemma_pieces_apart(cubes, sheet, first, n, 0, s.r1 - 1);
        } else {
            lemma_blocks_mergeable(sheet, s, t, Direction::PosY);
            assert(mergeable(cubes[first], cubes[n], Direction::PosY));
        }
        assert(false);
    }
    assert(s == Rect { c0: 0, c1: sheet.cols, r0: 0, r1: sheet.rows });
    assert(cubes[first] == sheet.whole());
    // It leaves room for no other box.
    if cubes.len() > 1 {
        let k = if first == 0 {
            1int
        } else {
            0int
        };
        let t = sheet.rect_of(cubes[k]);
        lemma_piece(sheet, cubes[k]);
        lemma_pieces_apart(cubes, sheet, first, k, t.c0, t.r0);
        assert(false);
    }
    assert(cubes =~= seq![sheet.whole()]);
}

/// A list of boxes is a sheet in one way only.
pub proof fn lemma_sheet_unique(cubes: Seq<Cube>, s1: Sheet, s2: Sheet)
    requires
        is_sheet(cubes, s1),
        is_sheet(cubes, s2),
    ensures
        s1 == s2,
{
    lemma_sheet_corner(cubes, s1, s2);
    lemma_sheet_corner(cubes, s2, s1);
}

/// The first sheet lies inside the second.
proof fn lemma_sheet_corner(cubes: Seq<Cube>, s1: Sheet, s2: Sheet)
    requires
        is_sheet(cubes, s1),
        is_sheet(cubes, s2),
    ensures
        s1.mat == s2.mat,
        s1.text_coord == s2.text_coord,
        s1.origin.z == s2.origin.z,
        s1.origin.x >= s2.origin.x,
        s1.origin.y >= s2.origin.y,
        s1.origin.x + s1.cols * UNIT <= s2.origin.x + s2.cols * UNIT,
        s1.origin.y + s1.rows * UNIT <= s2.origin.y + s2.rows * UNIT,
{
    let lo = Rect { c0: 0, c1: 1, r0: 0, r1: 1 };
    let hi = Rect { c0: s1.cols - 1, c1: s1.cols, r0: s1.rows - 1, r1: s1.rows };
    lemma_block(s1, lo);
    lemma_block(s1, hi);
    assert(cubes.contains(s1.cell(0, 0)));
    assert(cubes.contains(s1.cell(s1.cols - 1, s1.rows - 1)));
    let k = choose|k: int| 0 <= k < cubes.len() && cubes[k] == s1.cell(0, 0);
    let n = choose|n: int| 0 <= n < cubes.len() && cubes[n] == s1.cell(s1.cols - 1, s1.rows - 1);
    assert(s2.is_cell(cubes[k]));
    assert(s2.is_cell(cubes[n]));
    let (c, r) = choose|c: int, r: int|
        0 <= c < s2.cols && 0 <= r < s2.rows && cubes[k] == #[trigger] s2.cell(c, r);
    let (d, w) = choose|d: int, w: int|
        0 <= d < s2.cols && 0 <= w < s2.rows && cubes[n] == #[trigger] s2.cell(d, w);
    lemma_block(s2, Rect { c0: c, c1: c + 1, r0: r, r1: r + 1 });
    lemma_block(s2, Rect { c0: d, c1: d + 1, r0: w, r1: w + 1 });
}

} // verus!
