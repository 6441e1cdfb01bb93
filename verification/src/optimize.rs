//! Greedy merging of adjacent boxes that look alike into larger boxes.

use vstd::prelude::*;
use crate::cube::Cube;
use crate::sheet::{
    is_sheet, lemma_sheet_absorb, lemma_sheet_settled, lemma_sheet_start, lemma_sheet_stuck,
    lemma_sheet_turn, lemma_sheet_turn_over, lemma_sheet_unique, on_sheet, Sheet,
};
use crate::vec3::{Vec3, UNIT};

verus! {

/// The six directions in which a box may grow.
#[derive(Clone, Copy, Debug, PartialEq, Eq, Structural)]
pub enum Direction {
    PosX,
    NegX,
    PosY,
    NegY,
    PosZ,
    NegZ,
}

/// The order in which a box tries the directions.
pub open spec fn directions() -> Seq<Direction> {
    seq![
        Direction::PosX,
        Direction::NegX,
        Direction::PosY,
        Direction::NegY,
        Direction::PosZ,
        Direction::NegZ,
    ]
}

fn direction_at(d: usize) -> (dir: Direction)
    requires
        d < 6,
    ensures
        dir == directions()[d as int],
{
    if d == 0 {
        Direction::PosX
    } else if d == 1 {
        Direction::NegX
    } else if d == 2 {
        Direction::PosY
    } else if d == 3 {
        Direction::NegY
    } else if d == 4 {
        Direction::PosZ
    } else {
        Direction::NegZ
    }
}

/// Whether the interval of centre `pos` and length `scale` holds `p`. The
/// interval is half-open: its lower end belongs to it, its upper end does not.
pub open spec fn span_holds(pos: int, scale: int, p: int) -> bool {
    2 * pos - scale <= 2 * p < 2 * pos + scale
}

/// Whether the box occupies the point `p`, each axis taken half-open, so that
/// boxes that touch share no point.
pub open spec fn occupies(c: Cube, p: (int, int, int)) -> bool {
    &&& span_holds(c.pos.x as int, c.scale.x as int, p.0)
    &&& span_holds(c.pos.y as int, c.scale.y as int, p.1)
    &&& span_holds(c.pos.z as int, c.scale.z as int, p.2)
}

/// Whether some box of `cubes` occupies `p`.
pub open spec fn covered(cubes: Seq<Cube>, p: (int, int, int)) -> bool {
    exists|k: int| 0 <= k < cubes.len() && occupies(#[trigger] cubes[k], p)
}

/// Whether two collections of boxes occupy exactly the same points.
pub open spec fn same_volume(a: Seq<Cube>, b: Seq<Cube>) -> bool {
    forall|p: (int, int, int)| covered(a, p) == covered(b, p)
}

/// The centre of the grid cell with the given whole coordinates.
pub open spec fn cell_centre(cell: (int, int, int)) -> (int, int, int) {
    (cell.0 * UNIT, cell.1 * UNIT, cell.2 * UNIT)
}

/// The grid cells whose centre some box of `cubes` occupies.
pub open spec fn cells(cubes: Seq<Cube>) -> Set<(int, int, int)> {
    Set::new(|cell: (int, int, int)| covered(cubes, cell_centre(cell)))
}

/// Lists of boxes that occupy the same points cover the same grid cells.
pub proof fn lemma_same_cells(a: Seq<Cube>, b: Seq<Cube>)
    requires
        same_volume(a, b),
    ensures
        cells(a) == cells(b),
{
    assert(cells(a) =~= cells(b));
}

/// Whether no point is occupied by two boxes of `cubes`.
pub open spec fn disjoint(cubes: Seq<Cube>) -> bool {
    forall|i: int, j: int, p: (int, int, int)|
        0 <= i < cubes.len() && 0 <= j < cubes.len() && i != j ==> !(#[trigger] occupies(
            cubes[i],
            p,
        ) && #[trigger] occupies(cubes[j], p))
}

/// Whether the box has the material and the texture quad of some box of
/// `cubes`.
pub open spec fn has_kind(cubes: Seq<Cube>, c: Cube) -> bool {
    exists|j: int|
        0 <= j < cubes.len() && (#[trigger] cubes[j]).mat == c.mat && cubes[j].text_coord
            == c.text_coord
}

/// Whether every box of `to` has the material and texture quad of some box
/// of `from`.
pub open spec fn kinds_kept(from: Seq<Cube>, to: Seq<Cube>) -> bool {
    forall|i: int| 0 <= i < to.len() ==> has_kind(from, #[trigger] to[i])
}

/// Whether, on every axis, both ends of the box lie between `lo / 2` and
/// `hi / 2`.
pub open spec fn within(c: Cube, lo: int, hi: int) -> bool {
    &&& lo <= 2 * c.pos.x - c.scale.x <= hi
    &&& lo <= 2 * c.pos.x + c.scale.x <= hi
    &&& lo <= 2 * c.pos.y - c.scale.y <= hi
    &&& lo <= 2 * c.pos.y + c.scale.y <= hi
    &&& lo <= 2 * c.pos.z - c.scale.z <= hi
    &&& lo <= 2 * c.pos.z + c.scale.z <= hi
}

/// Whether every box of `cubes` lies within the given bounds.
pub open spec fn bounded(cubes: Seq<Cube>, lo: int, hi: int) -> bool {
    forall|k: int| 0 <= k < cubes.len() ==> within(#[trigger] cubes[k], lo, hi)
}

/// Whether `to` stays within every bound that `from` stays within.
pub open spec fn hull_kept(from: Seq<Cube>, to: Seq<Cube>) -> bool {
    forall|lo: int, hi: int| #[trigger] bounded(from, lo, hi) ==> bounded(to, lo, hi)
}

/// What merging keeps of a list of boxes: the points occupied, that no point
/// is occupied twice, the materials and texture quads in use, and the bounds.
pub open spec fn derived(from: Seq<Cube>, to: Seq<Cube>) -> bool {
    &&& same_volume(from, to)
    &&& disjoint(from) ==> disjoint(to)
    &&& kinds_kept(from, to)
    &&& hull_kept(from, to)
}

/// Whether the second interval begins exactly where the first one ends, and
/// their union is again an interval with a representable centre and length.
pub open spec fn joins(pa: int, sa: int, pb: int, sb: int) -> bool {
    &&& sa > 0
    &&& sb > 0
    &&& sa % 2 == 0
    &&& sb % 2 == 0
    &&& 2 * pa + sa == 2 * pb - sb
    &&& sa + sb <= i64::MAX
}

/// Whether two intervals are the same interval, and not empty.
pub open spec fn aligned(pa: int, sa: int, pb: int, sb: int) -> bool {
    pa == pb && sa == sb && sa > 0
}

/// Whether `b` lies against the face of `a` that looks in direction `dir`
/// and has exactly that face's outline.
pub open spec fn adjacent(a: Cube, b: Cube, dir: Direction) -> bool {
    let x = aligned(a.pos.x as int, a.scale.x as int, b.pos.x as int, b.scale.x as int);
    let y = aligned(a.pos.y as int, a.scale.y as int, b.pos.y as int, b.scale.y as int);
    let z = aligned(a.pos.z as int, a.scale.z as int, b.pos.z as int, b.scale.z as int);
    match dir {
        Direction::PosX => y && z && joins(
            a.pos.x as int,
            a.scale.x as int,
            b.pos.x as int,
            b.scale.x as int,
        ),
        Direction::NegX => y && z && joins(
            b.pos.x as int,
            b.scale.x as int,
            a.pos.x as int,
            a.scale.x as int,
        ),
        Direction::PosY => x && z && joins(
            a.pos.y as int,
            a.scale.y as int,
            b.pos.y as int,
            b.scale.y as int,
        ),
        Direction::NegY => x && z && joins(
            b.pos.y as int,
            b.scale.y as int,
            a.pos.y as int,
            a.scale.y as int,
        ),
        Direction::PosZ => x && y && joins(
            a.pos.z as int,
            a.scale.z as int,
            b.pos.z as int,
            b.scale.z as int,
        ),
        Direction::NegZ => x && y && joins(
            b.pos.z as int,
            b.scale.z as int,
            a.pos.z as int,
            a.scale.z as int,
        ),
    }
}

/// Whether `a` may grow in direction `dir` by swallowing `b`: `b` is adjacent
/// there, and has the same material and the same texture quad (or none, as
/// `a`).
pub open spec fn mergeable(a: Cube, b: Cube, dir: Direction) -> bool {
    adjacent(a, b, dir) && a.mat == b.mat && a.text_coord == b.text_coord
}

/// The box that covers `a` and the `b` it swallows in direction `dir`.
pub open spec fn merged(a: Cube, b: Cube, dir: Direction) -> Cube {
    match dir {
        Direction::PosX => Cube {
            pos: Vec3 { x: (a.pos.x + b.scale.x / 2) as i64, ..a.pos },
            scale: Vec3 { x: (a.scale.x + b.scale.x) as i64, ..a.scale },
            ..a
        },
        Direction::NegX => Cube {
            pos: Vec3 { x: (a.pos.x - b.scale.x / 2) as i64, ..a.pos },
            scale: Vec3 { x: (a.scale.x + b.scale.x) as i64, ..a.scale },
            ..a
        },
        Direction::PosY => Cube {
            pos: Vec3 { y: (a.pos.y + b.scale.y / 2) as i64, ..a.pos },
            scale: Vec3 { y: (a.scale.y + b.scale.y) as i64, ..a.scale },
            ..a
        },
        Direction::NegY => Cube {
            pos: Vec3 { y: (a.pos.y - b.scale.y / 2) as i64, ..a.pos },
            scale: Vec3 { y: (a.scale.y + b.scale.y) as i64, ..a.scale },
            ..a
        },
        Direction::PosZ => Cube {
            pos: Vec3 { z: (a.pos.z + b.scale.z / 2) as i64, ..a.pos },
            scale: Vec3 { z: (a.scale.z + b.scale.z) as i64, ..a.scale },
            ..a
        },
        Direction::NegZ => Cube {
            pos: Vec3 { z: (a.pos.z - b.scale.z / 2) as i64, ..a.pos },
            scale: Vec3 { z: (a.scale.z + b.scale.z) as i64, ..a.scale },
            ..a
        },
    }
}

/// Whether no box of `cubes` can grow in any direction.
pub open spec fn settled(cubes: Seq<Cube>) -> bool {
    forall|i: int, j: int, dir: Direction|
        0 <= i < cubes.len() && 0 <= j < cubes.len() && i != j ==> !#[trigger] mergeable(
            cubes[i],
            cubes[j],
            dir,
        )
}

/// Whether the box at `seed` can swallow no other box in direction `dir`.
pub open spec fn stuck(cubes: Seq<Cube>, seed: int, dir: Direction) -> bool {
    forall|k: int|
        0 <= k < cubes.len() && k != seed ==> !#[trigger] mergeable(cubes[seed], cubes[k], dir)
}

/// Whether the box at `seed` can swallow no other box in any direction.
pub open spec fn fully_stuck(cubes: Seq<Cube>, seed: int) -> bool {
    forall|dir: Direction| #[trigger] stuck(cubes, seed, dir)
}

/// Where no two boxes lie against each other with the same material, no box
/// can grow.
pub proof fn lemma_unlike_neighbours_settled(cubes: Seq<Cube>)
    requires
        forall|i: int, j: int, dir: Direction|
            0 <= i < cubes.len() && 0 <= j < cubes.len() && i != j ==> !(#[trigger] adjacent(
                cubes[i],
                cubes[j],
                dir,
            ) && cubes[i].mat == cubes[j].mat),
    ensures
        settled(cubes),
{
    assert forall|i: int, j: int, dir: Direction|
        0 <= i < cubes.len() && 0 <= j < cubes.len() && i != j implies !#[trigger] mergeable(
        cubes[i],
        cubes[j],
        dir,
    ) by {
        assert(!(adjacent(cubes[i], cubes[j], dir) && cubes[i].mat == cubes[j].mat));
    }
}

/// `cubes` after the box at `seed` has swallowed the one at `other`.
pub open spec fn absorbed(cubes: Seq<Cube>, seed: int, other: int, dir: Direction) -> Seq<Cube> {
    cubes.update(seed, merged(cubes[seed], cubes[other], dir)).remove(other)
}

/// A grown box occupies what the two boxes occupied, which shared no point.
pub proof fn lemma_merged_occupies(a: Cube, b: Cube, dir: Direction, p: (int, int, int))
    requires
        mergeable(a, b, dir),
    ensures
        occupies(merged(a, b, dir), p) == (occupies(a, p) || occupies(b, p)),
        !(occupies(a, p) && occupies(b, p)),
        merged(a, b, dir).mat == a.mat,
        merged(a, b, dir).text_coord == a.text_coord,
{
}

/// Swallowing a box neither adds nor removes an occupied point, and keeps
/// boxes apart that were apart.
pub proof fn lemma_absorbed_volume(cubes: Seq<Cube>, seed: int, other: int, dir: Direction)
    requires
        0 <= seed < cubes.len(),
        0 <= other < cubes.len(),
        seed != other,
        mergeable(cubes[seed], cubes[other], dir),
    ensures
        same_volume(cubes, absorbed(cubes, seed, other, dir)),
        disjoint(cubes) ==> disjoint(absorbed(cubes, seed, other, dir)),
{
    let grown = merged(cubes[seed], cubes[other], dir);
    let after = absorbed(cubes, seed, other, dir);
    let at = if other < seed {
        seed - 1
    } else {
        seed
    };
    assert(after[at] == grown);
    assert forall|p: (int, int, int)| covered(cubes, p) == covered(after, p) by {
        lemma_merged_occupies(cubes[seed], cubes[other], dir, p);
        if covered(cubes, p) {
            let k = choose|k: int| 0 <= k < cubes.len() && occupies(#[trigger] cubes[k], p);
            if k == seed || k == other {
                assert(occupies(after[at], p));
            } else {
                let k2 = if k < other {
                    k
                } else {
                    k - 1
                };
                assert(after[k2] == cubes[k]);
                assert(occupies(after[k2], p));
            }
        }
        if covered(after, p) {
            let k = choose|k: int| 0 <= k < after.len() && occupies(#[trigger] after[k], p);
            if k == at {
                if occupies(cubes[seed], p) {
                } else {
                    assert(occupies(cubes[other], p));
                }
            } else {
                let k0 = if k < other {
                    k
                } else {
                    k + 1
                };
                assert(after[k] == cubes[k0]);
                assert(occupies(cubes[k0], p));
            }
        }
    }
    if disjoint(cubes) {
        assert forall|i: int, j: int, p: (int, int, int)|
            0 <= i < after.len() && 0 <= j < after.len() && i != j implies !(#[trigger] occupies(
            after[i],
            p,
        ) && #[trigger] occupies(after[j], p)) by {
            lemma_merged_occupies(cubes[seed], cubes[other], dir, p);
            let i0 = if i < other {
                i
            } else {
                i + 1
            };
            let j0 = if j < other {
                j
            } else {
                j + 1
            };
            if i == at {
                assert(after[j] == cubes[j0]);
                assert(!(occupies(cubes[seed], p) && occupies(cubes[j0], p)));
                assert(!(occupies(cubes[other], p) && occupies(cubes[j0], p)));
            } else if j == at {
                assert(after[i] == cubes[i0]);
                assert(!(occupies(cubes[seed], p) && occupies(cubes[i0], p)));
                assert(!(occupies(cubes[other], p) && occupies(cubes[i0], p)));
            } else {
                assert(after[i] == cubes[i0]);
                assert(after[j] == cubes[j0]);
                assert(!(occupies(cubes[i0], p) && occupies(cubes[j0], p)));
            }
        }
    }
}

/// Whether the box at `j` is the first of the list that the box at `seed`
/// may swallow in direction `dir`.
pub open spec fn is_first_neighbor(cubes: Seq<Cube>, seed: int, dir: Direction, j: int) -> bool {
    &&& 0 <= j < cubes.len()
    &&& j != seed
    &&& mergeable(cubes[seed], cubes[j], dir)
    &&& forall|k: int|
        0 <= k < j && k != seed ==> !#[trigger] mergeable(cubes[seed], cubes[k], dir)
}

/// Where the box at `seed` stands once the box at `other` has left the list.
pub open spec fn shifted(seed: int, other: int) -> int {
    if other < seed {
        seed - 1
    } else {
        seed
    }
}

/// The list, and the place of the box at `seed` in it, after that box has
/// swallowed in direction `dir`, one after another, the first box that it
/// may, until there is none.
pub open spec fn grown_along(cubes: Seq<Cube>, seed: int, dir: Direction) -> (Seq<Cube>, int)
    decreases cubes.len(),
{
    if 0 <= seed < cubes.len() && exists|j: int| #[trigger]
        is_first_neighbor(cubes, seed, dir, j) {
        let j = choose|j: int| #[trigger] is_first_neighbor(cubes, seed, dir, j);
        grown_along(absorbed(cubes, seed, j, dir), shifted(seed, j), dir)
    } else {
        (cubes, seed)
    }
}

/// The list, and the place of the box at `seed` in it, after that box has
/// grown in the directions from number `d` on, in the order of
/// [`directions`].
pub open spec fn grown(cubes: Seq<Cube>, seed: int, d: int) -> (Seq<Cube>, int)
    decreases 6 - d,
{
    if 0 <= d < 6 {
        let step = grown_along(cubes, seed, directions()[d]);
        grown(step.0, step.1, d + 1)
    } else {
        (cubes, seed)
    }
}

/// The list after the box at `i` and every box behind it have had their
/// turn at growing, each in all six directions.
pub open spec fn swept(cubes: Seq<Cube>, i: int) -> Seq<Cube>
    decreases cubes.len() - i,
    via swept_decreases
{
    if 0 <= i < cubes.len() {
        let turn = grown(cubes, i, 0);
        swept(turn.0, turn.1 + 1)
    } else {
        cubes
    }
}

#[via_fn]
proof fn swept_decreases(cubes: Seq<Cube>, i: int) {
    if 0 <= i < cubes.len() {
        lemma_grown(cubes, i, 0);
    }
}

/// The list after sweeps over all its boxes have been repeated until one
/// of them merged nothing.
pub open spec fn merged_list(cubes: Seq<Cube>) -> Seq<Cube>
    decreases cubes.len(),
{
    let next = swept(cubes, 0);
    if next.len() < cubes.len() {
        merged_list(next)
    } else {
        next
    }
}

/// Growing in one direction moves the box toward the front by no more
/// places than boxes leave the list.
pub proof fn lemma_grown_along(cubes: Seq<Cube>, seed: int, dir: Direction)
    requires
        0 <= seed < cubes.len(),
    ensures
        0 <= grown_along(cubes, seed, dir).1 < grown_along(cubes, seed, dir).0.len(),
        grown_along(cubes, seed, dir).1 <= seed,
        seed - grown_along(cubes, seed, dir).1 <= cubes.len() - grown_along(
            cubes,
            seed,
            dir,
        ).0.len(),
    decreases cubes.len(),
{
    if exists|j: int| #[trigger] is_first_neighbor(cubes, seed, dir, j) {
        let j = choose|j: int| #[trigger] is_first_neighbor(cubes, seed, dir, j);
        lemma_grown_along(absorbed(cubes, seed, j, dir), shifted(seed, j), dir);
    }
}

/// Growing in all directions moves the box toward the front by no more
/// places than boxes leave the list.
pub proof fn lemma_grown(cubes: Seq<Cube>, seed: int, d: int)
    requires
        0 <= seed < cubes.len(),
    ensures
        0 <= grown(cubes, seed, d).1 < grown(cubes, seed, d).0.len(),
        grown(cubes, seed, d).1 <= seed,
        seed - grown(cubes, seed, d).1 <= cubes.len() - grown(cubes, seed, d).0.len(),
    decreases 6 - d,
{
    if 0 <= d < 6 {
        lemma_grown_along(cubes, seed, directions()[d]);
        let step = grown_along(cubes, seed, directions()[d]);
        lemma_grown(step.0, step.1, d + 1);
    }
}

/// There is at most one first neighbour.
proof fn lemma_first_neighbor(cubes: Seq<Cube>, seed: int, dir: Direction, j: int)
    requires
        0 <= seed < cubes.len(),
        is_first_neighbor(cubes, seed, dir, j),
    ensures
        grown_along(cubes, seed, dir) == grown_along(
            absorbed(cubes, seed, j, dir),
            shifted(seed, j),
            dir,
        ),
{
    let c = choose|c: int| #[trigger] is_first_neighbor(cubes, seed, dir, c);
    assert(is_first_neighbor(cubes, seed, dir, c));
    if c < j {
        assert(!mergeable(cubes[seed], cubes[c], dir));
    }
    if j < c {
        assert(!mergeable(cubes[seed], cubes[j], dir));
    }
}

/// A box that can swallow none in a direction does not grow in it.
proof fn lemma_no_neighbor(cubes: Seq<Cube>, seed: int, dir: Direction)
    requires
        stuck(cubes, seed, dir),
    ensures
        grown_along(cubes, seed, dir) == (cubes, seed),
{
    if 0 <= seed < cubes.len() && exists|j: int| #[trigger]
        is_first_neighbor(cubes, seed, dir, j) {
        let j = choose|j: int| #[trigger] is_first_neighbor(cubes, seed, dir, j);
        assert(!mergeable(cubes[seed], cubes[j], dir));
    }
}

/// A list is derived from itself.
pub proof fn lemma_derived_refl(cubes: Seq<Cube>)
    ensures
        derived(cubes, cubes),
{
}

/// What is derived from a derived list is derived from the first list.
pub proof fn lemma_derived_trans(a: Seq<Cube>, b: Seq<Cube>, c: Seq<Cube>)
    requires
        derived(a, b),
        derived(b, c),
    ensures
        derived(a, c),
{
    assert forall|i: int| 0 <= i < c.len() implies has_kind(a, #[trigger] c[i]) by {
        let j = choose|j: int|
            0 <= j < b.len() && (#[trigger] b[j]).mat == c[i].mat && b[j].text_coord
                == c[i].text_coord;
        assert(has_kind(a, b[j]));
        let k = choose|k: int|
            0 <= k < a.len() && (#[trigger] a[k]).mat == b[j].mat && a[k].text_coord
                == b[j].text_coord;
        assert(a[k].mat == c[i].mat);
    }
    assert forall|lo: int, hi: int| #[trigger] bounded(a, lo, hi) implies bounded(c, lo, hi) by {
        assert(bounded(b, lo, hi));
    }
    assert forall|p: (int, int, int)| covered(a, p) == covered(c, p) by {
        assert(covered(a, p) == covered(b, p));
    }
}

/// The list in which one box has swallowed another is derived from the
/// list before.
pub proof fn lemma_derived_step(cubes: Seq<Cube>, seed: int, other: int, dir: Direction)
    requires
        0 <= seed < cubes.len(),
        0 <= other < cubes.len(),
        seed != other,
        mergeable(cubes[seed], cubes[other], dir),
    ensures
        derived(cubes, absorbed(cubes, seed, other, dir)),
{
    lemma_absorbed_volume(cubes, seed, other, dir);
    let after = absorbed(cubes, seed, other, dir);
    let at = if other < seed {
        seed - 1
    } else {
        seed
    };
    assert forall|i: int| 0 <= i < after.len() implies has_kind(cubes, #[trigger] after[i]) by {
        if i == at {
            assert(after[i] == merged(cubes[seed], cubes[other], dir));
            assert(cubes[seed].mat == after[i].mat);
        } else {
            let i0 = if i < other {
                i
            } else {
                i + 1
            };
            assert(after[i] == cubes[i0]);
        }
    }
    assert forall|lo: int, hi: int| #[trigger] bounded(cubes, lo, hi) implies bounded(
        after,
        lo,
        hi,
    ) by {
        assert forall|k: int| 0 <= k < after.len() implies within(#[trigger] after[k], lo, hi) by {
            if k == at {
                assert(within(cubes[seed], lo, hi));
                assert(within(cubes[other], lo, hi));
            } else {
                let k0 = if k < other {
                    k
                } else {
                    k + 1
                };
                assert(after[k] == cubes[k0]);
                assert(within(cubes[k0], lo, hi));
            }
        }
    }
}

fn axis_joins(pa: i64, sa: i64, pb: i64, sb: i64) -> (r: bool)
    ensures
        r == joins(pa as int, sa as int, pb as int, sb as int),
{
    sa > 0 && sb > 0 && sa % 2 == 0 && sb % 2 == 0 && 2 * (pa as i128) + (sa as i128) == 2 * (
    pb as i128) - (sb as i128) && (sa as i128) + (sb as i128) <= i64::MAX as i128
}

fn axis_aligned(pa: i64, sa: i64, pb: i64, sb: i64) -> (r: bool)
    ensures
        r == aligned(pa as int, sa as int, pb as int, sb as int),
{
    pa == pb && sa == sb && sa > 0
}

/// Decides whether `a` may swallow `b` in direction `dir`.
pub fn can_merge(a: &Cube, b: &Cube, dir: Direction) -> (r: bool)
    ensures
        r == mergeable(*a, *b, dir),
{
    if !(a.mat == b.mat && a.text_coord == b.text_coord) {
        return false;
    }
    let x: bool = axis_aligned(a.pos.x, a.scale.x, b.pos.x, b.scale.x);
    let y: bool = axis_aligned(a.pos.y, a.scale.y, b.pos.y, b.scale.y);
    let z: bool = axis_aligned(a.pos.z, a.scale.z, b.pos.z, b.scale.z);
    match dir {
        Direction::PosX => y && z && axis_joins(a.pos.x, a.scale.x, b.pos.x, b.scale.x),
        Direction::NegX => y && z && axis_joins(b.pos.x, b.scale.x, a.pos.x, a.scale.x),
        Direction::PosY => x && z && axis_joins(a.pos.y, a.scale.y, b.pos.y, b.scale.y),
        Direction::NegY => x && z && axis_joins(b.pos.y, b.scale.y, a.pos.y, a.scale.y),
        Direction::PosZ => x && y && axis_joins(a.pos.z, a.scale.z, b.pos.z, b.scale.z),
        Direction::NegZ => x && y && axis_joins(b.pos.z, b.scale.z, a.pos.z, a.scale.z),
    }
}

/// Grows `a` over `b`.
pub fn merge(a: &Cube, b: &Cube, dir: Direction) -> (grown: Cube)
    requires
        mergeable(*a, *b, dir),
    ensures
        grown == merged(*a, *b, dir),
{
    let mut pos: Vec3 = a.pos;
    let mut scale: Vec3 = a.scale;
    match dir {
        Direction::PosX => {
            pos.x = a.pos.x + b.scale.x / 2;
            scale.x = a.scale.x + b.scale.x;
        },
        Direction::NegX => {
            pos.x = a.pos.x - b.scale.x / 2;
            scale.x = a.scale.x + b.scale.x;
        },
        Direction::PosY => {
            pos.y = a.pos.y + b.scale.y / 2;
            scale.y = a.scale.y + b.scale.y;
        },
        Direction::NegY => {
            pos.y = a.pos.y - b.scale.y / 2;
            scale.y = a.scale.y + b.scale.y;
        },
        Direction::PosZ => {
            pos.z = a.pos.z + b.scale.z / 2;
            scale.z = a.scale.z + b.scale.z;
        },
        Direction::NegZ => {
            pos.z = a.pos.z - b.scale.z / 2;
            scale.z = a.scale.z + b.scale.z;
        },
    }
    Cube { pos, mat: a.mat, scale, text_coord: a.text_coord }
}

/// The first box, in list order, that the box at `seed` may swallow in
/// direction `dir`.
fn find_neighbor(cubes: &Vec<Cube>, seed: usize, dir: Direction) -> (found: Option<usize>)
    requires
        seed < cubes@.len(),
    ensures
        match found {
            Some(j) => is_first_neighbor(cubes@, seed as int, dir, j as int),
            None => stuck(cubes@, seed as int, dir),
        },
{
    let n: usize = cubes.len();
    let mut j: usize = 0;
    while j < n
        invariant
            j <= n,
            n == cubes@.len(),
            seed < n,
            forall|k: int|
                0 <= k < j && k != seed ==> !#[trigger] mergeable(
                    cubes@[seed as int],
                    cubes@[k],
                    dir,
                ),
        decreases n - j,
    {
        if j != seed && can_merge(&cubes[seed], &cubes[j], dir) {
            return Some(j);
        }
        j += 1;
    }
    None
}

/// Lets the box at `seed` swallow the one at `other`; returns where the grown
/// box now stands.
fn absorb(cubes: &mut Vec<Cube>, seed: usize, other: usize, dir: Direction) -> (at: usize)
    requires
        seed < old(cubes)@.len(),
        other < old(cubes)@.len(),
        seed != other,
        mergeable(old(cubes)@[seed as int], old(cubes)@[other as int], dir),
    ensures
        final(cubes)@ == absorbed(old(cubes)@, seed as int, other as int, dir),
        final(cubes)@.len() + 1 == old(cubes)@.len(),
        at == shifted(seed as int, other as int),
        final(cubes)@[at as int] == merged(old(cubes)@[seed as int], old(cubes)@[other as int], dir),
{
    let grown: Cube = merge(&cubes[seed], &cubes[other], dir);
    cubes.set(seed, grown);
    let _ = cubes.remove(other);
    if other < seed {
        seed - 1
    } else {
        seed
    }
}

/// Grows the box at `start` as far as it will go, direction after direction.
/// Returns where the box stands afterwards and whether it grew at all.
fn grow_seed(cubes: &mut Vec<Cube>, start: usize, Ghost(sheet): Ghost<Sheet>) -> (r: (
    usize,
    bool,
))
    requires
        start < old(cubes)@.len(),
    ensures
        on_sheet(old(cubes)@, sheet, -1, 0) ==> on_sheet(final(cubes)@, sheet, -1, 0),
        r.0 < final(cubes)@.len(),
        r.0 <= start,
        start - r.0 <= old(cubes)@.len() - final(cubes)@.len(),
        final(cubes)@.len() <= old(cubes)@.len(),
        r.1 ==> final(cubes)@.len() < old(cubes)@.len(),
        !r.1 ==> final(cubes)@ == old(cubes)@,
        r.1 == !fully_stuck(old(cubes)@, start as int),
        derived(old(cubes)@, final(cubes)@),
        (final(cubes)@, r.0 as int) == grown(old(cubes)@, start as int, 0),
{
    let mut seed: usize = start;
    let mut grew: bool = false;
    let mut d: usize = 0;
    proof {
        lemma_derived_refl(cubes@);
        if on_sheet(cubes@, sheet, -1, 0) {
            lemma_sheet_turn(cubes@, sheet, start as int);
        }
    }
    while d < 6
        invariant
            d <= 6,
            grown(cubes@, seed as int, d as int) == grown(old(cubes)@, start as int, 0),
            on_sheet(old(cubes)@, sheet, -1, 0) ==> on_sheet(cubes@, sheet, seed as int, d as int),
            seed < cubes@.len(),
            seed <= start,
            start - seed <= old(cubes)@.len() - cubes@.len(),
            cubes@.len() <= old(cubes)@.len(),
            grew ==> cubes@.len() < old(cubes)@.len(),
            !grew ==> cubes@ == old(cubes)@ && seed == start && forall|e: int|
                0 <= e < d ==> stuck(old(cubes)@, start as int, #[trigger] directions()[e]),
            grew ==> !fully_stuck(old(cubes)@, start as int),
            derived(old(cubes)@, cubes@),
        decreases 6 - d,
    {
        let dir: Direction = direction_at(d);
        let ghost grew_before = grew;
        let ghost entry = (cubes@, seed as int);
        loop
            invariant_except_break
                grown_along(cubes@, seed as int, dir) == grown_along(entry.0, entry.1, dir),
                d < 6,
                dir == directions()[d as int],
                on_sheet(old(cubes)@, sheet, -1, 0) ==> on_sheet(
                    cubes@,
                    sheet,
                    seed as int,
                    d as int,
                ),
                grew_before ==> grew,
                seed < cubes@.len(),
                seed <= start,
                start - seed <= old(cubes)@.len() - cubes@.len(),
                cubes@.len() <= old(cubes)@.len(),
                grew ==> cubes@.len() < old(cubes)@.len(),
                !grew ==> cubes@ == old(cubes)@ && seed == start,
                grew ==> !fully_stuck(old(cubes)@, start as int),
                derived(old(cubes)@, cubes@),
            ensures
                (cubes@, seed as int) == grown_along(entry.0, entry.1, dir),
                d < 6,
                dir == directions()[d as int],
                on_sheet(old(cubes)@, sheet, -1, 0) ==> on_sheet(
                    cubes@,
                    sheet,
                    seed as int,
                    d as int,
                ),
                grew_before ==> grew,
                seed < cubes@.len(),
                seed <= start,
                start - seed <= old(cubes)@.len() - cubes@.len(),
                cubes@.len() <= old(cubes)@.len(),
                grew ==> cubes@.len() < old(cubes)@.len(),
                !grew ==> cubes@ == old(cubes)@ && seed == start,
                grew ==> !fully_stuck(old(cubes)@, start as int),
                derived(old(cubes)@, cubes@),
                stuck(cubes@, seed as int, dir),
            decreases cubes@.len(),
        {
            match find_neighbor(cubes, seed, dir) {
                None => {
                    proof {
                        lemma_no_neighbor(cubes@, seed as int, dir);
                    }
                    break ;
                },
                Some(j) => {
                    proof {
                        lemma_first_neighbor(cubes@, seed as int, dir, j as int);
                        lemma_derived_step(cubes@, seed as int, j as int, dir);
                        lemma_derived_trans(
                            old(cubes)@,
                            cubes@,
                            absorbed(cubes@, seed as int, j as int, dir),
                        );
                        if on_sheet(old(cubes)@, sheet, -1, 0) {
                            lemma_sheet_absorb(cubes@, sheet, seed as int, j as int, d as int);
                        }
                        if !grew {
                            assert(!stuck(old(cubes)@, start as int, dir));
                        }
                    }
                    seed = absorb(cubes, seed, j, dir);
                    grew = true;
                },
            }
        }
        proof {
            if on_sheet(old(cubes)@, sheet, -1, 0) {
                lemma_sheet_stuck(cubes@, sheet, seed as int, d as int);
            }
        }
        d += 1;
    }
    proof {
        if on_sheet(old(cubes)@, sheet, -1, 0) {
            lemma_sheet_turn_over(cubes@, sheet, seed as int);
        }
        if !grew {
            assert forall|dir: Direction| #[trigger] stuck(old(cubes)@, start as int, dir) by {
                let e: int = match dir {
                    Direction::PosX => 0,
                    Direction::NegX => 1,
                    Direction::PosY => 2,
                    Direction::NegY => 3,
                    Direction::PosZ => 4,
                    Direction::NegZ => 5,
                };
                assert(directions()[e] == dir);
            }
        }
    }
    (seed, grew)
}

/// Gives every box of the list one turn at growing. Returns whether any grew.
fn sweep(cubes: &mut Vec<Cube>, Ghost(sheet): Ghost<Sheet>) -> (changed: bool)
    ensures
        on_sheet(old(cubes)@, sheet, -1, 0) ==> on_sheet(final(cubes)@, sheet, -1, 0),
        final(cubes)@.len() <= old(cubes)@.len(),
        changed ==> final(cubes)@.len() < old(cubes)@.len(),
        !changed ==> final(cubes)@ == old(cubes)@,
        changed == !settled(old(cubes)@),
        derived(old(cubes)@, final(cubes)@),
        final(cubes)@ == swept(old(cubes)@, 0),
{
    let mut changed: bool = false;
    let mut i: usize = 0;
    proof {
        lemma_derived_refl(cubes@);
    }
    while i < cubes.len()
        invariant
            i <= cubes@.len(),
            swept(cubes@, i as int) == swept(old(cubes)@, 0),
            on_sheet(old(cubes)@, sheet, -1, 0) ==> on_sheet(cubes@, sheet, -1, 0),
            cubes@.len() <= old(cubes)@.len(),
            changed ==> cubes@.len() < old(cubes)@.len(),
            !changed ==> cubes@ == old(cubes)@ && forall|a: int|
                0 <= a < i ==> #[trigger] fully_stuck(old(cubes)@, a),
            changed ==> !settled(old(cubes)@),
            derived(old(cubes)@, cubes@),
        decreases cubes@.len() - i,
    {
        let ghost turn = i as int;
        let ghost was_changed = changed;
        let ghost before = cubes@;
        let (seed, grew) = grow_seed(cubes, i, Ghost(sheet));
        proof {
            lemma_derived_trans(old(cubes)@, before, cubes@);
            if grew && !was_changed && settled(old(cubes)@) {
                assert forall|dir: Direction| #[trigger] stuck(old(cubes)@, turn, dir) by {}
                assert(fully_stuck(old(cubes)@, turn));
            }
        }
        changed = changed || grew;
        i = seed + 1;
    }
    proof {
        if !changed {
            assert forall|a: int, b: int, dir: Direction|
                0 <= a < cubes@.len() && 0 <= b < cubes@.len() && a != b implies !#[trigger] mergeable(
                cubes@[a],
                cubes@[b],
                dir,
            ) by {
                assert(fully_stuck(cubes@, a));
                assert(stuck(cubes@, a, dir));
            }
        }
    }
    changed
}

/// Merges boxes until none can grow any more.
///
/// Every box in turn tries the six directions in the order of
/// [`directions`]; in each it swallows, again and again, the first box of the
/// list that lies against that face with the same outline, material and
/// texture quad. Such sweeps over the list are repeated until one of them
/// changes nothing.
pub fn optimize_cubes(cubes: &mut Vec<Cube>)
    ensures
        final(cubes)@ == merged_list(old(cubes)@),
        derived(old(cubes)@, final(cubes)@),
        settled(final(cubes)@),
        settled(old(cubes)@) ==> final(cubes)@ == old(cubes)@,
        final(cubes)@.len() <= old(cubes)@.len(),
        forall|sheet: Sheet| #[trigger]
            is_sheet(old(cubes)@, sheet) ==> final(cubes)@ == seq![sheet.whole()],
{
    let ghost sheet = choose|sheet: Sheet| is_sheet(old(cubes)@, sheet);
    proof {
        lemma_derived_refl(cubes@);
        if is_sheet(cubes@, sheet) {
            lemma_sheet_start(cubes@, sheet);
        }
    }
    loop
        invariant_except_break
            merged_list(cubes@) == merged_list(old(cubes)@),
            is_sheet(old(cubes)@, sheet) ==> on_sheet(cubes@, sheet, -1, 0),
            derived(old(cubes)@, cubes@),
            settled(old(cubes)@) ==> cubes@ == old(cubes)@,
            cubes@.len() <= old(cubes)@.len(),
        ensures
            cubes@ == merged_list(old(cubes)@),
            is_sheet(old(cubes)@, sheet) ==> on_sheet(cubes@, sheet, -1, 0),
            derived(old(cubes)@, cubes@),
            settled(old(cubes)@) ==> cubes@ == old(cubes)@,
            cubes@.len() <= old(cubes)@.len(),
            settled(cubes@),
        decreases cubes@.len(),
    {
        let ghost before = cubes@;
        let changed: bool = sweep(cubes, Ghost(sheet));
        proof {
            lemma_derived_trans(old(cubes)@, before, cubes@);
        }
        if !changed {
            break ;
        }
    }
    proof {
        assert forall|other: Sheet| #[trigger] is_sheet(old(cubes)@, other) implies cubes@
            == seq![other.whole()] by {
            lemma_sheet_unique(old(cubes)@, other, sheet);
            lemma_sheet_settled(cubes@, sheet);
        }
    }
}

} // verus!
