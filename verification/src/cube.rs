//! Axis-aligned boxes carrying a material.

use vstd::prelude::*;
use crate::material::{Color, Mtl, MtlParams};
use crate::vec3::{trunc_div, Vec3, UNIT};

verus! {

/// Four texture coordinates, one per corner of a face.
#[derive(Clone, Copy, Debug, PartialEq, Eq, Structural)]
pub struct TexQuad {
    pub c0: Vec3,
    pub c1: Vec3,
    pub c2: Vec3,
    pub c3: Vec3,
}

impl TexQuad {
    /// The quad whose four corners all sample the same point.
    pub fn splat(c: Vec3) -> (q: TexQuad)
        ensures
            q == (TexQuad { c0: c, c1: c, c2: c, c3: c }),
    {
        TexQuad { c0: c, c1: c, c2: c, c3: c }
    }

    /// The corners in order.
    pub open spec fn corners(self) -> Seq<Vec3> {
        seq![self.c0, self.c1, self.c2, self.c3]
    }
}

/// An axis-aligned box: `pos` is its centre, `scale` its full extent along
/// each axis.
#[derive(Clone, Copy, Debug, PartialEq, Eq, Structural)]
pub struct Cube {
    pub pos: Vec3,
    pub mat: Mtl,
    pub scale: Vec3,
    pub text_coord: Option<TexQuad>,
}

/// Whether `p` lies between `centre - half` and `centre + half`, ends included,
/// where `half` is half of `extent` rounded toward zero. A negative extent
/// spans the same interval as its absolute value.
pub open spec fn within_extent(centre: int, extent: int, p: int) -> bool {
    let half = trunc_div(extent, 2);
    if half >= 0 {
        centre - half <= p <= centre + half
    } else {
        centre + half <= p <= centre - half
    }
}

fn axis_contains(centre: i64, extent: i64, p: i64) -> (r: bool)
    ensures
        r == within_extent(centre as int, extent as int, p as int),
{
    let half: i128 = (extent / 2) as i128;
    let a: i128 = centre as i128 + half;
    let b: i128 = centre as i128 - half;
    let small: i128 = if a < b { a } else { b };
    let big: i128 = if a < b { b } else { a };
    small <= p as i128 && p as i128 <= big
}

impl Cube {
    /// Whether `point` lies inside the box, its boundary included.
    pub open spec fn contains(self, point: Vec3) -> bool {
        &&& within_extent(self.pos.x as int, self.scale.x as int, point.x as int)
        &&& within_extent(self.pos.y as int, self.scale.y as int, point.y as int)
        &&& within_extent(self.pos.z as int, self.scale.z as int, point.z as int)
    }

    /// Decides whether `point` lies inside the box, its boundary included.
    pub fn point_in_cube(&self, point: Vec3) -> (inside: bool)
        ensures
            inside == self.contains(point),
    {
        axis_contains(self.pos.x, self.scale.x, point.x)
            && axis_contains(self.pos.y, self.scale.y, point.y)
            && axis_contains(self.pos.z, self.scale.z, point.z)
    }
}

/// Builds the unit cube at the origin and asks whether its corner
/// `(1/2, 1/2, 1/2)` lies inside, which it does: the boundary belongs to the
/// cube.
pub fn test_cube() -> (inside: bool)
    ensures
        inside,
{
    let black = Color { r: 0, g: 0, b: 0 };
    let c = Cube {
        pos: Vec3::uniform(0),
        mat: Mtl::builder(
            MtlParams { ambient_color: black, diffuse_color: black, specular_color: black },
        ).build(),
        scale: Vec3::uniform(UNIT),
        text_coord: None,
    };
    c.point_in_cube(Vec3::uniform(UNIT / 2))
}

} // verus!
