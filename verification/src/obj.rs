//! The mesh model: vertices, texture coordinates, faces and the material
//! registry, filled one box at a time.

use vstd::prelude::*;
use crate::cube::{Cube, TexQuad};
use crate::material::Mtl;
use crate::vec3::{fits, trunc_div, Vec3};

verus! {

/// A quad face. Indices count from zero into the mesh's lists.
#[derive(Clone, Copy, Debug)]
pub struct Face {
    pub vertices: [usize; 4],
    pub texture_coordinates: Option<[usize; 4]>,
    pub mtl: usize,
}

/// What a face refers to, as plain sequences.
pub struct FaceView {
    pub vertices: Seq<int>,
    pub texture_coordinates: Option<Seq<int>>,
    pub mtl: int,
}

impl View for Face {
    type V = FaceView;

    open spec fn view(&self) -> FaceView {
        FaceView {
            vertices: Seq::new(4, |i: int| self.vertices@[i] as int),
            texture_coordinates: match self.texture_coordinates {
                Some(t) => Some(Seq::new(4, |i: int| t@[i] as int)),
                None => None,
            },
            mtl: self.mtl as int,
        }
    }
}

/// A mesh under construction.
pub struct Obj {
    pub vertices: Vec<Vec3>,
    pub texture_coordinates: Vec<Vec3>,
    pub faces: Vec<Face>,
    pub materials: Vec<Mtl>,
    pub textures: Vec<String>,
}

/// The mesh as plain sequences.
pub struct ObjView {
    pub vertices: Seq<Vec3>,
    pub texture_coordinates: Seq<Vec3>,
    pub faces: Seq<FaceView>,
    pub materials: Seq<Mtl>,
    pub textures: Seq<Seq<char>>,
}

impl View for Obj {
    type V = ObjView;

    open spec fn view(&self) -> ObjView {
        ObjView {
            vertices: self.vertices@,
            texture_coordinates: self.texture_coordinates@,
            faces: face_views(self.faces@),
            materials: self.materials@,
            textures: Seq::new(self.textures@.len(), |i: int| self.textures@[i]@),
        }
    }
}

/// The registry after `m` has been interned: unchanged if `m` is already
/// there, else with `m` appended.
pub open spec fn interned(registry: Seq<Mtl>, m: Mtl) -> Seq<Mtl> {
    if registry.contains(m) {
        registry
    } else {
        registry.push(m)
    }
}

/// The registry that results from interning `ms` one after another, starting
/// from an empty one.
pub open spec fn intern_all(ms: Seq<Mtl>) -> Seq<Mtl>
    decreases ms.len(),
{
    if ms.len() == 0 {
        Seq::empty()
    } else {
        interned(intern_all(ms.drop_last()), ms.last())
    }
}

/// Interning repeats no material, and registers exactly the materials that
/// were registered before and the new one.
pub proof fn lemma_interned(registry: Seq<Mtl>, m: Mtl)
    requires
        registry.no_duplicates(),
    ensures
        interned(registry, m).no_duplicates(),
        interned(registry, m).to_set() == registry.to_set().insert(m),
{
    if registry.contains(m) {
        assert(registry.to_set().insert(m) =~= registry.to_set());
    } else {
        registry.lemma_push_to_set_commute(m);
    }
}

/// Whatever materials are interned, and however often, the registry holds
/// each distinct one exactly once: it has as many entries as there are
/// distinct materials among those interned.
pub proof fn lemma_registry_holds_each_once(ms: Seq<Mtl>)
    ensures
        intern_all(ms).no_duplicates(),
        intern_all(ms).to_set() == ms.to_set(),
        intern_all(ms).len() == ms.to_set().len(),
    decreases ms.len(),
{
    if ms.len() == 0 {
        assert(intern_all(ms).to_set() =~= ms.to_set());
    } else {
        let front = ms.drop_last();
        lemma_registry_holds_each_once(front);
        lemma_interned(intern_all(front), ms.last());
        front.lemma_push_to_set_commute(ms.last());
        assert(front.push(ms.last()) =~= ms);
    }
    intern_all(ms).unique_seq_to_set();
}

/// The size of the registry does not depend on the order in which the
/// materials are interned, nor on how often each is.
pub proof fn lemma_registry_size_ignores_order(a: Seq<Mtl>, b: Seq<Mtl>)
    requires
        a.to_set() == b.to_set(),
    ensures
        intern_all(a).len() == intern_all(b).len(),
{
    lemma_registry_holds_each_once(a);
    lemma_registry_holds_each_once(b);
}

/// The eight corners of the box centred at `position`, in emission order:
/// the x offset is positive for the first four, the y offset for the first
/// two of each four, the z offset for every even corner.
pub open spec fn box_corners(position: Vec3, scale: Vec3) -> Seq<(int, int, int)> {
    let hx = trunc_div(scale.x as int, 2);
    let hy = trunc_div(scale.y as int, 2);
    let hz = trunc_div(scale.z as int, 2);
    seq![
        (position.x + hx, position.y + hy, position.z + hz),
        (position.x + hx, position.y + hy, position.z - hz),
        (position.x + hx, position.y - hy, position.z + hz),
        (position.x + hx, position.y - hy, position.z - hz),
        (position.x - hx, position.y + hy, position.z + hz),
        (position.x - hx, position.y + hy, position.z - hz),
        (position.x - hx, position.y - hy, position.z + hz),
        (position.x - hx, position.y - hy, position.z - hz),
    ]
}

/// Whether every corner of the box is representable.
pub open spec fn corners_fit(position: Vec3, scale: Vec3) -> bool {
    &&& fits(position.x + trunc_div(scale.x as int, 2))
    &&& fits(position.x - trunc_div(scale.x as int, 2))
    &&& fits(position.y + trunc_div(scale.y as int, 2))
    &&& fits(position.y - trunc_div(scale.y as int, 2))
    &&& fits(position.z + trunc_div(scale.z as int, 2))
    &&& fits(position.z - trunc_div(scale.z as int, 2))
}

/// The corners of the box as vertices.
pub open spec fn box_vertices(position: Vec3, scale: Vec3) -> Seq<Vec3> {
    Seq::new(
        8,
        |k: int|
            Vec3 {
                x: box_corners(position, scale)[k].0 as i64,
                y: box_corners(position, scale)[k].1 as i64,
                z: box_corners(position, scale)[k].2 as i64,
            },
    )
}

/// Which four corners each of the six faces joins, in winding order: front,
/// back, left, right, top, bottom.
pub open spec fn face_table() -> Seq<Seq<int>> {
    seq![
        seq![0, 1, 3, 2],
        seq![4, 5, 7, 6],
        seq![0, 4, 6, 2],
        seq![1, 5, 7, 3],
        seq![0, 1, 5, 4],
        seq![2, 3, 7, 6],
    ]
}

/// The six faces of a box whose first corner is vertex `first_vertex`.
pub open spec fn box_faces(first_vertex: int, first_texture: Option<int>, mtl: int) -> Seq<
    FaceView,
> {
    Seq::new(
        6,
        |f: int|
            FaceView {
                vertices: Seq::new(4, |i: int| first_vertex + face_table()[f][i]),
                texture_coordinates: match first_texture {
                    Some(t) => Some(Seq::new(4, |i: int| t + i)),
                    None => None,
                },
                mtl,
            },
    )
}

/// The texture coordinates a box adds to the mesh.
pub open spec fn quad_coordinates(quad: Option<TexQuad>) -> Seq<Vec3> {
    match quad {
        Some(q) => q.corners(),
        None => Seq::empty(),
    }
}

/// The views of a sequence of faces.
pub open spec fn face_views(faces: Seq<Face>) -> Seq<FaceView> {
    Seq::new(faces.len(), |i: int| faces[i]@)
}

/// The id under which `m` is registered after it has been interned: that of
/// its first entry if there is one, else the next free id.
pub open spec fn id_of(registry: Seq<Mtl>, m: Mtl) -> int {
    registry.index_of_first(m).unwrap_or(registry.len() as int)
}

/// The mesh after the box `c` has been appended: its eight corners, its
/// texture quad if it has one, its material unless that is registered
/// already, and six faces that all carry that material and share the quad.
pub open spec fn with_box(m: ObjView, c: Cube) -> ObjView {
    ObjView {
        vertices: m.vertices + box_vertices(c.pos, c.scale),
        texture_coordinates: m.texture_coordinates + quad_coordinates(c.text_coord),
        faces: m.faces + box_faces(
            m.vertices.len() as int,
            match c.text_coord {
                Some(_) => Some(m.texture_coordinates.len() as int),
                None => None,
            },
            id_of(m.materials, c.mat),
        ),
        materials: interned(m.materials, c.mat),
        textures: m.textures,
    }
}

/// The mesh after the first `n` boxes of `cubes` have been appended in order.
pub open spec fn with_boxes(m: ObjView, cubes: Seq<Cube>, n: int) -> ObjView
    decreases n,
{
    if n <= 0 {
        m
    } else {
        with_box(with_boxes(m, cubes, n - 1), cubes[n - 1])
    }
}

/// The materials of the first `n` boxes of `cubes`, in order.
pub open spec fn materials_of(cubes: Seq<Cube>, n: int) -> Seq<Mtl> {
    Seq::new(n as nat, |i: int| cubes[i].mat)
}

/// After boxes have been appended to a mesh without materials, the registry
/// is what interning their materials one after another gives: it holds each
/// distinct material of the boxes exactly once.
pub proof fn lemma_mesh_registry(m: ObjView, cubes: Seq<Cube>, n: int)
    requires
        m.materials.len() == 0,
        0 <= n <= cubes.len(),
    ensures
        with_boxes(m, cubes, n).materials == intern_all(materials_of(cubes, n)),
        with_boxes(m, cubes, n).materials.no_duplicates(),
        with_boxes(m, cubes, n).materials.len() == materials_of(cubes, n).to_set().len(),
    decreases n,
{
    if n > 0 {
        lemma_mesh_registry(m, cubes, n - 1);
        assert(materials_of(cubes, n).drop_last() =~= materials_of(cubes, n - 1));
        assert(materials_of(cubes, n).last() == cubes[n - 1].mat);
    } else {
        assert(m.materials =~= intern_all(materials_of(cubes, n)));
    }
    lemma_registry_holds_each_once(materials_of(cubes, n));
}

/// Whether `m` was registered before or is the material of one of the first
/// `n` boxes of `cubes`.
pub open spec fn known_material(before: Seq<Mtl>, cubes: Seq<Cube>, n: int, m: Mtl) -> bool {
    before.contains(m) || exists|k: int| 0 <= k < n && (#[trigger] cubes[k]).mat == m
}

/// Decides whether every corner of the box is representable.
pub fn cube_fits(c: &Cube) -> (r: bool)
    ensures
        r == corners_fit(c.pos, c.scale),
{
    axis_fits(c.pos.x, c.scale.x) && axis_fits(c.pos.y, c.scale.y) && axis_fits(
        c.pos.z,
        c.scale.z,
    )
}

fn axis_fits(pos: i64, scale: i64) -> (r: bool)
    ensures
        r == (fits(pos + trunc_div(scale as int, 2)) && fits(pos - trunc_div(scale as int, 2))),
{
    let half: i128 = (scale / 2) as i128;
    let a: i128 = pos as i128 + half;
    let b: i128 = pos as i128 - half;
    i64::MIN as i128 <= a && a <= i64::MAX as i128 && i64::MIN as i128 <= b && b <= i64::MAX as i128
}

impl Obj {
    /// Whether the mesh is consistent: no material is registered twice and
    /// every face refers to entries that exist.
    pub open spec fn wf(&self) -> bool {
        &&& self.materials@.no_duplicates()
        &&& forall|f: int|
            0 <= f < self.faces@.len() ==> self.face_in_range(#[trigger] self.faces@[f]@)
    }

    /// Whether all indices of `face` are in range for this mesh.
    pub open spec fn face_in_range(&self, face: FaceView) -> bool {
        &&& 0 <= face.mtl < self.materials@.len()
        &&& forall|i: int| 0 <= i < 4 ==> 0 <= #[trigger] face.vertices[i] < self.vertices@.len()
        &&& match face.texture_coordinates {
            Some(t) => forall|i: int|
                0 <= i < 4 ==> 0 <= #[trigger] t[i] < self.texture_coordinates@.len(),
            None => true,
        }
    }

    /// The empty mesh.
    pub fn new() -> (obj: Obj)
        ensures
            obj.vertices@.len() == 0,
            obj.texture_coordinates@.len() == 0,
            obj.faces@.len() == 0,
            obj.materials@.len() == 0,
            obj.textures@.len() == 0,
            obj.wf(),
    {
        Obj {
            vertices: Vec::new(),
            faces: Vec::new(),
            materials: Vec::new(),
            textures: Vec::new(),
            texture_coordinates: Vec::new(),
        }
    }

    /// Registers `material` unless an equal one is registered already, and
    /// returns the id of the registered one.
    pub fn intern(&mut self, material: Mtl) -> (id: usize)
        ensures
            final(self).materials@ == interned(old(self).materials@, material),
            id as int == old(self).materials@.index_of_first(material).unwrap_or(
                old(self).materials@.len() as int,
            ),
            id < final(self).materials@.len(),
            final(self).materials@[id as int] == material,
            forall|j: int| 0 <= j < id ==> final(self).materials@[j] != material,
            final(self).vertices == old(self).vertices,
            final(self).texture_coordinates == old(self).texture_coordinates,
            final(self).faces == old(self).faces,
            final(self).textures == old(self).textures,
            old(self).materials@.no_duplicates() ==> final(self).materials@.no_duplicates(),
    {
        let n: usize = self.materials.len();
        let mut i: usize = 0;
        while i < n
            invariant
                i <= n,
                n == self.materials@.len(),
                *self == *old(self),
                forall|j: int| 0 <= j < i ==> self.materials@[j] != material,
            decreases n - i,
        {
            if self.materials[i] == material {
                proof {
                    old(self).materials@.index_of_first_ensures(material);
                }
                return i;
            }
            i += 1;
        }
        proof {
            old(self).materials@.index_of_first_ensures(material);
        }
        self.materials.push(material);
        n
    }

    /// Appends the box centred at `position` with the given extents: eight
    /// vertices, the texture quad if there is one, and six faces that all
    /// carry the (interned) material and share the quad.
    pub fn new_rect(
        &mut self,
        position: Vec3,
        scale_x: i64,
        scale_y: i64,
        scale_z: i64,
        material: Mtl,
        texture_coordinates: Option<TexQuad>,
    )
        requires
            corners_fit(position, Vec3 { x: scale_x, y: scale_y, z: scale_z }),
        ensures
            final(self).vertices@ == old(self).vertices@ + box_vertices(
                position,
                Vec3 { x: scale_x, y: scale_y, z: scale_z },
            ),
            final(self).texture_coordinates@ == old(self).texture_coordinates@ + quad_coordinates(
                texture_coordinates,
            ),
            final(self).materials@ == interned(old(self).materials@, material),
            face_views(final(self).faces@) == face_views(old(self).faces@) + box_faces(
                old(self).vertices@.len() as int,
                match texture_coordinates {
                    Some(_) => Some(old(self).texture_coordinates@.len() as int),
                    None => None,
                },
                old(self).materials@.index_of_first(material).unwrap_or(
                    old(self).materials@.len() as int,
                ),
            ),
            final(self).textures == old(self).textures,
            old(self).wf() ==> final(self).wf(),
            final(self)@ == with_box(
                old(self)@,
                Cube {
                    pos: position,
                    mat: material,
                    scale: Vec3 { x: scale_x, y: scale_y, z: scale_z },
                    text_coord: texture_coordinates,
                },
            ),
    {
        let ghost scale = Vec3 { x: scale_x, y: scale_y, z: scale_z };
        let hx: i64 = scale_x / 2;
        let hy: i64 = scale_y / 2;
        let hz: i64 = scale_z / 2;
        let first_vert: usize = self.vertices.len();
        self.vertices.push(Vec3 { x: position.x + hx, y: position.y + hy, z: position.z + hz });
        self.vertices.push(Vec3 { x: position.x + hx, y: position.y + hy, z: position.z - hz });
        self.vertices.push(Vec3 { x: position.x + hx, y: position.y - hy, z: position.z + hz });
        self.vertices.push(Vec3 { x: position.x + hx, y: position.y - hy, z: position.z - hz });
        self.vertices.push(Vec3 { x: position.x - hx, y: position.y + hy, z: position.z + hz });
        self.vertices.push(Vec3 { x: position.x - hx, y: position.y + hy, z: position.z - hz });
        self.vertices.push(Vec3 { x: position.x - hx, y: position.y - hy, z: position.z + hz });
        self.vertices.push(Vec3 { x: position.x - hx, y: position.y - hy, z: position.z - hz });
        assert(self.vertices@ =~= old(self).vertices@ + box_vertices(position, scale));
        let tc: Option<[usize; 4]> = match texture_coordinates {
            Some(q) => {
                let first_text_coord: usize = self.texture_coordinates.len();
                self.texture_coordinates.push(q.c0);
                self.texture_coordinates.push(q.c1);
                self.texture_coordinates.push(q.c2);
                self.texture_coordinates.push(q.c3);
                let after: usize = self.texture_coordinates.len();
                assert(after == first_text_coord + 4);
                Some(
                    [
                        first_text_coord,
                        first_text_coord + 1,
                        first_text_coord + 2,
                        first_text_coord + 3,
                    ],
                )
            },
            None => None,
        };
        assert(self.texture_coordinates@ =~= old(self).texture_coordinates@ + quad_coordinates(
            texture_coordinates,
        ));
        let mat: usize = self.intern(material);
        let ghost first_tex: Option<int> = match texture_coordinates {
            Some(_) => Some(old(self).texture_coordinates@.len() as int),
            None => None,
        };
        let ghost expected = box_faces(first_vert as int, first_tex, mat as int);
        let table: [[usize; 4]; 6] = [
            [0, 1, 3, 2],
            [4, 5, 7, 6],
            [0, 4, 6, 2],
            [1, 5, 7, 3],
            [0, 1, 5, 4],
            [2, 3, 7, 6],
        ];
        let total: usize = self.vertices.len();
        let mut f: usize = 0;
        while f < 6
            invariant
                f <= 6,
                first_vert + 8 == total,
                total == self.vertices@.len(),
                first_vert == old(self).vertices@.len(),
                self.vertices@ == old(self).vertices@ + box_vertices(position, scale),
                self.texture_coordinates@ == old(self).texture_coordinates@ + quad_coordinates(
                    texture_coordinates,
                ),
                self.materials@ == interned(old(self).materials@, material),
                mat < self.materials@.len(),
                self.textures == old(self).textures,
                old(self).materials@.no_duplicates() ==> self.materials@.no_duplicates(),
                forall|a: int, b: int|
                    0 <= a < 6 && 0 <= b < 4 ==> (#[trigger] table@[a]@[b]) as int
                        == face_table()[a][b],
                expected == box_faces(first_vert as int, first_tex, mat as int),
                tc is Some == texture_coordinates is Some,
                first_tex is Some == texture_coordinates is Some,
                tc matches Some(t) ==> forall|i: int|
                    0 <= i < 4 ==> (#[trigger] t@[i]) as int == first_tex->0 + i,
                first_tex matches Some(t) ==> t + 4 == self.texture_coordinates@.len(),
                face_views(self.faces@) == face_views(old(self).faces@) + expected.subrange(
                    0,
                    f as int,
                ),
            decreases 6 - f,
        {
            let row: [usize; 4] = table[f];
            assert(row@[0] == face_table()[f as int][0] && row@[1] == face_table()[f as int][1]
                && row@[2] == face_table()[f as int][2] && row@[3] == face_table()[f as int][3])
                by {
                assert(forall|b: int| 0 <= b < 4 ==> (#[trigger] table@[f as int]@[b]) as int
                    == face_table()[f as int][b]);
            }
            let face = Face {
                vertices: [
                    row[0] + first_vert,
                    row[1] + first_vert,
                    row[2] + first_vert,
                    row[3] + first_vert,
                ],
                mtl: mat,
                texture_coordinates: tc,
            };
            proof {
                assert(face@.vertices =~= expected[f as int].vertices);
                match tc {
                    Some(t) => {
                        assert(face@.texture_coordinates->0 =~= expected[f as int].texture_coordinates->0);
                    },
                    None => {},
                }
                assert(face@ == expected[f as int]);
            }
            let ghost before = self.faces@;
            self.faces.push(face);
            f += 1;
            proof {
                assert(self.faces@ == before.push(face));
                assert(face_views(self.faces@) =~= face_views(before).push(face@));
                assert(expected.subrange(0, f as int) =~= expected.subrange(0, f - 1).push(
                    expected[f - 1],
                ));
                assert(face_views(self.faces@) =~= face_views(old(self).faces@)
                    + expected.subrange(0, f as int));
            }
        }
        assert(expected.subrange(0, 6) =~= expected);
        proof {
            if old(self).wf() {
                assert forall|g: int| 0 <= g < self.faces@.len() implies self.face_in_range(
                    #[trigger] self.faces@[g]@,
                ) by {
                    let views = face_views(self.faces@);
                    assert(views[g] == self.faces@[g]@);
                    let n = old(self).faces@.len() as int;
                    assert(views.len() == n + 6);
                    if g < n {
                        assert(views[g] == face_views(old(self).faces@)[g]);
                        assert(old(self).face_in_range(old(self).faces@[g]@));
                    } else {
                        assert(views[g] == expected[g - n]);
                    }
                }
            }
        }
    }

    /// Appends the cube centred at `position` whose edges all measure `scale`.
    pub fn new_cube(
        &mut self,
        position: Vec3,
        scale: i64,
        material: Mtl,
        texture_coordinates: Option<TexQuad>,
    )
        requires
            corners_fit(position, Vec3 { x: scale, y: scale, z: scale }),
        ensures
            final(self).vertices@ == old(self).vertices@ + box_vertices(
                position,
                Vec3 { x: scale, y: scale, z: scale },
            ),
            final(self).texture_coordinates@ == old(self).texture_coordinates@ + quad_coordinates(
                texture_coordinates,
            ),
            final(self).materials@ == interned(old(self).materials@, material),
            face_views(final(self).faces@) == face_views(old(self).faces@) + box_faces(
                old(self).vertices@.len() as int,
                match texture_coordinates {
                    Some(_) => Some(old(self).texture_coordinates@.len() as int),
                    None => None,
                },
                old(self).materials@.index_of_first(material).unwrap_or(
                    old(self).materials@.len() as int,
                ),
            ),
            final(self).textures == old(self).textures,
            old(self).wf() ==> final(self).wf(),
            final(self)@ == with_box(
                old(self)@,
                Cube {
                    pos: position,
                    mat: material,
                    scale: Vec3 { x: scale, y: scale, z: scale },
                    text_coord: texture_coordinates,
                },
            ),
    {
        self.new_rect(position, scale, scale, scale, material, texture_coordinates)
    }

    /// Appends every box of `cubes`, in order.
    pub fn add_cubes(&mut self, cubes: &Vec<Cube>)
        requires
            forall|k: int|
                0 <= k < cubes@.len() ==> corners_fit((#[trigger] cubes@[k]).pos, cubes@[k].scale),
        ensures
            final(self)@ == with_boxes(old(self)@, cubes@, cubes@.len() as int),
            final(self).textures == old(self).textures,
            old(self).wf() ==> final(self).wf(),
            forall|i: int|
                0 <= i < final(self).materials@.len() ==> known_material(
                    old(self).materials@,
                    cubes@,
                    cubes@.len() as int,
                    #[trigger] final(self).materials@[i],
                ),
    {
        let n: usize = cubes.len();
        let mut k: usize = 0;
        while k < n
            invariant
                k <= n,
                n == cubes@.len(),
                forall|j: int|
                    0 <= j < cubes@.len() ==> corners_fit(
                        (#[trigger] cubes@[j]).pos,
                        cubes@[j].scale,
                    ),
                self@ == with_boxes(old(self)@, cubes@, k as int),
                self.textures == old(self).textures,
                old(self).wf() ==> self.wf(),
                forall|i: int|
                    0 <= i < self.materials@.len() ==> known_material(
                        old(self).materials@,
                        cubes@,
                        k as int,
                        #[trigger] self.materials@[i],
                    ),
            decreases n - k,
        {
            let c: Cube = cubes[k];
            let ghost before = self.materials@;
            self.new_rect(c.pos, c.scale.x, c.scale.y, c.scale.z, c.mat, c.text_coord);
            proof {
                assert forall|i: int| 0 <= i < self.materials@.len() implies known_material(
                    old(self).materials@,
                    cubes@,
                    k + 1,
                    #[trigger] self.materials@[i],
                ) by {
                    if i < before.len() {
                        assert(self.materials@[i] == before[i]);
                        assert(known_material(old(self).materials@, cubes@, k as int, before[i]));
                    } else {
                        assert(self.materials@[i] == cubes@[k as int].mat);
                    }
                }
            }
            k += 1;
        }
    }

    /// Decides whether the mesh is consistent.
    pub fn is_consistent(&self) -> (r: bool)
        ensures
            r == self.wf(),
    {
        let nm: usize = self.materials.len();
        let mut i: usize = 0;
        while i < nm
            invariant
                i <= nm,
                nm == self.materials@.len(),
                forall|a: int, b: int|
                    0 <= a < i && 0 <= b < a ==> self.materials@[a] != self.materials@[b],
            decreases nm - i,
        {
            let mut j: usize = 0;
            while j < i
                invariant
                    j <= i,
                    i < nm,
                    nm == self.materials@.len(),
                    forall|b: int| 0 <= b < j ==> self.materials@[i as int] != self.materials@[b],
                decreases i - j,
            {
                if self.materials[i] == self.materials[j] {
                    return false;
                }
                j += 1;
            }
            i += 1;
        }
        assert(self.materials@.no_duplicates()) by {
            assert forall|a: int, b: int|
                0 <= a < self.materials@.len() && 0 <= b < self.materials@.len() && a
                    != b implies self.materials@[a] != self.materials@[b] by {
                if b < a {
                } else {
                    assert(self.materials@[b] != self.materials@[a]);
                }
            }
        }
        let nv: usize = self.vertices.len();
        let nt: usize = self.texture_coordinates.len();
        let nf: usize = self.faces.len();
        let mut f: usize = 0;
        while f < nf
            invariant
                f <= nf,
                nf == self.faces@.len(),
                nv == self.vertices@.len(),
                nt == self.texture_coordinates@.len(),
                nm == self.materials@.len(),
                forall|g: int| 0 <= g < f ==> self.face_in_range(#[trigger] self.faces@[g]@),
            decreases nf - f,
        {
            let face: Face = self.faces[f];
            let mut ok: bool = face.mtl < nm && face.vertices[0] < nv && face.vertices[1] < nv
                && face.vertices[2] < nv && face.vertices[3] < nv;
            match face.texture_coordinates {
                Some(t) => {
                    ok = ok && t[0] < nt && t[1] < nt && t[2] < nt && t[3] < nt;
                },
                None => {},
            }
            proof {
                let fv = face@;
                if ok {
                    assert forall|k: int| 0 <= k < 4 implies 0 <= #[trigger] fv.vertices[k]
                        < self.vertices@.len() by {
                        assert(k == 0 || k == 1 || k == 2 || k == 3);
                    }
                    match face.texture_coordinates {
                        Some(t) => {
                            assert forall|k: int| 0 <= k < 4 implies 0
                                <= #[trigger] fv.texture_coordinates->0[k]
                                < self.texture_coordinates@.len() by {
                                assert(k == 0 || k == 1 || k == 2 || k == 3);
                            }
                        },
                        None => {},
                    }
                    assert(self.face_in_range(fv));
                } else {
                    assert(fv.vertices[0] == face.vertices@[0]);
                    assert(fv.vertices[1] == face.vertices@[1]);
                    assert(fv.vertices[2] == face.vertices@[2]);
                    assert(fv.vertices[3] == face.vertices@[3]);
                    match face.texture_coordinates {
                        Some(t) => {
                            let tv = fv.texture_coordinates->0;
                            assert(tv[0] == t@[0] && tv[1] == t@[1] && tv[2] == t@[2] && tv[3]
                                == t@[3]);
                        },
                        None => {},
                    }
                    assert(!self.face_in_range(self.faces@[f as int]@));
                }
            }
            if !ok {
                return false;
            }
            f += 1;
        }
        true
    }
}

} // verus!
