//! The mesh as Wavefront text: geometry and materials.

use vstd::prelude::*;
use vstd::string::StringExecFns;
use crate::material::{Color, Mtl};
use crate::obj::{Face, FaceView, Obj};
use crate::text::{decimal, digits, push_decimal, push_digits, push_signed, signed_digits};
use crate::vec3::Vec3;

verus! {

/// The line of one vertex: `v x y z`.
pub open spec fn vertex_line(v: Vec3) -> Seq<char> {
    "v "@ + decimal(v.x as int, false) + " "@ + decimal(v.y as int, false) + " "@ + decimal(
        v.z as int,
        false,
    ) + "\n"@
}

/// The line of one texture coordinate: `vt x y`.
pub open spec fn texture_line(v: Vec3) -> Seq<char> {
    "vt "@ + decimal(v.x as int, false) + " "@ + decimal(v.y as int, false) + "\n"@
}

/// The lines of the first `n` vertices.
pub open spec fn vertex_lines(vs: Seq<Vec3>, n: int) -> Seq<char>
    decreases n,
{
    if n <= 0 {
        Seq::empty()
    } else {
        vertex_lines(vs, n - 1) + vertex_line(vs[n - 1])
    }
}

/// The lines of the first `n` texture coordinates.
pub open spec fn texture_lines(vs: Seq<Vec3>, n: int) -> Seq<char>
    decreases n,
{
    if n <= 0 {
        Seq::empty()
    } else {
        texture_lines(vs, n - 1) + texture_line(vs[n - 1])
    }
}

/// The first `n` corners of a face line: a space, then the vertex number
/// and, if the face is textured, a slash and the number of the texture
/// coordinate. Numbers count from one.
pub open spec fn corner_refs(face: FaceView, n: int) -> Seq<char>
    decreases n,
{
    if n <= 0 {
        Seq::empty()
    } else {
        corner_refs(face, n - 1) + " "@ + digits((face.vertices[n - 1] + 1) as nat)
            + match face.texture_coordinates {
            Some(t) => "/"@ + digits((t[n - 1] + 1) as nat),
            None => Seq::empty(),
        }
    }
}

/// The line that switches to material `id`: `usemtl m<id>`.
pub open spec fn material_switch(id: int) -> Seq<char> {
    "usemtl m"@ + digits(id as nat) + "\n"@
}

/// The text of face `i`: its line `f ...`, after a material switch if it
/// is the first face or its material differs from that of the face before.
pub open spec fn face_text(faces: Seq<Face>, i: int) -> Seq<char> {
    (if i == 0 || faces[i - 1].mtl != faces[i].mtl {
        material_switch(faces[i].mtl as int)
    } else {
        Seq::empty()
    }) + "f"@ + corner_refs(faces[i]@, 4) + "\n"@
}

/// The text of the first `n` faces.
pub open spec fn face_texts(faces: Seq<Face>, n: int) -> Seq<char>
    decreases n,
{
    if n <= 0 {
        Seq::empty()
    } else {
        face_texts(faces, n - 1) + face_text(faces, n - 1)
    }
}

/// The geometry text of a mesh: the line `mtllib <library>`, then every
/// vertex, every texture coordinate and every face.
pub open spec fn geometry_text(obj: Obj, library: Seq<char>) -> Seq<char> {
    "mtllib "@ + library + "\n"@ + vertex_lines(obj.vertices@, obj.vertices@.len() as int)
        + texture_lines(obj.texture_coordinates@, obj.texture_coordinates@.len() as int)
        + face_texts(obj.faces@, obj.faces@.len() as int)
}

/// A colour line: the keyword, then the three channels.
pub open spec fn color_line(keyword: Seq<char>, c: Color) -> Seq<char> {
    keyword + " "@ + decimal(c.r as int, true) + " "@ + decimal(c.g as int, true) + " "@ + decimal(
        c.b as int,
        true,
    ) + "\n"@
}

/// The block of material `id`: `newmtl m<id>`, the lines `Ka`, `Kd` and
/// `Ks`, then, each only if the material has it, `d`, `illum` and `map_Kd`
/// with the name of the texture file.
pub open spec fn material_block(m: Mtl, id: int, textures: Seq<String>) -> Seq<char> {
    "newmtl m"@ + digits(id as nat) + "\n"@ + color_line("Ka"@, m.ambient_color) + color_line(
        "Kd"@,
        m.diffuse_color,
    ) + color_line("Ks"@, m.specular_color) + (match m.dissolve {
        Some(x) => "d "@ + decimal(x as int, true) + "\n"@,
        None => Seq::empty(),
    }) + (match m.illumination_model {
        Some(x) => "illum "@ + signed_digits(x as int) + "\n"@,
        None => Seq::empty(),
    }) + (match m.diffuse_texture_map {
        Some(x) => "map_Kd "@ + textures[x as int]@ + "\n"@,
        None => Seq::empty(),
    })
}

/// The blocks of the first `n` materials.
pub open spec fn material_blocks(ms: Seq<Mtl>, n: int, textures: Seq<String>) -> Seq<char>
    decreases n,
{
    if n <= 0 {
        Seq::empty()
    } else {
        material_blocks(ms, n - 1, textures) + material_block(ms[n - 1], n - 1, textures)
    }
}

fn push_color_line(s: &mut String, keyword: &str, c: Color)
    ensures
        final(s)@ == old(s)@ + color_line(keyword@, c),
{
    let mut line = String::from_str(keyword);
    line.append(" ");
    push_decimal(&mut line, c.r, true);
    line.append(" ");
    push_decimal(&mut line, c.g, true);
    line.append(" ");
    push_decimal(&mut line, c.b, true);
    line.append("\n");
    s.append(line.as_str());
}

fn vertex_string(v: Vec3) -> (line: String)
    ensures
        line@ == vertex_line(v),
{
    let mut line = String::from_str("v ");
    push_decimal(&mut line, v.x, false);
    line.append(" ");
    push_decimal(&mut line, v.y, false);
    line.append(" ");
    push_decimal(&mut line, v.z, false);
    line.append("\n");
    line
}

fn texture_string(v: Vec3) -> (line: String)
    ensures
        line@ == texture_line(v),
{
    let mut line = String::from_str("vt ");
    push_decimal(&mut line, v.x, false);
    line.append(" ");
    push_decimal(&mut line, v.y, false);
    line.append("\n");
    line
}

/// Whether every index of the face has a successor.
pub open spec fn face_countable(face: Face) -> bool {
    &&& forall|i: int| 0 <= i < 4 ==> (#[trigger] face.vertices@[i]) < usize::MAX
    &&& match face.texture_coordinates {
        Some(t) => forall|i: int| 0 <= i < 4 ==> (#[trigger] t@[i]) < usize::MAX,
        None => true,
    }
}

fn push_corners(s: &mut String, face: &Face)
    requires
        face_countable(*face),
    ensures
        final(s)@ == old(s)@ + corner_refs(face@, 4),
{
    let mut refs = String::new();
    let mut k: usize = 0;
    assert(refs@ =~= corner_refs(face@, 0));
    while k < 4
        invariant
            k <= 4,
            face_countable(*face),
            refs@ == corner_refs(face@, k as int),
        decreases 4 - k,
    {
        refs.append(" ");
        let v: usize = face.vertices[k];
        push_digits(&mut refs, (v + 1) as u64);
        match face.texture_coordinates {
            Some(t) => {
                let mut tail = String::from_str("/");
                let tc: usize = t[k];
                push_digits(&mut tail, (tc + 1) as u64);
                refs.append(tail.as_str());
            },
            None => {
                assert(refs@ =~= refs@ + Seq::<char>::empty());
            },
        }
        k += 1;
    }
    s.append(refs.as_str());
}

fn face_string(faces: &Vec<Face>, i: usize) -> (line: String)
    requires
        i < faces@.len(),
        face_countable(faces@[i as int]),
    ensures
        line@ == face_text(faces@, i as int),
{
    let face: &Face = &faces[i];
    let mut line = String::new();
    if i == 0 || faces[i - 1].mtl != face.mtl {
        line = String::from_str("usemtl m");
        push_digits(&mut line, face.mtl as u64);
        line.append("\n");
    }
    line.append("f");
    push_corners(&mut line, face);
    line.append("\n");
    line
}

fn block_string(m: Mtl, id: usize, textures: &Vec<String>) -> (block: String)
    requires
        match m.diffuse_texture_map {
            Some(x) => x < textures@.len(),
            None => true,
        },
    ensures
        block@ == material_block(m, id as int, textures@),
{
    let mut block = String::from_str("newmtl m");
    push_digits(&mut block, id as u64);
    block.append("\n");
    push_color_line(&mut block, "Ka", m.ambient_color);
    push_color_line(&mut block, "Kd", m.diffuse_color);
    push_color_line(&mut block, "Ks", m.specular_color);
    match m.dissolve {
        Some(x) => {
            let mut line = String::from_str("d ");
            push_decimal(&mut line, x, true);
            line.append("\n");
            block.append(line.as_str());
        },
        None => {
            assert(block@ =~= block@ + Seq::<char>::empty());
        },
    }
    match m.illumination_model {
        Some(x) => {
            let mut line = String::from_str("illum ");
            push_signed(&mut line, x as i64);
            line.append("\n");
            block.append(line.as_str());
        },
        None => {
            assert(block@ =~= block@ + Seq::<char>::empty());
        },
    }
    match m.diffuse_texture_map {
        Some(x) => {
            let mut line = String::from_str("map_Kd ");
            line.append(textures[x].as_str());
            line.append("\n");
            block.append(line.as_str());
        },
        None => {
            assert(block@ =~= block@ + Seq::<char>::empty());
        },
    }
    block
}

impl Obj {
    /// Whether every texture that a material names is in the list of
    /// texture files.
    pub open spec fn textures_resolve(&self) -> bool {
        forall|i: int|
            0 <= i < self.materials@.len() ==> match (
            #[trigger] self.materials@[i]).diffuse_texture_map {
                Some(x) => x < self.textures@.len(),
                None => true,
            }
    }

    /// Decides whether every texture that a material names is in the list
    /// of texture files.
    pub fn textures_resolved(&self) -> (r: bool)
        ensures
            r == self.textures_resolve(),
    {
        let n: usize = self.materials.len();
        let nt: usize = self.textures.len();
        let mut i: usize = 0;
        while i < n
            invariant
                i <= n,
                n == self.materials@.len(),
                nt == self.textures@.len(),
                forall|k: int|
                    0 <= k < i ==> match (#[trigger] self.materials@[k]).diffuse_texture_map {
                        Some(x) => x < self.textures@.len(),
                        None => true,
                    },
            decreases n - i,
        {
            match self.materials[i].diffuse_texture_map {
                Some(x) => {
                    if x >= nt {
                        return false;
                    }
                },
                None => {},
            }
            i += 1;
        }
        true
    }

    /// Writes the geometry; `materials` is the path of the material file
    /// that the geometry refers to.
    pub fn export_obj(&self, materials: &str) -> (s: String)
        requires
            self.wf(),
        ensures
            s@ == geometry_text(*self, materials@),
    {
        let mut s = String::from_str("mtllib ");
        s.append(materials);
        s.append("\n");
        let ghost head = s@;
        let nv: usize = self.vertices.len();
        let mut i: usize = 0;
        let mut lines = String::new();
        assert(lines@ =~= vertex_lines(self.vertices@, 0));
        while i < nv
            invariant
                i <= nv,
                nv == self.vertices@.len(),
                lines@ == vertex_lines(self.vertices@, i as int),
            decreases nv - i,
        {
            let line = vertex_string(self.vertices[i]);
            lines.append(line.as_str());
            i += 1;
        }
        s.append(lines.as_str());
        let nt: usize = self.texture_coordinates.len();
        i = 0;
        lines = String::new();
        assert(lines@ =~= texture_lines(self.texture_coordinates@, 0));
        while i < nt
            invariant
                i <= nt,
                nt == self.texture_coordinates@.len(),
                lines@ == texture_lines(self.texture_coordinates@, i as int),
            decreases nt - i,
        {
            let line = texture_string(self.texture_coordinates[i]);
            lines.append(line.as_str());
            i += 1;
        }
        s.append(lines.as_str());
        let nf: usize = self.faces.len();
        i = 0;
        lines = String::new();
        assert(lines@ =~= face_texts(self.faces@, 0));
        while i < nf
            invariant
                i <= nf,
                nf == self.faces@.len(),
                nv == self.vertices@.len(),
                nt == self.texture_coordinates@.len(),
                self.wf(),
                lines@ == face_texts(self.faces@, i as int),
            decreases nf - i,
        {
            proof {
                self.lemma_face_countable(i as int);
            }
            let line = face_string(&self.faces, i);
            lines.append(line.as_str());
            i += 1;
        }
        s.append(lines.as_str());
        s
    }

    /// In a consistent mesh every face index lies below the length of a list.
    proof fn lemma_face_countable(&self, i: int)
        requires
            self.wf(),
            0 <= i < self.faces@.len(),
            self.vertices@.len() <= usize::MAX,
            self.texture_coordinates@.len() <= usize::MAX,
        ensures
            face_countable(self.faces@[i]),
    {
        let face = self.faces@[i];
        let fv = face@;
        assert(self.face_in_range(fv));
        assert forall|k: int| 0 <= k < 4 implies (#[trigger] face.vertices@[k]) < usize::MAX by {
            assert(fv.vertices[k] == face.vertices@[k]);
        }
        match face.texture_coordinates {
            Some(t) => {
                assert forall|k: int| 0 <= k < 4 implies (#[trigger] t@[k]) < usize::MAX by {
                    assert(fv.texture_coordinates->0[k] == t@[k]);
                }
            },
            None => {},
        }
    }

    /// Writes the materials, one block each, in the order of their ids.
    pub fn export_mtl(&self) -> (s: String)
        requires
            self.textures_resolve(),
        ensures
            s@ == material_blocks(self.materials@, self.materials@.len() as int, self.textures@),
    {
        let mut s = String::new();
        let n: usize = self.materials.len();
        let mut i: usize = 0;
        assert(s@ =~= material_blocks(self.materials@, 0, self.textures@));
        while i < n
            invariant
                i <= n,
                n == self.materials@.len(),
                self.textures_resolve(),
                s@ == material_blocks(self.materials@, i as int, self.textures@),
            decreases n - i,
        {
            let block = block_string(self.materials[i], i, &self.textures);
            s.append(block.as_str());
            i += 1;
        }
        s
    }
}

} // verus!
