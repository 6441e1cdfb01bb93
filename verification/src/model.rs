//! From a grid to a finished mesh in one call.

use vstd::prelude::*;
use vstd::string::StringExecFns;
use crate::grid::{
    first_texture_only, get_cubes, grid_bound, lemma_grid_cubes, Grid, MaterialMode,
};
use crate::obj::{corners_fit, known_material, with_boxes, Obj, ObjView};
use crate::optimize::{bounded, has_kind, merged_list, optimize_cubes, within};

verus! {

/// The mesh without geometry that knows the one texture file `texture`.
pub open spec fn empty_mesh(texture: Seq<char>) -> ObjView {
    ObjView {
        vertices: Seq::empty(),
        texture_coordinates: Seq::empty(),
        faces: Seq::empty(),
        materials: Seq::empty(),
        textures: seq![texture],
    }
}

/// Builds the mesh of a grid: the unit boxes of its samples are merged, and
/// the boxes that remain are appended in their order to a mesh whose only
/// texture file is `texture`.
pub fn build_model(grid: &Grid, mode: MaterialMode, texture: &str) -> (model: Obj)
    requires
        grid.wf(),
    ensures
        model.wf(),
        model.textures_resolve(),
        model@ == with_boxes(
            empty_mesh(texture@),
            merged_list(grid.cubes_of(mode, grid.samples@.len() as int)),
            merged_list(grid.cubes_of(mode, grid.samples@.len() as int)).len() as int,
        ),
{
    let mut model = Obj::new();
    model.textures.push(String::from_str(texture));
    proof {
        let fresh = model@;
        assert(fresh.vertices =~= Seq::empty());
        assert(fresh.texture_coordinates =~= Seq::empty());
        assert(fresh.faces =~= Seq::empty());
        assert(fresh.materials =~= Seq::empty());
        assert(fresh.textures =~= seq![texture@]);
        assert(fresh == empty_mesh(texture@));
    }
    let ghost start = model;
    let mut cubes = get_cubes(grid, mode);
    let ghost units = cubes@;
    proof {
        lemma_grid_cubes(*grid, mode, grid.samples@.len() as int);
    }
    optimize_cubes(&mut cubes);
    proof {
        assert(bounded(units, -grid_bound(), grid_bound()));
        assert(bounded(cubes@, -grid_bound(), grid_bound()));
        assert forall|k: int| 0 <= k < cubes@.len() implies corners_fit(
            (#[trigger] cubes@[k]).pos,
            cubes@[k].scale,
        ) by {
            assert(within(cubes@[k], -grid_bound(), grid_bound()));
        }
    }
    model.add_cubes(&cubes);
    proof {
        assert forall|i: int| 0 <= i < model.materials@.len() implies match (
        #[trigger] model.materials@[i]).diffuse_texture_map {
            Some(x) => x < model.textures@.len(),
            None => true,
        } by {
            let m = model.materials@[i];
            assert(known_material(start.materials@, cubes@, cubes@.len() as int, m));
            let k = choose|k: int| 0 <= k < cubes@.len() && (#[trigger] cubes@[k]).mat == m;
            assert(has_kind(units, cubes@[k]));
            let j = choose|j: int|
                0 <= j < units.len() && (#[trigger] units[j]).mat == cubes@[k].mat
                    && units[j].text_coord == cubes@[k].text_coord;
            assert(first_texture_only(units[j]));
        }
        assert(model@ == with_boxes(empty_mesh(texture@), cubes@, cubes@.len() as int));
    }
    model
}

} // verus!
