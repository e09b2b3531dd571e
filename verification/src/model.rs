//! Block models: which texture appears on each face of a block.
//!
//! Models come from JSON files at `models/block/<id>.json`. A model may name
//! the built-in parent `builtin/cube_all`, whose six faces all use the
//! texture under the key `all`. The mesher looks up a block's model for the
//! texture path of each face.

use vstd::prelude::*;
use crate::id::NamespacedId;
use crate::lang::{entry_views, distinct_keys, lookup};
use crate::registry::{Registry, has_id};
use crate::text::str_eq;

verus! {

/// The six faces of a block in Minecraft standard order.
#[derive(Clone, Copy, Debug, Eq, Hash, PartialEq, Structural)]
pub enum Face {
    Right,
    Left,
    Top,
    Bottom,
    Front,
    Back,
}

/// Position of a face in the standard order.
pub open spec fn face_index(face: Face) -> int {
    match face {
        Face::Right => 0,
        Face::Left => 1,
        Face::Top => 2,
        Face::Bottom => 3,
        Face::Front => 4,
        Face::Back => 5,
    }
}

impl Face {
    /// Position of this face in the standard order.
    pub fn index(self) -> (r: usize)
        ensures
            r == face_index(self),
    {
        match self {
            Face::Right => 0,
            Face::Left => 1,
            Face::Top => 2,
            Face::Bottom => 3,
            Face::Front => 4,
            Face::Back => 5,
        }
    }
}

pub const ALL_FACES: [Face; 6] = [Face::Right, Face::Left, Face::Top, Face::Bottom, Face::Front, Face::Back];

/// A resolved block model with a concrete texture path for each face.
#[derive(Clone, Debug)]
pub struct BlockModel {
    /// Texture path per face, e.g. `"block/stone"` (without namespace or extension).
    pub faces: [String; 6],
}

/// The texture paths of a model, face by face.
pub open spec fn faces_view(m: BlockModel) -> Seq<Seq<char>> {
    m.faces@.map_values(|s: String| s@)
}

/// Six empty texture paths: the model of a block whose model could not be loaded.
pub open spec fn missing_faces() -> Seq<Seq<char>> {
    Seq::new(6, |i: int| Seq::<char>::empty())
}

impl BlockModel {
    /// Returns the texture path for a given face.
    pub fn texture(&self, face: Face) -> (r: &str)
        ensures
            r@ == faces_view(*self)[face_index(face)],
    {
        self.faces[face.index()].as_str()
    }

    /// The model with no texture on any face.
    pub fn missing() -> (r: BlockModel)
        ensures
            faces_view(r) == missing_faces(),
    {
        let r = BlockModel {
            faces: [String::new(), String::new(), String::new(), String::new(), String::new(), String::new()],
        };
        assert(faces_view(r) =~= missing_faces());
        r
    }
}

/// Errors that can occur during model loading.
#[derive(Clone, Debug, PartialEq, Eq)]
pub enum ModelError {
    Load { file: String, detail: String },
    UnknownParent { parent: String },
    MissingTexture { key: String, file: String },
}

/// The error a resolution yields, by kind and texts.
pub open spec fn error_view(e: ModelError) -> (int, Seq<char>, Seq<char>) {
    match e {
        ModelError::Load { file, detail } => (0, file@, detail@),
        ModelError::UnknownParent { parent } => (1, parent@, Seq::empty()),
        ModelError::MissingTexture { key, file } => (2, key@, file@),
    }
}

/// Resolves a model file's parent and textures into a texture per face: with
/// no parent or the built-in `builtin/cube_all` parent, every face takes the
/// `all` texture; any other parent is unknown.
pub fn resolve_faces(parent: &Option<String>, textures: &Vec<(String, String)>) -> (r: Result<[String; 6], ModelError>)
    requires
        distinct_keys(entry_views(textures@)),
    ensures
        match r {
            Ok(faces) => {
                &&& parent matches Some(p) ==> p@ == "builtin/cube_all"@
                &&& lookup(entry_views(textures@), "all"@) == Some(faces@[0]@)
                &&& forall|i: int| 0 <= i < 6 ==> #[trigger] faces@[i]@ == faces@[0]@
            },
            Err(e) => match parent {
                Some(p) => if p@ == "builtin/cube_all"@ {
                    lookup(entry_views(textures@), "all"@) is None && error_view(e) == (2int, "all"@, "unknown"@)
                } else {
                    error_view(e) == (1int, p@, Seq::<char>::empty())
                },
                None => lookup(entry_views(textures@), "all"@) is None && error_view(e) == (2int, "all"@, "unknown"@),
            },
        },
{
    match parent {
        Some(p) => {
            if !str_eq(p.as_str(), "builtin/cube_all") {
                return Err(ModelError::UnknownParent { parent: p.clone() });
            }
        },
        None => {},
    }
    let mut i: usize = 0;
    while i < textures.len()
        invariant
            i <= textures@.len(),
            distinct_keys(entry_views(textures@)),
            forall|j: int| 0 <= j < i ==> (#[trigger] textures@[j]).0@ != "all"@,
            parent matches Some(p) ==> p@ == "builtin/cube_all"@,
        decreases textures.len() - i,
    {
        if str_eq(textures[i].0.as_str(), "all") {
            let t = &textures[i].1;
            proof {
                let s = entry_views(textures@);
                assert(s[i as int].0 == "all"@);
                let k = choose|k: int| 0 <= k < s.len() && #[trigger] s[k].0 == "all"@;
                assert(k == i);
            }
            let faces = [t.clone(), t.clone(), t.clone(), t.clone(), t.clone(), t.clone()];
            proof {
                assert(faces@ =~= seq![faces[0], faces[1], faces[2], faces[3], faces[4], faces[5]]);
                assert(faces@[0]@ == t@);
                assert(entry_views(textures@)[i as int].1 == t@);
            }
            return Ok(faces);
        }
        i = i + 1;
    }
    proof {
        let s = entry_views(textures@);
        assert forall|k: int| 0 <= k < s.len() implies #[trigger] s[k].0 != "all"@ by {
            assert(s[k].0 == textures@[k].0@);
        }
    }
    Err(ModelError::MissingTexture { key: "all".to_owned(), file: "unknown".to_owned() })
}

/// Whether the IDs are pairwise distinct.
pub open spec fn distinct_id_list(s: Seq<NamespacedId>) -> bool {
    forall|i: int, j: int| 0 <= i < s.len() && 0 <= j < s.len() && i != j ==> (#[trigger] s[i])@ != (#[trigger] s[j])@
}

/// The texture paths a loaded model gives: its faces, or no texture on any
/// face when loading failed.
pub open spec fn loaded_faces(m: Result<BlockModel, ModelError>) -> Seq<Seq<char>> {
    match m {
        Ok(model) => faces_view(model),
        Err(_) => missing_faces(),
    }
}

/// Registers the model loaded for each block, in order; a block whose model
/// failed to load gets the model with no textures.
pub fn load_block_models(block_ids: &Vec<NamespacedId>, models: Vec<Result<BlockModel, ModelError>>) -> (r: Registry<BlockModel>)
    requires
        models@.len() == block_ids@.len(),
        distinct_id_list(block_ids@),
    ensures
        r@.len() == block_ids@.len(),
        forall|i: int| 0 <= i < r@.len() ==> #[trigger] r@[i].0 == block_ids@[i]@ && faces_view(r@[i].1) == loaded_faces(models@[i]),
{
    let mut reg: Registry<BlockModel> = Registry::new();
    let mut rest = models;
    let ghost all = rest@;
    let mut i: usize = 0;
    while i < block_ids.len()
        invariant
            i <= block_ids@.len(),
            all.len() == block_ids@.len(),
            rest@ == all.subrange(i as int, all.len() as int),
            distinct_id_list(block_ids@),
            reg@.len() == i,
            forall|j: int| 0 <= j < i ==> (#[trigger] reg@[j]).0 == block_ids@[j]@ && faces_view(reg@[j].1) == loaded_faces(all[j]),
        decreases block_ids.len() - i,
    {
        let loaded = rest.remove(0);
        assert(loaded == all[i as int]);
        let model = match loaded {
            Ok(m) => m,
            Err(_) => BlockModel::missing(),
        };
        proof {
            if has_id(reg@, block_ids@[i as int]@) {
                let j = choose|j: int| 0 <= j < reg@.len() && #[trigger] reg@[j].0 == block_ids@[i as int]@;
                assert(block_ids@[j]@ == block_ids@[i as int]@);
            }
        }
        let ghost before = reg@;
        let id = block_ids[i].copy();
        reg.register(id, model);
        proof {
            assert(reg@[i as int].0 == block_ids@[i as int]@);
            assert forall|j: int| 0 <= j < i + 1 implies (#[trigger] reg@[j]).0 == block_ids@[j]@ && faces_view(reg@[j].1) == loaded_faces(all[j]) by {
                if j < i {
                    assert(reg@[j] == before[j]);
                }
            }
            assert(rest@ =~= all.subrange(i + 1, all.len() as int));
        }
        i = i + 1;
    }
    reg
}

} // verus!
