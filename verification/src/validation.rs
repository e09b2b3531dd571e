//! Startup checks on loaded content: blocks without a model, and the set of
//! texture paths the block models use (whose files the caller then looks
//! for).

use vstd::prelude::*;
use crate::id::NamespacedId;
use crate::model::{BlockModel, faces_view};
use crate::registry::{Registry, IdView, has_id};
use crate::text::str_eq;

verus! {

/// Whether a block needs a model: every block but `air` does.
pub open spec fn needs_model(id: IdView) -> bool {
    id.1 != "air"@
}

/// The blocks, in order, that need a model and have none.
pub open spec fn blocks_missing_models(ids: Seq<IdView>, models: Seq<(IdView, BlockModel)>) -> Seq<IdView>
    decreases ids.len(),
{
    if ids.len() == 0 {
        Seq::empty()
    } else {
        let before = blocks_missing_models(ids.drop_last(), models);
        if needs_model(ids.last()) && !has_id(models, ids.last()) {
            before.push(ids.last())
        } else {
            before
        }
    }
}

/// The texture paths of the models' faces, model by model, face by face.
pub open spec fn face_textures(models: Seq<(IdView, BlockModel)>) -> Seq<Seq<char>>
    decreases models.len(),
{
    if models.len() == 0 {
        Seq::empty()
    } else {
        face_textures(models.drop_last()) + faces_view(models.last().1)
    }
}

/// The non-empty paths of `s`, each once, in order of first appearance.
pub open spec fn distinct_nonempty(s: Seq<Seq<char>>) -> Seq<Seq<char>>
    decreases s.len(),
{
    if s.len() == 0 {
        Seq::empty()
    } else {
        let before = distinct_nonempty(s.drop_last());
        if s.last().len() > 0 && !before.contains(s.last()) {
            before.push(s.last())
        } else {
            before
        }
    }
}

/// The views of a sequence of IDs.
pub open spec fn id_views(s: Seq<NamespacedId>) -> Seq<IdView> {
    Seq::new(s.len(), |i: int| s[i]@)
}

/// The views of a sequence of strings.
pub open spec fn string_views(s: Seq<String>) -> Seq<Seq<char>> {
    Seq::new(s.len(), |i: int| s[i]@)
}

/// What the startup checks found.
#[derive(Debug)]
pub struct DataReport {
    /// Blocks (other than air) that have no block model, in order.
    pub blocks_without_model: Vec<NamespacedId>,
    /// The distinct non-empty texture paths the block models use, in order of
    /// first use.
    pub texture_paths: Vec<String>,
}

fn contains_string(v: &Vec<String>, s: &str) -> (r: bool)
    ensures
        r == string_views(v@).contains(s@),
{
    let mut i: usize = 0;
    while i < v.len()
        invariant
            i <= v@.len(),
            forall|j: int| 0 <= j < i ==> v@[j]@ != s@,
        decreases v.len() - i,
    {
        if str_eq(v[i].as_str(), s) {
            assert(string_views(v@)[i as int] == s@);
            return true;
        }
        i = i + 1;
    }
    proof {
        if string_views(v@).contains(s@) {
            let k = choose|k: int| 0 <= k < string_views(v@).len() && string_views(v@)[k] == s@;
            assert(v@[k]@ == s@);
        }
    }
    false
}

/// Checks the loaded content: which blocks (all but `air`) lack a model, and
/// which texture paths the block models use.
pub fn validate_data(block_ids: &Vec<NamespacedId>, block_models: &Registry<BlockModel>) -> (r: DataReport)
    ensures
        id_views(r.blocks_without_model@) == blocks_missing_models(id_views(block_ids@), block_models@),
        string_views(r.texture_paths@) == distinct_nonempty(face_textures(block_models@)),
{
    proof {
        reveal_strlit("air");
    }
    let ghost ids = id_views(block_ids@);
    let mut missing: Vec<NamespacedId> = Vec::new();
    let mut i: usize = 0;
    while i < block_ids.len()
        invariant
            i <= block_ids@.len(),
            ids == id_views(block_ids@),
            id_views(missing@) == blocks_missing_models(ids.subrange(0, i as int), block_models@),
        decreases block_ids.len() - i,
    {
        let id = &block_ids[i];
        let skip = str_eq(id.path(), "air");
        let wanted = !skip && !block_models.contains(id);
        let ghost before = missing@;
        if wanted {
            missing.push(id.copy());
        }
        proof {
            assert(ids.subrange(0, i + 1).drop_last() =~= ids.subrange(0, i as int));
            assert(ids.subrange(0, i + 1).last() == block_ids@[i as int]@);
            assert(id_views(missing@) =~= blocks_missing_models(ids.subrange(0, i + 1), block_models@));
        }
        i = i + 1;
    }
    assert(ids.subrange(0, block_ids@.len() as int) =~= ids);

    let entries = block_models.iter();
    let ghost ms = block_models@;
    let mut paths: Vec<String> = Vec::new();
    let mut m: usize = 0;
    while m < entries.len()
        invariant
            m <= entries@.len(),
            entries@.len() == ms.len(),
            ms == block_models@,
            forall|j: int| 0 <= j < entries@.len() ==> (#[trigger] entries@[j]).0@ == ms[j].0 && *entries@[j].1 == ms[j].1,
            string_views(paths@) == distinct_nonempty(face_textures(ms.subrange(0, m as int))),
        decreases entries.len() - m,
    {
        let model = entries[m].1;
        let ghost before = face_textures(ms.subrange(0, m as int));
        proof {
            assert(ms.subrange(0, m + 1).drop_last() =~= ms.subrange(0, m as int));
            assert(ms.subrange(0, m + 1).last().1 == *model);
        }
        let mut f: usize = 0;
        while f < 6
            invariant
                f <= 6,
                string_views(paths@) == distinct_nonempty(before + faces_view(*model).take(f as int)),
                faces_view(*model).len() == 6,
            decreases 6 - f,
        {
            let tex = model.faces[f].as_str();
            assert(tex@ == faces_view(*model)[f as int]);
            let seen = contains_string(&paths, tex);
            let ghost s = before + faces_view(*model).take(f as int);
            proof {
                assert((before + faces_view(*model).take(f + 1)).drop_last() =~= s);
                assert((before + faces_view(*model).take(f + 1)).last() == tex@);
            }
            if tex.unicode_len() > 0 && !seen {
                paths.push(tex.to_owned());
            }
            assert(string_views(paths@) =~= distinct_nonempty(before + faces_view(*model).take(f + 1)));
            f = f + 1;
        }
        assert(faces_view(*model).take(6) =~= faces_view(*model));
        m = m + 1;
    }
    assert(ms.subrange(0, ms.len() as int) =~= ms);
    DataReport { blocks_without_model: missing, texture_paths: paths }
}

} // verus!
