//! Tags: named groups of namespaced IDs (blocks, items and other content).
//!
//! Tags are JSON files in `data/<namespace>/tags/<category>/<name>.json`
//! holding a list of namespaced IDs, so that systems ask "is this block in
//! the `blocks/solid` tag?" instead of matching hardcoded lists.

use vstd::prelude::*;
use crate::id::{NamespacedId, spec_parse};
use crate::registry::IdView;

verus! {

/// The views of a list of IDs.
pub open spec fn ids_view(s: Seq<NamespacedId>) -> Seq<IdView> {
    s.map_values(|id: NamespacedId| id@)
}

/// A tag containing a set of namespaced IDs.
#[derive(Debug)]
pub struct Tag {
    values: Vec<NamespacedId>,
}

impl View for Tag {
    type V = Set<IdView>;

    closed spec fn view(&self) -> Set<IdView> {
        ids_view(self.values@).to_set()
    }
}

/// The IDs that the valid entries of a tag file name.
pub open spec fn parsed_ids(raw: Seq<Seq<char>>) -> Set<IdView> {
    Set::new(|v: IdView| exists|i: int| 0 <= i < raw.len() && #[trigger] spec_parse(raw[i]) == Ok::<IdView, crate::id::IdError>(v))
}

impl Tag {
    #[verifier::type_invariant]
    closed spec fn inv(self) -> bool {
        ids_view(self.values@).no_duplicates()
    }

    /// An empty tag.
    pub fn new() -> (r: Tag)
        ensures
            r@ == Set::<IdView>::empty(),
    {
        let r = Tag { values: Vec::new() };
        assert(ids_view(r.values@).to_set() =~= Set::<IdView>::empty());
        r
    }

    /// Adds an ID; returns whether it was not in the tag yet.
    pub fn insert(&mut self, id: NamespacedId) -> (r: bool)
        ensures
            final(self)@ == old(self)@.insert(id@),
            r == !old(self)@.contains(id@),
    {
        proof {
            use_type_invariant(&*self);
        }
        if self.contains(&id) {
            return false;
        }
        let ghost before = self.values@;
        let mut values: Vec<NamespacedId> = Vec::new();
        std::mem::swap(&mut values, &mut self.values);
        let ghost v = id@;
        values.push(id);
        proof {
            assert(ids_view(values@) =~= ids_view(before).push(v));
            assert(!ids_view(before).contains(v));
            ids_view(before).lemma_push_to_set_commute(v);
        }
        self.values = values;
        true
    }

    /// A tag holding the given IDs, each once.
    pub fn from_ids(ids: Vec<NamespacedId>) -> (r: Tag)
        ensures
            r@ == ids_view(ids@).to_set(),
    {
        let mut tag = Tag::new();
        let mut i: usize = 0;
        while i < ids.len()
            invariant
                i <= ids@.len(),
                tag@ == ids_view(ids@.subrange(0, i as int)).to_set(),
            decreases ids.len() - i,
        {
            tag.insert(ids[i].copy());
            proof {
                assert(ids_view(ids@.subrange(0, i + 1)) =~= ids_view(ids@.subrange(0, i as int)).push(ids@[i as int]@));
                ids_view(ids@.subrange(0, i as int)).lemma_push_to_set_commute(ids@[i as int]@);
            }
            i = i + 1;
        }
        assert(ids@.subrange(0, ids@.len() as int) =~= ids@);
        tag
    }

    /// Returns `true` if the given ID is in this tag.
    pub fn contains(&self, id: &NamespacedId) -> (r: bool)
        ensures
            r == self@.contains(id@),
    {
        let mut i: usize = 0;
        while i < self.values.len()
            invariant
                i <= self.values@.len(),
                forall|j: int| 0 <= j < i ==> (#[trigger] self.values@[j])@ != id@,
            decreases self.values.len() - i,
        {
            if self.values[i].same(id) {
                assert(ids_view(self.values@)[i as int] == id@);
                return true;
            }
            i = i + 1;
        }
        proof {
            if ids_view(self.values@).contains(id@) {
                let j = choose|j: int| 0 <= j < ids_view(self.values@).len() && ids_view(self.values@)[j] == id@;
                assert(self.values@[j]@ == id@);
            }
        }
        false
    }

    /// Number of entries in this tag.
    pub fn len(&self) -> (r: usize)
        ensures
            r == self@.len(),
    {
        proof {
            use_type_invariant(self);
            ids_view(self.values@).unique_seq_to_set();
        }
        self.values.len()
    }
}

/// Builds a tag from the raw entries of a tag file: each entry that parses
/// as a namespaced ID is added, and the others are skipped.
pub fn load_tag(raw_values: &Vec<String>) -> (r: Tag)
    ensures
        r@ == parsed_ids(raw_values@.map_values(|s: String| s@)),
{
    let ghost raw = raw_values@.map_values(|s: String| s@);
    let mut tag = Tag::new();
    let mut i: usize = 0;
    while i < raw_values.len()
        invariant
            i <= raw_values@.len(),
            raw == raw_values@.map_values(|s: String| s@),
            tag@ == parsed_ids(raw.subrange(0, i as int)),
        decreases raw_values.len() - i,
    {
        let parsed = NamespacedId::parse_id(raw_values[i].as_str());
        let ghost before = raw.subrange(0, i as int);
        let ghost after = raw.subrange(0, i + 1);
        assert(after =~= before.push(raw[i as int]));
        match parsed {
            Ok(id) => {
                let ghost v = id@;
                tag.insert(id);
                proof {
                    assert forall|w: IdView| #[trigger] parsed_ids(after).contains(w) == tag@.contains(w) by {
                        if parsed_ids(after).contains(w) {
                            let k = choose|k: int| 0 <= k < after.len() && #[trigger] spec_parse(after[k]) == Ok::<IdView, crate::id::IdError>(w);
                            if k < i {
                                assert(before[k] == after[k]);
                                assert(parsed_ids(before).contains(w));
                            }
                        }
                        if parsed_ids(before).contains(w) {
                            let k = choose|k: int| 0 <= k < before.len() && #[trigger] spec_parse(before[k]) == Ok::<IdView, crate::id::IdError>(w);
                            assert(after[k] == before[k]);
                        }
                        if w == v {
                            assert(spec_parse(after[i as int]) == Ok::<IdView, crate::id::IdError>(w));
                        }
                    }
                    assert(parsed_ids(after) =~= tag@);
                }
            },
            Err(_) => {
                proof {
                    assert forall|w: IdView| #[trigger] parsed_ids(after).contains(w) == tag@.contains(w) by {
                        if parsed_ids(after).contains(w) {
                            let k = choose|k: int| 0 <= k < after.len() && #[trigger] spec_parse(after[k]) == Ok::<IdView, crate::id::IdError>(w);
                            if k < i {
                                assert(before[k] == after[k]);
                                assert(parsed_ids(before).contains(w));
                            }
                        }
                        if parsed_ids(before).contains(w) {
                            let k = choose|k: int| 0 <= k < before.len() && #[trigger] spec_parse(before[k]) == Ok::<IdView, crate::id::IdError>(w);
                            assert(after[k] == before[k]);
                        }
                    }
                    assert(parsed_ids(after) =~= tag@);
                }
            },
        }
        i = i + 1;
    }
    assert(raw.subrange(0, raw.len() as int) =~= raw);
    tag
}

/// Errors that can occur during tag loading.
#[derive(Clone, Debug, PartialEq, Eq)]
pub enum TagError {
    Load { tag: String, detail: String },
}

} // verus!
