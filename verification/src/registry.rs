//! Namespaced registries for data-defined game content.
//!
//! A registry maps [`NamespacedId`]s to typed entries (blocks, biomes,
//! worldgen features, ...) and remembers registration order. Registering the
//! same ID twice is a bug and is ruled out by the contract of `register`.

use vstd::prelude::*;
use crate::id::NamespacedId;

verus! {

/// The view of a namespaced ID: its namespace and its path.
pub type IdView = (Seq<char>, Seq<char>);

/// Whether `id` is the key of some entry of `s`.
pub open spec fn has_id<T>(s: Seq<(IdView, T)>, id: IdView) -> bool {
    exists|i: int| 0 <= i < s.len() && #[trigger] s[i].0 == id
}

/// Whether no two entries of `s` share a key.
pub open spec fn distinct_ids<T>(s: Seq<(IdView, T)>) -> bool {
    forall|i: int, j: int| 0 <= i < s.len() && 0 <= j < s.len() && i != j ==> #[trigger] s[i].0 != #[trigger] s[j].0
}

/// Registering an entry under an ID not yet registered keeps the IDs
/// distinct, makes that entry the one found under the ID, and changes
/// nothing found under any other ID.
pub proof fn law_register_then_lookup<T>(s: Seq<(IdView, T)>, id: IdView, entry: T)
    requires
        distinct_ids(s),
        !has_id(s, id),
    ensures
        distinct_ids(s.push((id, entry))),
        has_id(s.push((id, entry)), id),
        forall|i: int| 0 <= i < s.len() + 1 && #[trigger] s.push((id, entry))[i].0 == id ==> s.push((id, entry))[i].1 == entry,
        forall|other: IdView| other != id ==> (has_id(s.push((id, entry)), other) == has_id(s, other)),
        forall|i: int| 0 <= i < s.len() ==> #[trigger] s.push((id, entry))[i] == s[i],
{
    let t = s.push((id, entry));
    assert(t[s.len() as int].0 == id);
    assert forall|i: int, j: int| 0 <= i < t.len() && 0 <= j < t.len() && i != j implies #[trigger] t[i].0 != #[trigger] t[j].0 by {
        if i < s.len() && j < s.len() {
            assert(t[i] == s[i] && t[j] == s[j]);
        } else if i < s.len() {
            assert(t[i] == s[i]);
        } else {
            assert(t[j] == s[j]);
        }
    }
    assert forall|i: int| 0 <= i < s.len() + 1 && #[trigger] t[i].0 == id implies t[i].1 == entry by {
        if i < s.len() {
            assert(t[i] == s[i]);
        }
    }
    assert forall|other: IdView| other != id implies (has_id(t, other) == has_id(s, other)) by {
        if has_id(t, other) {
            let i = choose|i: int| 0 <= i < t.len() && #[trigger] t[i].0 == other;
            assert(t[i] == s[i]);
        }
        if has_id(s, other) {
            let i = choose|i: int| 0 <= i < s.len() && #[trigger] s[i].0 == other;
            assert(t[i] == s[i]);
        }
    }
}

/// The view of a list of registry entries.
pub open spec fn entries_view<T>(s: Seq<(NamespacedId, T)>) -> Seq<(IdView, T)> {
    s.map_values(|e: (NamespacedId, T)| (e.0@, e.1))
}

/// A namespaced registry that maps stable string IDs to typed entries,
/// in registration order.
#[derive(Debug)]
pub struct Registry<T> {
    entries: Vec<(NamespacedId, T)>,
}

impl<T> View for Registry<T> {
    type V = Seq<(IdView, T)>;

    closed spec fn view(&self) -> Seq<(IdView, T)> {
        entries_view(self.entries@)
    }
}

impl<T> Registry<T> {
    #[verifier::type_invariant]
    closed spec fn inv(self) -> bool {
        distinct_ids(entries_view(self.entries@))
    }

    /// An empty registry.
    pub fn new() -> (r: Registry<T>)
        ensures
            r@ == Seq::<(IdView, T)>::empty(),
    {
        let r = Registry { entries: Vec::new() };
        assert(entries_view(r.entries@) =~= Seq::<(IdView, T)>::empty());
        r
    }

    /// Registers an entry under the given ID, after all earlier entries.
    pub fn register(&mut self, id: NamespacedId, entry: T)
        requires
            !has_id(old(self)@, id@),
        ensures
            final(self)@ == old(self)@.push((id@, entry)),
    {
        proof {
            use_type_invariant(&*self);
        }
        let ghost before = self.entries@;
        let mut entries: Vec<(NamespacedId, T)> = Vec::new();
        std::mem::swap(&mut entries, &mut self.entries);
        entries.push((id, entry));
        proof {
            assert(entries_view(entries@) =~= entries_view(before).push((id@, entry)));
            let s = entries_view(entries@);
            assert forall|i: int, j: int| 0 <= i < s.len() && 0 <= j < s.len() && i != j implies #[trigger] s[i].0 != #[trigger] s[j].0 by {
                if i == s.len() - 1 {
                    assert(entries_view(before)[j].0 == s[j].0);
                } else if j == s.len() - 1 {
                    assert(entries_view(before)[i].0 == s[i].0);
                }
            }
        }
        self.entries = entries;
    }

    /// Looks up an entry by its namespaced ID.
    pub fn get(&self, id: &NamespacedId) -> (r: Option<&T>)
        ensures
            match r {
                Some(v) => has_id(self@, id@) && forall|i: int| 0 <= i < self@.len() && #[trigger] self@[i].0 == id@ ==> self@[i].1 == *v,
                None => !has_id(self@, id@),
            },
    {
        proof {
            use_type_invariant(self);
        }
        let mut i: usize = 0;
        while i < self.entries.len()
            invariant
                i <= self.entries@.len(),
                forall|j: int| 0 <= j < i ==> #[trigger] entries_view(self.entries@)[j].0 != id@,
                distinct_ids(entries_view(self.entries@)),
            decreases self.entries.len() - i,
        {
            if self.entries[i].0.same(id) {
                assert(entries_view(self.entries@)[i as int].0 == id@);
                assert(entries_view(self.entries@)[i as int].1 == self.entries@[i as int].1);
                assert(self@ == entries_view(self.entries@));
                assert(has_id(self@, id@));
                assert(distinct_ids(self@));
                assert forall|k: int| 0 <= k < self@.len() && #[trigger] self@[k].0 == id@ implies self@[k].1 == self.entries@[i as int].1 by {
                    if k != i {
                        assert(self@[k].0 != self@[i as int].0);
                    }
                }
                return Some(&self.entries[i].1);
            }
            i = i + 1;
        }
        None
    }

    /// Returns `true` if the given ID is registered.
    pub fn contains(&self, id: &NamespacedId) -> (r: bool)
        ensures
            r == has_id(self@, id@),
    {
        match self.get(id) {
            Some(_) => true,
            None => false,
        }
    }

    /// Number of registered entries.
    pub fn len(&self) -> (r: usize)
        ensures
            r == self@.len(),
    {
        self.entries.len()
    }

    /// All registered entries in registration order.
    pub fn iter(&self) -> (r: Vec<(&NamespacedId, &T)>)
        ensures
            r@.len() == self@.len(),
            forall|i: int| 0 <= i < r@.len() ==> (#[trigger] r@[i]).0@ == self@[i].0 && *r@[i].1 == self@[i].1,
    {
        let mut out: Vec<(&NamespacedId, &T)> = Vec::new();
        let mut i: usize = 0;
        while i < self.entries.len()
            invariant
                i <= self.entries@.len(),
                out@.len() == i,
                forall|j: int| 0 <= j < i ==> (#[trigger] out@[j]).0@ == entries_view(self.entries@)[j].0 && *out@[j].1 == entries_view(self.entries@)[j].1,
            decreases self.entries.len() - i,
        {
            let e = &self.entries[i];
            out.push((&e.0, &e.1));
            i = i + 1;
        }
        out
    }

    /// All registered entries in registration order, consuming the registry.
    pub fn into_iter(self) -> (r: Vec<(NamespacedId, T)>)
        ensures
            entries_view(r@) == self@,
    {
        self.entries
    }
}

impl<T: Clone> Clone for Registry<T> {
    fn clone(&self) -> (r: Registry<T>)
        ensures
            r@.len() == self@.len(),
            forall|i: int| 0 <= i < r@.len() ==> #[trigger] r@[i].0 == self@[i].0,
    {
        proof {
            use_type_invariant(self);
        }
        let mut entries: Vec<(NamespacedId, T)> = Vec::new();
        let mut i: usize = 0;
        while i < self.entries.len()
            invariant
                i <= self.entries@.len(),
                entries@.len() == i,
                forall|j: int| 0 <= j < i ==> (#[trigger] entries@[j]).0@ == self.entries@[j].0@,
            decreases self.entries.len() - i,
        {
            let e = &self.entries[i];
            entries.push((e.0.copy(), e.1.clone()));
            i = i + 1;
        }
        proof {
            let a = entries_view(entries@);
            let b = entries_view(self.entries@);
            assert forall|x: int, y: int| 0 <= x < a.len() && 0 <= y < a.len() && x != y implies #[trigger] a[x].0 != #[trigger] a[y].0 by {
                assert(a[x].0 == b[x].0);
                assert(a[y].0 == b[y].0);
            }
        }
        Registry { entries }
    }
}

/// Builds a registry declaratively.
#[derive(Debug)]
pub struct RegistryBuilder<T> {
    entries: Vec<(NamespacedId, T)>,
}

impl<T> View for RegistryBuilder<T> {
    type V = Seq<(IdView, T)>;

    closed spec fn view(&self) -> Seq<(IdView, T)> {
        entries_view(self.entries@)
    }
}

impl<T> RegistryBuilder<T> {
    /// Creates a new empty builder.
    pub fn new() -> (r: RegistryBuilder<T>)
        ensures
            r@ == Seq::<(IdView, T)>::empty(),
    {
        let r = RegistryBuilder { entries: Vec::new() };
        assert(entries_view(r.entries@) =~= Seq::<(IdView, T)>::empty());
        r
    }

    /// Adds an entry to the builder.
    pub fn add(self, id: NamespacedId, entry: T) -> (r: RegistryBuilder<T>)
        ensures
            r@ == self@.push((id@, entry)),
    {
        let mut entries = self.entries;
        let ghost before = entries@;
        entries.push((id, entry));
        assert(entries_view(entries@) =~= entries_view(before).push((id@, entry)));
        RegistryBuilder { entries }
    }

    /// Consumes the builder and produces a [`Registry`] with the same entries
    /// in the same order; the IDs must be pairwise distinct.
    pub fn build(self) -> (r: Registry<T>)
        requires
            distinct_ids(self@),
        ensures
            r@ == self@,
    {
        let ghost all = entries_view(self.entries@);
        let mut reg = Registry::new();
        let mut rest = self.entries;
        let n = rest.len();
        while rest.len() > 0
            invariant
                rest@.len() <= n,
                n == all.len(),
                entries_view(rest@) == all.subrange(n - rest@.len(), n as int),
                distinct_ids(all),
                reg@ == all.subrange(0, n - rest@.len()),
            decreases rest.len(),
        {
            let ghost before = reg@;
            let ghost k = n - rest@.len();
            let ghost old_rest = rest@;
            assert(entries_view(rest@)[0] == all[k]);
            let (id, entry) = rest.remove(0);
            assert(rest@ =~= old_rest.subrange(1, old_rest.len() as int));
            proof {
                assert(id@ == all[k].0);
                if has_id(before, id@) {
                    let i = choose|i: int| 0 <= i < before.len() && #[trigger] before[i].0 == id@;
                    assert(before[i] == all[i]);
                    assert(all[i].0 == all[k].0);
                }
            }
            reg.register(id, entry);
            assert(reg@ =~= all.subrange(0, n - rest@.len()));
            assert forall|j: int| 0 <= j < rest@.len() implies #[trigger] entries_view(rest@)[j] == all.subrange(n - rest@.len(), n as int)[j] by {
                assert(rest@[j] == old_rest[j + 1]);
                assert(entries_view(old_rest)[j + 1] == all.subrange(k, n as int)[j + 1]);
            }
            assert(entries_view(rest@) =~= all.subrange(n - rest@.len(), n as int));
        }
        assert(all.subrange(0, n as int) =~= all);
        reg
    }
}

} // verus!
