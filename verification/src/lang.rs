//! Language / translation tables for display names.
//!
//! Translations come from JSON files (`assets/<namespace>/lang/<locale>.json`,
//! e.g. `en_us.json`) holding one object of translation key → display name.
//! A key without an entry translates to itself, as in Minecraft.

use vstd::prelude::*;
use std::collections::BTreeMap;

verus! {

#[verifier::external_type_specification]
#[verifier::external_body]
pub struct ExJsonError(serde_json::Error);

/// The entries, in key order, of the JSON object of strings that `text`
/// holds, or `None` when `text` is not such an object.
pub uninterp spec fn json_string_map(text: Seq<char>) -> Option<Seq<(Seq<char>, Seq<char>)>>;

/// The views of a list of string pairs.
pub open spec fn entry_views(s: Seq<(String, String)>) -> Seq<(Seq<char>, Seq<char>)> {
    s.map_values(|e: (String, String)| (e.0@, e.1@))
}

/// No two entries share a key.
pub open spec fn distinct_keys(s: Seq<(Seq<char>, Seq<char>)>) -> bool {
    forall|i: int, j: int| 0 <= i < s.len() && 0 <= j < s.len() && i != j ==> #[trigger] s[i].0 != #[trigger] s[j].0
}

/// Reads `text` with `serde_json::from_str` into a `BTreeMap<String, String>`
/// and hands out its entries in key order. The contract names the outcome by
/// `json_string_map` and states that a map yields each key once.
#[verifier::external_body]
fn parse_string_map(text: &str) -> (r: Result<Vec<(String, String)>, serde_json::Error>)
    ensures
        match r {
            Ok(v) => json_string_map(text@) == Some(entry_views(v@)) && distinct_keys(entry_views(v@)),
            Err(_) => json_string_map(text@) is None,
        },
{
    match serde_json::from_str::<BTreeMap<String, String>>(text) {
        Ok(map) => Ok(map.into_iter().collect()),
        Err(e) => Err(e),
    }
}

/// The display name recorded for `key`, if any.
pub open spec fn lookup(s: Seq<(Seq<char>, Seq<char>)>, key: Seq<char>) -> Option<Seq<char>> {
    if exists|i: int| 0 <= i < s.len() && #[trigger] s[i].0 == key {
        Some(s[choose|i: int| 0 <= i < s.len() && #[trigger] s[i].0 == key].1)
    } else {
        None
    }
}

/// Why a translation file could not be read.
#[derive(Clone, Copy, Debug, PartialEq, Eq, Structural)]
pub enum LangError {
    /// The text is not a JSON object of strings.
    Malformed,
}

/// A table of translation key → display name mappings for one locale.
#[derive(Debug)]
pub struct TranslationTable {
    entries: Vec<(String, String)>,
}

impl View for TranslationTable {
    type V = Seq<(Seq<char>, Seq<char>)>;

    closed spec fn view(&self) -> Seq<(Seq<char>, Seq<char>)> {
        entry_views(self.entries@)
    }
}

impl TranslationTable {
    #[verifier::type_invariant]
    closed spec fn inv(self) -> bool {
        distinct_keys(entry_views(self.entries@))
    }

    /// An empty translation table (useful before lang data is loaded).
    pub fn empty() -> (r: TranslationTable)
        ensures
            r@ == Seq::<(Seq<char>, Seq<char>)>::empty(),
    {
        let r = TranslationTable { entries: Vec::new() };
        assert(entry_views(r.entries@) =~= Seq::<(Seq<char>, Seq<char>)>::empty());
        r
    }

    /// A table holding the given entries.
    pub fn from_entries(entries: Vec<(String, String)>) -> (r: TranslationTable)
        requires
            distinct_keys(entry_views(entries@)),
        ensures
            r@ == entry_views(entries@),
    {
        TranslationTable { entries }
    }

    /// Reads a translation file's text: a JSON object of key → display name.
    pub fn load(text: &str) -> (r: Result<TranslationTable, LangError>)
        ensures
            match r {
                Ok(t) => json_string_map(text@) == Some(t@),
                Err(e) => json_string_map(text@) is None && e == LangError::Malformed,
            },
    {
        match parse_string_map(text) {
            Ok(entries) => Ok(Self::from_entries(entries)),
            Err(_) => Err(LangError::Malformed),
        }
    }

    /// Returns the display name for a translation key, or `None` if the key
    /// is not present.
    pub fn translate(&self, key: &str) -> (r: Option<&str>)
        ensures
            match r {
                Some(v) => lookup(self@, key@) == Some(v@),
                None => lookup(self@, key@) is None,
            },
    {
        proof {
            use_type_invariant(self);
        }
        let mut i: usize = 0;
        while i < self.entries.len()
            invariant
                i <= self.entries@.len(),
                distinct_keys(entry_views(self.entries@)),
                forall|j: int| 0 <= j < i ==> (#[trigger] self.entries@[j]).0@ != key@,
            decreases self.entries.len() - i,
        {
            if crate::text::str_eq(self.entries[i].0.as_str(), key) {
                proof {
                    let s = entry_views(self.entries@);
                    assert(s[i as int].0 == key@);
                    let k = choose|k: int| 0 <= k < s.len() && #[trigger] s[k].0 == key@;
                    assert(k == i);
                }
                return Some(self.entries[i].1.as_str());
            }
            i = i + 1;
        }
        proof {
            let s = entry_views(self.entries@);
            assert forall|k: int| 0 <= k < s.len() implies #[trigger] s[k].0 != key@ by {
                assert(s[k].0 == self.entries@[k].0@);
            }
        }
        None
    }

    /// Returns the display name for a key, falling back to the key itself.
    pub fn translate_or_default<'a>(&'a self, key: &'a str) -> (r: &'a str)
        ensures
            r@ == match lookup(self@, key@) {
                Some(v) => v,
                None => key@,
            },
    {
        match self.translate(key) {
            Some(v) => v,
            None => key,
        }
    }

    /// Number of loaded translation entries.
    pub fn len(&self) -> (r: usize)
        ensures
            r == self@.len(),
    {
        self.entries.len()
    }
}

impl Clone for TranslationTable {
    fn clone(&self) -> (r: TranslationTable)
        ensures
            r@ == self@,
    {
        proof {
            use_type_invariant(self);
        }
        let mut entries: Vec<(String, String)> = Vec::new();
        let mut i: usize = 0;
        while i < self.entries.len()
            invariant
                i <= self.entries@.len(),
                entries@.len() == i,
                forall|j: int| 0 <= j < i ==> (#[trigger] entries@[j]).0@ == self.entries@[j].0@ && entries@[j].1@ == self.entries@[j].1@,
            decreases self.entries.len() - i,
        {
            let k = self.entries[i].0.clone();
            let v = self.entries[i].1.clone();
            entries.push((k, v));
            i = i + 1;
        }
        assert(entry_views(entries@) =~= entry_views(self.entries@)) by {
            assert forall|j: int| 0 <= j < entries@.len() implies #[trigger] entry_views(entries@)[j] == entry_views(self.entries@)[j] by {
                assert(entries@[j].0@ == self.entries@[j].0@);
            }
        }
        TranslationTable { entries }
    }
}

impl Default for TranslationTable {
    fn default() -> (r: TranslationTable)
        ensures
            r@ == Seq::<(Seq<char>, Seq<char>)>::empty(),
    {
        Self::empty()
    }
}

} // verus!
