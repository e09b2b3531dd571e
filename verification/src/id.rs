//! Namespaced string identifiers for data-driven game content.
//!
//! Content references are stable strings like `ferrumcraft:stone` instead of
//! runtime numeric IDs, so saves and data files can be extended safely.

use vstd::prelude::*;
use vstd::string::*;
use crate::text::{find_char, first_index, first_index_from, lemma_first_index_from_bounds};

verus! {

proof fn lemma_first_index_at(s: Seq<char>, c: char, i: int, k: int)
    requires
        0 <= i <= k < s.len(),
        s[k] == c,
        forall|j: int| i <= j < k ==> s[j] != c,
    ensures
        first_index_from(s, c, i) == Some(k),
    decreases k - i,
{
    if i < k {
        lemma_first_index_at(s, c, i + 1, k);
    }
}

proof fn lemma_first_index_none(s: Seq<char>, c: char, i: int)
    requires
        0 <= i,
        forall|j: int| i <= j < s.len() ==> s[j] != c,
    ensures
        first_index_from(s, c, i) is None,
    decreases s.len() - i,
{
    if i < s.len() {
        lemma_first_index_none(s, c, i + 1);
    }
}

/// Writing a valid identifier as `namespace:path` and parsing that text gives
/// the identifier back.
pub proof fn law_parse_inverts_to_string(namespace: Seq<char>, path: Seq<char>)
    requires
        valid_id(namespace, path),
    ensures
        spec_parse(namespace + seq![':'] + path) == Ok::<(Seq<char>, Seq<char>), IdError>((namespace, path)),
{
    let s = namespace + seq![':'] + path;
    lemma_first_invalid_none(namespace, false, 0);
    lemma_first_invalid_none(path, true, 0);
    assert forall|j: int| 0 <= j < namespace.len() implies s[j] != ':' by {
        assert(s[j] == namespace[j]);
        assert(is_part_char(namespace[j], false));
    }
    assert(s[namespace.len() as int] == ':');
    lemma_first_index_at(s, ':', 0, namespace.len() as int);
    let rest = s.subrange(namespace.len() as int + 1, s.len() as int);
    assert(rest =~= path);
    assert(s.subrange(0, namespace.len() as int) =~= namespace);
    assert forall|j: int| 0 <= j < path.len() implies path[j] != ':' by {
        assert(is_part_char(path[j], true));
    }
    lemma_first_index_none(path, ':', 0);
}

/// The characters an identifier part may hold: lower-case ASCII letters,
/// ASCII digits, `_`, `-` and `.`, and in a path also `/`.
pub open spec fn allowed_in_part(c: char, is_path: bool) -> bool {
    ('a' <= c <= 'z') || ('0' <= c <= '9') || c == '_' || c == '-' || c == '.' || (is_path && c == '/')
}

/// A non-empty namespace and a non-empty path made only of the allowed
/// characters (lower-case letters, digits, `_`, `-`, `.`, and `/` in the path)
/// are accepted: parsing `namespace:path` gives exactly that identifier.
pub proof fn law_allowed_characters_parse(namespace: Seq<char>, path: Seq<char>)
    requires
        namespace.len() > 0,
        path.len() > 0,
        forall|j: int| 0 <= j < namespace.len() ==> allowed_in_part(#[trigger] namespace[j], false),
        forall|j: int| 0 <= j < path.len() ==> allowed_in_part(#[trigger] path[j], true),
    ensures
        spec_parse(namespace + seq![':'] + path) == Ok::<(Seq<char>, Seq<char>), IdError>((namespace, path)),
{
    assert forall|j: int| 0 <= j < namespace.len() implies is_part_char(#[trigger] namespace[j], false) by {
        assert(allowed_in_part(namespace[j], false));
    }
    assert forall|j: int| 0 <= j < path.len() implies is_part_char(#[trigger] path[j], true) by {
        assert(allowed_in_part(path[j], true));
    }
    lemma_all_allowed(namespace, false, 0);
    lemma_all_allowed(path, true, 0);
    law_parse_inverts_to_string(namespace, path);
}

/// Namespace used when an identifier names none.
pub open spec fn default_namespace() -> Seq<char> {
    seq!['f', 'e', 'r', 'r', 'u', 'm', 'c', 'r', 'a', 'f', 't']
}

/// Stable identifier for registry-backed content.
#[derive(Debug, Eq, Hash, Ord, PartialEq, PartialOrd)]
pub struct NamespacedId {
    namespace: String,
    path: String,
}

/// Validation failure for a namespaced ID.
#[derive(Clone, Debug, Eq, PartialEq)]
pub enum IdError {
    EmptyNamespace,
    EmptyPath,
    InvalidNamespaceCharacter(char),
    InvalidPathCharacter(char),
    TooManySeparators,
}

/// Characters allowed in a namespace: `a-z`, `0-9`, `_`, `-`, `.`.
pub open spec fn is_namespace_char(c: char) -> bool {
    ('a' <= c && c <= 'z') || ('0' <= c && c <= '9') || c == '_' || c == '-' || c == '.'
}

/// Characters allowed in a path: those of a namespace and `/`.
pub open spec fn is_path_char(c: char) -> bool {
    is_namespace_char(c) || c == '/'
}

pub open spec fn is_part_char(c: char, is_path: bool) -> bool {
    if is_path {
        is_path_char(c)
    } else {
        is_namespace_char(c)
    }
}

/// The first character of `s` at or after `i` that the part does not allow.
pub open spec fn first_invalid_from(s: Seq<char>, is_path: bool, i: int) -> Option<char>
    decreases s.len() - i,
{
    if i < 0 || i >= s.len() {
        None
    } else if !is_part_char(s[i], is_path) {
        Some(s[i])
    } else {
        first_invalid_from(s, is_path, i + 1)
    }
}

/// The outcome of validating one part of an identifier.
pub open spec fn spec_validate_part(s: Seq<char>, is_path: bool) -> Result<(), IdError> {
    if s.len() == 0 {
        Err(if is_path { IdError::EmptyPath } else { IdError::EmptyNamespace })
    } else {
        match first_invalid_from(s, is_path, 0) {
            Some(c) => Err(
                if is_path {
                    IdError::InvalidPathCharacter(c)
                } else {
                    IdError::InvalidNamespaceCharacter(c)
                },
            ),
            None => Ok(()),
        }
    }
}

/// The outcome of building an identifier from a namespace and a path:
/// the namespace is checked first.
pub open spec fn spec_new(namespace: Seq<char>, path: Seq<char>) -> Result<(Seq<char>, Seq<char>), IdError> {
    match spec_validate_part(namespace, false) {
        Err(e) => Err(e),
        Ok(_) => match spec_validate_part(path, true) {
            Err(e) => Err(e),
            Ok(_) => Ok((namespace, path)),
        },
    }
}

/// The outcome of parsing `namespace:path`, or a bare `path` in the default namespace.
pub open spec fn spec_parse(s: Seq<char>) -> Result<(Seq<char>, Seq<char>), IdError> {
    match first_index(s, ':') {
        None => spec_new(default_namespace(), s),
        Some(k) => {
            let rest = s.subrange(k + 1, s.len() as int);
            if first_index(rest, ':') is Some {
                Err(IdError::TooManySeparators)
            } else {
                spec_new(s.subrange(0, k), rest)
            }
        },
    }
}

/// Whether an identifier's parts are both valid.
pub open spec fn valid_id(namespace: Seq<char>, path: Seq<char>) -> bool {
    spec_validate_part(namespace, false) is Ok && spec_validate_part(path, true) is Ok
}

/// A part made only of allowed characters has no invalid character.
pub proof fn lemma_all_allowed(s: Seq<char>, is_path: bool, i: int)
    requires
        0 <= i,
        forall|j: int| i <= j < s.len() ==> is_part_char(#[trigger] s[j], is_path),
    ensures
        first_invalid_from(s, is_path, i) is None,
    decreases s.len() - i,
{
    if i < s.len() {
        lemma_all_allowed(s, is_path, i + 1);
    }
}

pub proof fn lemma_first_invalid_none(s: Seq<char>, is_path: bool, i: int)
    requires
        0 <= i,
        first_invalid_from(s, is_path, i) is None,
    ensures
        forall|j: int| i <= j < s.len() ==> is_part_char(s[j], is_path),
    decreases s.len() - i,
{
    if i < s.len() {
        lemma_first_invalid_none(s, is_path, i + 1);
    }
}

fn is_valid_char(ch: char, is_path: bool) -> (r: bool)
    ensures
        r == is_part_char(ch, is_path),
{
    ('a' <= ch && ch <= 'z') || ('0' <= ch && ch <= '9') || ch == '_' || ch == '-' || ch == '.'
        || (is_path && ch == '/')
}

/// Checks one part of an identifier, reporting emptiness or the first
/// character that the part does not allow.
fn validate_part(value: &str, is_path: bool) -> (r: Result<(), IdError>)
    ensures
        r == spec_validate_part(value@, is_path),
{
    let n = value.unicode_len();
    if n == 0 {
        return Err(if is_path { IdError::EmptyPath } else { IdError::EmptyNamespace });
    }
    let mut i: usize = 0;
    while i < n
        invariant
            n == value@.len(),
            n > 0,
            i <= n,
            first_invalid_from(value@, is_path, 0) == first_invalid_from(value@, is_path, i as int),
        decreases n - i,
    {
        let ch = value.get_char(i);
        if !is_valid_char(ch, is_path) {
            return Err(
                if is_path {
                    IdError::InvalidPathCharacter(ch)
                } else {
                    IdError::InvalidNamespaceCharacter(ch)
                },
            );
        }
        i = i + 1;
    }
    Ok(())
}

impl View for NamespacedId {
    type V = (Seq<char>, Seq<char>);

    closed spec fn view(&self) -> (Seq<char>, Seq<char>) {
        (self.namespace@, self.path@)
    }
}

impl NamespacedId {
    /// Every identifier has a valid namespace and a valid path.
    #[verifier::type_invariant]
    spec fn parts_valid(self) -> bool {
        valid_id(self.namespace@, self.path@)
    }

    /// Creates a validated namespaced ID.
    pub fn new(namespace: &str, path: &str) -> (r: Result<NamespacedId, IdError>)
        ensures
            match r {
                Ok(id) => spec_new(namespace@, path@) == Ok::<(Seq<char>, Seq<char>), IdError>(id@),
                Err(e) => spec_new(namespace@, path@) == Err::<(Seq<char>, Seq<char>), IdError>(e),
            },
    {
        match validate_part(namespace, false) {
            Err(e) => return Err(e),
            Ok(_) => {},
        }
        match validate_part(path, true) {
            Err(e) => return Err(e),
            Ok(_) => {},
        }
        Ok(NamespacedId { namespace: namespace.to_owned(), path: path.to_owned() })
    }

    /// Creates an ID in the built-in `ferrumcraft` namespace.
    pub fn ferrumcraft(path: &str) -> (r: Result<NamespacedId, IdError>)
        ensures
            match r {
                Ok(id) => spec_new(default_namespace(), path@) == Ok::<(Seq<char>, Seq<char>), IdError>(id@),
                Err(e) => spec_new(default_namespace(), path@) == Err::<(Seq<char>, Seq<char>), IdError>(e),
            },
    {
        let ns = "ferrumcraft";
        proof {
            reveal_strlit("ferrumcraft");
        }
        assert(ns@ =~= default_namespace());
        Self::new(ns, path)
    }

    /// The built-in ID for a path known to be valid.
    pub(crate) fn builtin(path: &str) -> (r: NamespacedId)
        requires
            spec_validate_part(path@, true) is Ok,
        ensures
            r@ == (default_namespace(), path@),
    {
        proof {
            let ns = default_namespace();
            assert forall|k: int| 0 <= k < ns.len() implies is_part_char(#[trigger] ns[k], false) by {}
            lemma_all_allowed(ns, false, 0);
        }
        match Self::ferrumcraft(path) {
            Ok(id) => id,
            Err(_) => {
                assert(false);
                NamespacedId { namespace: String::new(), path: String::new() }
            },
        }
    }

    /// Parses `namespace:path`; a value without `:` names a path in the
    /// `ferrumcraft` namespace, and a second `:` is refused.
    pub fn parse_id(value: &str) -> (r: Result<NamespacedId, IdError>)
        ensures
            match r {
                Ok(id) => spec_parse(value@) == Ok::<(Seq<char>, Seq<char>), IdError>(id@),
                Err(e) => spec_parse(value@) == Err::<(Seq<char>, Seq<char>), IdError>(e),
            },
    {
        match find_char(value, ':') {
            None => Self::ferrumcraft(value),
            Some(k) => {
                proof {
                    lemma_first_index_from_bounds(value@, ':', 0);
                }
                let n = value.unicode_len();
                let namespace = value.substring_char(0, k);
                let path = value.substring_char(k + 1, n);
                match find_char(path, ':') {
                    Some(_) => Err(IdError::TooManySeparators),
                    None => Self::new(namespace, path),
                }
            },
        }
    }

    /// Namespace segment, e.g. `ferrumcraft`.
    pub fn namespace(&self) -> (r: &str)
        ensures
            r@ == self@.0,
    {
        self.namespace.as_str()
    }

    /// Path segment, e.g. `blocks/stone` or `stone`.
    pub fn path(&self) -> (r: &str)
        ensures
            r@ == self@.1,
    {
        self.path.as_str()
    }

    /// Whether two identifiers are equal.
    pub fn same(&self, other: &NamespacedId) -> (r: bool)
        ensures
            r == (self@ == other@),
    {
        self.namespace == other.namespace && self.path == other.path
    }

    /// A copy of this identifier.
    pub fn copy(&self) -> (r: NamespacedId)
        ensures
            r@ == self@,
    {
        proof {
            use_type_invariant(self);
        }
        NamespacedId { namespace: self.namespace.clone(), path: self.path.clone() }
    }

    /// The display form `namespace:path`, which parses back to this identifier.
    pub fn to_string(&self) -> (r: String)
        ensures
            r@ == self@.0 + seq![':'] + self@.1,
            valid_id(self@.0, self@.1),
            spec_parse(r@) == Ok::<(Seq<char>, Seq<char>), IdError>(self@),
    {
        proof {
            use_type_invariant(self);
            law_parse_inverts_to_string(self@.0, self@.1);
        }
        let s = self.namespace.clone();
        let s = s.concat(":");
        proof {
            reveal_strlit(":");
        }
        s.concat(self.path.as_str())
    }
}

impl Clone for NamespacedId {
    fn clone(&self) -> (r: NamespacedId)
        ensures
            r@ == self@,
    {
        self.copy()
    }
}

impl core::str::FromStr for NamespacedId {
    type Err = IdError;

    fn from_str(value: &str) -> (r: Result<NamespacedId, IdError>)
        ensures
            match r {
                Ok(id) => spec_parse(value@) == Ok::<(Seq<char>, Seq<char>), IdError>(id@),
                Err(e) => spec_parse(value@) == Err::<(Seq<char>, Seq<char>), IdError>(e),
            },
    {
        NamespacedId::parse_id(value)
    }
}

} // verus!
