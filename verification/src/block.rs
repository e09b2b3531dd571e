//! Core block identifiers and block property schemas.
//!
//! # Direction conventions
//!
//! | Direction | Axis | Sign |
//! |-----------|------|------|
//! | North     | Z    | `-Z` |
//! | South     | Z    | `+Z` |
//! | West      | X    | `-X` |
//! | East      | X    | `+X` |
//! | Up        | Y    | `+Y` |
//! | Down      | Y    | `-Y` |
//!
//! The `facing` property uses the order
//! `["north", "south", "west", "east", "up", "down"]`; the `axis` property
//! (logs, pillars) uses `["y", "x", "z"]` (default `y`).

use vstd::prelude::*;

verus! {

/// Runtime identifier of a block type: the block's path, e.g. `stone`.
///
/// Air is the empty identifier.
#[derive(Clone, Debug, Eq, Hash, PartialEq)]
pub struct BlockId(pub String);

impl View for BlockId {
    type V = Seq<char>;

    open spec fn view(&self) -> Seq<char> {
        self.0@
    }
}

impl BlockId {
    /// The air block (the empty identifier).
    pub fn air() -> (b: BlockId)
        ensures
            b@ == Seq::<char>::empty(),
    {
        BlockId(String::new())
    }

    /// A block identifier with the given path.
    pub fn named(path: &str) -> (b: BlockId)
        ensures
            b@ == path@,
    {
        BlockId(path.to_owned())
    }

    /// Whether this is the air block.
    pub fn is_air(&self) -> (r: bool)
        ensures
            r == (self@.len() == 0),
    {
        self.0.as_str().is_empty()
    }

    /// Whether this identifier is the given path.
    pub fn is_named(&self, name: &str) -> (r: bool)
        ensures
            r == (self@ == name@),
    {
        crate::text::str_eq(self.0.as_str(), name)
    }

    /// Whether two identifiers name the same block.
    pub fn same(&self, other: &BlockId) -> (r: bool)
        ensures
            r == (self@ == other@),
    {
        self.0 == other.0
    }

    /// A copy of this identifier.
    pub fn copy(&self) -> (r: BlockId)
        ensures
            r@ == self@,
    {
        BlockId(self.0.clone())
    }
}

/// First index at or after `i` of `values` whose entry is `value`.
pub open spec fn first_value_index(values: Seq<&'static str>, value: Seq<char>, i: int) -> Option<int>
    decreases values.len() - i,
{
    if i < 0 || i >= values.len() {
        None
    } else if values[i]@ == value {
        Some(i)
    } else {
        first_value_index(values, value, i + 1)
    }
}

/// A single property schema defining the allowed values of a block variant;
/// the first value is the default.
#[derive(Debug, Clone)]
pub struct PropertySchema {
    pub name: &'static str,
    pub values: &'static [&'static str],
}

impl PropertySchema {
    pub fn new(name: &'static str, values: &'static [&'static str]) -> (r: PropertySchema)
        ensures
            r.name == name,
            r.values == values,
    {
        PropertySchema { name, values }
    }

    /// Index of the default (first) value.
    pub fn default_index(&self) -> (r: u8)
        ensures
            r == 0,
    {
        0
    }

    /// The index of `value` among the allowed values (its first occurrence,
    /// truncated to `u8`), or the default index 0 when it is not allowed.
    pub fn index_of(&self, value: &str) -> (r: u8)
        ensures
            r == match first_value_index(self.values@, value@, 0) {
                Some(i) => i as u8,
                None => 0u8,
            },
    {
        let mut i: usize = 0;
        while i < self.values.len()
            invariant
                i <= self.values@.len(),
                first_value_index(self.values@, value@, 0) == first_value_index(self.values@, value@, i as int),
            decreases self.values.len() - i,
        {
            if crate::text::str_eq(self.values[i], value) {
                return i as u8;
            }
            i = i + 1;
        }
        0
    }
}

/// Flammability of a block.
#[derive(Debug, Clone, Copy)]
pub struct FlammableComponent {
    /// Chance (1 in N) for fire to spread to this block each tick.
    pub spread_chance: u32,
    /// Chance (1 in N) for this block to burn away each tick.
    pub burn_chance: u32,
}

impl FlammableComponent {
    pub fn new(spread_chance: u32, burn_chance: u32) -> (r: FlammableComponent)
        ensures
            r.spread_chance == spread_chance,
            r.burn_chance == burn_chance,
    {
        FlammableComponent { spread_chance, burn_chance }
    }
}

/// Required tool tier for efficient mining.
#[derive(Debug, Clone, Copy, PartialEq, Eq, Structural)]
pub enum ToolTier {
    /// Any tool, or the bare hand, works.
    Hand,
    /// Wooden tool or better.
    Wood,
    /// Stone tool or better.
    Stone,
    /// Iron tool or better.
    Iron,
    /// Diamond tool or better.
    Diamond,
}

/// Direction names in the order of the `facing` property: north (-Z),
/// south (+Z), west (-X), east (+X), up (+Y), down (-Y).
pub const FACING_VALUES: [&'static str; 6] = ["north", "south", "west", "east", "up", "down"];

/// Values of the `axis` property (logs, pillars); `y` is the default.
pub const AXIS_VALUES: [&'static str; 3] = ["y", "x", "z"];

} // verus!
