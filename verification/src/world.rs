//! World data: chunk storage, block get/set, coordinate types.
//!
//! The world is divided into 16×64×16 chunks. Each chunk stores block IDs in a
//! flat array indexed by local coordinates. The `World` owns all loaded chunks
//! and provides block access across chunk boundaries. Chunks that change are
//! recorded once in a dirty list for remeshing.

use vstd::prelude::*;
use crate::block::BlockId;

verus! {

pub const CHUNK_SIZE_X: usize = 16;
pub const CHUNK_SIZE_Y: usize = 64;
pub const CHUNK_SIZE_Z: usize = 16;
pub const CHUNK_VOLUME: usize = 16384;

/// A position in chunk coordinate space (x, z).
#[derive(Clone, Copy, Debug, Eq, Hash, PartialEq, Structural)]
pub struct ChunkPos(pub i32, pub i32);

/// A position in absolute block coordinate space (x, y, z).
#[derive(Clone, Copy, Debug, Eq, Hash, PartialEq, Structural)]
pub struct BlockPos(pub i32, pub i32, pub i32);

/// The chunk that holds a block position: coordinates divided by 16, rounded down.
pub open spec fn spec_chunk_pos(p: BlockPos) -> ChunkPos {
    ChunkPos((p.0 as int / 16) as i32, (p.2 as int / 16) as i32)
}

/// A block position is its chunk's origin plus its local coordinates: `x`
/// and `z` split exactly into chunk and offset, and `y` is read modulo the
/// chunk height.
pub proof fn law_block_pos_splits(p: BlockPos)
    ensures
        spec_chunk_pos(p).0 * 16 + spec_local(p).0 == p.0,
        spec_chunk_pos(p).1 * 16 + spec_local(p).2 == p.2,
        0 <= spec_local(p).0 < 16,
        0 <= spec_local(p).1 < 64,
        0 <= spec_local(p).2 < 16,
        p.1 >= 0 ==> spec_local(p).1 == p.1 % 64,
{
    let x = p.0 as int;
    let z = p.2 as int;
    assert(x == (x / 16) * 16 + x % 16 && 0 <= x % 16 < 16) by (nonlinear_arith);
    assert(z == (z / 16) * 16 + z % 16 && 0 <= z % 16 < 16) by (nonlinear_arith);
    assert(i32::MIN <= x / 16 <= i32::MAX) by (nonlinear_arith)
        requires
            i32::MIN <= x <= i32::MAX;
    assert(i32::MIN <= z / 16 <= i32::MAX) by (nonlinear_arith)
        requires
            i32::MIN <= z <= i32::MAX;
}

/// Local in-chunk coordinates: x and z modulo 16, y modulo 64 (all non-negative).
pub open spec fn spec_local(p: BlockPos) -> (int, int, int) {
    (p.0 as int % 16, p.1 as int % 64, p.2 as int % 16)
}

/// Flat index of local coordinates within a chunk's block array.
pub open spec fn local_index(x: int, y: int, z: int) -> int {
    y * 256 + z * 16 + x
}

/// Flat index of the cell that a block position maps to within its chunk.
pub open spec fn pos_index(p: BlockPos) -> int {
    local_index(spec_local(p).0, spec_local(p).1, spec_local(p).2)
}

/// Whether two positions map to the same cell of the same chunk.
pub open spec fn same_cell(p: BlockPos, q: BlockPos) -> bool {
    spec_chunk_pos(p) == spec_chunk_pos(q) && pos_index(p) == pos_index(q)
}

/// Whether local coordinates lie inside a chunk.
pub open spec fn in_chunk(x: int, y: int, z: int) -> bool {
    0 <= x < 16 && 0 <= y < 64 && 0 <= z < 16
}

pub proof fn lemma_local_index_bounds(x: int, y: int, z: int)
    requires
        in_chunk(x, y, z),
    ensures
        0 <= local_index(x, y, z) < 16384,
{
}

pub proof fn lemma_local_index_injective(x1: int, y1: int, z1: int, x2: int, y2: int, z2: int)
    requires
        in_chunk(x1, y1, z1),
        in_chunk(x2, y2, z2),
        local_index(x1, y1, z1) == local_index(x2, y2, z2),
    ensures
        x1 == x2 && y1 == y2 && z1 == z2,
{
}

/// Floor division by 16 of an `i32`.
fn floor_div16(v: i32) -> (r: i32)
    ensures
        r as int == v as int / 16,
{
    if v >= 0 {
        ((v as u32) / 16) as i32
    } else {
        let m: u32 = (-(v + 1)) as u32;
        let q: i32 = (m / 16) as i32;
        -q - 1
    }
}

/// Euclidean remainder of an `i32` by 16 or 64.
fn rem_euclid_small(v: i32, d: i32) -> (r: usize)
    requires
        d == 16 || d == 64,
    ensures
        r as int == v as int % d as int,
        r < d,
{
    if v >= 0 {
        ((v as u32) % (d as u32)) as usize
    } else {
        let m: u32 = (-(v + 1)) as u32;
        let k: u32 = m % (d as u32);
        (d as u32 - 1 - k) as usize
    }
}

impl BlockPos {
    /// Returns the chunk containing this block position.
    pub fn chunk_pos(&self) -> (r: ChunkPos)
        ensures
            r == spec_chunk_pos(*self),
    {
        ChunkPos(floor_div16(self.0), floor_div16(self.2))
    }

    /// Returns the local (in-chunk) coordinates in [0, 16), [0, 64), [0, 16).
    pub fn local(&self) -> (r: (usize, usize, usize))
        ensures
            (r.0 as int, r.1 as int, r.2 as int) == spec_local(*self),
            r.0 < 16 && r.1 < 64 && r.2 < 16,
    {
        (rem_euclid_small(self.0, 16), rem_euclid_small(self.1, 64), rem_euclid_small(self.2, 16))
    }
}

/// The value read back for (`index`, `prop`) from overrides recorded in
/// order: the last one recorded for it, or 0 when none is.
pub open spec fn recorded_value(s: Seq<(usize, u8, u8)>, index: int, prop: u8) -> u8
    decreases s.len(),
{
    if s.len() == 0 {
        0
    } else if s.last().0 == index && s.last().1 == prop {
        s.last().2
    } else {
        recorded_value(s.drop_last(), index, prop)
    }
}

/// Whether some override at or after `i` is recorded for (`index`, `prop`).
pub open spec fn has_override(s: Seq<(usize, u8, u8)>, index: int, prop: u8, i: int) -> bool {
    exists|j: int| i <= j < s.len() && 0 <= j && #[trigger] s[j].0 == index && s[j].1 == prop
}

/// Recording an override makes it the value read back for its cell and
/// property, and leaves every other value as it was.
pub proof fn lemma_recorded_value_push(s: Seq<(usize, u8, u8)>, e: (usize, u8, u8), index: int, prop: u8)
    ensures
        recorded_value(s.push(e), index, prop) == if e.0 == index && e.1 == prop {
            e.2
        } else {
            recorded_value(s, index, prop)
        },
{
    assert(s.push(e).drop_last() =~= s);
}

/// A 16×64×16 column of blocks identified by chunk position.
#[derive(Debug)]
pub struct Chunk {
    pos: ChunkPos,
    blocks: Vec<BlockId>,
    dirty: bool,
    /// Per-block property overrides (block index, property index, value index), in the order set.
    properties: Vec<(usize, u8, u8)>,
}

impl Chunk {
    /// The chunk holds exactly one block per cell.
    pub closed spec fn wf(&self) -> bool {
        self.blocks@.len() == 16384
    }

    /// A well-formed chunk has one block per cell.
    pub proof fn lemma_wf_len(&self)
        requires
            self.wf(),
        ensures
            self.blocks_view().len() == 16384,
    {
    }

    pub closed spec fn spec_pos(&self) -> ChunkPos {
        self.pos
    }

    pub closed spec fn spec_dirty(&self) -> bool {
        self.dirty
    }

    /// The block identifiers of all cells, by flat index.
    pub closed spec fn blocks_view(&self) -> Seq<Seq<char>> {
        self.blocks@.map_values(|b: BlockId| b@)
    }

    /// The property overrides, in the order they were set.
    pub closed spec fn overrides(&self) -> Seq<(usize, u8, u8)> {
        self.properties@
    }

    /// Creates a new chunk filled with air.
    pub fn new(pos: ChunkPos) -> (r: Chunk)
        ensures
            r.wf(),
            r.spec_pos() == pos,
            !r.spec_dirty(),
            r.overrides() == Seq::<(usize, u8, u8)>::empty(),
            forall|i: int| 0 <= i < 16384 ==> #[trigger] r.blocks_view()[i] == Seq::<char>::empty(),
    {
        let mut blocks: Vec<BlockId> = Vec::new();
        let mut i: usize = 0;
        while i < CHUNK_VOLUME
            invariant
                i <= CHUNK_VOLUME,
                blocks@.len() == i,
                forall|j: int| 0 <= j < i ==> (#[trigger] blocks@[j])@ == Seq::<char>::empty(),
            decreases CHUNK_VOLUME - i,
        {
            blocks.push(BlockId::air());
            i = i + 1;
        }
        Chunk { pos, blocks, dirty: false, properties: Vec::new() }
    }

    /// Computes the flat array index for local coordinates.
    fn index(x: usize, y: usize, z: usize) -> (r: usize)
        requires
            in_chunk(x as int, y as int, z as int),
        ensures
            r as int == local_index(x as int, y as int, z as int),
            r < 16384,
    {
        y * CHUNK_SIZE_Z * CHUNK_SIZE_X + z * CHUNK_SIZE_X + x
    }

    /// Gets the block at local (in-chunk) coordinates.
    pub fn get_block(&self, x: usize, y: usize, z: usize) -> (r: BlockId)
        requires
            self.wf(),
            in_chunk(x as int, y as int, z as int),
        ensures
            r@ == self.blocks_view()[local_index(x as int, y as int, z as int)],
    {
        self.blocks[Self::index(x, y, z)].copy()
    }

    /// Sets the block at local coordinates and marks the chunk dirty.
    pub fn set_block(&mut self, x: usize, y: usize, z: usize, id: BlockId)
        requires
            old(self).wf(),
            in_chunk(x as int, y as int, z as int),
        ensures
            final(self).wf(),
            final(self).blocks_view() == old(self).blocks_view().update(local_index(x as int, y as int, z as int), id@),
            final(self).spec_dirty(),
            final(self).spec_pos() == old(self).spec_pos(),
            final(self).overrides() == old(self).overrides(),
    {
        let i = Self::index(x, y, z);
        let ghost idv = id@;
        self.blocks.set(i, id);
        assert(self.blocks_view() =~= old(self).blocks_view().update(i as int, idv));
        self.dirty = true;
    }

    /// Whether this chunk has been modified since last mesh.
    pub fn is_dirty(&self) -> (r: bool)
        ensures
            r == self.spec_dirty(),
    {
        self.dirty
    }

    /// Clears the dirty flag (called after remeshing).
    pub fn clear_dirty(&mut self)
        ensures
            !final(self).spec_dirty(),
            final(self).wf() == old(self).wf(),
            final(self).blocks_view() == old(self).blocks_view(),
            final(self).spec_pos() == old(self).spec_pos(),
            final(self).overrides() == old(self).overrides(),
    {
        self.dirty = false;
    }

    /// Returns the chunk position.
    pub fn pos(&self) -> (r: ChunkPos)
        ensures
            r == self.spec_pos(),
    {
        self.pos
    }

    /// Returns a read-only view of all blocks, by flat index.
    pub fn blocks(&self) -> (r: &Vec<BlockId>)
        ensures
            r@.map_values(|b: BlockId| b@) == self.blocks_view(),
    {
        &self.blocks
    }

    /// Returns the property overrides (block index, property index, value index) in the order set.
    pub fn property_overrides(&self) -> (r: &Vec<(usize, u8, u8)>)
        ensures
            r@ == self.overrides(),
    {
        &self.properties
    }

    /// Returns the value index for a block property at the given local position.
    ///
    /// Returns 0 (the default) if no override has been set; when several were
    /// set, the last one counts.
    pub fn get_property(&self, x: usize, y: usize, z: usize, prop_idx: u8) -> (r: u8)
        requires
            in_chunk(x as int, y as int, z as int),
        ensures
            r == recorded_value(self.overrides(), local_index(x as int, y as int, z as int), prop_idx),
    {
        let idx = Self::index(x, y, z);
        let mut i: usize = self.properties.len();
        proof {
            assert(self.properties@.subrange(0, i as int) =~= self.properties@);
        }
        while i > 0
            invariant
                i <= self.properties@.len(),
                idx as int == local_index(x as int, y as int, z as int),
                recorded_value(self.properties@, idx as int, prop_idx)
                    == recorded_value(self.properties@.subrange(0, i as int), idx as int, prop_idx),
            decreases i,
        {
            let (p_idx, p, v) = self.properties[i - 1];
            let ghost head = self.properties@.subrange(0, i as int);
            assert(head.last() == (p_idx, p, v));
            assert(head.drop_last() =~= self.properties@.subrange(0, i - 1));
            if p_idx == idx && p == prop_idx {
                return v;
            }
            i = i - 1;
        }
        0
    }

    /// Records a block property value at the given local position and marks the chunk dirty.
    pub fn set_property(&mut self, x: usize, y: usize, z: usize, prop_idx: u8, value_idx: u8)
        requires
            in_chunk(x as int, y as int, z as int),
        ensures
            final(self).overrides() == old(self).overrides().push(
                (local_index(x as int, y as int, z as int) as usize, prop_idx, value_idx),
            ),
            recorded_value(final(self).overrides(), local_index(x as int, y as int, z as int), prop_idx) == value_idx,
            forall|i: int, p: u8| (i != local_index(x as int, y as int, z as int) || p != prop_idx)
                ==> #[trigger] recorded_value(final(self).overrides(), i, p) == recorded_value(old(self).overrides(), i, p),
            final(self).spec_dirty(),
            final(self).wf() == old(self).wf(),
            final(self).blocks_view() == old(self).blocks_view(),
            final(self).spec_pos() == old(self).spec_pos(),
    {
        let idx = Self::index(x, y, z);
        let ghost e = (idx, prop_idx, value_idx);
        self.properties.push((idx, prop_idx, value_idx));
        self.dirty = true;
        proof {
            lemma_recorded_value_push(old(self).overrides(), e, idx as int, prop_idx);
            assert forall|i: int, p: u8| (i != local_index(x as int, y as int, z as int) || p != prop_idx)
                implies #[trigger] recorded_value(self.overrides(), i, p) == recorded_value(old(self).overrides(), i, p) by {
                lemma_recorded_value_push(old(self).overrides(), e, i, p);
            }
        }
    }
}

/// One round of the 64-bit finalizer used for seeded hashing.
pub open spec fn spec_mix64(h: u64) -> u64 {
    let h1 = h ^ (h >> 33u64);
    let h2 = vstd::wrapping::u64_specs::wrapping_mul(h1, 0xff51afd7ed558ccdu64);
    let h3 = h2 ^ (h2 >> 33u64);
    let h4 = vstd::wrapping::u64_specs::wrapping_mul(h3, 0xc4ceb9fe1a85ec53u64);
    h4 ^ (h4 >> 33u64)
}

/// The seeded 32-bit hash of a column (`x`, `z`) under a salt.
pub open spec fn spec_seeded_u32(seed: u64, x: i32, z: i32, salt: u64) -> u32 {
    let a = vstd::wrapping::u64_specs::wrapping_mul(x as u32 as u64, 0x9E3779B97F4A7C15u64);
    let b = vstd::wrapping::u64_specs::wrapping_mul(z as u32 as u64, 0xC2B2AE3D27D4EB4Fu64);
    let c = vstd::wrapping::u64_specs::wrapping_mul(salt, 0x165667B19E3779F9u64);
    (spec_mix64(seed ^ a ^ b ^ c) >> 32u64) as u32
}

/// The seeded value in `min..=max` for a column under a salt (`min` when the range is empty).
pub open spec fn spec_seeded_range(seed: u64, x: i32, z: i32, salt: u64, min: i32, max: i32) -> i32 {
    if max <= min {
        min
    } else {
        (min as int + (spec_seeded_u32(seed, x, z, salt) as int % (max as int - min as int + 1))) as i32
    }
}

fn mix64(h: u64) -> (r: u64)
    ensures
        r == spec_mix64(h),
{
    let h1 = h ^ (h >> 33u64);
    let h2 = h1.wrapping_mul(0xff51afd7ed558ccdu64);
    let h3 = h2 ^ (h2 >> 33u64);
    let h4 = h3.wrapping_mul(0xc4ceb9fe1a85ec53u64);
    h4 ^ (h4 >> 33u64)
}

/// The game world: a collection of loaded chunks keyed by position, the list
/// of chunks changed since the last drain, and the world seed.
#[derive(Debug)]
pub struct World {
    chunks: Vec<Chunk>,
    dirty_chunks: Vec<ChunkPos>,
    seed: u64,
}

/// Whether the chunk positions of `s` are pairwise distinct.
pub open spec fn distinct_positions(s: Seq<Chunk>) -> bool {
    forall|i: int, j: int| 0 <= i < s.len() && 0 <= j < s.len() && i != j ==> #[trigger] s[i].spec_pos() != #[trigger] s[j].spec_pos()
}

impl World {
    /// Every chunk is well formed, no two chunks share a position, and no
    /// position is listed twice as dirty.
    pub closed spec fn wf(&self) -> bool {
        &&& forall|i: int| 0 <= i < self.chunks@.len() ==> (#[trigger] self.chunks@[i]).wf()
        &&& distinct_positions(self.chunks@)
        &&& self.dirty_chunks@.no_duplicates()
    }

    /// The loaded chunks, in storage order.
    pub closed spec fn chunk_seq(&self) -> Seq<Chunk> {
        self.chunks@
    }

    /// Whether a chunk is loaded at `cp`.
    pub closed spec fn is_loaded(&self, cp: ChunkPos) -> bool {
        exists|i: int| 0 <= i < self.chunks@.len() && #[trigger] self.chunks@[i].spec_pos() == cp
    }

    /// The chunk loaded at `cp` (meaningful when `is_loaded(cp)`).
    pub closed spec fn loaded_chunk(&self, cp: ChunkPos) -> Chunk {
        self.chunks@[choose|i: int| 0 <= i < self.chunks@.len() && #[trigger] self.chunks@[i].spec_pos() == cp]
    }

    /// The block at a position: the cell it maps to in its chunk, or air when
    /// that chunk is not loaded.
    pub closed spec fn spec_block(&self, p: BlockPos) -> Seq<char> {
        if self.is_loaded(spec_chunk_pos(p)) {
            self.loaded_chunk(spec_chunk_pos(p)).blocks_view()[pos_index(p)]
        } else {
            Seq::<char>::empty()
        }
    }

    /// The property value at a position: the last value recorded for its
    /// cell, or 0.
    pub closed spec fn spec_property(&self, p: BlockPos, prop: u8) -> u8 {
        if self.is_loaded(spec_chunk_pos(p)) {
            recorded_value(self.loaded_chunk(spec_chunk_pos(p)).overrides(), pos_index(p), prop)
        } else {
            0
        }
    }

    /// Whether a value is recorded for the property at a position (it then
    /// reads back whatever is set later).
    pub closed spec fn prop_recorded(&self, p: BlockPos, prop: u8) -> bool {
        self.is_loaded(spec_chunk_pos(p)) && has_override(self.loaded_chunk(spec_chunk_pos(p)).overrides(), pos_index(p), prop, 0)
    }

    /// Chunks changed since the last drain, in first-change order.
    pub closed spec fn dirty(&self) -> Seq<ChunkPos> {
        self.dirty_chunks@
    }

    pub closed spec fn spec_seed(&self) -> u64 {
        self.seed
    }

    /// Positions that map to the same cell hold the same block and the same
    /// properties.
    pub proof fn lemma_same_cell(&self, p: BlockPos, q: BlockPos)
        requires
            same_cell(p, q),
        ensures
            self.spec_block(p) == self.spec_block(q),
            forall|prop: u8| #[trigger] self.spec_property(p, prop) == self.spec_property(q, prop),
            forall|prop: u8| #[trigger] self.prop_recorded(p, prop) == self.prop_recorded(q, prop),
    {
    }

    /// What a position reads: the cell it maps to in its loaded chunk, with
    /// the last property value recorded there; air and 0 when its chunk is not
    /// loaded.
    pub proof fn lemma_read(&self, p: BlockPos, prop: u8)
        ensures
            self.is_loaded(spec_chunk_pos(p)) ==> {
                &&& self.spec_block(p) == self.loaded_chunk(spec_chunk_pos(p)).blocks_view()[pos_index(p)]
                &&& self.spec_property(p, prop) == recorded_value(self.loaded_chunk(spec_chunk_pos(p)).overrides(), pos_index(p), prop)
            },
            !self.is_loaded(spec_chunk_pos(p)) ==> self.spec_block(p) == Seq::<char>::empty() && self.spec_property(p, prop) == 0,
    {
    }

    proof fn lemma_loaded_chunk(&self, i: int)
        requires
            self.wf(),
            0 <= i < self.chunks@.len(),
        ensures
            self.is_loaded(self.chunks@[i].spec_pos()),
            self.loaded_chunk(self.chunks@[i].spec_pos()) == self.chunks@[i],
    {
        let cp = self.chunks@[i].spec_pos();
        assert(self.chunks@[i].spec_pos() == cp);
        let j = choose|j: int| 0 <= j < self.chunks@.len() && #[trigger] self.chunks@[j].spec_pos() == cp;
        assert(j == i);
    }

    /// Creates an empty world with no chunks loaded and seed 0.
    pub fn new() -> (r: World)
        ensures
            r.wf(),
            r.spec_seed() == 0,
            r.chunk_seq().len() == 0,
            r.dirty().len() == 0,
            forall|cp: ChunkPos| !r.is_loaded(cp),
    {
        World::with_seed(0)
    }

    /// Creates an empty world with the given seed.
    pub fn with_seed(seed: u64) -> (r: World)
        ensures
            r.wf(),
            r.spec_seed() == seed,
            r.chunk_seq().len() == 0,
            r.dirty().len() == 0,
            forall|cp: ChunkPos| !r.is_loaded(cp),
    {
        World { chunks: Vec::new(), dirty_chunks: Vec::new(), seed }
    }

    /// The world seed.
    pub fn seed(&self) -> (r: u64)
        ensures
            r == self.spec_seed(),
    {
        self.seed
    }

    /// Index of the loaded chunk at `cp`.
    fn find_chunk(&self, cp: ChunkPos) -> (r: Option<usize>)
        requires
            self.wf(),
        ensures
            match r {
                Some(i) => i < self.chunks@.len() && self.chunks@[i as int].spec_pos() == cp && self.is_loaded(cp)
                    && self.loaded_chunk(cp) == self.chunks@[i as int],
                None => !self.is_loaded(cp),
            },
    {
        let mut i: usize = 0;
        while i < self.chunks.len()
            invariant
                self.wf(),
                i <= self.chunks@.len(),
                forall|j: int| 0 <= j < i ==> #[trigger] self.chunks@[j].spec_pos() != cp,
            decreases self.chunks.len() - i,
        {
            if self.chunks[i].pos() == cp {
                proof {
                    self.lemma_loaded_chunk(i as int);
                }
                return Some(i);
            }
            i = i + 1;
        }
        None
    }

    /// Gets the block at an absolute world position; air if the chunk is not loaded.
    pub fn get_block(&self, pos: BlockPos) -> (r: BlockId)
        requires
            self.wf(),
        ensures
            r@ == self.spec_block(pos),
            self.is_loaded(spec_chunk_pos(pos)) ==> r@ == self.loaded_chunk(spec_chunk_pos(pos)).blocks_view()[pos_index(pos)],
            !self.is_loaded(spec_chunk_pos(pos)) ==> r@ == Seq::<char>::empty(),
    {
        let cp = pos.chunk_pos();
        let (lx, ly, lz) = pos.local();
        match self.find_chunk(cp) {
            Some(i) => self.chunks[i].get_block(lx, ly, lz),
            None => BlockId::air(),
        }
    }

    /// The loaded chunk at `cp`, if any.
    pub fn chunk(&self, cp: ChunkPos) -> (r: Option<&Chunk>)
        requires
            self.wf(),
        ensures
            match r {
                Some(c) => self.is_loaded(cp) && *c == self.loaded_chunk(cp) && c.wf() && c.spec_pos() == cp,
                None => !self.is_loaded(cp),
            },
    {
        match self.find_chunk(cp) {
            Some(i) => Some(&self.chunks[i]),
            None => None,
        }
    }

    /// Records `cp` in the dirty list unless it is already there.
    fn mark_dirty(&mut self, cp: ChunkPos)
        requires
            old(self).dirty_chunks@.no_duplicates(),
        ensures
            final(self).dirty_chunks@.no_duplicates(),
            final(self).dirty_chunks@ == if old(self).dirty_chunks@.contains(cp) {
                old(self).dirty_chunks@
            } else {
                old(self).dirty_chunks@.push(cp)
            },
            final(self).chunks@ == old(self).chunks@,
            final(self).seed == old(self).seed,
    {
        let mut i: usize = 0;
        while i < self.dirty_chunks.len()
            invariant
                i <= self.dirty_chunks@.len(),
                self.dirty_chunks@ == old(self).dirty_chunks@,
                self.chunks@ == old(self).chunks@,
                self.seed == old(self).seed,
                self.dirty_chunks@.no_duplicates(),
                forall|j: int| 0 <= j < i ==> #[trigger] self.dirty_chunks@[j] != cp,
            decreases self.dirty_chunks.len() - i,
        {
            if self.dirty_chunks[i] == cp {
                assert(self.dirty_chunks@[i as int] == cp);
                return;
            }
            i = i + 1;
        }
        self.dirty_chunks.push(cp);
    }

    /// Index of the chunk at `cp`, loading an air chunk there first if needed.
    fn ensure_chunk(&mut self, cp: ChunkPos) -> (r: usize)
        requires
            old(self).wf(),
        ensures
            final(self).wf(),
            r < final(self).chunks@.len(),
            final(self).chunks@[r as int].spec_pos() == cp,
            final(self).dirty_chunks@ == old(self).dirty_chunks@,
            final(self).seed == old(self).seed,
            old(self).is_loaded(cp) ==> final(self).chunks@ == old(self).chunks@,
            !old(self).is_loaded(cp) ==> final(self).chunks@ == old(self).chunks@.push(final(self).chunks@[r as int])
                && r == old(self).chunks@.len()
                && (forall|i: int| 0 <= i < 16384 ==> #[trigger] final(self).chunks@[r as int].blocks_view()[i] == Seq::<char>::empty())
                && final(self).chunks@[r as int].overrides().len() == 0,
    {
        match self.find_chunk(cp) {
            Some(i) => i,
            None => {
                let c = Chunk::new(cp);
                self.chunks.push(c);
                proof {
                    let s = self.chunks@;
                    assert forall|i: int, j: int| 0 <= i < s.len() && 0 <= j < s.len() && i != j implies #[trigger] s[i].spec_pos() != #[trigger] s[j].spec_pos() by {
                        if i == s.len() - 1 {
                            assert(old(self).chunks@[j] == s[j]);
                        } else if j == s.len() - 1 {
                            assert(old(self).chunks@[i] == s[i]);
                        }
                    }
                }
                self.chunks.len() - 1
            },
        }
    }

    /// Replacing the chunk at index `i` by one at the same position changes only
    /// what is loaded at that position.
    proof fn lemma_update_at(w0: &World, w2: &World, i: int)
        requires
            w0.wf(),
            w2.wf(),
            0 <= i < w0.chunks@.len(),
            w2.chunks@ == w0.chunks@.update(i, w2.chunks@[i]),
            w2.chunks@[i].spec_pos() == w0.chunks@[i].spec_pos(),
        ensures
            forall|cp: ChunkPos| #[trigger] w2.is_loaded(cp) == w0.is_loaded(cp),
            forall|cp: ChunkPos| cp != w0.chunks@[i].spec_pos() && w0.is_loaded(cp) ==> #[trigger] w2.loaded_chunk(cp) == w0.loaded_chunk(cp),
            w0.is_loaded(w0.chunks@[i].spec_pos()),
            w0.loaded_chunk(w0.chunks@[i].spec_pos()) == w0.chunks@[i],
            w2.loaded_chunk(w0.chunks@[i].spec_pos()) == w2.chunks@[i],
    {
        w0.lemma_loaded_chunk(i);
        w2.lemma_loaded_chunk(i);
        assert forall|cp: ChunkPos| #[trigger] w2.is_loaded(cp) == w0.is_loaded(cp) by {
            if w0.is_loaded(cp) {
                let j = choose|j: int| 0 <= j < w0.chunks@.len() && #[trigger] w0.chunks@[j].spec_pos() == cp;
                assert(w2.chunks@[j].spec_pos() == cp);
            }
            if w2.is_loaded(cp) {
                let j = choose|j: int| 0 <= j < w2.chunks@.len() && #[trigger] w2.chunks@[j].spec_pos() == cp;
                assert(w0.chunks@[j].spec_pos() == cp);
            }
        }
        assert forall|cp: ChunkPos| cp != w0.chunks@[i].spec_pos() && w0.is_loaded(cp) implies #[trigger] w2.loaded_chunk(cp) == w0.loaded_chunk(cp) by {
            let j = choose|j: int| 0 <= j < w0.chunks@.len() && #[trigger] w0.chunks@[j].spec_pos() == cp;
            assert(j != i);
            w0.lemma_loaded_chunk(j);
            w2.lemma_loaded_chunk(j);
        }
    }

    /// Appending a chunk at a new position loads it there and changes nothing else.
    proof fn lemma_push(w0: &World, w2: &World)
        requires
            w0.wf(),
            w2.wf(),
            w2.chunks@.len() == w0.chunks@.len() + 1,
            w2.chunks@ == w0.chunks@.push(w2.chunks@[w0.chunks@.len() as int]),
        ensures
            forall|cp: ChunkPos| #[trigger] w2.is_loaded(cp) == (w0.is_loaded(cp) || cp == w2.chunks@[w0.chunks@.len() as int].spec_pos()),
            forall|cp: ChunkPos| w0.is_loaded(cp) ==> #[trigger] w2.loaded_chunk(cp) == w0.loaded_chunk(cp),
            !w0.is_loaded(w2.chunks@[w0.chunks@.len() as int].spec_pos()),
            w2.loaded_chunk(w2.chunks@[w0.chunks@.len() as int].spec_pos()) == w2.chunks@[w0.chunks@.len() as int],
    {
        let n = w0.chunks@.len() as int;
        w2.lemma_loaded_chunk(n);
        let c = w2.chunks@[n];
        if w0.is_loaded(c.spec_pos()) {
            let j = choose|j: int| 0 <= j < w0.chunks@.len() && #[trigger] w0.chunks@[j].spec_pos() == c.spec_pos();
            assert(w2.chunks@[j].spec_pos() == c.spec_pos());
        }
        assert forall|cp: ChunkPos| #[trigger] w2.is_loaded(cp) == (w0.is_loaded(cp) || cp == c.spec_pos()) by {
            if w0.is_loaded(cp) {
                let j = choose|j: int| 0 <= j < w0.chunks@.len() && #[trigger] w0.chunks@[j].spec_pos() == cp;
                assert(w2.chunks@[j].spec_pos() == cp);
            }
            if w2.is_loaded(cp) && cp != c.spec_pos() {
                let j = choose|j: int| 0 <= j < w2.chunks@.len() && #[trigger] w2.chunks@[j].spec_pos() == cp;
                assert(j != n);
                assert(w0.chunks@[j].spec_pos() == cp);
            }
        }
        assert forall|cp: ChunkPos| w0.is_loaded(cp) implies #[trigger] w2.loaded_chunk(cp) == w0.loaded_chunk(cp) by {
            let j = choose|j: int| 0 <= j < w0.chunks@.len() && #[trigger] w0.chunks@[j].spec_pos() == cp;
            w0.lemma_loaded_chunk(j);
            w2.lemma_loaded_chunk(j);
        }
    }

    /// After `ensure_chunk(cp)` returned `i` and the chunk at `i` was replaced by
    /// one at the same position: what is loaded, and which chunk was there before.
    proof fn lemma_ensure_then_update(w0: &World, w1: &World, w2: &World, i: int, cp: ChunkPos)
        requires
            w0.wf(),
            w1.wf(),
            w2.wf(),
            0 <= i < w1.chunks@.len(),
            w1.chunks@[i].spec_pos() == cp,
            w0.is_loaded(cp) ==> w1.chunks@ == w0.chunks@,
            !w0.is_loaded(cp) ==> w1.chunks@ == w0.chunks@.push(w1.chunks@[i]) && i == w0.chunks@.len(),
            w2.chunks@ == w1.chunks@.update(i, w2.chunks@[i]),
            w2.chunks@[i].spec_pos() == cp,
        ensures
            forall|c: ChunkPos| #[trigger] w2.is_loaded(c) == (w0.is_loaded(c) || c == cp),
            forall|c: ChunkPos| c != cp && w0.is_loaded(c) ==> #[trigger] w2.loaded_chunk(c) == w0.loaded_chunk(c),
            w2.loaded_chunk(cp) == w2.chunks@[i],
            w0.is_loaded(cp) ==> w0.loaded_chunk(cp) == w1.chunks@[i],
    {
        World::lemma_update_at(w1, w2, i);
        if w0.is_loaded(cp) {
            assert(w0.chunks@ == w1.chunks@);
            w0.lemma_loaded_chunk(i);
        } else {
            World::lemma_push(w0, w1);
        }
    }

    /// Sets the block at an absolute world position, loading an air chunk there
    /// first if needed, and records the chunk as dirty.
    pub fn set_block(&mut self, pos: BlockPos, id: BlockId)
        requires
            old(self).wf(),
        ensures
            final(self).wf(),
            final(self).spec_block(pos) == id@,
            forall|q: BlockPos| spec_chunk_pos(q) != spec_chunk_pos(pos) || pos_index(q) != pos_index(pos)
                ==> #[trigger] final(self).spec_block(q) == old(self).spec_block(q),
            forall|q: BlockPos, prop: u8| #[trigger] final(self).spec_property(q, prop) == old(self).spec_property(q, prop),
            forall|q: BlockPos, prop: u8| #[trigger] final(self).prop_recorded(q, prop) == old(self).prop_recorded(q, prop),
            forall|cp: ChunkPos| #[trigger] final(self).is_loaded(cp) == (old(self).is_loaded(cp) || cp == spec_chunk_pos(pos)),
            final(self).chunk_seq().len() == old(self).chunk_seq().len() + if old(self).is_loaded(spec_chunk_pos(pos)) { 0int } else { 1int },
            final(self).dirty() == if old(self).dirty().contains(spec_chunk_pos(pos)) {
                old(self).dirty()
            } else {
                old(self).dirty().push(spec_chunk_pos(pos))
            },
            final(self).dirty().contains(spec_chunk_pos(pos)),
            final(self).dirty().no_duplicates(),
            final(self).spec_seed() == old(self).spec_seed(),
    {
        let cp = pos.chunk_pos();
        let (lx, ly, lz) = pos.local();
        let ghost w0 = *self;
        let i = self.ensure_chunk(cp);
        let ghost w1 = *self;
        let ghost idv = id@;
        self.chunks[i].set_block(lx, ly, lz, id);
        proof {
            assert forall|j: int| 0 <= j < self.chunks@.len() implies (#[trigger] self.chunks@[j]).wf() by {
                if j != i {
                    assert(self.chunks@[j] == w1.chunks@[j]);
                }
            }
            assert forall|a: int, b: int| 0 <= a < self.chunks@.len() && 0 <= b < self.chunks@.len() && a != b implies
                #[trigger] self.chunks@[a].spec_pos() != #[trigger] self.chunks@[b].spec_pos() by {
                assert(w1.chunks@[a].spec_pos() == self.chunks@[a].spec_pos());
                assert(w1.chunks@[b].spec_pos() == self.chunks@[b].spec_pos());
            }
            assert(self.chunks@ == w1.chunks@.update(i as int, self.chunks@[i as int]));
            World::lemma_ensure_then_update(&w0, &w1, self, i as int, cp);
            lemma_local_index_bounds(spec_local(pos).0, spec_local(pos).1, spec_local(pos).2);
            assert forall|q: BlockPos| spec_chunk_pos(q) != spec_chunk_pos(pos) || pos_index(q) != pos_index(pos)
                implies #[trigger] self.spec_block(q) == w0.spec_block(q) by {
                if spec_chunk_pos(q) == cp {
                    lemma_local_index_bounds(spec_local(q).0, spec_local(q).1, spec_local(q).2);
                    assert(self.chunks@[i as int].blocks_view()[pos_index(q)] == w1.chunks@[i as int].blocks_view()[pos_index(q)]);
                }
            }
            assert forall|q: BlockPos, prop: u8| #[trigger] self.spec_property(q, prop) == w0.spec_property(q, prop) by {
                if spec_chunk_pos(q) == cp {
                    assert(self.chunks@[i as int].overrides() == w1.chunks@[i as int].overrides());
                    if !w0.is_loaded(cp) {
                        assert(recorded_value(w1.chunks@[i as int].overrides(), pos_index(q), prop) == 0);
                    }
                }
            }
            assert forall|q: BlockPos, prop: u8| #[trigger] self.prop_recorded(q, prop) == w0.prop_recorded(q, prop) by {
                if spec_chunk_pos(q) == cp {
                    assert(self.chunks@[i as int].overrides() == w1.chunks@[i as int].overrides());
                    if !w0.is_loaded(cp) {
                        assert(w1.chunks@[i as int].overrides().len() == 0);
                    }
                }
            }
        }
        let ghost w2 = *self;
        self.mark_dirty(cp);
        proof {
            assert forall|q: BlockPos| #[trigger] self.spec_block(q) == w2.spec_block(q) by {}
            assert forall|q: BlockPos, prop: u8| #[trigger] self.spec_property(q, prop) == w2.spec_property(q, prop) by {}
            assert forall|q: BlockPos, prop: u8| #[trigger] self.prop_recorded(q, prop) == w2.prop_recorded(q, prop) by {}
            assert forall|c: ChunkPos| #[trigger] self.is_loaded(c) == w2.is_loaded(c) by {}
            if !w2.dirty_chunks@.contains(cp) {
                assert(self.dirty_chunks@[w2.dirty_chunks@.len() as int] == cp);
            }
        }
    }

    /// Returns `true` if the chunk at the given position is loaded.
    pub fn is_chunk_loaded(&self, pos: ChunkPos) -> (r: bool)
        requires
            self.wf(),
        ensures
            r == self.is_loaded(pos),
    {
        self.find_chunk(pos).is_some()
    }

    /// Ensures a chunk exists at the given position, filled with air; a chunk
    /// already loaded there is kept.
    pub fn load_chunk(&mut self, pos: ChunkPos)
        requires
            old(self).wf(),
        ensures
            final(self).wf(),
            forall|cp: ChunkPos| #[trigger] final(self).is_loaded(cp) == (old(self).is_loaded(cp) || cp == pos),
            old(self).is_loaded(pos) ==> final(self).chunk_seq() == old(self).chunk_seq(),
            final(self).chunk_seq().len() == old(self).chunk_seq().len() + if old(self).is_loaded(pos) { 0int } else { 1int },
            forall|q: BlockPos| #[trigger] final(self).spec_block(q) == old(self).spec_block(q),
            forall|q: BlockPos, prop: u8| #[trigger] final(self).spec_property(q, prop) == old(self).spec_property(q, prop),
            final(self).dirty() == old(self).dirty(),
            final(self).spec_seed() == old(self).spec_seed(),
    {
        let ghost w0 = *self;
        let i = self.ensure_chunk(pos);
        proof {
            if !w0.is_loaded(pos) {
                World::lemma_push(&w0, self);
                assert forall|q: BlockPos| #[trigger] self.spec_block(q) == w0.spec_block(q) by {
                    if spec_chunk_pos(q) == pos {
                        lemma_local_index_bounds(spec_local(q).0, spec_local(q).1, spec_local(q).2);
                    }
                }
                assert forall|q: BlockPos, prop: u8| #[trigger] self.spec_property(q, prop) == w0.spec_property(q, prop) by {
                    if spec_chunk_pos(q) == pos {
                        assert(recorded_value(self.chunks@[i as int].overrides(), pos_index(q), prop) == 0);
                    }
                }
            }
        }
    }

    /// All loaded chunks.
    pub fn chunks(&self) -> (r: &Vec<Chunk>)
        requires
            self.wf(),
        ensures
            r@ == self.chunk_seq(),
            forall|i: int| 0 <= i < r@.len() ==> (#[trigger] r@[i]).wf() && self.is_loaded(r@[i].spec_pos())
                && self.loaded_chunk(r@[i].spec_pos()) == r@[i],
            forall|cp: ChunkPos| self.is_loaded(cp) ==> exists|i: int| 0 <= i < r@.len() && #[trigger] r@[i].spec_pos() == cp,
    {
        proof {
            assert forall|i: int| 0 <= i < self.chunks@.len() implies (#[trigger] self.chunks@[i]).wf() && self.is_loaded(self.chunks@[i].spec_pos())
                && self.loaded_chunk(self.chunks@[i].spec_pos()) == self.chunks@[i] by {
                self.lemma_loaded_chunk(i);
            }
        }
        &self.chunks
    }

    /// All loaded chunks, to change in place. The world is well formed
    /// again once its chunks are (see `lemma_wf_from_parts`).
    pub fn chunks_mut(&mut self) -> (r: &mut [Chunk])
        ensures
            r@ == old(self).chunk_seq(),
            final(self).chunk_seq() == final(r)@,
            final(self).dirty() == old(self).dirty(),
            final(self).spec_seed() == old(self).spec_seed(),
    {
        self.chunks.as_mut_slice()
    }

    /// In a well-formed world no chunk is listed twice among those changed
    /// since the last drain.
    pub proof fn lemma_dirty_distinct(&self)
        requires
            self.wf(),
        ensures
            self.dirty().no_duplicates(),
    {
    }

    /// A world is well formed when its chunks are, no two of them share a
    /// position, and no chunk is listed twice as dirty.
    pub proof fn lemma_wf_from_parts(&self)
        requires
            forall|i: int| 0 <= i < self.chunk_seq().len() ==> (#[trigger] self.chunk_seq()[i]).wf(),
            distinct_positions(self.chunk_seq()),
            self.dirty().no_duplicates(),
        ensures
            self.wf(),
    {
    }

    /// Drains the dirty chunk list, returning all chunks that need remeshing.
    pub fn drain_dirty(&mut self) -> (r: Vec<ChunkPos>)
        requires
            old(self).wf(),
        ensures
            final(self).wf(),
            r@ == old(self).dirty(),
            final(self).dirty().len() == 0,
            final(self).chunk_seq() == old(self).chunk_seq(),
            forall|cp: ChunkPos| #[trigger] final(self).is_loaded(cp) == old(self).is_loaded(cp),
            forall|q: BlockPos| #[trigger] final(self).spec_block(q) == old(self).spec_block(q),
            forall|q: BlockPos, prop: u8| #[trigger] final(self).spec_property(q, prop) == old(self).spec_property(q, prop),
            final(self).spec_seed() == old(self).spec_seed(),
    {
        let mut out: Vec<ChunkPos> = Vec::new();
        std::mem::swap(&mut out, &mut self.dirty_chunks);
        assert(self.dirty_chunks@.no_duplicates());
        assert(self.chunks@ == old(self).chunks@);
        proof {
            assert forall|q: BlockPos| #[trigger] self.spec_block(q) == old(self).spec_block(q) by {}
            assert forall|q: BlockPos, prop: u8| #[trigger] self.spec_property(q, prop) == old(self).spec_property(q, prop) by {}
        }
        out
    }

    /// Number of loaded chunks.
    pub fn chunk_count(&self) -> (r: usize)
        ensures
            r == self.chunk_seq().len(),
    {
        self.chunks.len()
    }

    /// Gets a block property value at an absolute world position; 0 if the
    /// chunk is not loaded or no override exists.
    pub fn get_block_property(&self, pos: BlockPos, prop_idx: u8) -> (r: u8)
        requires
            self.wf(),
        ensures
            r == self.spec_property(pos, prop_idx),
            self.is_loaded(spec_chunk_pos(pos))
                ==> r == recorded_value(self.loaded_chunk(spec_chunk_pos(pos)).overrides(), pos_index(pos), prop_idx),
            !self.is_loaded(spec_chunk_pos(pos)) ==> r == 0,
    {
        let cp = pos.chunk_pos();
        let (lx, ly, lz) = pos.local();
        match self.find_chunk(cp) {
            Some(i) => self.chunks[i].get_property(lx, ly, lz, prop_idx),
            None => 0,
        }
    }

    /// Sets a block property value at an absolute world position, loading an
    /// air chunk there first if needed, and records the chunk as dirty.
    pub fn set_block_property(&mut self, pos: BlockPos, prop_idx: u8, value_idx: u8)
        requires
            old(self).wf(),
        ensures
            final(self).wf(),
            forall|q: BlockPos| #[trigger] final(self).spec_block(q) == old(self).spec_block(q),
            final(self).spec_property(pos, prop_idx) == value_idx,
            forall|q: BlockPos, prop: u8| spec_chunk_pos(q) != spec_chunk_pos(pos) || pos_index(q) != pos_index(pos) || prop != prop_idx
                ==> #[trigger] final(self).spec_property(q, prop) == old(self).spec_property(q, prop),
            final(self).prop_recorded(pos, prop_idx),
            forall|q: BlockPos, prop: u8| spec_chunk_pos(q) != spec_chunk_pos(pos) || pos_index(q) != pos_index(pos) || prop != prop_idx
                ==> #[trigger] final(self).prop_recorded(q, prop) == old(self).prop_recorded(q, prop),
            forall|cp: ChunkPos| #[trigger] final(self).is_loaded(cp) == (old(self).is_loaded(cp) || cp == spec_chunk_pos(pos)),
            final(self).chunk_seq().len() == old(self).chunk_seq().len() + if old(self).is_loaded(spec_chunk_pos(pos)) { 0int } else { 1int },
            final(self).dirty() == if old(self).dirty().contains(spec_chunk_pos(pos)) {
                old(self).dirty()
            } else {
                old(self).dirty().push(spec_chunk_pos(pos))
            },
            final(self).dirty().contains(spec_chunk_pos(pos)),
            final(self).dirty().no_duplicates(),
            final(self).spec_seed() == old(self).spec_seed(),
    {
        let cp = pos.chunk_pos();
        let (lx, ly, lz) = pos.local();
        let ghost w0 = *self;
        let i = self.ensure_chunk(cp);
        let ghost w1 = *self;
        self.chunks[i].set_property(lx, ly, lz, prop_idx, value_idx);
        proof {
            assert forall|j: int| 0 <= j < self.chunks@.len() implies (#[trigger] self.chunks@[j]).wf() by {
                if j != i {
                    assert(self.chunks@[j] == w1.chunks@[j]);
                }
            }
            assert forall|a: int, b: int| 0 <= a < self.chunks@.len() && 0 <= b < self.chunks@.len() && a != b implies
                #[trigger] self.chunks@[a].spec_pos() != #[trigger] self.chunks@[b].spec_pos() by {
                assert(w1.chunks@[a].spec_pos() == self.chunks@[a].spec_pos());
                assert(w1.chunks@[b].spec_pos() == self.chunks@[b].spec_pos());
            }
            assert(self.chunks@ == w1.chunks@.update(i as int, self.chunks@[i as int]));
            World::lemma_ensure_then_update(&w0, &w1, self, i as int, cp);
            let s0 = w1.chunks@[i as int].overrides();
            let e = (pos_index(pos) as usize, prop_idx, value_idx);
            lemma_local_index_bounds(spec_local(pos).0, spec_local(pos).1, spec_local(pos).2);
            lemma_recorded_value_push(s0, e, pos_index(pos), prop_idx);
            assert forall|q: BlockPos| #[trigger] self.spec_block(q) == w0.spec_block(q) by {
                if spec_chunk_pos(q) == cp {
                    lemma_local_index_bounds(spec_local(q).0, spec_local(q).1, spec_local(q).2);
                }
            }
            assert forall|q: BlockPos, prop: u8| spec_chunk_pos(q) != spec_chunk_pos(pos) || pos_index(q) != pos_index(pos) || prop != prop_idx
                implies #[trigger] self.spec_property(q, prop) == w0.spec_property(q, prop) by {
                if spec_chunk_pos(q) == cp {
                    lemma_local_index_bounds(spec_local(q).0, spec_local(q).1, spec_local(q).2);
                    lemma_recorded_value_push(s0, e, pos_index(q), prop);
                    if !w0.is_loaded(cp) {
                        assert(s0.len() == 0);
                    }
                }
            }
            let s1 = self.chunks@[i as int].overrides();
            assert(s1 == s0.push(e));
            assert(s1[s0.len() as int] == e);
            assert(self.prop_recorded(pos, prop_idx));
            assert forall|q: BlockPos, prop: u8| spec_chunk_pos(q) != spec_chunk_pos(pos) || pos_index(q) != pos_index(pos) || prop != prop_idx
                implies #[trigger] self.prop_recorded(q, prop) == w0.prop_recorded(q, prop) by {
                if spec_chunk_pos(q) == cp {
                    lemma_local_index_bounds(spec_local(q).0, spec_local(q).1, spec_local(q).2);
                    if has_override(s1, pos_index(q), prop, 0) {
                        let j = choose|j: int| 0 <= j < s1.len() && 0 <= j && #[trigger] s1[j].0 == pos_index(q) && s1[j].1 == prop;
                        assert(j != s0.len());
                        assert(s0[j] == s1[j]);
                    }
                    if has_override(s0, pos_index(q), prop, 0) {
                        let j = choose|j: int| 0 <= j < s0.len() && 0 <= j && #[trigger] s0[j].0 == pos_index(q) && s0[j].1 == prop;
                        assert(s1[j] == s0[j]);
                    }
                    if !w0.is_loaded(cp) {
                        assert(!has_override(s0, pos_index(q), prop, 0));
                    }
                }
            }
        }
        let ghost w2 = *self;
        self.mark_dirty(cp);
        proof {
            assert forall|q: BlockPos| #[trigger] self.spec_block(q) == w2.spec_block(q) by {}
            assert forall|q: BlockPos, prop: u8| #[trigger] self.spec_property(q, prop) == w2.spec_property(q, prop) by {}
            assert forall|q: BlockPos, prop: u8| #[trigger] self.prop_recorded(q, prop) == w2.prop_recorded(q, prop) by {}
            assert forall|c: ChunkPos| #[trigger] self.is_loaded(c) == w2.is_loaded(c) by {}
            if !w2.dirty_chunks@.contains(cp) {
                assert(self.dirty_chunks@[w2.dirty_chunks@.len() as int] == cp);
            }
        }
    }

    /// Loads a generated chunk, replacing any chunk loaded at its position.
    pub fn insert_generated_chunk(&mut self, chunk: Chunk)
        requires
            old(self).wf(),
            chunk.wf(),
        ensures
            final(self).wf(),
            forall|cp: ChunkPos| #[trigger] final(self).is_loaded(cp) == (old(self).is_loaded(cp) || cp == chunk.spec_pos()),
            final(self).loaded_chunk(chunk.spec_pos()) == chunk,
            forall|cp: ChunkPos| cp != chunk.spec_pos() && old(self).is_loaded(cp) ==> #[trigger] final(self).loaded_chunk(cp) == old(self).loaded_chunk(cp),
            final(self).dirty() == old(self).dirty(),
            final(self).spec_seed() == old(self).spec_seed(),
    {
        let ghost w0 = *self;
        let cp = chunk.pos();
        let ghost c = chunk;
        match self.find_chunk(cp) {
            Some(i) => {
                self.chunks.set(i, chunk);
                proof {
                    assert forall|j: int| 0 <= j < self.chunks@.len() implies (#[trigger] self.chunks@[j]).wf() by {
                        if j != i {
                            assert(self.chunks@[j] == w0.chunks@[j]);
                        }
                    }
                    assert forall|a: int, b: int| 0 <= a < self.chunks@.len() && 0 <= b < self.chunks@.len() && a != b implies
                        #[trigger] self.chunks@[a].spec_pos() != #[trigger] self.chunks@[b].spec_pos() by {
                        assert(w0.chunks@[a].spec_pos() == self.chunks@[a].spec_pos());
                        assert(w0.chunks@[b].spec_pos() == self.chunks@[b].spec_pos());
                    }
                    assert(self.chunks@ == w0.chunks@.update(i as int, self.chunks@[i as int]));
                    World::lemma_update_at(&w0, self, i as int);
                }
            },
            None => {
                self.chunks.push(chunk);
                proof {
                    let s = self.chunks@;
                    assert forall|j: int| 0 <= j < s.len() implies (#[trigger] s[j]).wf() by {
                        if j < s.len() - 1 {
                            assert(s[j] == w0.chunks@[j]);
                        }
                    }
                    assert forall|a: int, b: int| 0 <= a < s.len() && 0 <= b < s.len() && a != b implies
                        #[trigger] s[a].spec_pos() != #[trigger] s[b].spec_pos() by {
                        if a == s.len() - 1 {
                            assert(w0.chunks@[b] == s[b]);
                        } else if b == s.len() - 1 {
                            assert(w0.chunks@[a] == s[a]);
                        }
                    }
                    World::lemma_push(&w0, self);
                }
            },
        }
    }

    /// The seeded 32-bit hash of a column under a salt.
    pub fn seeded_u32(&self, x: i32, z: i32, salt: u64) -> (r: u32)
        ensures
            r == spec_seeded_u32(self.spec_seed(), x, z, salt),
    {
        let a = (x as u32 as u64).wrapping_mul(0x9E3779B97F4A7C15u64);
        let b = (z as u32 as u64).wrapping_mul(0xC2B2AE3D27D4EB4Fu64);
        let c = salt.wrapping_mul(0x165667B19E3779F9u64);
        (mix64(self.seed ^ a ^ b ^ c) >> 32u64) as u32
    }

    /// A seeded value in `min..=max` for a column under a salt; `min` when
    /// `max <= min`.
    pub fn seeded_range(&self, x: i32, z: i32, salt: u64, min: i32, max: i32) -> (r: i32)
        ensures
            r == spec_seeded_range(self.spec_seed(), x, z, salt, min, max),
            min <= max ==> min <= r <= max,
    {
        if max <= min {
            return min;
        }
        let span: u64 = (max as i64 - min as i64 + 1) as u64;
        let h = self.seeded_u32(x, z, salt) as u64;
        let off = h % span;
        (min as i64 + off as i64) as i32
    }
}

} // verus!
