//! Integer stages of the Early Classic level generator: the 48-bit linear
//! congruential generator, noise permutation tables, flooding with water and
//! lava, surface growth, trees, the spawn search, and cutting the finished
//! level into chunks.
//!
//! The noise sampling itself works on floating-point values and is done by
//! the caller, which hands the results (heights, soil offsets, carved cells,
//! sand and gravel masks) to the stages here.

use vstd::prelude::*;
use crate::block::BlockId;
use crate::world::{Chunk, ChunkPos, local_index, in_chunk};

verus! {

pub const AIR: u8 = 0;
pub const STONE: u8 = 1;
pub const GRASS: u8 = 2;
pub const DIRT: u8 = 3;
pub const WATER: u8 = 9;
pub const LAVA: u8 = 11;
pub const SAND: u8 = 12;
pub const GRAVEL: u8 = 13;
pub const GOLD_ORE: u8 = 14;
pub const IRON_ORE: u8 = 15;
pub const COAL_ORE: u8 = 16;
pub const LOG: u8 = 17;
pub const LEAVES: u8 = 18;

pub const LCG_MULTIPLIER: u64 = 0x5DEECE66D;
pub const LCG_ADDEND: u64 = 0xB;
pub const LCG_MASK: u64 = 0xFFFF_FFFF_FFFF;

/// One step of the 48-bit generator: `(state * 0x5DEECE66D + 0xB) mod 2^48`,
/// computed in 64-bit wrapping arithmetic.
pub open spec fn lcg_step(s: u64) -> u64 {
    vstd::wrapping::u64_specs::wrapping_add(vstd::wrapping::u64_specs::wrapping_mul(s, LCG_MULTIPLIER), LCG_ADDEND) & LCG_MASK
}

/// The top `bits` bits of the next 48-bit state, as an `i32`.
pub open spec fn spec_next_bits(s: u64, bits: u32) -> i32 {
    (lcg_step(s) >> (48 - bits) as u64) as i32
}

/// Whether a 31-bit draw is accepted for a bound that is not a power of two.
pub open spec fn draw_accepted(bits: i32, bound: i32) -> bool {
    bits as int - (bits as int % bound as int) + bound as int - 1 <= i32::MAX
}

/// The state and value after drawing a bounded integer by rejection, allowing
/// at most `fuel` draws.
pub open spec fn spec_draw(s: u64, bound: i32, fuel: nat) -> (u64, i32)
    decreases fuel,
{
    let s1 = lcg_step(s);
    let bits = spec_next_bits(s, 31);
    let value = (bits as int % bound as int) as i32;
    if draw_accepted(bits, bound) || fuel <= 1 {
        (s1, value)
    } else {
        spec_draw(s1, bound, (fuel - 1) as nat)
    }
}

/// Number of draws after which the rejection loop stops.
pub open spec fn draw_limit() -> nat {
    0x1_0000_0000_0000
}

pub open spec fn is_power_of_two_i32(b: i32) -> bool {
    b & ((b - 1) as i32) == 0
}

/// The state and value of `next_int(bound)` from state `s`.
#[verifier::opaque]
pub open spec fn spec_next_int(s: u64, bound: i32) -> (u64, i32) {
    if is_power_of_two_i32(bound) {
        (lcg_step(s), (((bound as i64 * spec_next_bits(s, 31) as i64) as i64) >> 31i64) as i32)
    } else {
        spec_draw(s, bound, draw_limit())
    }
}

/// Java's `java.util.Random` generator (48-bit linear congruential).
#[derive(Clone, Copy, Debug)]
pub struct JavaRandom {
    state: u64,
}

impl JavaRandom {
    pub closed spec fn spec_state(&self) -> u64 {
        self.state
    }

    /// Seeds the generator: `(seed ^ 0x5DEECE66D) mod 2^48`.
    pub fn new(seed: u64) -> (r: JavaRandom)
        ensures
            r.spec_state() == (seed ^ LCG_MULTIPLIER) & LCG_MASK,
    {
        JavaRandom { state: (seed ^ LCG_MULTIPLIER) & LCG_MASK }
    }

    /// Advances the generator and returns its top `bits` bits.
    pub fn next(&mut self, bits: u32) -> (r: i32)
        requires
            1 <= bits <= 32,
        ensures
            final(self).spec_state() == lcg_step(old(self).spec_state()),
            r == spec_next_bits(old(self).spec_state(), bits),
    {
        self.state = self.state.wrapping_mul(LCG_MULTIPLIER).wrapping_add(LCG_ADDEND) & LCG_MASK;
        (self.state >> (48 - bits) as u64) as i32
    }

    /// A uniformly distributed integer in `0..bound`, as Java computes it.
    ///
    /// For a bound that is not a power of two, draws are rejected until one
    /// falls in a whole number of `bound`-sized ranges. The generator has full
    /// period 2^48 (odd increment, multiplier minus one divisible by four), so
    /// an accepted draw comes up before the draw limit of 2^48.
    pub fn next_int(&mut self, bound: i32) -> (r: i32)
        requires
            bound > 0,
        ensures
            (final(self).spec_state(), r) == spec_next_int(old(self).spec_state(), bound),
            0 <= r < bound,
    {
        proof {
            reveal(spec_next_int);
        }
        if bound & (bound - 1) == 0 {
            let ghost s0 = self.spec_state();
            let bits = self.next(31);
            let ghost t = lcg_step(s0);
            assert(t == t & 0xFFFF_FFFF_FFFFu64) by (bit_vector)
                requires
                    t == vstd::wrapping::u64_specs::wrapping_add(
                        vstd::wrapping::u64_specs::wrapping_mul(s0, 0x5DEECE66Du64), 0xBu64) & 0xFFFF_FFFF_FFFFu64;
            assert(0 <= bits) by (bit_vector)
                requires
                    bits == ((t >> 17u64) as i32),
                    t == t & 0xFFFF_FFFF_FFFFu64;
            assert(0 <= bound as int * bits as int <= 0x4000_0000_0000_0000) by (nonlinear_arith)
                requires
                    0 < bound <= i32::MAX,
                    0 <= bits <= i32::MAX;
            let prod: i64 = bound as i64 * bits as i64;
            assert(0 <= prod < bound as int * 0x8000_0000) by (nonlinear_arith)
                requires
                    0 < bound,
                    0 <= bits <= i32::MAX,
                    prod == bound as int * bits as int;
            let q = prod >> 31i64;
            assert(q == prod / 0x8000_0000i64) by (bit_vector)
                requires
                    0 <= prod,
                    q == prod >> 31i64;
            assert(0 <= q < bound) by (nonlinear_arith)
                requires
                    0 <= prod < bound as int * 0x8000_0000,
                    q == prod / 0x8000_0000,
                    0 < bound;
            let r = q as i32;
            return r;
        }
        let mut remaining: u64 = 0x1_0000_0000_0000;
        loop
            invariant
                1 <= remaining <= 0x1_0000_0000_0000,
                bound > 0,
                !is_power_of_two_i32(bound),
                spec_draw(self.spec_state(), bound, remaining as nat) == spec_next_int(old(self).spec_state(), bound),
            decreases remaining,
        {
            let ghost s = self.spec_state();
            let bits = self.next(31);
            let ghost t = lcg_step(s);
            assert(t == t & 0xFFFF_FFFF_FFFFu64) by (bit_vector)
                requires
                    t == vstd::wrapping::u64_specs::wrapping_add(
                        vstd::wrapping::u64_specs::wrapping_mul(s, 0x5DEECE66Du64), 0xBu64) & 0xFFFF_FFFF_FFFFu64;
            assert(0 <= bits) by (bit_vector)
                requires
                    bits == ((t >> 17u64) as i32),
                    t == t & 0xFFFF_FFFF_FFFFu64;
            let value = ((bits as u32) % (bound as u32)) as i32;
            assert(value as int == bits as int % bound as int);
            if bits.wrapping_sub(value).wrapping_add(bound - 1) >= 0 || remaining == 1 {
                return value;
            }
            remaining = remaining - 1;
        }
    }
}

/// The entries 0..256 in order.
pub open spec fn identity_table() -> Seq<usize> {
    Seq::new(256, |i: int| i as usize)
}

/// The Fisher–Yates shuffle of table `t` from position `k` on, with PRNG
/// state `s`: entry `k` trades places with entry `k + d`, where `d` is
/// `next_int(256 - k)` (a draw below `256 - k`), then the shuffle goes on
/// from `k + 1`. The table and the PRNG state after.
pub open spec fn shuffle_from(t: Seq<usize>, s: u64, k: nat) -> (Seq<usize>, u64)
    decreases 256 - k,
{
    if k >= 256 {
        (t, s)
    } else {
        let (s1, d) = spec_next_int(s, (256 - k) as i32);
        let j = k + d;
        let t1 = if 0 <= d < 256 - k { t.update(k as int, t[j]).update(j, t[k as int]) } else { t };
        shuffle_from(t1, s1, k + 1)
    }
}

/// The shuffled entries of a noise table drawn from PRNG state `s`, and the
/// PRNG state after.
pub open spec fn shuffled_table(s: u64) -> (Seq<usize>, u64) {
    shuffle_from(identity_table(), s, 0)
}

/// The noise table drawn from PRNG state `s`: the shuffled entries, twice.
pub open spec fn noise_table(s: u64) -> Seq<usize> {
    shuffled_table(s).0 + shuffled_table(s).0
}

/// The PRNG state after `i` noise tables were drawn from state `s`.
pub open spec fn state_after_tables(s: u64, i: nat) -> u64
    decreases i,
{
    if i == 0 {
        s
    } else {
        shuffled_table(state_after_tables(s, (i - 1) as nat)).1
    }
}

/// A permutation table of Perlin's improved noise: a permutation of 0..256,
/// repeated once.
#[derive(Clone, Debug)]
pub struct ImprovedNoise {
    permutations: Vec<usize>,
}

impl ImprovedNoise {
    pub closed spec fn table(&self) -> Seq<usize> {
        self.permutations@
    }

    /// Builds the table by a Fisher–Yates shuffle of 0..256 driven by `random`
    /// (one `next_int(256 - i)` per position), then repeats it.
    pub fn new(random: &mut JavaRandom) -> (r: ImprovedNoise)
        ensures
            r.table() == noise_table(old(random).spec_state()),
            final(random).spec_state() == shuffled_table(old(random).spec_state()).1,
            r.table().len() == 512,
            forall|i: int| 0 <= i < 256 ==> #[trigger] r.table()[i] < 256,
            forall|i: int, j: int| 0 <= i < j < 256 ==> #[trigger] r.table()[i] != #[trigger] r.table()[j],
            forall|i: int| 0 <= i < 256 ==> #[trigger] r.table()[i + 256] == r.table()[i],
    {
        let ghost s0 = random.spec_state();
        let mut p: Vec<usize> = Vec::new();
        let mut i: usize = 0;
        while i < 512
            invariant
                i <= 512,
                p@.len() == i,
                forall|j: int| 0 <= j < i ==> #[trigger] p@[j] == if j < 256 { j as usize } else { 0 },
            decreases 512 - i,
        {
            p.push(if i < 256 { i } else { 0 });
            i = i + 1;
        }
        assert(p@.subrange(0, 256) =~= identity_table());
        let mut index: usize = 0;
        while index < 256
            invariant
                index <= 256,
                p@.len() == 512,
                forall|j: int| 0 <= j < 256 ==> #[trigger] p@[j] < 256,
                forall|a: int, b: int| 0 <= a < b < 256 ==> #[trigger] p@[a] != #[trigger] p@[b],
                forall|j: int| 0 <= j < index ==> #[trigger] p@[j + 256] == p@[j],
                shuffle_from(p@.subrange(0, 256), random.spec_state(), index as nat) == shuffled_table(s0),
            decreases 256 - index,
        {
            let ghost st = random.spec_state();
            let ghost sub = p@.subrange(0, 256);
            let swap = random.next_int((256 - index) as i32) as usize + index;
            let a = p[index];
            let b = p[swap];
            let ghost before = p@;
            p.set(index, b);
            p.set(swap, a);
            proof {
                assert(sub[index as int] == a && sub[swap as int] == b);
                assert(p@.subrange(0, 256) =~= sub.update(index as int, sub[swap as int]).update(swap as int, sub[index as int]));
                assert(shuffle_from(sub, st, index as nat) == shuffle_from(p@.subrange(0, 256), random.spec_state(), (index + 1) as nat));
                assert forall|x: int, y: int| 0 <= x < y < 256 implies #[trigger] p@[x] != #[trigger] p@[y] by {
                    let ox = if x == index { swap as int } else if x == swap { index as int } else { x };
                    let oy = if y == index { swap as int } else if y == swap { index as int } else { y };
                    assert(p@[x] == before[ox]);
                    assert(p@[y] == before[oy]);
                    assert(ox != oy);
                    if ox < oy {
                        assert(before[ox] != before[oy]);
                    } else {
                        assert(before[oy] != before[ox]);
                    }
                }
            }
            let v = p[index];
            let ghost sub1 = p@.subrange(0, 256);
            p.set(index + 256, v);
            assert(p@.subrange(0, 256) =~= sub1);
            index = index + 1;
        }
        proof {
            let sh = shuffled_table(s0);
            assert(sh == (p@.subrange(0, 256), random.spec_state()));
            assert forall|i: int| 0 <= i < 512 implies #[trigger] p@[i] == (sh.0 + sh.0)[i] by {
                if i >= 256 {
                    assert(p@[(i - 256) + 256] == p@[i - 256]);
                }
            }
            assert(p@ =~= sh.0 + sh.0);
        }
        ImprovedNoise { permutations: p }
    }

    /// Entry `i` of the table.
    pub fn permutation(&self, i: usize) -> (r: usize)
        requires
            i < self.table().len(),
        ensures
            r == self.table()[i as int],
    {
        self.permutations[i]
    }
}

/// Eight octaves of improved noise.
#[derive(Clone, Debug)]
pub struct OctaveNoise {
    octaves: Vec<ImprovedNoise>,
}

impl OctaveNoise {
    pub closed spec fn octave_seq(&self) -> Seq<ImprovedNoise> {
        self.octaves@
    }

    /// Builds eight tables in order from `random`.
    pub fn new(random: &mut JavaRandom) -> (r: OctaveNoise)
        ensures
            r.octave_seq().len() == 8,
            forall|i: int| 0 <= i < 8 ==> (#[trigger] r.octave_seq()[i]).table()
                == noise_table(state_after_tables(old(random).spec_state(), i as nat)),
            final(random).spec_state() == state_after_tables(old(random).spec_state(), 8),
            forall|i: int| 0 <= i < 8 ==> (#[trigger] r.octave_seq()[i]).table().len() == 512,
    {
        let ghost s0 = random.spec_state();
        let mut octaves: Vec<ImprovedNoise> = Vec::new();
        let mut i: usize = 0;
        while i < 8
            invariant
                i <= 8,
                octaves@.len() == i,
                random.spec_state() == state_after_tables(s0, i as nat),
                forall|j: int| 0 <= j < i ==> (#[trigger] octaves@[j]).table() == noise_table(state_after_tables(s0, j as nat)),
                forall|j: int| 0 <= j < i ==> (#[trigger] octaves@[j]).table().len() == 512,
            decreases 8 - i,
        {
            octaves.push(ImprovedNoise::new(random));
            i = i + 1;
        }
        OctaveNoise { octaves }
    }

    /// Octave `i`.
    pub fn octave(&self, i: usize) -> (r: &ImprovedNoise)
        requires
            i < self.octave_seq().len(),
        ensures
            *r == self.octave_seq()[i as int],
    {
        &self.octaves[i]
    }
}

/// Octave noise sampled at coordinates offset by a second octave noise.
#[derive(Clone, Debug)]
pub struct DistortedNoise {
    pub source: OctaveNoise,
    pub distortion: OctaveNoise,
}

impl DistortedNoise {
    /// Builds the source noise, then the distortion noise, from `random`.
    pub fn new(random: &mut JavaRandom) -> (r: DistortedNoise)
        ensures
            r.source.octave_seq().len() == 8,
            r.distortion.octave_seq().len() == 8,
            forall|i: int| 0 <= i < 8 ==> (#[trigger] r.source.octave_seq()[i]).table()
                == noise_table(state_after_tables(old(random).spec_state(), i as nat)),
            forall|i: int| 0 <= i < 8 ==> (#[trigger] r.distortion.octave_seq()[i]).table()
                == noise_table(state_after_tables(state_after_tables(old(random).spec_state(), 8), i as nat)),
            final(random).spec_state() == state_after_tables(state_after_tables(old(random).spec_state(), 8), 8),
    {
        let source = OctaveNoise::new(random);
        let distortion = OctaveNoise::new(random);
        DistortedNoise { source, distortion }
    }
}

/// The block name of a classic block code; unknown codes are `air`.
pub open spec fn spec_block_name(id: u8) -> Seq<char> {
    if id == STONE {
        "stone"@
    } else if id == GRASS {
        "grass_block"@
    } else if id == DIRT {
        "dirt"@
    } else if id == WATER {
        "water"@
    } else if id == LAVA {
        "lava"@
    } else if id == SAND {
        "sand"@
    } else if id == GRAVEL {
        "gravel"@
    } else if id == GOLD_ORE {
        "gold_ore"@
    } else if id == IRON_ORE {
        "iron_ore"@
    } else if id == COAL_ORE {
        "coal_ore"@
    } else if id == LOG {
        "oak_log"@
    } else if id == LEAVES {
        "oak_leaves"@
    } else {
        "air"@
    }
}

/// The block identifier of a classic block code.
pub fn block_id(id: u8) -> (r: BlockId)
    ensures
        r@ == spec_block_name(id),
{
    BlockId::named(
        if id == STONE {
            "stone"
        } else if id == GRASS {
            "grass_block"
        } else if id == DIRT {
            "dirt"
        } else if id == WATER {
            "water"
        } else if id == LAVA {
            "lava"
        } else if id == SAND {
            "sand"
        } else if id == GRAVEL {
            "gravel"
        } else if id == GOLD_ORE {
            "gold_ore"
        } else if id == IRON_ORE {
            "iron_ore"
        } else if id == COAL_ORE {
            "coal_ore"
        } else if id == LOG {
            "oak_log"
        } else if id == LEAVES {
            "oak_leaves"
        } else {
            "air"
        },
    )
}

/// Flat index of level cell (`x`, `y`, `z`) in a level of the given width and length.
pub open spec fn level_index(width: int, length: int, x: int, y: int, z: int) -> int {
    (y * length + z) * width + x
}

pub proof fn lemma_level_index(width: int, length: int, x: int, y: int, z: int)
    requires
        0 <= x < width,
        0 <= y < 64,
        0 <= z < length,
    ensures
        0 <= level_index(width, length, x, y, z) < width * length * 64,
        level_index(width, length, x, y, z) == y * (width * length) + z * width + x,
{
    assert(0 <= level_index(width, length, x, y, z) < width * length * 64
        && level_index(width, length, x, y, z) == y * (width * length) + z * width + x) by (nonlinear_arith)
        requires
            0 <= x < width,
            0 <= y < 64,
            0 <= z < length;
}

/// Distinct cells of a level have distinct level indices.
pub proof fn lemma_level_index_injective(width: int, length: int, x1: int, y1: int, z1: int, x2: int, y2: int, z2: int)
    requires
        0 <= x1 < width,
        0 <= y1 < 64,
        0 <= z1 < length,
        0 <= x2 < width,
        0 <= y2 < 64,
        0 <= z2 < length,
        level_index(width, length, x1, y1, z1) == level_index(width, length, x2, y2, z2),
    ensures
        x1 == x2 && y1 == y2 && z1 == z2,
{
    assert(x1 == x2 && y1 == y2 && z1 == z2) by (nonlinear_arith)
        requires
            0 <= x1 < width,
            0 <= y1 < 64,
            0 <= z1 < length,
            0 <= x2 < width,
            0 <= y2 < 64,
            0 <= z2 < length,
            (y1 * length + z1) * width + x1 == (y2 * length + z2) * width + x2;
}

/// A complete finite Early Classic level.
#[derive(Clone, Debug)]
pub struct ClassicTerrain {
    width: usize,
    length: usize,
    blocks: Vec<u8>,
    spawn: [i32; 3],
}

/// Whether the chunk at `pos` starts outside the level.
pub open spec fn chunk_outside(width: int, length: int, pos: ChunkPos) -> bool {
    pos.0 < 0 || pos.1 < 0 || pos.0 * 16 >= width || pos.1 * 16 >= length
}

/// Whether every cell that the chunk at `pos` reads has a level index inside
/// the level: its farthest cell does. A chunk that overhangs a level whose
/// sides are not whole chunks reads on into the following rows.
pub open spec fn chunk_cells_in_level(width: int, length: int, pos: ChunkPos) -> bool {
    level_index(width, length, pos.0 * 16 + 15, 63, pos.1 * 16 + 15) < width * length * 64
}

impl ClassicTerrain {
    pub closed spec fn wf(&self) -> bool {
        valid_generator_size(self.width as int, self.length as int)
            && self.blocks@.len() == self.width * self.length * 64
    }

    pub closed spec fn spec_width(&self) -> int {
        self.width as int
    }

    pub closed spec fn spec_length(&self) -> int {
        self.length as int
    }

    pub closed spec fn cells(&self) -> Seq<u8> {
        self.blocks@
    }

    pub closed spec fn spec_spawn(&self) -> [i32; 3] {
        self.spawn
    }

    /// A level from its dimensions, cells (by level index) and spawn point.
    pub fn from_parts(width: usize, length: usize, blocks: Vec<u8>, spawn: [i32; 3]) -> (r: ClassicTerrain)
        requires
            valid_generator_size(width as int, length as int),
            blocks@.len() == width * length * 64,
        ensures
            r.wf(),
            r.spec_width() == width,
            r.spec_length() == length,
            r.cells() == blocks@,
            r.spec_spawn() == spawn,
    {
        ClassicTerrain { width, length, blocks, spawn }
    }

    /// The spawn point.
    pub fn spawn(&self) -> (r: [i32; 3])
        ensures
            r == self.spec_spawn(),
    {
        self.spawn
    }

    /// The level's cells, by level index.
    pub fn blocks(&self) -> (r: &Vec<u8>)
        ensures
            r@ == self.cells(),
    {
        &self.blocks
    }

    fn index(&self, x: usize, y: usize, z: usize) -> (r: usize)
        requires
            self.wf(),
            level_index(self.width as int, self.length as int, x as int, y as int, z as int) < self.blocks@.len(),
        ensures
            r as int == level_index(self.width as int, self.length as int, x as int, y as int, z as int),
            r < self.blocks@.len(),
    {
        proof {
            let w = self.width as int;
            let l = self.length as int;
            assert(y * l + z <= (y * l + z) * w && y * l <= y * l + z) by (nonlinear_arith)
                requires
                    1 <= w,
                    0 <= y,
                    0 <= z,
                    0 <= l;
        }
        (y * self.length + z) * self.width + x
    }

    /// The chunk at `pos` cut out of the level, clean; `None` when the chunk
    /// starts outside the level.
    pub fn chunk(&self, pos: ChunkPos) -> (r: Option<Chunk>)
        requires
            self.wf(),
            -0x800_0000 <= pos.0 < 0x800_0000,
            -0x800_0000 <= pos.1 < 0x800_0000,
            !chunk_outside(self.spec_width(), self.spec_length(), pos)
                ==> chunk_cells_in_level(self.spec_width(), self.spec_length(), pos),
        ensures
            match r {
                None => chunk_outside(self.spec_width(), self.spec_length(), pos),
                Some(c) => !chunk_outside(self.spec_width(), self.spec_length(), pos)
                    && c.wf() && c.spec_pos() == pos && !c.spec_dirty() && c.overrides().len() == 0
                    && forall|x: int, y: int, z: int| in_chunk(x, y, z) ==> #[trigger] c.blocks_view()[local_index(x, y, z)]
                        == spec_block_name(self.cells()[level_index(self.spec_width(), self.spec_length(), pos.0 * 16 + x, y, pos.1 * 16 + z)]),
            },
    {
        let min_x = pos.0 * 16;
        let min_z = pos.1 * 16;
        if min_x < 0 || min_z < 0 || min_x as usize >= self.width || min_z as usize >= self.length {
            return None;
        }
        let mut chunk = Chunk::new(pos);
        let ghost w = self.width as int;
        let ghost l = self.length as int;
        let mut idx: usize = 0;
        while idx < 16384
            invariant
                self.wf(),
                idx <= 16384,
                0 <= min_x < w,
                0 <= min_z < l,
                level_index(w, l, min_x + 15, 63, min_z + 15) < w * l * 64,
                min_x == pos.0 * 16,
                min_z == pos.1 * 16,
                w == self.width,
                l == self.length,
                chunk.wf(),
                chunk.spec_pos() == pos,
                chunk.overrides().len() == 0,
                forall|x: int, y: int, z: int| in_chunk(x, y, z) && local_index(x, y, z) < idx ==> #[trigger] chunk.blocks_view()[local_index(x, y, z)]
                    == spec_block_name(self.cells()[level_index(w, l, min_x + x, y, min_z + z)]),
            decreases 16384 - idx,
        {
            let x = idx % 16;
            let z = (idx / 16) % 16;
            let y = idx / 256;
            assert(local_index(x as int, y as int, z as int) == idx && in_chunk(x as int, y as int, z as int)) by (nonlinear_arith)
                requires
                    x == idx % 16,
                    z == (idx / 16) % 16,
                    y == idx / 256,
                    idx < 16384;
            let world_x = min_x as usize + x;
            let world_z = min_z as usize + z;
            assert(level_index(w, l, world_x as int, y as int, world_z as int)
                <= level_index(w, l, min_x + 15, 63, min_z + 15)) by (nonlinear_arith)
                requires
                    1 <= w,
                    1 <= l,
                    0 <= y <= 63,
                    min_x <= world_x <= min_x + 15,
                    0 <= min_z <= world_z <= min_z + 15;
            let block = self.blocks[self.index(world_x, y, world_z)];
            let ghost old_view = chunk.blocks_view();
            proof {
                chunk.lemma_wf_len();
            }
            chunk.set_block(x, y, z, block_id(block));
            proof {
                assert forall|a: int, b: int, c: int| in_chunk(a, b, c) && local_index(a, b, c) < idx + 1 implies #[trigger] chunk.blocks_view()[local_index(a, b, c)]
                    == spec_block_name(self.cells()[level_index(w, l, min_x + a, b, min_z + c)]) by {
                    if local_index(a, b, c) == idx {
                        crate::world::lemma_local_index_injective(a, b, c, x as int, y as int, z as int);
                    } else {
                        crate::world::lemma_local_index_bounds(a, b, c);
                        assert(chunk.blocks_view()[local_index(a, b, c)] == old_view[local_index(a, b, c)]);
                    }
                }
            }
            idx = idx + 1;
        }
        proof {
            assert forall|x: int, y: int, z: int| in_chunk(x, y, z) implies #[trigger] chunk.blocks_view()[local_index(x, y, z)]
                == spec_block_name(self.cells()[level_index(w, l, pos.0 * 16 + x, y, pos.1 * 16 + z)]) by {
                crate::world::lemma_local_index_bounds(x, y, z);
            }
        }
        chunk.clear_dirty();
        Some(chunk)
    }
}

/// Level sizes the generator works on: at least one block a side, with
/// coordinates and the offsets around them within `i32`, and every cell
/// addressable.
pub open spec fn valid_generator_size(width: int, length: int) -> bool {
    &&& 1 <= width <= 0x7fff_0000
    &&& 1 <= length <= 0x7fff_0000
    &&& width * length * 64 <= usize::MAX
}

/// Bound on column heights, which keeps height arithmetic within `i32`.
pub open spec fn height_bound() -> int {
    0x7fff_0000
}

/// Index of column (`x`, `z`) in the height map.
pub open spec fn column_index(width: int, x: int, z: int) -> int {
    x + z * width
}

pub proof fn lemma_column_index(width: int, length: int, x: int, z: int)
    requires
        0 <= x < width,
        0 <= z < length,
    ensures
        0 <= column_index(width, x, z) < width * length,
{
    assert(0 <= x + z * width < width * length) by (nonlinear_arith)
        requires
            0 <= x < width,
            0 <= z < length;
}

/// The staged generator of a classic level: cells by level index, a height
/// per column, and the random source the stages draw from.
#[derive(Debug)]
pub struct Generator {
    width: usize,
    length: usize,
    blocks: Vec<u8>,
    heights: Vec<i32>,
    random: JavaRandom,
}

impl Generator {
    pub closed spec fn wf(&self) -> bool {
        &&& valid_generator_size(self.width as int, self.length as int)
        &&& self.blocks@.len() == self.width * self.length * 64
        &&& self.heights@.len() == self.width * self.length
        &&& forall|i: int| 0 <= i < self.heights@.len() ==> -height_bound() <= #[trigger] self.heights@[i] <= height_bound()
    }

    pub closed spec fn spec_width(&self) -> int {
        self.width as int
    }

    pub closed spec fn spec_length(&self) -> int {
        self.length as int
    }

    /// The random source the stages draw from.
    pub closed spec fn spec_random(&self) -> JavaRandom {
        self.random
    }

    /// The cells, by level index.
    pub closed spec fn cells(&self) -> Seq<u8> {
        self.blocks@
    }

    /// The column heights, by column index.
    pub closed spec fn height_map(&self) -> Seq<i32> {
        self.heights@
    }

    /// The cell (`x`, `y`, `z`).
    pub open spec fn cell(&self, x: int, y: int, z: int) -> u8 {
        self.cells()[level_index(self.spec_width(), self.spec_length(), x, y, z)]
    }

    /// The height of column (`x`, `z`).
    pub open spec fn column_height(&self, x: int, z: int) -> i32 {
        self.height_map()[column_index(self.spec_width(), x, z)]
    }

    /// Whether (`x`, `y`, `z`) lies inside the level.
    pub open spec fn in_level(&self, x: int, y: int, z: int) -> bool {
        0 <= x < self.spec_width() && 0 <= y < 64 && 0 <= z < self.spec_length()
    }

    /// A generator for an all-air level with flat zero heights, drawing from
    /// the random source seeded with `seed`.
    pub fn new(seed: u64, width: usize, length: usize) -> (r: Generator)
        requires
            valid_generator_size(width as int, length as int),
        ensures
            r.wf(),
            r.spec_width() == width,
            r.spec_length() == length,
            forall|i: int| 0 <= i < r.cells().len() ==> #[trigger] r.cells()[i] == AIR,
            forall|i: int| 0 <= i < r.height_map().len() ==> #[trigger] r.height_map()[i] == 0,
            r.spec_random().spec_state() == (seed ^ LCG_MULTIPLIER) & LCG_MASK,
    {
        let n = width * length * 64;
        let columns = width * length;
        let mut blocks: Vec<u8> = Vec::new();
        let mut i: usize = 0;
        while i < n
            invariant
                i <= n,
                blocks@.len() == i,
                forall|j: int| 0 <= j < i ==> #[trigger] blocks@[j] == AIR,
            decreases n - i,
        {
            blocks.push(AIR);
            i = i + 1;
        }
        let mut heights: Vec<i32> = Vec::new();
        let mut j: usize = 0;
        while j < columns
            invariant
                j <= columns,
                heights@.len() == j,
                forall|k: int| 0 <= k < j ==> #[trigger] heights@[k] == 0,
            decreases columns - j,
        {
            heights.push(0);
            j = j + 1;
        }
        Generator { width, length, blocks, heights, random: JavaRandom::new(seed) }
    }

    /// The random source, for building the noise of a stage.
    pub fn random_mut(&mut self) -> (r: &mut JavaRandom)
        ensures
            *r == old(self).spec_random(),
            final(self).spec_random() == *final(r),
            final(self).spec_width() == old(self).spec_width(),
            final(self).spec_length() == old(self).spec_length(),
            final(self).cells() == old(self).cells(),
            final(self).height_map() == old(self).height_map(),
            old(self).wf() ==> final(self).wf(),
    {
        &mut self.random
    }

    /// The level width.
    pub fn width(&self) -> (r: usize)
        ensures
            r == self.spec_width(),
    {
        self.width
    }

    /// The level length.
    pub fn length(&self) -> (r: usize)
        ensures
            r == self.spec_length(),
    {
        self.length
    }

    fn index(&self, x: usize, y: usize, z: usize) -> (r: usize)
        requires
            self.wf(),
            self.in_level(x as int, y as int, z as int),
        ensures
            r as int == level_index(self.spec_width(), self.spec_length(), x as int, y as int, z as int),
            r < self.cells().len(),
    {
        proof {
            lemma_level_index(self.width as int, self.length as int, x as int, y as int, z as int);
            let w = self.width as int;
            let l = self.length as int;
            assert(y * l + z <= (y * l + z) * w && y * l <= y * l + z && (y * l + z) * w + x == level_index(w, l, x as int, y as int, z as int)) by (nonlinear_arith)
                requires
                    1 <= w,
                    0 <= y,
                    0 <= z,
                    0 <= l;
        }
        (y * self.length + z) * self.width + x
    }

    fn column(&self, x: usize, z: usize) -> (r: usize)
        requires
            self.wf(),
            x < self.spec_width(),
            z < self.spec_length(),
        ensures
            r as int == column_index(self.spec_width(), x as int, z as int),
            r < self.height_map().len(),
    {
        proof {
            lemma_column_index(self.width as int, self.length as int, x as int, z as int);
            assert(z * self.width <= column_index(self.width as int, x as int, z as int)) by (nonlinear_arith)
                requires
                    0 <= x;
        }
        x + z * self.width
    }

    /// The cell at (`x`, `y`, `z`).
    pub fn get(&self, x: usize, y: usize, z: usize) -> (r: u8)
        requires
            self.wf(),
            self.in_level(x as int, y as int, z as int),
        ensures
            r == self.cell(x as int, y as int, z as int),
    {
        self.blocks[self.index(x, y, z)]
    }

    /// The height of column (`x`, `z`).
    pub fn height(&self, x: usize, z: usize) -> (r: i32)
        requires
            self.wf(),
            x < self.spec_width(),
            z < self.spec_length(),
        ensures
            r == self.column_height(x as int, z as int),
            -height_bound() <= r <= height_bound(),
    {
        self.heights[self.column(x, z)]
    }

    /// Sets the height of column (`x`, `z`).
    pub fn set_height(&mut self, x: usize, z: usize, height: i32)
        requires
            old(self).wf(),
            x < old(self).spec_width(),
            z < old(self).spec_length(),
            -height_bound() <= height <= height_bound(),
        ensures
            final(self).wf(),
            final(self).spec_width() == old(self).spec_width(),
            final(self).spec_length() == old(self).spec_length(),
            final(self).cells() == old(self).cells(),
            final(self).height_map() == old(self).height_map().update(column_index(old(self).spec_width(), x as int, z as int), height),
            final(self).spec_random() == old(self).spec_random(),
    {
        let c = self.column(x, z);
        self.heights.set(c, height);
    }
}

/// Halves a height toward zero, as Rust's integer division does.
pub open spec fn half_toward_zero(v: int) -> int {
    if v >= 0 { v / 2 } else { -((-v) / 2) }
}

/// Erosion snaps a height to the nearest value of the column's parity at or
/// toward `parity` from it: `((height - parity) / 2) * 2 + parity`, dividing
/// toward zero.
pub open spec fn spec_eroded(height: int, parity: int) -> int {
    half_toward_zero(height - parity) * 2 + parity
}

impl Generator {
    /// Erodes column (`x`, `z`) to the given parity (0 or 1).
    pub fn erode_column(&mut self, x: usize, z: usize, parity: i32)
        requires
            old(self).wf(),
            x < old(self).spec_width(),
            z < old(self).spec_length(),
            parity == 0 || parity == 1,
        ensures
            final(self).wf(),
            final(self).spec_width() == old(self).spec_width(),
            final(self).spec_length() == old(self).spec_length(),
            final(self).cells() == old(self).cells(),
            final(self).height_map() == old(self).height_map().update(
                column_index(old(self).spec_width(), x as int, z as int),
                spec_eroded(old(self).column_height(x as int, z as int) as int, parity as int) as i32,
            ),
            final(self).spec_random() == old(self).spec_random(),
    {
        let c = self.column(x, z);
        let h = self.heights[c];
        let v: i32 = h - parity;
        let half: i32 = if v >= 0 { v / 2 } else { -((-v) / 2) };
        let e = half * 2 + parity;
        self.heights.set(c, e);
    }
}

/// The block of soil column cell `y`: stone up to `stone_top`, dirt up to
/// `dirt_top`, air above.
pub open spec fn soil_block(y: int, stone_top: int, dirt_top: int) -> u8 {
    if y <= stone_top {
        STONE
    } else if y <= dirt_top {
        DIRT
    } else {
        AIR
    }
}

impl Generator {
    /// Lays the soil of column (`x`, `z`): dirt up to 32 above the raised
    /// height, stone up to `offset` from that, air above; the column height
    /// becomes the higher of the two tops.
    pub fn apply_soil(&mut self, x: usize, z: usize, offset: i32)
        requires
            old(self).wf(),
            x < old(self).spec_width(),
            z < old(self).spec_length(),
            -height_bound() <= old(self).column_height(x as int, z as int) + 32 <= height_bound(),
            -height_bound() <= old(self).column_height(x as int, z as int) + 32 + offset <= height_bound(),
        ensures
            final(self).wf(),
            final(self).spec_width() == old(self).spec_width(),
            final(self).spec_length() == old(self).spec_length(),
            ({
                let dirt_top = old(self).column_height(x as int, z as int) + 32;
                let stone_top = dirt_top + offset;
                &&& final(self).height_map() == old(self).height_map().update(
                    column_index(old(self).spec_width(), x as int, z as int),
                    (if dirt_top >= stone_top { dirt_top } else { stone_top }) as i32,
                )
                &&& forall|y: int| 0 <= y < 64 ==> #[trigger] final(self).cell(x as int, y, z as int) == soil_block(y, stone_top, dirt_top)
            }),
            forall|i: int| 0 <= i < old(self).cells().len() && !(exists|y: int| 0 <= y < 64 && i == level_index(old(self).spec_width(), old(self).spec_length(), x as int, y, z as int))
                ==> #[trigger] final(self).cells()[i] == old(self).cells()[i],
            final(self).spec_random() == old(self).spec_random(),
    {
        let c = self.column(x, z);
        let dirt_top = self.heights[c] + 32;
        let stone_top = dirt_top + offset;
        self.heights.set(c, if dirt_top >= stone_top { dirt_top } else { stone_top });
        let ghost b0 = self.blocks@;
        let ghost w = self.width as int;
        let ghost l = self.length as int;
        let ghost r0 = self.random;
        let ghost h1 = self.heights@;
        let mut y: usize = 0;
        while y < 64
            invariant
                self.wf(),
                self.random == r0,
                self.heights@ == h1,
                w == self.spec_width(),
                l == self.spec_length(),
                x < w,
                z < l,
                y <= 64,
                self.blocks@.len() == b0.len(),
                forall|k: int| 0 <= k < y ==> #[trigger] self.blocks@[level_index(w, l, x as int, k, z as int)] == soil_block(k, stone_top as int, dirt_top as int),
                forall|i: int| 0 <= i < b0.len() && !(exists|k: int| 0 <= k < y && i == level_index(w, l, x as int, k, z as int))
                    ==> #[trigger] self.blocks@[i] == b0[i],
            decreases 64 - y,
        {
            let block = if y as i32 <= stone_top {
                STONE
            } else if y as i32 <= dirt_top {
                DIRT
            } else {
                AIR
            };
            let idx = self.index(x, y, z);
            let ghost before = self.blocks@;
            self.blocks.set(idx, block);
            proof {
                assert forall|k: int| 0 <= k < y + 1 implies #[trigger] self.blocks@[level_index(w, l, x as int, k, z as int)] == soil_block(k, stone_top as int, dirt_top as int) by {
                    lemma_level_index(w, l, x as int, k, z as int);
                    if k < y {
                        assert(before[level_index(w, l, x as int, k, z as int)] == soil_block(k, stone_top as int, dirt_top as int));
                        if level_index(w, l, x as int, k, z as int) == level_index(w, l, x as int, y as int, z as int) {
                            lemma_level_index_injective(w, l, x as int, k, z as int, x as int, y as int, z as int);
                        }
                    } else {
                        assert(level_index(w, l, x as int, k, z as int) == idx);
                        assert(self.blocks@[idx as int] == block);
                    }
                }
                assert forall|i: int| 0 <= i < b0.len() && !(exists|k: int| 0 <= k < y + 1 && i == level_index(w, l, x as int, k, z as int))
                    implies #[trigger] self.blocks@[i] == b0[i] by {
                    assert(i != level_index(w, l, x as int, y as int, z as int));
                    if exists|k: int| 0 <= k < y && i == level_index(w, l, x as int, k, z as int) {
                        let k = choose|k: int| 0 <= k < y && i == level_index(w, l, x as int, k, z as int);
                        assert(0 <= k < y + 1 && i == level_index(w, l, x as int, k, z as int));
                    }
                }
            }
            y = y + 1;
        }
        proof {
            assert forall|k: int| 0 <= k < 64 implies #[trigger] self.cell(x as int, k, z as int) == soil_block(k, stone_top as int, dirt_top as int) by {
                lemma_level_index(w, l, x as int, k, z as int);
                assert(self.blocks@[level_index(w, l, x as int, k, z as int)] == soil_block(k, stone_top as int, dirt_top as int));
            }
        }
    }

    /// Replaces the stone cell at (`bx`, `by`, `bz`) with `replacement`;
    /// cells on the level's outer shell and cells of other blocks are kept.
    pub fn carve_cell(&mut self, bx: i32, by: i32, bz: i32, replacement: u8)
        requires
            old(self).wf(),
        ensures
            final(self).wf(),
            final(self).spec_width() == old(self).spec_width(),
            final(self).spec_length() == old(self).spec_length(),
            final(self).height_map() == old(self).height_map(),
            final(self).spec_random() == old(self).spec_random(),
            final(self).cells() == if 1 <= bx < old(self).spec_width() - 1 && 1 <= by < 63 && 1 <= bz < old(self).spec_length() - 1
                && old(self).cell(bx as int, by as int, bz as int) == STONE {
                old(self).cells().update(level_index(old(self).spec_width(), old(self).spec_length(), bx as int, by as int, bz as int), replacement)
            } else {
                old(self).cells()
            },
    {
        if bx < 1 || by < 1 || bz < 1 || bx as usize >= self.width - 1 || by >= 63 || bz as usize >= self.length - 1 {
            return;
        }
        let idx = self.index(bx as usize, by as usize, bz as usize);
        if self.blocks[idx] == STONE {
            self.blocks.set(idx, replacement);
        }
    }
}

/// The surface a grown column gets: sand or gravel at or below the water
/// line where the noise says so, grass elsewhere.
pub open spec fn grown_surface(y: int, sandy: bool, gravelly: bool) -> u8 {
    if y <= 31 && sandy {
        SAND
    } else if y <= 31 && gravelly {
        GRAVEL
    } else {
        GRASS
    }
}

/// Sand and gravel grow only at or below the water line (height 31): a
/// column surface above it is grass whatever the noise says, and at or below
/// it the sand noise wins over the gravel noise, with grass where neither
/// speaks.
pub proof fn law_grown_surface_water_line(y: int, sandy: bool, gravelly: bool)
    ensures
        y > 31 ==> grown_surface(y, sandy, gravelly) == GRASS,
        grown_surface(y, sandy, gravelly) == SAND <==> (y <= 31 && sandy),
        grown_surface(y, sandy, gravelly) == GRAVEL <==> (y <= 31 && !sandy && gravelly),
        grown_surface(y, sandy, gravelly) == GRASS <==> (y > 31 || (!sandy && !gravelly)),
{
}

impl Generator {
    /// Grows the surface of column (`x`, `z`): the cell at the column height
    /// becomes sand, gravel or grass when it lies inside the level below the
    /// top and has air above it.
    pub fn grow_column(&mut self, x: usize, z: usize, sandy: bool, gravelly: bool)
        requires
            old(self).wf(),
            x < old(self).spec_width(),
            z < old(self).spec_length(),
        ensures
            final(self).wf(),
            final(self).spec_width() == old(self).spec_width(),
            final(self).spec_length() == old(self).spec_length(),
            final(self).height_map() == old(self).height_map(),
            final(self).spec_random() == old(self).spec_random(),
            ({
                let y = old(self).column_height(x as int, z as int) as int;
                final(self).cells() == if 0 <= y < 63 && old(self).cell(x as int, y + 1, z as int) == AIR {
                    old(self).cells().update(level_index(old(self).spec_width(), old(self).spec_length(), x as int, y, z as int), grown_surface(y, sandy, gravelly))
                } else {
                    old(self).cells()
                }
            }),
    {
        let y = self.height(x, z);
        if y < 0 || y >= 63 {
            return;
        }
        if self.get(x, y as usize + 1, z) != AIR {
            return;
        }
        let surface = if y <= 31 && sandy {
            SAND
        } else if y <= 31 && gravelly {
            GRAVEL
        } else {
            GRASS
        };
        let idx = self.index(x, y as usize, z);
        self.blocks.set(idx, surface);
    }

    /// The finished level, with the given spawn point.
    pub fn into_terrain(self, spawn: [i32; 3]) -> (r: ClassicTerrain)
        requires
            self.wf(),
        ensures
            r.wf(),
            r.spec_width() == self.spec_width(),
            r.spec_length() == self.spec_length(),
            r.cells() == self.cells(),
            r.spec_spawn() == spawn,
    {
        ClassicTerrain::from_parts(self.width, self.length, self.blocks, spawn)
    }
}

/// The clearance radius a tree needs at layer `y`: 2 at its top two layers
/// and above, 1 below.
pub open spec fn clearance(y: int, base_y: int, height: int) -> int {
    if y >= base_y + height - 1 { 2 } else { 1 }
}

/// Whether the cell (`bx`, `y`, `bz`) lies in the space a tree at (`x`,
/// `base_y`, `z`) of the given height needs clear.
pub open spec fn in_tree_space(x: int, base_y: int, z: int, height: int, bx: int, y: int, bz: int) -> bool {
    base_y <= y <= base_y + height + 1 && x - clearance(y, base_y, height) <= bx <= x + clearance(y, base_y, height)
        && z - clearance(y, base_y, height) <= bz <= z + clearance(y, base_y, height)
}

/// Whether a cell is inside the level and holds air.
pub open spec fn clear_cell(g: Generator, bx: int, y: int, bz: int) -> bool {
    g.in_level(bx, y, bz) && g.cell(bx, y, bz) == AIR
}

/// Whether the cells of the tree space visited before (`cy`, `cbx`, `cbz`)
/// (layer by layer, then by `x`, then by `z`) are clear.
spec fn space_clear_before(g: Generator, x: int, base_y: int, z: int, height: int, cy: int, cbx: int, cbz: int) -> bool {
    forall|y: int, bx: int, bz: int|
        #![trigger in_tree_space(x, base_y, z, height, bx, y, bz)]
        in_tree_space(x, base_y, z, height, bx, y, bz) && (y < cy || (y == cy && (bx < cbx || (bx == cbx && bz < cbz))))
            ==> clear_cell(g, bx, y, bz)
}

/// Whether a tree of the given height fits at (`x`, `base_y`, `z`): its
/// whole space is inside the level and air, its base is above the bottom and
/// low enough for its crown, and it stands on grass.
pub open spec fn spec_can_place_tree(g: Generator, x: int, base_y: int, z: int, height: int) -> bool {
    &&& forall|y: int, bx: int, bz: int|
        #![trigger in_tree_space(x, base_y, z, height, bx, y, bz)]
        in_tree_space(x, base_y, z, height, bx, y, bz) ==> clear_cell(g, bx, y, bz)
    &&& 0 < base_y < 64 - height - 1
    &&& g.cell(x, base_y - 1, z) == GRASS
}

/// The block a tree at (`x`, `base_y`, `z`) of the given height puts at a
/// cell: its log trunk, its leaf crown (three layers of 3x3 up to one above
/// the trunk, without the corners of the top layer), and dirt under the
/// trunk; `None` for cells it leaves alone.
pub open spec fn tree_block(x: int, base_y: int, z: int, height: int, bx: int, y: int, bz: int) -> Option<u8> {
    if bx == x && bz == z && base_y <= y < base_y + height {
        Some(LOG)
    } else if base_y + height - 2 <= y <= base_y + height && x - 1 <= bx <= x + 1 && z - 1 <= bz <= z + 1
        && !(y == base_y + height && (bx - x == 1 || x - bx == 1) && (bz - z == 1 || z - bz == 1)) {
        Some(LEAVES)
    } else if bx == x && bz == z && y == base_y - 1 {
        Some(DIRT)
    } else {
        None
    }
}

/// Bounds that keep tree coordinates within `i32`.
pub open spec fn tree_args_fit(g: Generator, x: int, base_y: int, z: int, height: int) -> bool {
    &&& 0 <= x < g.spec_width()
    &&& 0 <= z < g.spec_length()
    &&& -height_bound() - 1 <= base_y <= height_bound() + 1
    &&& 0 <= height <= 64
}

impl Generator {
    /// Whether a tree of the given height fits at (`x`, `base_y`, `z`).
    pub fn can_place_tree(&self, x: i32, base_y: i32, z: i32, height: i32) -> (r: bool)
        requires
            self.wf(),
            tree_args_fit(*self, x as int, base_y as int, z as int, height as int),
        ensures
            r == spec_can_place_tree(*self, x as int, base_y as int, z as int, height as int),
    {
        let w = self.width as i32;
        let l = self.length as i32;
        let mut y: i32 = base_y;
        while y <= base_y + height + 1
            invariant
                self.wf(),
                w == self.spec_width(),
                l == self.spec_length(),
                tree_args_fit(*self, x as int, base_y as int, z as int, height as int),
                base_y <= y <= base_y + height + 2,
                space_clear_before(*self, x as int, base_y as int, z as int, height as int, y as int, x - 2, z - 2),
            decreases base_y + height + 2 - y,
        {
            let radius: i32 = if y >= base_y + height - 1 { 2 } else { 1 };
            let mut bx: i32 = x - radius;
            proof {
                let g = *self;
                assert forall|yy: int, cx: int, cz: int|
                    #![trigger in_tree_space(x as int, base_y as int, z as int, height as int, cx, yy, cz)]
                    in_tree_space(x as int, base_y as int, z as int, height as int, cx, yy, cz) && (yy < y || (yy == y && (cx < bx || (cx == bx && cz < z - 2))))
                        implies clear_cell(g, cx, yy, cz) by {
                    assert(yy < y || (yy == y && (cx < x - 2 || (cx == x - 2 && cz < z - 2))));
                }
            }
            while bx <= x + radius
                invariant
                    self.wf(),
                    w == self.spec_width(),
                    l == self.spec_length(),
                    tree_args_fit(*self, x as int, base_y as int, z as int, height as int),
                    base_y <= y <= base_y + height + 1,
                    radius == clearance(y as int, base_y as int, height as int),
                    x - radius <= bx <= x + radius + 1,
                    space_clear_before(*self, x as int, base_y as int, z as int, height as int, y as int, bx as int, z - 2),
                decreases x + radius + 1 - bx,
            {
                let mut bz: i32 = z - radius;
                proof {
                    let g = *self;
                    assert forall|yy: int, cx: int, cz: int|
                        #![trigger in_tree_space(x as int, base_y as int, z as int, height as int, cx, yy, cz)]
                        in_tree_space(x as int, base_y as int, z as int, height as int, cx, yy, cz) && (yy < y || (yy == y && (cx < bx || (cx == bx && cz < bz))))
                            implies clear_cell(g, cx, yy, cz) by {
                        assert(yy < y || (yy == y && (cx < bx || (cx == bx && cz < z - 2))));
                    }
                }
                while bz <= z + radius
                    invariant
                        self.wf(),
                        w == self.spec_width(),
                        l == self.spec_length(),
                        tree_args_fit(*self, x as int, base_y as int, z as int, height as int),
                        base_y <= y <= base_y + height + 1,
                        radius == clearance(y as int, base_y as int, height as int),
                        x - radius <= bx <= x + radius,
                        z - radius <= bz <= z + radius + 1,
                        space_clear_before(*self, x as int, base_y as int, z as int, height as int, y as int, bx as int, bz as int),
                    decreases z + radius + 1 - bz,
                {
                    if bx < 0 || bz < 0 || y < 0 || bx >= w || bz >= l || y >= 64 {
                        proof {
                            assert(in_tree_space(x as int, base_y as int, z as int, height as int, bx as int, y as int, bz as int));
                            assert(!clear_cell(*self, bx as int, y as int, bz as int));
                            let _ = self.cell(bx as int, y as int, bz as int);
                        }
                        return false;
                    }
                    if self.get(bx as usize, y as usize, bz as usize) != AIR {
                        proof {
                            assert(in_tree_space(x as int, base_y as int, z as int, height as int, bx as int, y as int, bz as int));
                        }
                        return false;
                    }
                    proof {
                        let g = *self;
                        assert(clear_cell(g, bx as int, y as int, bz as int));
                        assert forall|yy: int, cx: int, cz: int|
                            #![trigger in_tree_space(x as int, base_y as int, z as int, height as int, cx, yy, cz)]
                            in_tree_space(x as int, base_y as int, z as int, height as int, cx, yy, cz) && (yy < y || (yy == y && (cx < bx || (cx == bx && cz < bz + 1))))
                                implies clear_cell(g, cx, yy, cz) by {
                            if !(yy == y && cx == bx && cz == bz) {
                                assert(yy < y || (yy == y && (cx < bx || (cx == bx && cz < bz))));
                            }
                        }
                    }
                    bz = bz + 1;
                }
                proof {
                    let g = *self;
                    assert forall|yy: int, cx: int, cz: int|
                        #![trigger in_tree_space(x as int, base_y as int, z as int, height as int, cx, yy, cz)]
                        in_tree_space(x as int, base_y as int, z as int, height as int, cx, yy, cz) && (yy < y || (yy == y && (cx < bx + 1 || (cx == bx + 1 && cz < z - 2))))
                            implies clear_cell(g, cx, yy, cz) by {
                        assert(yy < y || (yy == y && (cx < bx || (cx == bx && cz < bz))));
                    }
                }
                bx = bx + 1;
            }
            proof {
                let g = *self;
                assert forall|yy: int, cx: int, cz: int|
                    #![trigger in_tree_space(x as int, base_y as int, z as int, height as int, cx, yy, cz)]
                    in_tree_space(x as int, base_y as int, z as int, height as int, cx, yy, cz) && (yy < y + 1 || (yy == y + 1 && (cx < x - 2 || (cx == x - 2 && cz < z - 2))))
                        implies clear_cell(g, cx, yy, cz) by {
                    assert(yy < y || (yy == y && (cx < bx || (cx == bx && cz < z - 2))));
                }
            }
            y = y + 1;
        }
        proof {
            let g = *self;
            assert forall|yy: int, cx: int, cz: int|
                #![trigger in_tree_space(x as int, base_y as int, z as int, height as int, cx, yy, cz)]
                in_tree_space(x as int, base_y as int, z as int, height as int, cx, yy, cz) implies clear_cell(g, cx, yy, cz) by {
                assert(yy < y || (yy == y && (cx < x - 2 || (cx == x - 2 && cz < z - 2))));
            }
        }
        if base_y <= 0 || base_y >= 64 - height - 1 {
            return false;
        }
        let ground = self.get(x as usize, (base_y - 1) as usize, z as usize);
        ground == GRASS
    }
}

/// Whether (`bx`, `y`, `bz`) is a cell of the 3x3 layer at height `ly`
/// around column (`x`, `z`), without its corners when `trim`.
pub open spec fn in_layer(x: int, z: int, ly: int, trim: bool, bx: int, y: int, bz: int) -> bool {
    y == ly && x - 1 <= bx <= x + 1 && z - 1 <= bz <= z + 1
        && !(trim && (bx - x == 1 || x - bx == 1) && (bz - z == 1 || z - bz == 1))
}

impl Generator {
    fn set_cell(&mut self, x: usize, y: usize, z: usize, block: u8)
        requires
            old(self).wf(),
            old(self).in_level(x as int, y as int, z as int),
        ensures
            final(self).wf(),
            final(self).spec_width() == old(self).spec_width(),
            final(self).spec_length() == old(self).spec_length(),
            final(self).height_map() == old(self).height_map(),
            final(self).spec_random() == old(self).spec_random(),
            final(self).cells() == old(self).cells().update(level_index(old(self).spec_width(), old(self).spec_length(), x as int, y as int, z as int), block),
    {
        let idx = self.index(x, y, z);
        self.blocks.set(idx, block);
    }

    /// Writes `block` over a 3x3 layer (without corners when `trim`).
    fn fill_layer(&mut self, x: i32, ly: i32, z: i32, trim: bool, block: u8)
        requires
            old(self).wf(),
            1 <= x < old(self).spec_width() - 1,
            0 <= ly < 64,
            1 <= z < old(self).spec_length() - 1,
        ensures
            final(self).wf(),
            final(self).spec_width() == old(self).spec_width(),
            final(self).spec_length() == old(self).spec_length(),
            final(self).height_map() == old(self).height_map(),
            final(self).spec_random() == old(self).spec_random(),
            forall|bx: int, y: int, bz: int| #![trigger final(self).cell(bx, y, bz)] old(self).in_level(bx, y, bz) ==>
                final(self).cell(bx, y, bz) == if in_layer(x as int, z as int, ly as int, trim, bx, y, bz) { block } else { old(self).cell(bx, y, bz) },
    {
        let ghost g0 = *self;
        let ghost w = self.width as int;
        let ghost l = self.length as int;
        let mut bx: i32 = x - 1;
        while bx <= x + 1
            invariant
                self.wf(),
                g0.wf(),
                w == g0.spec_width() && w == self.spec_width(),
                l == g0.spec_length() && l == self.spec_length(),
                1 <= x < w - 1,
                0 <= ly < 64,
                1 <= z < l - 1,
                x - 1 <= bx <= x + 2,
                self.height_map() == g0.height_map(),
                self.spec_random() == g0.spec_random(),
                forall|cx: int, y: int, cz: int| #![trigger self.cell(cx, y, cz)] g0.in_level(cx, y, cz) ==>
                    self.cell(cx, y, cz) == if in_layer(x as int, z as int, ly as int, trim, cx, y, cz) && cx < bx { block } else { g0.cell(cx, y, cz) },
            decreases x + 2 - bx,
        {
            let mut bz: i32 = z - 1;
            while bz <= z + 1
                invariant
                    self.wf(),
                    g0.wf(),
                    w == g0.spec_width() && w == self.spec_width(),
                    l == g0.spec_length() && l == self.spec_length(),
                    1 <= x < w - 1,
                    0 <= ly < 64,
                    1 <= z < l - 1,
                    x - 1 <= bx <= x + 1,
                    z - 1 <= bz <= z + 2,
                    self.height_map() == g0.height_map(),
                    self.spec_random() == g0.spec_random(),
                    forall|cx: int, y: int, cz: int| #![trigger self.cell(cx, y, cz)] g0.in_level(cx, y, cz) ==>
                        self.cell(cx, y, cz) == if in_layer(x as int, z as int, ly as int, trim, cx, y, cz) && (cx < bx || (cx == bx && cz < bz)) {
                            block
                        } else {
                            g0.cell(cx, y, cz)
                        },
                decreases z + 2 - bz,
            {
                let skip = trim && (bx - x == 1 || x - bx == 1) && (bz - z == 1 || z - bz == 1);
                if !skip {
                    let ghost before = *self;
                    self.set_cell(bx as usize, ly as usize, bz as usize, block);
                    proof {
                        assert forall|cx: int, y: int, cz: int| #![trigger self.cell(cx, y, cz)] g0.in_level(cx, y, cz) implies
                            self.cell(cx, y, cz) == if in_layer(x as int, z as int, ly as int, trim, cx, y, cz) && (cx < bx || (cx == bx && cz < bz + 1)) {
                                block
                            } else {
                                g0.cell(cx, y, cz)
                            } by {
                            lemma_level_index(w, l, cx, y, cz);
                            lemma_level_index(w, l, bx as int, ly as int, bz as int);
                            if level_index(w, l, cx, y, cz) == level_index(w, l, bx as int, ly as int, bz as int) {
                                lemma_level_index_injective(w, l, cx, y, cz, bx as int, ly as int, bz as int);
                            } else {
                                assert(self.cell(cx, y, cz) == before.cell(cx, y, cz));
                            }
                        }
                    }
                } else {
                    proof {
                        assert forall|cx: int, y: int, cz: int| #![trigger self.cell(cx, y, cz)] g0.in_level(cx, y, cz) implies
                            self.cell(cx, y, cz) == if in_layer(x as int, z as int, ly as int, trim, cx, y, cz) && (cx < bx || (cx == bx && cz < bz + 1)) {
                                block
                            } else {
                                g0.cell(cx, y, cz)
                            } by {
                            assert(self.cell(cx, y, cz) == if in_layer(x as int, z as int, ly as int, trim, cx, y, cz) && (cx < bx || (cx == bx && cz < bz)) {
                                block
                            } else {
                                g0.cell(cx, y, cz)
                            });
                        }
                    }
                }
                bz = bz + 1;
            }
            proof {
                assert forall|cx: int, y: int, cz: int| #![trigger self.cell(cx, y, cz)] g0.in_level(cx, y, cz) implies
                    self.cell(cx, y, cz) == if in_layer(x as int, z as int, ly as int, trim, cx, y, cz) && cx < bx + 1 { block } else { g0.cell(cx, y, cz) } by {
                    assert(self.cell(cx, y, cz) == if in_layer(x as int, z as int, ly as int, trim, cx, y, cz) && (cx < bx || (cx == bx && cz < bz)) {
                        block
                    } else {
                        g0.cell(cx, y, cz)
                    });
                }
            }
            bx = bx + 1;
        }
        proof {
            assert forall|cx: int, y: int, cz: int| #![trigger self.cell(cx, y, cz)] g0.in_level(cx, y, cz) implies
                self.cell(cx, y, cz) == if in_layer(x as int, z as int, ly as int, trim, cx, y, cz) { block } else { g0.cell(cx, y, cz) } by {
                assert(self.cell(cx, y, cz) == if in_layer(x as int, z as int, ly as int, trim, cx, y, cz) && cx < bx { block } else { g0.cell(cx, y, cz) });
            }
        }
    }
}

impl Generator {
    /// Places a tree of the given height (at least 2) where one fits: dirt
    /// under the trunk, a leaf crown of three 3x3 layers whose top layer has
    /// no corners, and a log trunk.
    pub fn place_tree(&mut self, x: i32, base_y: i32, z: i32, height: i32)
        requires
            old(self).wf(),
            tree_args_fit(*old(self), x as int, base_y as int, z as int, height as int),
            2 <= height,
            spec_can_place_tree(*old(self), x as int, base_y as int, z as int, height as int),
        ensures
            final(self).wf(),
            final(self).spec_width() == old(self).spec_width(),
            final(self).spec_length() == old(self).spec_length(),
            final(self).height_map() == old(self).height_map(),
            final(self).spec_random() == old(self).spec_random(),
            forall|bx: int, y: int, bz: int| #![trigger final(self).cell(bx, y, bz)] old(self).in_level(bx, y, bz) ==>
                final(self).cell(bx, y, bz) == match tree_block(x as int, base_y as int, z as int, height as int, bx, y, bz) {
                    Some(b) => b,
                    None => old(self).cell(bx, y, bz),
                },
    {
        let ghost g0 = *self;
        let ghost w = self.width as int;
        let ghost l = self.length as int;
        proof {
            assert(in_tree_space(x as int, base_y as int, z as int, height as int, x - 1, base_y as int, z as int));
            assert(in_tree_space(x as int, base_y as int, z as int, height as int, x + 1, base_y as int, z as int));
            assert(in_tree_space(x as int, base_y as int, z as int, height as int, x as int, base_y as int, z - 1));
            assert(in_tree_space(x as int, base_y as int, z as int, height as int, x as int, base_y as int, z + 1));
        }
        self.set_cell(x as usize, (base_y - 1) as usize, z as usize, DIRT);
        let ghost g1 = *self;
        proof {
            assert forall|cx: int, y: int, cz: int| #![trigger g1.cell(cx, y, cz)] g0.in_level(cx, y, cz) implies
                g1.cell(cx, y, cz) == if cx == x && y == base_y - 1 && cz == z { DIRT } else { g0.cell(cx, y, cz) } by {
                lemma_level_index(w, l, cx, y, cz);
                lemma_level_index(w, l, x as int, base_y - 1, z as int);
                if level_index(w, l, cx, y, cz) == level_index(w, l, x as int, base_y - 1, z as int) {
                    lemma_level_index_injective(w, l, cx, y, cz, x as int, base_y - 1, z as int);
                }
            }
        }
        let top = base_y + height;
        self.fill_layer(x, top - 2, z, false, LEAVES);
        self.fill_layer(x, top - 1, z, false, LEAVES);
        self.fill_layer(x, top, z, true, LEAVES);
        let ghost g2 = *self;
        let mut y: i32 = base_y;
        while y < base_y + height
            invariant
                self.wf(),
                g2.wf(),
                w == g2.spec_width() && w == self.spec_width(),
                l == g2.spec_length() && l == self.spec_length(),
                0 <= x < w,
                0 <= z < l,
                0 < base_y,
                base_y + height < 63,
                base_y <= y <= base_y + height,
                self.height_map() == g2.height_map(),
                self.spec_random() == g2.spec_random(),
                forall|cx: int, yy: int, cz: int| #![trigger self.cell(cx, yy, cz)] g2.in_level(cx, yy, cz) ==>
                    self.cell(cx, yy, cz) == if cx == x && cz == z && base_y <= yy < y { LOG } else { g2.cell(cx, yy, cz) },
            decreases base_y + height - y,
        {
            let ghost before = *self;
            self.set_cell(x as usize, y as usize, z as usize, LOG);
            proof {
                assert forall|cx: int, yy: int, cz: int| #![trigger self.cell(cx, yy, cz)] g2.in_level(cx, yy, cz) implies
                    self.cell(cx, yy, cz) == if cx == x && cz == z && base_y <= yy < y + 1 { LOG } else { g2.cell(cx, yy, cz) } by {
                    lemma_level_index(w, l, cx, yy, cz);
                    lemma_level_index(w, l, x as int, y as int, z as int);
                    if level_index(w, l, cx, yy, cz) == level_index(w, l, x as int, y as int, z as int) {
                        lemma_level_index_injective(w, l, cx, yy, cz, x as int, y as int, z as int);
                    } else {
                        assert(self.cell(cx, yy, cz) == before.cell(cx, yy, cz));
                    }
                }
            }
            y = y + 1;
        }
        proof {
            assert forall|bx: int, yy: int, bz: int| #![trigger self.cell(bx, yy, bz)] g0.in_level(bx, yy, bz) implies
                self.cell(bx, yy, bz) == match tree_block(x as int, base_y as int, z as int, height as int, bx, yy, bz) {
                    Some(b) => b,
                    None => g0.cell(bx, yy, bz),
                } by {
                assert(g1.cell(bx, yy, bz) == if bx == x && yy == base_y - 1 && bz == z { DIRT } else { g0.cell(bx, yy, bz) });
                assert(self.cell(bx, yy, bz) == if bx == x && bz == z && base_y <= yy < base_y + height { LOG } else { g2.cell(bx, yy, bz) });
            }
        }
    }
}

/// The coordinates of cell `i` of a level `w` columns wide and `l` long.
pub open spec fn level_coords(w: int, l: int, i: int) -> (int, int, int) {
    (i % w, (i / w) / l, (i / w) % l)
}

/// Cell `i` of a level lies at its coordinates.
pub proof fn lemma_level_coords(w: int, l: int, i: int)
    requires
        w > 0,
        l > 0,
        0 <= i < w * l * 64,
    ensures
        0 <= level_coords(w, l, i).0 < w,
        0 <= level_coords(w, l, i).1 < 64,
        0 <= level_coords(w, l, i).2 < l,
        level_index(w, l, level_coords(w, l, i).0, level_coords(w, l, i).1, level_coords(w, l, i).2) == i,
{
    let q = i / w;
    let x = i % w;
    vstd::arithmetic::div_mod::lemma_fundamental_div_mod(i, w);
    vstd::arithmetic::div_mod::lemma_fundamental_div_mod(q, l);
    vstd::arithmetic::div_mod::lemma_mod_bound(i, w);
    vstd::arithmetic::div_mod::lemma_mod_bound(q, l);
    vstd::arithmetic::div_mod::lemma_div_pos_is_pos(i, w);
    vstd::arithmetic::div_mod::lemma_div_pos_is_pos(q, l);
    assert(q < l * 64) by (nonlinear_arith)
        requires
            i < w * l * 64,
            i == w * q + x,
            0 <= x,
            w > 0,
    ;
    assert(q / l < 64) by (nonlinear_arith)
        requires
            q < l * 64,
            q == l * (q / l) + q % l,
            0 <= q % l,
            l > 0,
    ;
    assert(level_index(w, l, x, q / l, q % l) == i) by (nonlinear_arith)
        requires
            i == w * q + x,
            q == l * (q / l) + q % l,
    ;
}

/// The cell at (`x`, `y`, `z`) of a level's cells.
pub open spec fn cell_in(w: int, l: int, c: Seq<u8>, x: int, y: int, z: int) -> u8 {
    c[level_index(w, l, x, y, z)]
}

/// Whether a tree of the given height fits at (`x`, `base_y`, `z`) in a
/// level's cells: its whole space is inside the level and air, its base is
/// above the bottom and low enough for its crown, and it stands on grass.
pub open spec fn tree_fits_in(w: int, l: int, c: Seq<u8>, x: int, base_y: int, z: int, height: int) -> bool {
    &&& forall|y: int, bx: int, bz: int|
        #![trigger in_tree_space(x, base_y, z, height, bx, y, bz)]
        in_tree_space(x, base_y, z, height, bx, y, bz) ==> (0 <= bx < w && 0 <= y < 64 && 0 <= bz < l
            && cell_in(w, l, c, bx, y, bz) == AIR)
    &&& 0 < base_y < 64 - height - 1
    &&& cell_in(w, l, c, x, base_y - 1, z) == GRASS
}

/// A level's cells with a tree grown at (`x`, `base_y`, `z`).
pub open spec fn with_tree(w: int, l: int, c: Seq<u8>, x: int, base_y: int, z: int, height: int) -> Seq<u8> {
    Seq::new(c.len(), |i: int| {
        let p = level_coords(w, l, i);
        match tree_block(x, base_y, z, height, p.0, p.1, p.2) {
            Some(b) => b,
            None => c[i],
        }
    })
}

/// One step of a tree-planting walk from (`x`, `z`) with PRNG state `s`:
/// the walk moves by the difference of two draws below 6 along each axis;
/// inside the level, a tree of height 4 or 5 grows on the column's surface
/// where it fits. The cells, PRNG state and position after it.
pub open spec fn tree_step(w: int, l: int, hm: Seq<i32>, c: Seq<u8>, s: u64, x: int, z: int) -> (Seq<u8>, u64, int, int) {
    let (s1, a1) = spec_next_int(s, 6);
    let (s2, a2) = spec_next_int(s1, 6);
    let (s3, b1) = spec_next_int(s2, 6);
    let (s4, b2) = spec_next_int(s3, 6);
    let nx = x + a1 - a2;
    let nz = z + b1 - b2;
    if nx < 0 || nz < 0 || nx >= w || nz >= l {
        (c, s4, nx, nz)
    } else {
        let base_y = hm[column_index(w, nx, nz)] + 1;
        let (s5, h) = spec_next_int(s4, 2);
        let height = h + 4;
        if tree_fits_in(w, l, c, nx, base_y, nz, height) {
            (with_tree(w, l, c, nx, base_y, nz, height), s5, nx, nz)
        } else {
            (c, s5, nx, nz)
        }
    }
}

/// The first `k` steps of a walk from (`x`, `z`).
pub open spec fn walk_steps(w: int, l: int, hm: Seq<i32>, c: Seq<u8>, s: u64, x: int, z: int, k: nat) -> (Seq<u8>, u64, int, int)
    decreases k,
{
    if k == 0 {
        (c, s, x, z)
    } else {
        let r = walk_steps(w, l, hm, c, s, x, z, (k - 1) as nat);
        tree_step(w, l, hm, r.0, r.1, r.2, r.3)
    }
}

/// The first `k` walks of 20 steps from the origin (`ox`, `oz`).
pub open spec fn group_walks(w: int, l: int, hm: Seq<i32>, c: Seq<u8>, s: u64, ox: int, oz: int, k: nat) -> (Seq<u8>, u64)
    decreases k,
{
    if k == 0 {
        (c, s)
    } else {
        let r = group_walks(w, l, hm, c, s, ox, oz, (k - 1) as nat);
        let t = walk_steps(w, l, hm, r.0, r.1, ox, oz, 20);
        (t.0, t.1)
    }
}

/// The first `k` groups of tree-planting walks: each draws an origin
/// column, then walks 20 times 20 steps from it.
pub open spec fn tree_groups(w: int, l: int, hm: Seq<i32>, c: Seq<u8>, s: u64, k: nat) -> (Seq<u8>, u64)
    decreases k,
{
    if k == 0 {
        (c, s)
    } else {
        let r = tree_groups(w, l, hm, c, s, (k - 1) as nat);
        let (s1, ox) = spec_next_int(r.1, w as i32);
        let (s2, oz) = spec_next_int(s1, l as i32);
        group_walks(w, l, hm, r.0, s2, ox as int, oz as int, 20)
    }
}

/// In a generator, the tree-fit test on its cells is the generator's.
proof fn lemma_tree_fits_in(g: Generator, x: int, base_y: int, z: int, height: int)
    ensures
        tree_fits_in(g.spec_width() as int, g.spec_length() as int, g.cells(), x, base_y, z, height)
            == spec_can_place_tree(g, x, base_y, z, height),
{
}

/// The cells after `place_tree` are those of `with_tree`.
proof fn lemma_with_tree(g0: Generator, g1: Generator, x: int, base_y: int, z: int, height: int)
    requires
        g0.wf(),
        g1.wf(),
        same_level(g0, g1),
        forall|bx: int, y: int, bz: int| #![trigger g1.cell(bx, y, bz)] g0.in_level(bx, y, bz) ==>
            g1.cell(bx, y, bz) == match tree_block(x, base_y, z, height, bx, y, bz) {
                Some(b) => b,
                None => g0.cell(bx, y, bz),
            },
    ensures
        g1.cells() == with_tree(g0.spec_width() as int, g0.spec_length() as int, g0.cells(), x, base_y, z, height),
{
    let w = g0.spec_width() as int;
    let l = g0.spec_length() as int;
    assert(g1.cells().len() == w * l * 64);
    assert(g0.cells().len() == w * l * 64);
    assert forall|i: int| 0 <= i < g1.cells().len() implies #[trigger] g1.cells()[i]
        == with_tree(w, l, g0.cells(), x, base_y, z, height)[i] by {
        lemma_level_coords(w, l, i);
        let p = level_coords(w, l, i);
        assert(g1.cell(p.0, p.1, p.2) == g1.cells()[i]);
    }
    assert(g1.cells() =~= with_tree(w, l, g0.cells(), x, base_y, z, height));
}

/// Every cell that changed from `g0` to `g1` grew: air became log or
/// leaves, or grass became dirt.
pub open spec fn only_grown(g0: Generator, g1: Generator) -> bool {
    forall|bx: int, y: int, bz: int| #![trigger g1.cell(bx, y, bz)] g0.in_level(bx, y, bz) && g1.cell(bx, y, bz) != g0.cell(bx, y, bz) ==>
        (g0.cell(bx, y, bz) == AIR && (g1.cell(bx, y, bz) == LOG || g1.cell(bx, y, bz) == LEAVES))
        || (g0.cell(bx, y, bz) == GRASS && g1.cell(bx, y, bz) == DIRT)
}

impl Generator {
    /// Plants trees: for each group (one per 4000 columns) a random origin,
    /// 20 random walks of 20 steps from it, and at each step inside the level
    /// a tree of height 4 or 5 on the column's surface wherever one fits.
    pub fn plant_trees(&mut self)
        requires
            old(self).wf(),
        ensures
            final(self).wf(),
            final(self).spec_width() == old(self).spec_width(),
            final(self).spec_length() == old(self).spec_length(),
            final(self).height_map() == old(self).height_map(),
            (final(self).cells(), final(self).spec_random().spec_state()) == tree_groups(old(self).spec_width() as int,
                old(self).spec_length() as int, old(self).height_map(), old(self).cells(), old(self).spec_random().spec_state(),
                (old(self).spec_width() * old(self).spec_length() / 4000) as nat),
            only_grown(*old(self), *final(self)),
    {
        let ghost g0 = *self;
        let w = self.width as i32;
        let l = self.length as i32;
        let ghost hm = g0.height_map();
        let ghost s0 = g0.spec_random().spec_state();
        let mut rng = self.random;
        let count = self.width * self.length / 4000;
        let mut group: usize = 0;
        while group < count
            invariant
                self.wf(),
                g0.wf(),
                w == g0.spec_width() && w == self.spec_width(),
                l == g0.spec_length() && l == self.spec_length(),
                self.height_map() == g0.height_map(),
                hm == g0.height_map(),
                only_grown(g0, *self),
                group <= count,
                (self.cells(), rng.spec_state()) == tree_groups(w as int, l as int, hm, g0.cells(), s0, group as nat),
            decreases count - group,
        {
            let ghost r = tree_groups(w as int, l as int, hm, g0.cells(), s0, group as nat);
            let origin_x = rng.next_int(w);
            let origin_z = rng.next_int(l);
            let ghost cg = self.cells();
            let ghost sg = rng.spec_state();
            proof {
                assert(tree_groups(w as int, l as int, hm, g0.cells(), s0, (group + 1) as nat)
                    == group_walks(w as int, l as int, hm, cg, sg, origin_x as int, origin_z as int, 20));
            }
            let mut walk: usize = 0;
            while walk < 20
                invariant
                    self.wf(),
                    g0.wf(),
                    w == g0.spec_width() && w == self.spec_width(),
                    l == g0.spec_length() && l == self.spec_length(),
                    self.height_map() == g0.height_map(),
                    hm == g0.height_map(),
                    only_grown(g0, *self),
                    0 <= origin_x < w,
                    0 <= origin_z < l,
                    walk <= 20,
                    (self.cells(), rng.spec_state()) == group_walks(w as int, l as int, hm, cg, sg, origin_x as int, origin_z as int, walk as nat),
                decreases 20 - walk,
            {
                let mut x = origin_x;
                let mut z = origin_z;
                let ghost cw = self.cells();
                let ghost sw = rng.spec_state();
                let mut step: usize = 0;
                while step < 20
                    invariant
                        self.wf(),
                        g0.wf(),
                        w == g0.spec_width() && w == self.spec_width(),
                        l == g0.spec_length() && l == self.spec_length(),
                        self.height_map() == g0.height_map(),
                        hm == g0.height_map(),
                        only_grown(g0, *self),
                        step <= 20,
                        origin_x - 5 * step <= x <= origin_x + 5 * step,
                        origin_z - 5 * step <= z <= origin_z + 5 * step,
                        0 <= origin_x < w,
                        0 <= origin_z < l,
                        (self.cells(), rng.spec_state(), x as int, z as int)
                            == walk_steps(w as int, l as int, hm, cw, sw, origin_x as int, origin_z as int, step as nat),
                    decreases 20 - step,
                {
                    let ghost c_before = self.cells();
                    let ghost s_before = rng.spec_state();
                    let ghost x_before = x as int;
                    let ghost z_before = z as int;
                    let dx1 = rng.next_int(6);
                    let dx2 = rng.next_int(6);
                    x = x + (dx1 - dx2);
                    let dz1 = rng.next_int(6);
                    let dz2 = rng.next_int(6);
                    z = z + (dz1 - dz2);
                    step = step + 1;
                    let ghost want = tree_step(w as int, l as int, hm, c_before, s_before, x_before, z_before);
                    if x < 0 || z < 0 || x >= w || z >= l {
                        assert((self.cells(), rng.spec_state(), x as int, z as int) == want);
                        continue;
                    }
                    let base_y = self.height(x as usize, z as usize) + 1;
                    let height = rng.next_int(2) + 4;
                    proof {
                        lemma_tree_fits_in(*self, x as int, base_y as int, z as int, height as int);
                    }
                    if self.can_place_tree(x, base_y, z, height) {
                        let ghost before = *self;
                        self.place_tree(x, base_y, z, height);
                        proof {
                            lemma_with_tree(before, *self, x as int, base_y as int, z as int, height as int);
                            assert forall|bx: int, y: int, bz: int| #![trigger self.cell(bx, y, bz)]
                                g0.in_level(bx, y, bz) && self.cell(bx, y, bz) != g0.cell(bx, y, bz) implies
                                (g0.cell(bx, y, bz) == AIR && (self.cell(bx, y, bz) == LOG || self.cell(bx, y, bz) == LEAVES))
                                || (g0.cell(bx, y, bz) == GRASS && self.cell(bx, y, bz) == DIRT) by {
                                let tb = tree_block(x as int, base_y as int, z as int, height as int, bx, y, bz);
                                assert(before.cell(bx, y, bz) == before.cell(bx, y, bz));
                                match tb {
                                    Some(b) => {
                                        if b == DIRT {
                                            assert(before.cell(bx, y, bz) == GRASS);
                                        } else {
                                            assert(in_tree_space(x as int, base_y as int, z as int, height as int, bx, y, bz));
                                            assert(before.cell(bx, y, bz) == AIR);
                                        }
                                    },
                                    None => {},
                                }
                            }
                        }
                    }
                    assert((self.cells(), rng.spec_state(), x as int, z as int) == want);
                }
                walk = walk + 1;
            }
            group = group + 1;
        }
        let ghost before = *self;
        self.random = rng;
        proof {
            assert forall|bx: int, y: int, bz: int| #![trigger self.cell(bx, y, bz)]
                g0.in_level(bx, y, bz) && self.cell(bx, y, bz) != g0.cell(bx, y, bz) implies
                (g0.cell(bx, y, bz) == AIR && (self.cell(bx, y, bz) == LOG || self.cell(bx, y, bz) == LEAVES))
                || (g0.cell(bx, y, bz) == GRASS && self.cell(bx, y, bz) == DIRT) by {
                assert(self.cell(bx, y, bz) == before.cell(bx, y, bz));
            }
        }
    }
}

/// Blocks a player can stand on: anything but air, water and lava.
pub open spec fn is_standable(b: u8) -> bool {
    b != AIR && b != WATER && b != LAVA
}

/// The highest cell at or below `y`, and above the bottom layer, of column
/// (`x`, `z`) a player can stand on; 0 when there is none.
pub open spec fn top_standable(g: Generator, x: int, z: int, y: int) -> int
    decreases y,
{
    if y <= 0 {
        0
    } else if is_standable(g.cell(x, y, z)) {
        y
    } else {
        top_standable(g, x, z, y - 1)
    }
}

/// The spawn search from PRNG state `s` after `tries` columns, `last` being
/// the last one tried: the next column is drawn in the middle half of the
/// level, and stands at one above its top standable cell; the search stops
/// at the first column standing above the middle of the level, or after
/// 10000 columns.
pub open spec fn spawn_search(g: Generator, s: u64, tries: int, last: (int, int, int)) -> (int, int, int)
    decreases 10_000 - tries,
{
    if tries >= 10_000 {
        last
    } else {
        let w = g.spec_width() as i32;
        let l = g.spec_length() as i32;
        let (s1, a) = spec_next_int(s, (w / 2) as i32);
        let (s2, b) = spec_next_int(s1, (l / 2) as i32);
        let x = a + w / 4;
        let z = b + l / 4;
        let y = top_standable(g, x, z, 63) + 1;
        if y > 32 {
            (x, y, z)
        } else {
            spawn_search(g, s2, tries + 1, (x, y, z))
        }
    }
}

impl Generator {
    /// Picks a spawn point with a generator seeded by `seed`: up to 10000
    /// random columns in the middle half of the level, stopping at the first
    /// whose standing height (one above its top standable cell) is above the
    /// middle of the level; the last one tried otherwise.
    pub fn find_spawn(&self, seed: u64) -> (r: [i32; 3])
        requires
            self.wf(),
            self.spec_width() >= 2,
            self.spec_length() >= 2,
        ensures
            (r[0] as int, r[1] as int, r[2] as int) == spawn_search(*self, (seed ^ LCG_MULTIPLIER) & LCG_MASK, 0,
                (self.spec_width() / 2, -100, self.spec_length() / 2)),
            self.spec_width() / 4 <= r[0] < self.spec_width() / 4 + self.spec_width() / 2,
            self.spec_length() / 4 <= r[2] < self.spec_length() / 4 + self.spec_length() / 2,
            r[1] == top_standable(*self, r[0] as int, r[2] as int, 63) + 1,
    {
        let w = self.width as i32;
        let l = self.length as i32;
        let mut random = JavaRandom::new(seed);
        let mut spawn: [i32; 3] = [w / 2, -100, l / 2];
        let ghost goal = spawn_search(*self, random.spec_state(), 0, (w / 2, -100, l / 2));
        let mut tries: usize = 0;
        while tries < 10_000
            invariant_except_break
                self.wf(),
                w == self.spec_width(),
                l == self.spec_length(),
                w >= 2,
                l >= 2,
                tries <= 10_000,
                tries > 0 ==> (w / 4 <= spawn[0] < w / 4 + w / 2 && l / 4 <= spawn[2] < l / 4 + l / 2
                    && spawn[1] == top_standable(*self, spawn[0] as int, spawn[2] as int, 63) + 1),
                goal == spawn_search(*self, random.spec_state(), tries as int, (spawn[0] as int, spawn[1] as int, spawn[2] as int)),
            ensures
                w / 4 <= spawn[0] < w / 4 + w / 2 && l / 4 <= spawn[2] < l / 4 + l / 2
                    && spawn[1] == top_standable(*self, spawn[0] as int, spawn[2] as int, 63) + 1,
                goal == (spawn[0] as int, spawn[1] as int, spawn[2] as int),
            decreases 10_000 - tries,
        {
            let ghost s0 = random.spec_state();
            let x = random.next_int(w / 2) + w / 4;
            let z = random.next_int(l / 2) + l / 4;
            let mut y: i32 = 63;
            while y > 0
                invariant
                    self.wf(),
                    w == self.spec_width(),
                    l == self.spec_length(),
                    0 <= x < w,
                    0 <= z < l,
                    0 <= y <= 63,
                    top_standable(*self, x as int, z as int, 63) == top_standable(*self, x as int, z as int, y as int),
                ensures
                    0 <= y <= 63,
                    top_standable(*self, x as int, z as int, 63) == y,
                decreases y,
            {
                let block = self.get(x as usize, y as usize, z as usize);
                if block != AIR && block != WATER && block != LAVA {
                    break;
                }
                y = y - 1;
            }
            y = y + 1;
            spawn = [x, y, z];
            tries = tries + 1;
            if y > 32 {
                break;
            }
        }
        spawn
    }
}

/// Number of air cells.
pub open spec fn air_count(s: Seq<u8>) -> nat
    decreases s.len(),
{
    if s.len() == 0 {
        0
    } else {
        air_count(s.drop_last()) + if s.last() == AIR { 1nat } else { 0nat }
    }
}

proof fn lemma_air_count_update(s: Seq<u8>, i: int, v: u8)
    requires
        0 <= i < s.len(),
    ensures
        air_count(s.update(i, v)) + (if s[i] == AIR { 1int } else { 0int }) == air_count(s) + (if v == AIR { 1int } else { 0int }),
    decreases s.len(),
{
    if i == s.len() - 1 {
        assert(s.update(i, v).drop_last() =~= s.drop_last());
    } else {
        assert(s.update(i, v).drop_last() =~= s.drop_last().update(i, v));
        lemma_air_count_update(s.drop_last(), i, v);
    }
}

/// Whether `c` is a horizontal neighbour of `p` or the cell below it: the
/// cells a fluid at `p` spreads to.
pub open spec fn spreads_to(p: (int, int, int), c: (int, int, int)) -> bool {
    ||| (c.1 == p.1 && c.2 == p.2 && (c.0 == p.0 - 1 || c.0 == p.0 + 1))
    ||| (c.1 == p.1 && c.0 == p.0 && (c.2 == p.2 - 1 || c.2 == p.2 + 1))
    ||| (c.0 == p.0 && c.2 == p.2 && c.1 == p.1 - 1)
}

/// Whether the flood turned cell `c` from air into `fluid`.
pub open spec fn is_flooded(g0: Generator, g: Generator, fluid: u8, c: (int, int, int)) -> bool {
    g0.in_level(c.0, c.1, c.2) && g0.cell(c.0, c.1, c.2) == AIR && g.cell(c.0, c.1, c.2) == fluid
}

/// A flooded cell is sealed: none of the cells it spreads to is air, and a
/// lava cell has turned the water below it into stone.
pub open spec fn flood_sealed(g0: Generator, g: Generator, fluid: u8, c: (int, int, int)) -> bool {
    let (x, y, z) = c;
    &&& (x > 0 ==> g.cell(x - 1, y, z) != AIR)
    &&& (x + 1 < g.spec_width() ==> g.cell(x + 1, y, z) != AIR)
    &&& (z > 0 ==> g.cell(x, y, z - 1) != AIR)
    &&& (z + 1 < g.spec_length() ==> g.cell(x, y, z + 1) != AIR)
    &&& (y > 0 ==> g.cell(x, y - 1, z) != AIR)
    &&& (fluid == LAVA && y > 0 && g0.cell(x, y - 1, z) == WATER ==> g.cell(x, y - 1, z) == STONE)
}

/// The only changes of a flood: air became `fluid`, and with lava, water
/// right below a flooded cell became stone.
pub open spec fn flood_changes(g0: Generator, g: Generator, fluid: u8) -> bool {
    forall|x: int, y: int, z: int| #![trigger g.cell(x, y, z)] g0.in_level(x, y, z) && g.cell(x, y, z) != g0.cell(x, y, z) ==>
        (g0.cell(x, y, z) == AIR && g.cell(x, y, z) == fluid)
        || (fluid == LAVA && g0.cell(x, y, z) == WATER && g.cell(x, y, z) == STONE && is_flooded(g0, g, fluid, (x, y + 1, z)))
}

/// Whether cell `k` of `order` is reached from an earlier cell.
pub open spec fn reached(order: Seq<(int, int, int)>, k: int) -> bool {
    exists|j: int| 0 <= j < k && spreads_to(order[j], order[k])
}

/// `order` lists the flooded cells in an order in which each cell after the
/// first (`start`) is reached from an earlier one.
pub open spec fn flood_order(g0: Generator, g: Generator, fluid: u8, start: (int, int, int), order: Seq<(int, int, int)>) -> bool {
    &&& order.len() >= 1
    &&& order[0] == start
    &&& forall|k: int| 0 <= k < order.len() ==> #[trigger] is_flooded(g0, g, fluid, order[k])
    &&& forall|k: int| 0 < k < order.len() ==> #[trigger] reached(order, k)
    &&& forall|x: int, y: int, z: int| #[trigger] is_flooded(g0, g, fluid, (x, y, z)) ==> order.contains((x, y, z))
}

/// The outcome of flooding from `start` with `fluid`: nothing when `start`
/// is not air; otherwise exactly the air cells reachable from `start` by
/// horizontal and downward steps through air become `fluid` (listed by a
/// reaching order, and each sealed off), and lava turns the water under it
/// into stone.
pub open spec fn flood_result(g0: Generator, g: Generator, fluid: u8, start: (int, int, int)) -> bool {
    if g0.cell(start.0, start.1, start.2) != AIR {
        g.cells() == g0.cells()
    } else {
        &&& flood_changes(g0, g, fluid)
        &&& exists|order: Seq<(int, int, int)>| flood_order(g0, g, fluid, start, order)
        &&& forall|x: int, y: int, z: int| #[trigger] is_flooded(g0, g, fluid, (x, y, z)) ==> flood_sealed(g0, g, fluid, (x, y, z))
    }
}

/// The view of a stack of cells.
pub open spec fn stack_view(s: Seq<(usize, usize, usize)>) -> Seq<(int, int, int)> {
    s.map_values(|c: (usize, usize, usize)| (c.0 as int, c.1 as int, c.2 as int))
}

/// The flood's loop invariant: the changes so far are those of a flood, the
/// cells flooded so far are listed in reaching order, the pending cells are
/// flooded, and every other flooded cell (but `open`) is sealed.
spec fn flood_inv(g0: Generator, g: Generator, fluid: u8, start: (int, int, int), order: Seq<(int, int, int)>, stack: Seq<(int, int, int)>, open: Option<(int, int, int)>) -> bool {
    &&& flood_changes(g0, g, fluid)
    &&& flood_order(g0, g, fluid, start, order)
    &&& forall|i: int| 0 <= i < stack.len() ==> #[trigger] is_flooded(g0, g, fluid, stack[i])
    &&& forall|x: int, y: int, z: int| #[trigger] is_flooded(g0, g, fluid, (x, y, z)) && !stack.contains((x, y, z)) && open != Some((x, y, z))
        ==> flood_sealed(g0, g, fluid, (x, y, z))
}

impl Generator {
    /// Frame of a single-cell update.
    proof fn lemma_update(g1: Generator, g2: Generator, x: int, y: int, z: int, v: u8)
        requires
            g1.wf(),
            g1.in_level(x, y, z),
            g2.spec_width() == g1.spec_width(),
            g2.spec_length() == g1.spec_length(),
            g2.cells() == g1.cells().update(level_index(g1.spec_width(), g1.spec_length(), x, y, z), v),
        ensures
            forall|a: int, b: int, c: int| #![trigger g2.cell(a, b, c)] g1.in_level(a, b, c) ==>
                g2.cell(a, b, c) == if a == x && b == y && c == z { v } else { g1.cell(a, b, c) },
    {
        let w = g1.spec_width();
        let l = g1.spec_length();
        assert forall|a: int, b: int, c: int| #![trigger g2.cell(a, b, c)] g1.in_level(a, b, c) implies
            g2.cell(a, b, c) == if a == x && b == y && c == z { v } else { g1.cell(a, b, c) } by {
            lemma_level_index(w, l, a, b, c);
            lemma_level_index(w, l, x, y, z);
            if level_index(w, l, a, b, c) == level_index(w, l, x, y, z) {
                lemma_level_index_injective(w, l, a, b, c, x, y, z);
            }
        }
    }
}

/// Cells that are not air keep their block across a change.
pub open spec fn keeps_solid(g1: Generator, g2: Generator) -> bool {
    forall|a: int, b: int, c: int| #![trigger g2.cell(a, b, c)] g1.in_level(a, b, c) && g1.cell(a, b, c) != AIR ==> g2.cell(a, b, c) == g1.cell(a, b, c)
}

proof fn lemma_flood_fill_step(g0: Generator, g1: Generator, g2: Generator, fluid: u8, start: (int, int, int),
    order: Seq<(int, int, int)>, stack: Seq<(int, int, int)>, c: (int, int, int), n: (int, int, int))
    requires
        g0.wf(),
        g1.wf(),
        g1.spec_width() == g0.spec_width(),
        g1.spec_length() == g0.spec_length(),
        g2.spec_width() == g0.spec_width(),
        g2.spec_length() == g0.spec_length(),
        fluid == WATER || fluid == LAVA,
        flood_inv(g0, g1, fluid, start, order, stack, Some(c)),
        is_flooded(g0, g1, fluid, c),
        order.contains(c),
        g1.in_level(n.0, n.1, n.2),
        g1.cell(n.0, n.1, n.2) == AIR,
        spreads_to(c, n),
        g2.cells() == g1.cells().update(level_index(g1.spec_width(), g1.spec_length(), n.0, n.1, n.2), fluid),
    ensures
        flood_inv(g0, g2, fluid, start, order.push(n), stack.push(n), Some(c)),
        keeps_solid(g1, g2),
        is_flooded(g0, g2, fluid, c),
        order.push(n).contains(c),
        g2.cell(n.0, n.1, n.2) == fluid,
{
    Generator::lemma_update(g1, g2, n.0, n.1, n.2, fluid);
    assert(g0.cell(n.0, n.1, n.2) == AIR) by {
        assert(g1.cell(n.0, n.1, n.2) == g1.cell(n.0, n.1, n.2));
    }
    let order2 = order.push(n);
    let stack2 = stack.push(n);
    assert forall|x: int, y: int, z: int| #![trigger g2.cell(x, y, z)] g0.in_level(x, y, z) && g2.cell(x, y, z) != g0.cell(x, y, z) implies
        (g0.cell(x, y, z) == AIR && g2.cell(x, y, z) == fluid)
        || (fluid == LAVA && g0.cell(x, y, z) == WATER && g2.cell(x, y, z) == STONE && is_flooded(g0, g2, fluid, (x, y + 1, z))) by {
        if !(x == n.0 && y == n.1 && z == n.2) {
            assert(g2.cell(x, y, z) == g1.cell(x, y, z));
            if fluid == LAVA && g0.cell(x, y, z) == WATER && g1.cell(x, y, z) == STONE {
                assert(is_flooded(g0, g1, fluid, (x, y + 1, z)));
                assert(g2.cell(x, y + 1, z) == g1.cell(x, y + 1, z));
            }
        }
    }
    assert forall|k: int| 0 <= k < order2.len() implies #[trigger] is_flooded(g0, g2, fluid, order2[k]) by {
        if k < order.len() {
            assert(is_flooded(g0, g1, fluid, order[k]));
            let o = order[k];
            assert(g2.cell(o.0, o.1, o.2) == g1.cell(o.0, o.1, o.2));
        }
    }
    assert forall|k: int| 0 < k < order2.len() implies #[trigger] reached(order2, k) by {
        if k < order.len() {
            assert(reached(order, k));
            let j = choose|j: int| 0 <= j < k && spreads_to(order[j], order[k]);
            assert(spreads_to(order2[j], order2[k]));
        } else {
            let j = choose|j: int| 0 <= j < order.len() && order[j] == c;
            assert(spreads_to(order2[j], order2[k]));
        }
    }
    assert forall|x: int, y: int, z: int| #[trigger] is_flooded(g0, g2, fluid, (x, y, z)) implies order2.contains((x, y, z)) by {
        if x == n.0 && y == n.1 && z == n.2 {
            assert(order2[order.len() as int] == n);
        } else {
            assert(g2.cell(x, y, z) == g1.cell(x, y, z));
            assert(is_flooded(g0, g1, fluid, (x, y, z)));
            let k = choose|k: int| 0 <= k < order.len() && order[k] == (x, y, z);
            assert(order2[k] == (x, y, z));
        }
    }
    assert forall|i: int| 0 <= i < stack2.len() implies #[trigger] is_flooded(g0, g2, fluid, stack2[i]) by {
        if i < stack.len() {
            assert(is_flooded(g0, g1, fluid, stack[i]));
            let o = stack[i];
            assert(g2.cell(o.0, o.1, o.2) == g1.cell(o.0, o.1, o.2));
        }
    }
    assert forall|x: int, y: int, z: int| #[trigger] is_flooded(g0, g2, fluid, (x, y, z)) && !stack2.contains((x, y, z)) && Some(c) != Some((x, y, z))
        implies flood_sealed(g0, g2, fluid, (x, y, z)) by {
        assert(!(x == n.0 && y == n.1 && z == n.2)) by {
            if x == n.0 && y == n.1 && z == n.2 {
                assert(stack2[stack.len() as int] == (x, y, z));
            }
        }
        assert(g2.cell(x, y, z) == g1.cell(x, y, z));
        assert(is_flooded(g0, g1, fluid, (x, y, z)));
        assert(!stack.contains((x, y, z))) by {
            if stack.contains((x, y, z)) {
                let i = choose|i: int| 0 <= i < stack.len() && stack[i] == (x, y, z);
                assert(stack2[i] == (x, y, z));
            }
        }
        assert(flood_sealed(g0, g1, fluid, (x, y, z)));
        if x > 0 {
            assert(g2.cell(x - 1, y, z) == g1.cell(x - 1, y, z));
        }
        if x + 1 < g1.spec_width() {
            assert(g2.cell(x + 1, y, z) == g1.cell(x + 1, y, z));
        }
        if z > 0 {
            assert(g2.cell(x, y, z - 1) == g1.cell(x, y, z - 1));
        }
        if z + 1 < g1.spec_length() {
            assert(g2.cell(x, y, z + 1) == g1.cell(x, y, z + 1));
        }
        if y > 0 {
            assert(g2.cell(x, y - 1, z) == g1.cell(x, y - 1, z));
        }
    }
    assert(order2.contains(c)) by {
        let j = choose|j: int| 0 <= j < order.len() && order[j] == c;
        assert(order2[j] == c);
    }
    assert(g2.cell(c.0, c.1, c.2) == g1.cell(c.0, c.1, c.2));
    assert(flood_changes(g0, g2, fluid));
    assert(order2.len() >= 1 && order2[0] == start);
    assert(flood_order(g0, g2, fluid, start, order2));
}

proof fn lemma_flood_stone_step(g0: Generator, g1: Generator, g2: Generator, fluid: u8, start: (int, int, int),
    order: Seq<(int, int, int)>, stack: Seq<(int, int, int)>, c: (int, int, int))
    requires
        g0.wf(),
        g1.wf(),
        g1.spec_width() == g0.spec_width(),
        g1.spec_length() == g0.spec_length(),
        g2.spec_width() == g0.spec_width(),
        g2.spec_length() == g0.spec_length(),
        fluid == LAVA,
        flood_inv(g0, g1, fluid, start, order, stack, Some(c)),
        is_flooded(g0, g1, fluid, c),
        c.1 > 0,
        g1.cell(c.0, c.1 - 1, c.2) == WATER,
        g2.cells() == g1.cells().update(level_index(g1.spec_width(), g1.spec_length(), c.0, c.1 - 1, c.2), STONE),
    ensures
        flood_inv(g0, g2, fluid, start, order, stack, Some(c)),
        keeps_solid(g1, g2) || true,
        forall|a: int, b: int, e: int| #![trigger g2.cell(a, b, e)] g1.in_level(a, b, e) && g1.cell(a, b, e) != AIR ==> g2.cell(a, b, e) != AIR,
        forall|a: int, b: int, e: int| #![trigger g2.cell(a, b, e)] g1.in_level(a, b, e) && g1.cell(a, b, e) == STONE ==> g2.cell(a, b, e) == STONE,
        is_flooded(g0, g2, fluid, c),
        g2.cell(c.0, c.1 - 1, c.2) == STONE,
        g0.cell(c.0, c.1 - 1, c.2) == WATER,
{
    let b = (c.0, c.1 - 1, c.2);
    Generator::lemma_update(g1, g2, b.0, b.1, b.2, STONE);
    assert(g0.cell(b.0, b.1, b.2) == WATER) by {
        assert(g1.cell(b.0, b.1, b.2) == g1.cell(b.0, b.1, b.2));
    }
    assert forall|x: int, y: int, z: int| #![trigger g2.cell(x, y, z)] g0.in_level(x, y, z) && g2.cell(x, y, z) != g0.cell(x, y, z) implies
        (g0.cell(x, y, z) == AIR && g2.cell(x, y, z) == fluid)
        || (fluid == LAVA && g0.cell(x, y, z) == WATER && g2.cell(x, y, z) == STONE && is_flooded(g0, g2, fluid, (x, y + 1, z))) by {
        if x == b.0 && y == b.1 && z == b.2 {
            assert(g2.cell(c.0, c.1, c.2) == g1.cell(c.0, c.1, c.2));
        } else {
            assert(g2.cell(x, y, z) == g1.cell(x, y, z));
            if fluid == LAVA && g0.cell(x, y, z) == WATER && g1.cell(x, y, z) == STONE {
                assert(is_flooded(g0, g1, fluid, (x, y + 1, z)));
                assert(g2.cell(x, y + 1, z) == g1.cell(x, y + 1, z));
            }
        }
    }
    assert forall|x: int, y: int, z: int| is_flooded(g0, g2, fluid, (x, y, z)) == is_flooded(g0, g1, fluid, (x, y, z)) by {
        if g0.in_level(x, y, z) {
            if !(x == b.0 && y == b.1 && z == b.2) {
                assert(g2.cell(x, y, z) == g1.cell(x, y, z));
            }
        }
    }
    assert forall|k: int| 0 <= k < order.len() implies #[trigger] is_flooded(g0, g2, fluid, order[k]) by {
        assert(is_flooded(g0, g1, fluid, order[k]));
        let o = order[k];
        assert(is_flooded(g0, g2, fluid, (o.0, o.1, o.2)) == is_flooded(g0, g1, fluid, (o.0, o.1, o.2)));
    }
    assert forall|x: int, y: int, z: int| #[trigger] is_flooded(g0, g2, fluid, (x, y, z)) implies order.contains((x, y, z)) by {
        assert(is_flooded(g0, g1, fluid, (x, y, z)));
    }
    assert forall|i: int| 0 <= i < stack.len() implies #[trigger] is_flooded(g0, g2, fluid, stack[i]) by {
        assert(is_flooded(g0, g1, fluid, stack[i]));
        let o = stack[i];
        assert(is_flooded(g0, g2, fluid, (o.0, o.1, o.2)) == is_flooded(g0, g1, fluid, (o.0, o.1, o.2)));
    }
    assert forall|x: int, y: int, z: int| #[trigger] is_flooded(g0, g2, fluid, (x, y, z)) && !stack.contains((x, y, z)) && Some(c) != Some((x, y, z))
        implies flood_sealed(g0, g2, fluid, (x, y, z)) by {
        assert(is_flooded(g0, g1, fluid, (x, y, z)));
        assert(flood_sealed(g0, g1, fluid, (x, y, z)));
        if x > 0 {
            assert(g2.cell(x - 1, y, z) != AIR);
        }
        if x + 1 < g1.spec_width() {
            assert(g2.cell(x + 1, y, z) != AIR);
        }
        if z > 0 {
            assert(g2.cell(x, y, z - 1) != AIR);
        }
        if z + 1 < g1.spec_length() {
            assert(g2.cell(x, y, z + 1) != AIR);
        }
        if y > 0 {
            assert(g2.cell(x, y - 1, z) != AIR);
            if g0.cell(x, y - 1, z) == WATER {
                assert(g2.cell(x, y - 1, z) == STONE);
            }
        }
    }
    assert(g2.cell(c.0, c.1, c.2) == g1.cell(c.0, c.1, c.2));
    assert(flood_changes(g0, g2, fluid));
    assert(flood_order(g0, g2, fluid, start, order));
}

proof fn lemma_flood_pop(g0: Generator, g: Generator, fluid: u8, start: (int, int, int), order: Seq<(int, int, int)>, stack: Seq<(int, int, int)>)
    requires
        flood_inv(g0, g, fluid, start, order, stack, None),
        stack.len() > 0,
    ensures
        flood_inv(g0, g, fluid, start, order, stack.drop_last(), Some(stack.last())),
        is_flooded(g0, g, fluid, stack.last()),
        order.contains(stack.last()),
{
    let c = stack.last();
    let rest = stack.drop_last();
    assert(is_flooded(g0, g, fluid, stack[stack.len() - 1]));
    assert(is_flooded(g0, g, fluid, (c.0, c.1, c.2)));
    assert forall|i: int| 0 <= i < rest.len() implies #[trigger] is_flooded(g0, g, fluid, rest[i]) by {
        assert(rest[i] == stack[i]);
    }
    assert forall|x: int, y: int, z: int| #[trigger] is_flooded(g0, g, fluid, (x, y, z)) && !rest.contains((x, y, z)) && Some(c) != Some((x, y, z))
        implies flood_sealed(g0, g, fluid, (x, y, z)) by {
        if stack.contains((x, y, z)) {
            let i = choose|i: int| 0 <= i < stack.len() && stack[i] == (x, y, z);
            if i < rest.len() {
                assert(rest[i] == (x, y, z));
            }
        }
    }
}

proof fn lemma_flood_close(g0: Generator, g: Generator, fluid: u8, start: (int, int, int), order: Seq<(int, int, int)>, stack: Seq<(int, int, int)>, c: (int, int, int))
    requires
        flood_inv(g0, g, fluid, start, order, stack, Some(c)),
        flood_sealed(g0, g, fluid, c),
    ensures
        flood_inv(g0, g, fluid, start, order, stack, None),
{
    assert forall|x: int, y: int, z: int| #[trigger] is_flooded(g0, g, fluid, (x, y, z)) && !stack.contains((x, y, z)) && None::<(int, int, int)> != Some((x, y, z))
        implies flood_sealed(g0, g, fluid, (x, y, z)) by {
        if c == (x, y, z) {
        } else {
            assert(Some(c) != Some((x, y, z)));
        }
    }
}

impl Generator {
    /// Floods neighbour `n` of the open cell `c` when it is air, and queues it.
    fn spread(
        &mut self,
        stack: &mut Vec<(usize, usize, usize)>,
        n: (usize, usize, usize),
        fluid: u8,
        Ghost(g0): Ghost<Generator>,
        Ghost(start): Ghost<(int, int, int)>,
        Ghost(order): Ghost<Seq<(int, int, int)>>,
        Ghost(c): Ghost<(int, int, int)>,
    ) -> (r: Ghost<Seq<(int, int, int)>>)
        requires
            old(self).wf(),
            g0.wf(),
            old(self).spec_width() == g0.spec_width(),
            old(self).spec_length() == g0.spec_length(),
            fluid == WATER || fluid == LAVA,
            flood_inv(g0, *old(self), fluid, start, order, stack_view(old(stack)@), Some(c)),
            is_flooded(g0, *old(self), fluid, c),
            order.contains(c),
            old(self).in_level(n.0 as int, n.1 as int, n.2 as int),
            spreads_to(c, (n.0 as int, n.1 as int, n.2 as int)),
        ensures
            final(self).wf(),
            final(self).spec_width() == old(self).spec_width(),
            final(self).spec_length() == old(self).spec_length(),
            final(self).height_map() == old(self).height_map(),
            final(self).spec_random() == old(self).spec_random(),
            flood_inv(g0, *final(self), fluid, start, r@, stack_view(final(stack)@), Some(c)),
            is_flooded(g0, *final(self), fluid, c),
            r@.contains(c),
            keeps_solid(*old(self), *final(self)),
            final(self).cell(n.0 as int, n.1 as int, n.2 as int) != AIR,
            2 * air_count(final(self).cells()) + final(stack)@.len() <= 2 * air_count(old(self).cells()) + old(stack)@.len(),
    {
        let idx = self.index(n.0, n.1, n.2);
        if self.blocks[idx] == AIR {
            let ghost g1 = *self;
            let ghost s1 = stack_view(stack@);
            self.blocks.set(idx, fluid);
            stack.push(n);
            let ghost ni = (n.0 as int, n.1 as int, n.2 as int);
            proof {
                lemma_flood_fill_step(g0, g1, *self, fluid, start, order, s1, c, ni);
                assert(stack_view(stack@) =~= s1.push(ni));
                lemma_air_count_update(g1.cells(), idx as int, fluid);
            }
            Ghost(order.push(ni))
        } else {
            Ghost(order)
        }
    }

    /// Floods from (`x`, `y`, `z`) with `fluid` when that cell is air: the
    /// fluid spreads sideways and down through air, and lava turns the water
    /// below it into stone.
    fn flood(&mut self, x: usize, y: usize, z: usize, fluid: u8)
        requires
            old(self).wf(),
            old(self).in_level(x as int, y as int, z as int),
            fluid == WATER || fluid == LAVA,
        ensures
            final(self).wf(),
            final(self).spec_width() == old(self).spec_width(),
            final(self).spec_length() == old(self).spec_length(),
            final(self).height_map() == old(self).height_map(),
            final(self).spec_random() == old(self).spec_random(),
            flood_result(*old(self), *final(self), fluid, (x as int, y as int, z as int)),
    {
        let ghost g0 = *self;
        let ghost start = (x as int, y as int, z as int);
        let first = self.index(x, y, z);
        if self.blocks[first] != AIR {
            return;
        }
        self.blocks.set(first, fluid);
        let mut stack: Vec<(usize, usize, usize)> = Vec::new();
        stack.push((x, y, z));
        let ghost mut order: Seq<(int, int, int)> = seq![start];
        proof {
            let g1 = *self;
            Generator::lemma_update(g0, g1, x as int, y as int, z as int, fluid);
            assert(stack_view(stack@) =~= seq![start]);
            assert forall|a: int, b: int, e: int| #[trigger] is_flooded(g0, g1, fluid, (a, b, e)) implies order.contains((a, b, e)) by {
                assert(order[0] == start);
            }
            assert forall|k: int| 0 <= k < order.len() implies #[trigger] is_flooded(g0, g1, fluid, order[k]) by {}
            assert forall|i: int| 0 <= i < stack_view(stack@).len() implies #[trigger] is_flooded(g0, g1, fluid, stack_view(stack@)[i]) by {}
            assert forall|a: int, b: int, e: int| #[trigger] is_flooded(g0, g1, fluid, (a, b, e)) && !stack_view(stack@).contains((a, b, e)) && None::<(int, int, int)> != Some((a, b, e))
                implies flood_sealed(g0, g1, fluid, (a, b, e)) by {
                assert(stack_view(stack@)[0] == start);
            }
            assert(flood_changes(g0, g1, fluid));
        }
        while stack.len() > 0
            invariant
                self.wf(),
                g0.wf(),
                self.spec_width() == g0.spec_width(),
                self.spec_length() == g0.spec_length(),
                self.height_map() == g0.height_map(),
                self.spec_random() == g0.spec_random(),
                fluid == WATER || fluid == LAVA,
                start == (x as int, y as int, z as int),
                flood_inv(g0, *self, fluid, start, order, stack_view(stack@), None),
            decreases 2 * air_count(self.cells()) + stack@.len(),
        {
            let ghost s0 = stack_view(stack@);
            let ghost m0 = 2 * air_count(self.cells()) + stack@.len();
            let c = stack.pop().unwrap();
            let (cx, cy, cz) = c;
            let ghost ci = (cx as int, cy as int, cz as int);
            proof {
                assert(stack_view(stack@) =~= s0.drop_last());
                assert(s0.last() == ci);
                lemma_flood_pop(g0, *self, fluid, start, order, s0);
            }
            let w = self.width;
            let l = self.length;
            let ghost ga = *self;
            if cx > 0 {
                let Ghost(o) = self.spread(&mut stack, (cx - 1, cy, cz), fluid, Ghost(g0), Ghost(start), Ghost(order), Ghost(ci));
                proof { order = o; }
            }
            let ghost gb = *self;
            if cx + 1 < w {
                let Ghost(o) = self.spread(&mut stack, (cx + 1, cy, cz), fluid, Ghost(g0), Ghost(start), Ghost(order), Ghost(ci));
                proof { order = o; }
            }
            let ghost gc = *self;
            if cz > 0 {
                let Ghost(o) = self.spread(&mut stack, (cx, cy, cz - 1), fluid, Ghost(g0), Ghost(start), Ghost(order), Ghost(ci));
                proof { order = o; }
            }
            let ghost gd = *self;
            if cz + 1 < l {
                let Ghost(o) = self.spread(&mut stack, (cx, cy, cz + 1), fluid, Ghost(g0), Ghost(start), Ghost(order), Ghost(ci));
                proof { order = o; }
            }
            let ghost ge = *self;
            if cy > 0 {
                let below = self.index(cx, cy - 1, cz);
                if fluid == LAVA && self.blocks[below] == WATER {
                    let ghost g1 = *self;
                    self.blocks.set(below, STONE);
                    proof {
                        lemma_flood_stone_step(g0, g1, *self, fluid, start, order, stack_view(stack@), ci);
                        lemma_air_count_update(g1.cells(), below as int, STONE);
                    }
                } else {
                    let Ghost(o) = self.spread(&mut stack, (cx, cy - 1, cz), fluid, Ghost(g0), Ghost(start), Ghost(order), Ghost(ci));
                    proof { order = o; }
                }
            }
            proof {
                let g = *self;
                if cx > 0 {
                    assert(gb.cell(cx - 1, cy as int, cz as int) != AIR);
                    assert(g.cell(cx - 1, cy as int, cz as int) != AIR);
                }
                if cx + 1 < w {
                    assert(gc.cell(cx + 1, cy as int, cz as int) != AIR);
                    assert(g.cell(cx + 1, cy as int, cz as int) != AIR);
                }
                if cz > 0 {
                    assert(gd.cell(cx as int, cy as int, cz - 1) != AIR);
                    assert(g.cell(cx as int, cy as int, cz - 1) != AIR);
                }
                if cz + 1 < l {
                    assert(ge.cell(cx as int, cy as int, cz + 1) != AIR);
                    assert(g.cell(cx as int, cy as int, cz + 1) != AIR);
                }
                if cy > 0 {
                    assert(g.cell(cx as int, cy - 1, cz as int) != AIR);
                    if fluid == LAVA && g0.cell(cx as int, cy - 1, cz as int) == WATER {
                        assert(g.cell(cx as int, cy - 1, cz as int) == STONE);
                    }
                }
                assert(flood_sealed(g0, g, fluid, ci));
                lemma_flood_close(g0, g, fluid, start, order, stack_view(stack@), ci);
            }
        }
        proof {
            let g = *self;
            assert(stack_view(stack@).len() == 0);
            assert forall|a: int, b: int, e: int| #[trigger] is_flooded(g0, g, fluid, (a, b, e)) implies flood_sealed(g0, g, fluid, (a, b, e)) by {
                assert(!stack_view(stack@).contains((a, b, e)));
            }
            assert(flood_order(g0, g, fluid, start, order));
        }
    }
}

/// What a run of floods with `fluid` leaves: air became `fluid`, with lava
/// water became stone, and every cell the floods filled is sealed.
pub open spec fn flooded_with(g0: Generator, g: Generator, fluid: u8) -> bool {
    &&& forall|x: int, y: int, z: int| #![trigger g.cell(x, y, z)] g0.in_level(x, y, z) && g.cell(x, y, z) != g0.cell(x, y, z) ==>
        (g0.cell(x, y, z) == AIR && g.cell(x, y, z) == fluid) || (fluid == LAVA && g0.cell(x, y, z) == WATER && g.cell(x, y, z) == STONE)
    &&& forall|x: int, y: int, z: int| #[trigger] is_flooded(g0, g, fluid, (x, y, z)) ==> flood_sealed(g0, g, fluid, (x, y, z))
}

proof fn lemma_flood_compose(g0: Generator, g1: Generator, g2: Generator, fluid: u8, s: (int, int, int))
    requires
        g0.wf(),
        g1.wf(),
        g2.wf(),
        g1.spec_width() == g0.spec_width(),
        g1.spec_length() == g0.spec_length(),
        g2.spec_width() == g0.spec_width(),
        g2.spec_length() == g0.spec_length(),
        fluid == WATER || fluid == LAVA,
        flooded_with(g0, g1, fluid),
        g1.in_level(s.0, s.1, s.2),
        flood_result(g1, g2, fluid, s),
    ensures
        flooded_with(g0, g2, fluid),
{
    if g1.cell(s.0, s.1, s.2) != AIR {
        assert forall|x: int, y: int, z: int| #![trigger g2.cell(x, y, z)] g0.in_level(x, y, z) implies g2.cell(x, y, z) == g1.cell(x, y, z) by {}
        assert forall|x: int, y: int, z: int| #[trigger] is_flooded(g0, g2, fluid, (x, y, z)) implies flood_sealed(g0, g2, fluid, (x, y, z)) by {
            assert(is_flooded(g0, g1, fluid, (x, y, z)));
            assert(flood_sealed(g0, g1, fluid, (x, y, z)));
            if x > 0 { assert(g2.cell(x - 1, y, z) == g1.cell(x - 1, y, z)); }
            if x + 1 < g1.spec_width() { assert(g2.cell(x + 1, y, z) == g1.cell(x + 1, y, z)); }
            if z > 0 { assert(g2.cell(x, y, z - 1) == g1.cell(x, y, z - 1)); }
            if z + 1 < g1.spec_length() { assert(g2.cell(x, y, z + 1) == g1.cell(x, y, z + 1)); }
            if y > 0 { assert(g2.cell(x, y - 1, z) == g1.cell(x, y - 1, z)); }
        }
    } else {
        // Cells that are not air keep being not air; stone stays stone.
        assert forall|x: int, y: int, z: int| #![trigger g2.cell(x, y, z)] g1.in_level(x, y, z) && g1.cell(x, y, z) != AIR implies
            g2.cell(x, y, z) != AIR && (g1.cell(x, y, z) == STONE ==> g2.cell(x, y, z) == STONE)
            && (g1.cell(x, y, z) != WATER ==> g2.cell(x, y, z) == g1.cell(x, y, z)) by {
            if g2.cell(x, y, z) != g1.cell(x, y, z) {
                assert(fluid == LAVA && g1.cell(x, y, z) == WATER && g2.cell(x, y, z) == STONE && is_flooded(g1, g2, fluid, (x, y + 1, z)));
            }
        }
        assert forall|x: int, y: int, z: int| #![trigger g2.cell(x, y, z)] g0.in_level(x, y, z) && g2.cell(x, y, z) != g0.cell(x, y, z) implies
            (g0.cell(x, y, z) == AIR && g2.cell(x, y, z) == fluid) || (fluid == LAVA && g0.cell(x, y, z) == WATER && g2.cell(x, y, z) == STONE) by {
            if g1.cell(x, y, z) == g0.cell(x, y, z) {
                if g2.cell(x, y, z) != g1.cell(x, y, z) {
                    assert((g1.cell(x, y, z) == AIR && g2.cell(x, y, z) == fluid)
                        || (fluid == LAVA && g1.cell(x, y, z) == WATER && g2.cell(x, y, z) == STONE && is_flooded(g1, g2, fluid, (x, y + 1, z))));
                }
            } else {
                assert(g1.cell(x, y, z) != AIR);
            }
        }
        assert forall|x: int, y: int, z: int| #[trigger] is_flooded(g0, g2, fluid, (x, y, z)) implies flood_sealed(g0, g2, fluid, (x, y, z)) by {
            if g1.cell(x, y, z) == AIR {
                assert(is_flooded(g1, g2, fluid, (x, y, z)));
                assert(flood_sealed(g1, g2, fluid, (x, y, z)));
                if fluid == LAVA && y > 0 && g0.cell(x, y - 1, z) == WATER {
                    if g1.cell(x, y - 1, z) != WATER {
                        assert(g1.cell(x, y - 1, z) != g0.cell(x, y - 1, z));
                        assert(g1.cell(x, y - 1, z) == STONE);
                    }
                }
            } else {
                assert(g1.cell(x, y, z) == fluid) by {
                    if g1.cell(x, y, z) != g0.cell(x, y, z) {
                    } else {
                        assert(g0.cell(x, y, z) == AIR);
                    }
                }
                assert(is_flooded(g0, g1, fluid, (x, y, z)));
                assert(flood_sealed(g0, g1, fluid, (x, y, z)));
                if y > 0 {
                    assert(g1.cell(x, y - 1, z) != AIR);
                }
            }
        }
    }
}

/// A flood never turns a cell into air, and leaves its start cell not air.
proof fn lemma_flood_solid(g1: Generator, g2: Generator, fluid: u8, s: (int, int, int))
    requires
        g1.wf(),
        g2.spec_width() == g1.spec_width(),
        g2.spec_length() == g1.spec_length(),
        fluid == WATER || fluid == LAVA,
        g1.in_level(s.0, s.1, s.2),
        flood_result(g1, g2, fluid, s),
    ensures
        forall|x: int, y: int, z: int| #![trigger g2.cell(x, y, z)] g1.in_level(x, y, z) && g1.cell(x, y, z) != AIR ==> g2.cell(x, y, z) != AIR,
        g2.cell(s.0, s.1, s.2) != AIR,
{
    if g1.cell(s.0, s.1, s.2) == AIR {
        assert forall|x: int, y: int, z: int| #![trigger g2.cell(x, y, z)] g1.in_level(x, y, z) && g1.cell(x, y, z) != AIR implies g2.cell(x, y, z) != AIR by {
            if g2.cell(x, y, z) != g1.cell(x, y, z) {
                assert(fluid == LAVA && g1.cell(x, y, z) == WATER && g2.cell(x, y, z) == STONE && is_flooded(g1, g2, fluid, (x, y + 1, z)));
            }
        }
        let order = choose|order: Seq<(int, int, int)>| flood_order(g1, g2, fluid, s, order);
        assert(is_flooded(g1, g2, fluid, order[0]));
    }
}

/// Whether two generators have the same level size.
pub open spec fn same_level(a: Generator, b: Generator) -> bool {
    a.spec_width() == b.spec_width() && a.spec_length() == b.spec_length()
}

/// Whether the generators `pre` (before each flood) and `post` (after it)
/// take the cells of `g0` to those of `g1` by floods of `fluid` from
/// `starts`, in order.
pub open spec fn flood_steps(g0: Generator, g1: Generator, fluid: u8, starts: Seq<(int, int, int)>,
    pre: Seq<Generator>, post: Seq<Generator>) -> bool
{
    let n = starts.len() as int;
    &&& pre.len() == n && post.len() == n
    &&& forall|i: int| 0 <= i < n ==> same_level(#[trigger] pre[i], g0) && flood_result(pre[i], post[i], fluid, starts[i])
    &&& forall|i: int| 0 < i < n ==> (#[trigger] pre[i]).cells() == post[i - 1].cells()
    &&& n == 0 ==> g1.cells() == g0.cells()
    &&& n > 0 ==> pre[0].cells() == g0.cells() && g1.cells() == post[n - 1].cells()
}

/// Whether the cells of `g1` are those of `g0` after floods of `fluid` from
/// `starts`, one after another.
pub open spec fn floods_from(g0: Generator, g1: Generator, fluid: u8, starts: Seq<(int, int, int)>) -> bool {
    exists|pre: Seq<Generator>, post: Seq<Generator>| #[trigger] flood_steps(g0, g1, fluid, starts, pre, post)
}

proof fn lemma_flood_step(g0: Generator, g: Generator, fluid: u8, starts: Seq<(int, int, int)>, pre: Seq<Generator>,
    post: Seq<Generator>, before: Generator, after: Generator, start: (int, int, int))
    requires
        flood_steps(g0, g, fluid, starts, pre, post),
        before.cells() == g.cells(),
        same_level(before, g0),
        flood_result(before, after, fluid, start),
    ensures
        flood_steps(g0, after, fluid, starts.push(start), pre.push(before), post.push(after)),
{
    let n = starts.len() as int;
    let pre2 = pre.push(before);
    let post2 = post.push(after);
    let starts2 = starts.push(start);
    assert forall|i: int| 0 <= i < n + 1 implies same_level(#[trigger] pre2[i], g0) && flood_result(pre2[i], post2[i], fluid, starts2[i]) by {
        if i < n {
            assert(pre2[i] == pre[i]);
            assert(post2[i] == post[i]);
            assert(starts2[i] == starts[i]);
        }
    }
    assert forall|i: int| 0 < i < n + 1 implies (#[trigger] pre2[i]).cells() == post2[i - 1].cells() by {
        if i < n {
            assert(pre2[i] == pre[i]);
        }
    }
}

/// The border cells at height 31 the water floods start from: both ends of
/// each x row, then both ends of each z column.
pub open spec fn border_starts(w: int, l: int) -> Seq<(int, int, int)> {
    Seq::new((2 * w) as nat, |i: int| if i % 2 == 0 { (i / 2, 31, 0) } else { (i / 2, 31, l - 1) })
        + Seq::new((2 * l) as nat, |i: int| if i % 2 == 0 { (0, 31, i / 2) } else { (w - 1, 31, i / 2) })
}

/// The PRNG state after a random flood start is drawn from state `s`, and
/// the start: a column, then a height 29 to 31 for water (`lava` false), or
/// below 28 for lava.
pub open spec fn flood_draw(s: u64, w: int, l: int, lava: bool) -> (u64, (int, int, int)) {
    let (s1, x) = spec_next_int(s, w as i32);
    let (s2, h) = spec_next_int(s1, if lava { 28i32 } else { 3i32 });
    let (s3, z) = spec_next_int(s2, l as i32);
    (s3, (x as int, if lava { h as int } else { 31 - h }, z as int))
}

/// The PRNG state after `n` random flood starts are drawn from state `s`,
/// and the starts, in order.
pub open spec fn flood_draws(s: u64, n: nat, w: int, l: int, lava: bool) -> (u64, Seq<(int, int, int)>)
    decreases n,
{
    if n == 0 {
        (s, Seq::empty())
    } else {
        let (s1, starts) = flood_draws(s, (n - 1) as nat, w, l, lava);
        let (s2, c) = flood_draw(s1, w, l, lava);
        (s2, starts.push(c))
    }
}

impl Generator {
    /// Floods the level with water from its border at height 31, then from a
    /// random cell (at height 29 to 31) per 200 columns.
    pub fn water(&mut self)
        requires
            old(self).wf(),
        ensures
            final(self).wf(),
            final(self).spec_width() == old(self).spec_width(),
            final(self).spec_length() == old(self).spec_length(),
            final(self).height_map() == old(self).height_map(),
            flooded_with(*old(self), *final(self), WATER),
            floods_from(*old(self), *final(self), WATER, border_starts(old(self).spec_width() as int, old(self).spec_length() as int)
                + flood_draws(old(self).spec_random().spec_state(), (old(self).spec_width() * old(self).spec_length() / 200) as nat,
                    old(self).spec_width() as int, old(self).spec_length() as int, false).1),
            final(self).spec_random().spec_state() == flood_draws(old(self).spec_random().spec_state(),
                (old(self).spec_width() * old(self).spec_length() / 200) as nat, old(self).spec_width() as int,
                old(self).spec_length() as int, false).0,
            forall|x: int| 0 <= x < final(self).spec_width() ==> #[trigger] final(self).cell(x, 31, 0) != AIR,
            forall|x: int| 0 <= x < final(self).spec_width() ==> #[trigger] final(self).cell(x, 31, final(self).spec_length() - 1) != AIR,
            forall|z: int| 0 <= z < final(self).spec_length() ==> #[trigger] final(self).cell(0, 31, z) != AIR,
            forall|z: int| 0 <= z < final(self).spec_length() ==> #[trigger] final(self).cell(final(self).spec_width() - 1, 31, z) != AIR,
    {
        let ghost g0 = *self;
        let w = self.width;
        let l = self.length;
        let ghost borders = border_starts(w as int, l as int);
        let ghost mut starts: Seq<(int, int, int)> = Seq::empty();
        let ghost mut pre: Seq<Generator> = Seq::empty();
        let ghost mut post: Seq<Generator> = Seq::empty();
        let mut x: usize = 0;
        while x < w
            invariant
                self.wf(),
                g0.wf(),
                w == g0.spec_width() && w == self.spec_width(),
                l == g0.spec_length() && l == self.spec_length(),
                self.height_map() == g0.height_map(),
                x <= w,
                flooded_with(g0, *self, WATER),
                self.spec_random() == g0.spec_random(),
                borders == border_starts(w as int, l as int),
                starts == borders.take(2 * x),
                flood_steps(g0, *self, WATER, starts, pre, post),
                forall|a: int| 0 <= a < x ==> #[trigger] self.cell(a, 31, 0) != AIR,
                forall|a: int| 0 <= a < x ==> #[trigger] self.cell(a, 31, l - 1) != AIR,
            decreases w - x,
        {
            let ghost g1 = *self;
            self.flood(x, 31, 0, WATER);
            proof {
                lemma_flood_compose(g0, g1, *self, WATER, (x as int, 31, 0));
                lemma_flood_step(g0, g1, WATER, starts, pre, post, g1, *self, (x as int, 31, 0));
                starts = starts.push((x as int, 31, 0));
                pre = pre.push(g1);
                post = post.push(*self);
            }
            let ghost g2 = *self;
            self.flood(x, 31, l - 1, WATER);
            proof {
                lemma_flood_step(g0, g2, WATER, starts, pre, post, g2, *self, (x as int, 31, l - 1));
                starts = starts.push((x as int, 31, l - 1));
                pre = pre.push(g2);
                post = post.push(*self);
                assert(starts =~= borders.take(2 * x + 2));
                lemma_flood_compose(g0, g2, *self, WATER, (x as int, 31, l - 1));
                lemma_flood_solid(g1, g2, WATER, (x as int, 31, 0));
                lemma_flood_solid(g2, *self, WATER, (x as int, 31, l - 1));
                assert forall|a: int| 0 <= a < x + 1 implies #[trigger] self.cell(a, 31, 0) != AIR by {
                    if a < x {
                        assert(g1.cell(a, 31, 0) != AIR);
                        assert(g2.cell(a, 31, 0) != AIR);
                    } else {
                        assert(g2.cell(a, 31, 0) != AIR);
                    }
                }
                assert forall|a: int| 0 <= a < x + 1 implies #[trigger] self.cell(a, 31, l - 1) != AIR by {
                    if a < x {
                        assert(g1.cell(a, 31, l - 1) != AIR);
                        assert(g2.cell(a, 31, l - 1) != AIR);
                    }
                }
            }
            x = x + 1;
        }
        let mut z: usize = 0;
        while z < l
            invariant
                self.wf(),
                g0.wf(),
                w == g0.spec_width() && w == self.spec_width(),
                l == g0.spec_length() && l == self.spec_length(),
                self.height_map() == g0.height_map(),
                z <= l,
                flooded_with(g0, *self, WATER),
                self.spec_random() == g0.spec_random(),
                borders == border_starts(w as int, l as int),
                starts == borders.take(2 * w + 2 * z),
                flood_steps(g0, *self, WATER, starts, pre, post),
                forall|a: int| 0 <= a < w ==> #[trigger] self.cell(a, 31, 0) != AIR,
                forall|a: int| 0 <= a < w ==> #[trigger] self.cell(a, 31, l - 1) != AIR,
                forall|b: int| 0 <= b < z ==> #[trigger] self.cell(0, 31, b) != AIR,
                forall|b: int| 0 <= b < z ==> #[trigger] self.cell(w - 1, 31, b) != AIR,
            decreases l - z,
        {
            let ghost g1 = *self;
            self.flood(0, 31, z, WATER);
            proof {
                lemma_flood_compose(g0, g1, *self, WATER, (0, 31, z as int));
                lemma_flood_step(g0, g1, WATER, starts, pre, post, g1, *self, (0, 31, z as int));
                starts = starts.push((0, 31, z as int));
                pre = pre.push(g1);
                post = post.push(*self);
            }
            let ghost g2 = *self;
            self.flood(w - 1, 31, z, WATER);
            proof {
                lemma_flood_step(g0, g2, WATER, starts, pre, post, g2, *self, (w - 1, 31, z as int));
                starts = starts.push((w - 1, 31, z as int));
                pre = pre.push(g2);
                post = post.push(*self);
                assert(starts =~= borders.take(2 * w + 2 * z + 2));
                lemma_flood_compose(g0, g2, *self, WATER, (w - 1, 31, z as int));
                lemma_flood_solid(g1, g2, WATER, (0, 31, z as int));
                lemma_flood_solid(g2, *self, WATER, (w - 1, 31, z as int));
                assert forall|a: int| 0 <= a < w implies #[trigger] self.cell(a, 31, 0) != AIR by {
                    assert(g1.cell(a, 31, 0) != AIR);
                    assert(g2.cell(a, 31, 0) != AIR);
                }
                assert forall|a: int| 0 <= a < w implies #[trigger] self.cell(a, 31, l - 1) != AIR by {
                    assert(g1.cell(a, 31, l - 1) != AIR);
                    assert(g2.cell(a, 31, l - 1) != AIR);
                }
                assert forall|b: int| 0 <= b < z + 1 implies #[trigger] self.cell(0, 31, b) != AIR by {
                    if b < z {
                        assert(g1.cell(0, 31, b) != AIR);
                    }
                    assert(g2.cell(0, 31, b) != AIR);
                }
                assert forall|b: int| 0 <= b < z + 1 implies #[trigger] self.cell(w - 1, 31, b) != AIR by {
                    if b < z {
                        assert(g1.cell(w - 1, 31, b) != AIR);
                        assert(g2.cell(w - 1, 31, b) != AIR);
                    }
                }
            }
            z = z + 1;
        }
        assert(starts =~= borders);
        let count = self.width * self.length / 200;
        let ghost s0 = g0.spec_random().spec_state();
        let mut i: usize = 0;
        while i < count
            invariant
                self.wf(),
                g0.wf(),
                w == g0.spec_width() && w == self.spec_width(),
                l == g0.spec_length() && l == self.spec_length(),
                self.height_map() == g0.height_map(),
                i <= count,
                flooded_with(g0, *self, WATER),
                count == w * l / 200,
                s0 == g0.spec_random().spec_state(),
                borders == border_starts(w as int, l as int),
                starts == borders + flood_draws(s0, i as nat, w as int, l as int, false).1,
                self.spec_random().spec_state() == flood_draws(s0, i as nat, w as int, l as int, false).0,
                flood_steps(g0, *self, WATER, starts, pre, post),
                forall|a: int| 0 <= a < w ==> #[trigger] self.cell(a, 31, 0) != AIR,
                forall|a: int| 0 <= a < w ==> #[trigger] self.cell(a, 31, l - 1) != AIR,
                forall|b: int| 0 <= b < l ==> #[trigger] self.cell(0, 31, b) != AIR,
                forall|b: int| 0 <= b < l ==> #[trigger] self.cell(w - 1, 31, b) != AIR,
            decreases count - i,
        {
            let mut rng = self.random;
            let rx = rng.next_int(w as i32) as usize;
            let dy = rng.next_int(3) as usize;
            let rz = rng.next_int(l as i32) as usize;
            let ghost g1 = *self;
            self.set_random(rng);
            let ghost g2 = *self;
            self.flood(rx, 31 - dy, rz, WATER);
            proof {
                lemma_flood_step(g0, g1, WATER, starts, pre, post, g2, *self, (rx as int, 31 - dy, rz as int));
                let ghost prev = flood_draws(s0, i as nat, w as int, l as int, false);
                assert(flood_draw(prev.0, w as int, l as int, false) == (rng.spec_state(), (rx as int, 31 - dy, rz as int)));
                assert(flood_draws(s0, (i + 1) as nat, w as int, l as int, false).1 == prev.1.push((rx as int, 31 - dy, rz as int)));
                starts = starts.push((rx as int, 31 - dy, rz as int));
                pre = pre.push(g2);
                post = post.push(*self);
                assert(starts =~= borders + flood_draws(s0, (i + 1) as nat, w as int, l as int, false).1);
                lemma_flood_same_cells(g0, g1, g2, WATER);
                lemma_flood_compose(g0, g2, *self, WATER, (rx as int, 31 - dy, rz as int));
                lemma_flood_solid(g2, *self, WATER, (rx as int, 31 - dy, rz as int));
                assert forall|a: int| 0 <= a < w implies #[trigger] self.cell(a, 31, 0) != AIR by {
                    assert(g1.cell(a, 31, 0) != AIR);
                    assert(g2.cell(a, 31, 0) == g1.cell(a, 31, 0));
                }
                assert forall|a: int| 0 <= a < w implies #[trigger] self.cell(a, 31, l - 1) != AIR by {
                    assert(g1.cell(a, 31, l - 1) != AIR);
                    assert(g2.cell(a, 31, l - 1) == g1.cell(a, 31, l - 1));
                }
                assert forall|b: int| 0 <= b < l implies #[trigger] self.cell(0, 31, b) != AIR by {
                    assert(g1.cell(0, 31, b) != AIR);
                    assert(g2.cell(0, 31, b) == g1.cell(0, 31, b));
                }
                assert forall|b: int| 0 <= b < l implies #[trigger] self.cell(w - 1, 31, b) != AIR by {
                    assert(g1.cell(w - 1, 31, b) != AIR);
                    assert(g2.cell(w - 1, 31, b) == g1.cell(w - 1, 31, b));
                }
            }
            i = i + 1;
        }
        proof {
            assert(flood_steps(g0, *self, WATER, starts, pre, post));
        }
    }

    /// Floods lava from a random cell below height 28, once per 10000 cells.
    pub fn lava(&mut self)
        requires
            old(self).wf(),
        ensures
            final(self).wf(),
            final(self).spec_width() == old(self).spec_width(),
            final(self).spec_length() == old(self).spec_length(),
            final(self).height_map() == old(self).height_map(),
            flooded_with(*old(self), *final(self), LAVA),
            floods_from(*old(self), *final(self), LAVA, flood_draws(old(self).spec_random().spec_state(),
                (old(self).spec_width() * old(self).spec_length() * 64 / 10_000) as nat,
                old(self).spec_width() as int, old(self).spec_length() as int, true).1),
            final(self).spec_random().spec_state() == flood_draws(old(self).spec_random().spec_state(),
                (old(self).spec_width() * old(self).spec_length() * 64 / 10_000) as nat,
                old(self).spec_width() as int, old(self).spec_length() as int, true).0,
    {
        let ghost g0 = *self;
        let w = self.width;
        let l = self.length;
        let count = self.width * self.length * 64 / 10_000;
        let ghost s0 = g0.spec_random().spec_state();
        let ghost mut starts: Seq<(int, int, int)> = Seq::empty();
        let ghost mut pre: Seq<Generator> = Seq::empty();
        let ghost mut post: Seq<Generator> = Seq::empty();
        proof {
            assert(flooded_with(g0, g0, LAVA));
        }
        let mut i: usize = 0;
        while i < count
            invariant
                self.wf(),
                g0.wf(),
                w == g0.spec_width() && w == self.spec_width(),
                l == g0.spec_length() && l == self.spec_length(),
                self.height_map() == g0.height_map(),
                i <= count,
                flooded_with(g0, *self, LAVA),
                count == w * l * 64 / 10_000,
                s0 == g0.spec_random().spec_state(),
                starts == flood_draws(s0, i as nat, w as int, l as int, true).1,
                self.spec_random().spec_state() == flood_draws(s0, i as nat, w as int, l as int, true).0,
                flood_steps(g0, *self, LAVA, starts, pre, post),
            decreases count - i,
        {
            let mut rng = self.random;
            let rx = rng.next_int(w as i32) as usize;
            let ry = rng.next_int(28) as usize;
            let rz = rng.next_int(l as i32) as usize;
            let ghost g1 = *self;
            self.set_random(rng);
            let ghost g2 = *self;
            self.flood(rx, ry, rz, LAVA);
            proof {
                lemma_flood_step(g0, g1, LAVA, starts, pre, post, g2, *self, (rx as int, ry as int, rz as int));
                let ghost prev = flood_draws(s0, i as nat, w as int, l as int, true);
                assert(flood_draw(prev.0, w as int, l as int, true) == (rng.spec_state(), (rx as int, ry as int, rz as int)));
                starts = starts.push((rx as int, ry as int, rz as int));
                pre = pre.push(g2);
                post = post.push(*self);
                lemma_flood_same_cells(g0, g1, g2, LAVA);
                lemma_flood_compose(g0, g2, *self, LAVA, (rx as int, ry as int, rz as int));
            }
            i = i + 1;
        }
        proof {
            assert(flood_steps(g0, *self, LAVA, starts, pre, post));
        }
    }

    fn set_random(&mut self, random: JavaRandom)
        ensures
            final(self).spec_random() == random,
            final(self).spec_width() == old(self).spec_width(),
            final(self).spec_length() == old(self).spec_length(),
            final(self).cells() == old(self).cells(),
            final(self).height_map() == old(self).height_map(),
            old(self).wf() ==> final(self).wf(),
    {
        self.random = random;
    }
}

/// A change of the random source alone keeps what the floods so far did.
proof fn lemma_flood_same_cells(g0: Generator, g1: Generator, g2: Generator, fluid: u8)
    requires
        flooded_with(g0, g1, fluid),
        g2.cells() == g1.cells(),
        g2.spec_width() == g1.spec_width(),
        g2.spec_length() == g1.spec_length(),
    ensures
        flooded_with(g0, g2, fluid),
{
    assert forall|x: int, y: int, z: int| #![trigger g2.cell(x, y, z)] g0.in_level(x, y, z) && g2.cell(x, y, z) != g0.cell(x, y, z) implies
        (g0.cell(x, y, z) == AIR && g2.cell(x, y, z) == fluid) || (fluid == LAVA && g0.cell(x, y, z) == WATER && g2.cell(x, y, z) == STONE) by {
        assert(g2.cell(x, y, z) == g1.cell(x, y, z));
    }
    assert forall|x: int, y: int, z: int| #[trigger] is_flooded(g0, g2, fluid, (x, y, z)) implies flood_sealed(g0, g2, fluid, (x, y, z)) by {
        assert(g2.cell(x, y, z) == g1.cell(x, y, z));
        assert(is_flooded(g0, g1, fluid, (x, y, z)));
        if x > 0 { assert(g2.cell(x - 1, y, z) == g1.cell(x - 1, y, z)); }
        if x + 1 < g1.spec_width() { assert(g2.cell(x + 1, y, z) == g1.cell(x + 1, y, z)); }
        if z > 0 { assert(g2.cell(x, y, z - 1) == g1.cell(x, y, z - 1)); }
        if z + 1 < g1.spec_length() { assert(g2.cell(x, y, z + 1) == g1.cell(x, y, z + 1)); }
        if y > 0 { assert(g2.cell(x, y - 1, z) == g1.cell(x, y - 1, z)); }
    }
}

} // verus!
