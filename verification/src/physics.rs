//! The cell-level side of the player's and mobs' physics: which cells stop a
//! moving body, which way water pushes, how far down daylight reaches in a
//! column, where the player first stands, whether the chunks under a body
//! are loaded, and how long blocks take to break. Positions with fractions,
//! and the boxes and vectors built from them, are handled outside this
//! library, which answers for whole cells.

use vstd::prelude::*;
use crate::block::BlockId;
use crate::gameplay::CLASSIC_WORLD_SIZE;
use crate::water::{coords_within, spec_dir, spec_neighbor, spec_water_level, water_level_at, horizontal_neighbors,
    WATER_FALLING_LEVEL, WATER_SOURCE_LEVEL};
use crate::world::{BlockPos, ChunkPos, World};

verus! {

/// Blocks that stop a body: all but air, water, lava and saplings.
pub open spec fn player_solid(b: Seq<char>) -> bool {
    !(b.len() == 0 || b == "water"@ || b == "lava"@ || b == "oak_sapling"@)
}

/// Whether the cell at `pos` stops a moving body: every cell beside the
/// level's columns or below it does, no cell above the world's height does,
/// and inside the level a solid block does.
pub open spec fn spec_is_collider(w: World, pos: BlockPos) -> bool {
    if pos.0 < 0 || pos.2 < 0 || pos.0 >= CLASSIC_WORLD_SIZE || pos.2 >= CLASSIC_WORLD_SIZE {
        true
    } else if pos.1 < 0 {
        true
    } else if pos.1 >= 64 {
        false
    } else {
        player_solid(w.spec_block(pos))
    }
}

/// Whether the cell at `pos` stops a moving body.
pub fn is_collider(world: &World, pos: BlockPos) -> (r: bool)
    requires
        world.wf(),
    ensures
        r == spec_is_collider(*world, pos),
{
    if pos.0 < 0 || pos.2 < 0 || pos.0 >= CLASSIC_WORLD_SIZE || pos.2 >= CLASSIC_WORLD_SIZE {
        return true;
    }
    if pos.1 < 0 {
        return true;
    }
    if pos.1 >= 64 {
        return false;
    }
    crate::gameplay::is_player_solid_block(&world.get_block(pos))
}

/// How deep water of `level` pushes: fully (8) for a source or falling
/// water, one less for each step of horizontal flow.
pub open spec fn spec_flow_depth(level: u8) -> int {
    if level == WATER_SOURCE_LEVEL || level >= WATER_FALLING_LEVEL {
        8
    } else {
        8 - level
    }
}

/// How deep water of `level` pushes.
pub fn water_flow_depth(level: u8) -> (r: u8)
    ensures
        r == spec_flow_depth(level),
{
    if level == WATER_SOURCE_LEVEL || level >= WATER_FALLING_LEVEL {
        8
    } else {
        8 - level
    }
}

/// How strongly the water at `pos` pushes toward its horizontal neighbour
/// `k`: by the difference of flow depths toward water, by its whole depth
/// toward air, not at all toward anything else.
pub open spec fn push_toward(w: World, pos: BlockPos, k: int) -> int {
    let n = spec_neighbor(pos, k);
    let depth = spec_flow_depth(spec_water_level(w, pos));
    if w.spec_block(n) == "water"@ {
        depth - spec_flow_depth(spec_water_level(w, n))
    } else if w.spec_block(n).len() == 0 {
        depth
    } else {
        0
    }
}

/// The current of the water at `pos`, before it is scaled to unit length:
/// the pushes toward the four neighbours along their directions, and one
/// step down for falling water.
pub open spec fn spec_water_current(w: World, pos: BlockPos) -> (int, int, int) {
    (
        push_toward(w, pos, 0) - push_toward(w, pos, 1),
        if spec_water_level(w, pos) >= WATER_FALLING_LEVEL { -1 } else { 0 },
        push_toward(w, pos, 2) - push_toward(w, pos, 3),
    )
}

fn push_at(world: &World, pos: BlockPos, neighbor: BlockPos, depth: u8, Ghost(k): Ghost<int>) -> (r: i32)
    requires
        world.wf(),
        0 <= k < 4,
        neighbor == spec_neighbor(pos, k),
        depth == spec_flow_depth(spec_water_level(*world, pos)),
    ensures
        r == push_toward(*world, pos, k),
{
    let block = world.get_block(neighbor);
    if block.is_named("water") {
        depth as i32 - water_flow_depth(water_level_at(world, neighbor)) as i32
    } else if block.is_air() {
        depth as i32
    } else {
        0
    }
}

/// The current of the water at `pos`, before it is scaled to unit length.
pub fn water_current(world: &World, pos: BlockPos) -> (r: (i32, i32, i32))
    requires
        world.wf(),
        coords_within(pos, 1),
    ensures
        (r.0 as int, r.1 as int, r.2 as int) == spec_water_current(*world, pos),
{
    let level = water_level_at(world, pos);
    let depth = water_flow_depth(level);
    let n = horizontal_neighbors(pos);
    let east = push_at(world, pos, n[0], depth, Ghost(0));
    let west = push_at(world, pos, n[1], depth, Ghost(1));
    let south = push_at(world, pos, n[2], depth, Ghost(2));
    let north = push_at(world, pos, n[3], depth, Ghost(3));
    let down = if level >= WATER_FALLING_LEVEL { -1 } else { 0 };
    (east - west, down, south - north)
}

/// Blocks that let daylight through.
pub open spec fn lets_light_through(b: Seq<char>) -> bool {
    b.len() == 0 || b == "oak_leaves"@ || b == "oak_sapling"@ || b == "water"@ || b == "lava"@ || b == "glass"@
}

/// How far down daylight reaches in column (`x`, `z`), scanning from `y`
/// down to 1: one above the first cell that blocks it, or 1.
pub open spec fn light_depth_from(w: World, x: i32, z: i32, y: int) -> int
    decreases y,
{
    if y < 1 {
        1
    } else if !lets_light_through(w.spec_block(BlockPos(x, y as i32, z))) {
        y + 1
    } else {
        light_depth_from(w, x, z, y - 1)
    }
}

/// Whether a body at cell (`x`, `y`, `z`) stands in daylight: outside the
/// level it does; inside, at or above the depth daylight reaches.
pub open spec fn spec_is_lit(w: World, x: i32, y: i32, z: i32) -> bool {
    x < 0 || z < 0 || x >= CLASSIC_WORLD_SIZE || z >= CLASSIC_WORLD_SIZE || !(0 <= y < 64)
        || y >= light_depth_from(w, x, z, 63)
}

/// Whether a body at cell (`x`, `y`, `z`) stands in daylight.
pub fn is_lit(world: &World, x: i32, y: i32, z: i32) -> (r: bool)
    requires
        world.wf(),
    ensures
        r == spec_is_lit(*world, x, y, z),
{
    if x < 0 || z < 0 || x >= CLASSIC_WORLD_SIZE || z >= CLASSIC_WORLD_SIZE || !(0 <= y && y < 64) {
        return true;
    }
    let mut scan: i32 = 63;
    while scan >= 1
        invariant
            world.wf(),
            0 <= scan <= 63,
            0 <= x < CLASSIC_WORLD_SIZE,
            0 <= z < CLASSIC_WORLD_SIZE,
            0 <= y < 64,
            light_depth_from(*world, x, z, 63) == light_depth_from(*world, x, z, scan as int),
        decreases scan,
    {
        let b = world.get_block(BlockPos(x, scan, z));
        if !(b.is_air() || b.is_named("oak_leaves") || b.is_named("oak_sapling") || b.is_named("water")
            || b.is_named("lava") || b.is_named("glass")) {
            return y >= scan + 1;
        }
        scan = scan - 1;
    }
    y >= 1
}

/// The top solid cell of column (`x`, `z`) at or below `y`, or 16 when
/// there is none.
pub open spec fn top_solid_from(w: World, x: i32, z: i32, y: int) -> int
    decreases y + 1,
{
    if y < 0 {
        16
    } else if player_solid(w.spec_block(BlockPos(x, y as i32, z))) {
        y
    } else {
        top_solid_from(w, x, z, y - 1)
    }
}

/// The cell the player first stands above: the top solid cell of the
/// level's middle column, or 16 when that column is empty.
pub fn spawn_ground_y(world: &World) -> (r: i32)
    requires
        world.wf(),
    ensures
        r == top_solid_from(*world, 256i32, 256i32, 63),
{
    let x = CLASSIC_WORLD_SIZE / 2;
    let z = CLASSIC_WORLD_SIZE / 2;
    let mut y: i32 = 63;
    while y >= 0
        invariant
            world.wf(),
            -1 <= y <= 63,
            x == 256,
            z == 256,
            top_solid_from(*world, x, z, 63) == top_solid_from(*world, x, z, y as int),
        decreases y + 1,
    {
        if crate::gameplay::is_player_solid_block(&world.get_block(BlockPos(x, y, z))) {
            return y;
        }
        y = y - 1;
    }
    16
}

/// Whether every chunk from `min` to `max` (both corners included) is
/// loaded: bodies over chunks that are not wait.
pub fn chunks_loaded(world: &World, min: ChunkPos, max: ChunkPos) -> (r: bool)
    requires
        world.wf(),
    ensures
        r == forall|x: int, z: int| min.0 <= x <= max.0 && min.1 <= z <= max.1
            ==> #[trigger] world.is_loaded(ChunkPos(x as i32, z as i32)),
{
    let mut x: i64 = min.0 as i64;
    while x <= max.0 as i64
        invariant
            world.wf(),
            min.0 <= x <= max.0 + 1 || x == min.0,
            forall|cx: int, cz: int| min.0 <= cx < x && min.1 <= cz <= max.1
                ==> #[trigger] world.is_loaded(ChunkPos(cx as i32, cz as i32)),
        decreases max.0 + 1 - x,
    {
        let mut z: i64 = min.1 as i64;
        while z <= max.1 as i64
            invariant
                world.wf(),
                min.0 <= x <= max.0,
                min.1 <= z <= max.1 + 1 || z == min.1,
                forall|cx: int, cz: int| min.0 <= cx < x && min.1 <= cz <= max.1
                    ==> #[trigger] world.is_loaded(ChunkPos(cx as i32, cz as i32)),
                forall|cz: int| min.1 <= cz < z ==> #[trigger] world.is_loaded(ChunkPos(x as i32, cz as i32)),
            decreases max.1 + 1 - z,
        {
            if !world.is_chunk_loaded(ChunkPos(x as i32, z as i32)) {
                return false;
            }
            z = z + 1;
        }
        x = x + 1;
    }
    true
}

/// How long a block takes to break, in tenths of a second; `None` for
/// bedrock, which never breaks.
pub open spec fn spec_break_tenths(b: Seq<char>) -> Option<u32> {
    if b.len() == 0 || b == "water"@ || b == "lava"@ {
        Some(0u32)
    } else if b == "bedrock"@ {
        None
    } else if b == "oak_leaves"@ {
        Some(2u32)
    } else if b == "glass"@ {
        Some(3u32)
    } else if b == "dirt"@ || b == "sand"@ {
        Some(5u32)
    } else if b == "grass_block"@ || b == "gravel"@ {
        Some(6u32)
    } else if b == "stone"@ {
        Some(15u32)
    } else if b == "oak_log"@ || b == "oak_planks"@ {
        Some(20u32)
    } else if b == "coal_ore"@ || b == "iron_ore"@ || b == "gold_ore"@ {
        Some(30u32)
    } else {
        Some(10u32)
    }
}

/// How long a block takes to break, in tenths of a second; `None` when it
/// never breaks.
pub fn break_tenths(block: &BlockId) -> (r: Option<u32>)
    ensures
        r == spec_break_tenths(block@),
{
    if block.is_air() || block.is_named("water") || block.is_named("lava") {
        Some(0)
    } else if block.is_named("bedrock") {
        None
    } else if block.is_named("oak_leaves") {
        Some(2)
    } else if block.is_named("glass") {
        Some(3)
    } else if block.is_named("dirt") || block.is_named("sand") {
        Some(5)
    } else if block.is_named("grass_block") || block.is_named("gravel") {
        Some(6)
    } else if block.is_named("stone") {
        Some(15)
    } else if block.is_named("oak_log") || block.is_named("oak_planks") {
        Some(20)
    } else if block.is_named("coal_ore") || block.is_named("iron_ore") || block.is_named("gold_ore") {
        Some(30)
    } else {
        Some(10)
    }
}

} // verus!
