//! Block interaction rules of the classic game mode: the creative palette,
//! drops, breaking at the ocean edge, which chunks a block change remeshes,
//! and sand and gravel falling down their column.

use vstd::prelude::*;
use crate::block::BlockId;
use crate::world::{BlockPos, ChunkPos, World, spec_chunk_pos, spec_local, pos_index,
    lemma_local_index_bounds};

verus! {

/// Side length of the classic level, in blocks.
pub const CLASSIC_WORLD_SIZE: i32 = 512;
pub const HOTBAR_SIZE: usize = 9;

/// The creative palette, in the order of the archived client.
pub const HOTBAR_BLOCKS: [&'static str; 9] = [
    "stone",
    "dirt",
    "cobblestone",
    "oak_planks",
    "oak_sapling",
    "oak_log",
    "oak_leaves",
    "sand",
    "gravel",
];

pub open spec fn spec_hotbar_blocks() -> Seq<Seq<char>> {
    seq!["stone"@, "dirt"@, "cobblestone"@, "oak_planks"@, "oak_sapling"@, "oak_log"@, "oak_leaves"@, "sand"@, "gravel"@]
}

/// The palette entry at `index`.
pub fn hotbar_block(index: usize) -> (r: &'static str)
    requires
        index < 9,
    ensures
        r@ == spec_hotbar_blocks()[index as int],
{
    if index == 0 {
        "stone"
    } else if index == 1 {
        "dirt"
    } else if index == 2 {
        "cobblestone"
    } else if index == 3 {
        "oak_planks"
    } else if index == 4 {
        "oak_sapling"
    } else if index == 5 {
        "oak_log"
    } else if index == 6 {
        "oak_leaves"
    } else if index == 7 {
        "sand"
    } else {
        "gravel"
    }
}

/// The palette slot that places `block`, if any.
pub fn hotbar_slot_for_block(block: &BlockId) -> (r: Option<usize>)
    ensures
        match r {
            Some(i) => i < 9 && spec_hotbar_blocks()[i as int] == block@
                && forall|j: int| 0 <= j < i ==> spec_hotbar_blocks()[j] != block@,
            None => forall|j: int| 0 <= j < 9 ==> spec_hotbar_blocks()[j] != block@,
        },
{
    let mut i: usize = 0;
    while i < HOTBAR_SIZE
        invariant
            i <= 9,
            forall|j: int| 0 <= j < i ==> spec_hotbar_blocks()[j] != block@,
        decreases 9 - i,
    {
        if block.is_named(hotbar_block(i)) {
            return Some(i);
        }
        i = i + 1;
    }
    None
}

pub open spec fn spec_block_drop(block: Seq<char>) -> Seq<char> {
    if block == "grass_block"@ {
        "dirt"@
    } else {
        block
    }
}

/// The block that breaking `block` yields: grass drops dirt, others drop themselves.
pub fn block_drop(block: &BlockId) -> (r: BlockId)
    ensures
        r@ == spec_block_drop(block@),
{
    if block.is_named("grass_block") {
        BlockId::named("dirt")
    } else {
        block.copy()
    }
}

/// Whether the crosshair can target `block`: not air, water or lava.
pub fn is_targetable_block(block: &BlockId) -> (r: bool)
    ensures
        r == !(block@.len() == 0 || block@ == "water"@ || block@ == "lava"@),
{
    !(block.is_air() || block.is_named("water") || block.is_named("lava"))
}

/// Whether `block` stops the player: not air, water, lava or a sapling.
pub fn is_player_solid_block(block: &BlockId) -> (r: bool)
    ensures
        r == !(block@.len() == 0 || block@ == "water"@ || block@ == "lava"@ || block@ == "oak_sapling"@),
{
    !(block.is_air() || block.is_named("water") || block.is_named("lava") || block.is_named("oak_sapling"))
}

pub open spec fn on_classic_edge(pos: BlockPos) -> bool {
    pos.0 == 0 || pos.2 == 0 || pos.0 == CLASSIC_WORLD_SIZE - 1 || pos.2 == CLASSIC_WORLD_SIZE - 1
}

/// What a broken block turns into: water on the level's edge at ocean height
/// (y 30 and 31), air elsewhere.
pub fn classic_break_replacement(pos: BlockPos) -> (r: BlockId)
    ensures
        r@ == if on_classic_edge(pos) && 30 <= pos.1 < 32 { "water"@ } else { Seq::<char>::empty() },
{
    let on_edge = pos.0 == 0 || pos.2 == 0 || pos.0 == CLASSIC_WORLD_SIZE - 1 || pos.2 == CLASSIC_WORLD_SIZE - 1;
    if on_edge && 30 <= pos.1 && pos.1 < 32 {
        BlockId::named("water")
    } else {
        BlockId::air()
    }
}

/// The chunks whose meshes a change at `block_pos` affects: its own chunk, then
/// the x neighbor across a face it touches, then the z neighbor.
pub open spec fn spec_update_chunks(p: BlockPos) -> Seq<ChunkPos> {
    let c = spec_chunk_pos(p);
    let lx = spec_local(p).0;
    let lz = spec_local(p).2;
    let xs = if lx == 0 {
        seq![ChunkPos((c.0 - 1) as i32, c.1)]
    } else if lx == 15 {
        seq![ChunkPos((c.0 + 1) as i32, c.1)]
    } else {
        Seq::<ChunkPos>::empty()
    };
    let zs = if lz == 0 {
        seq![ChunkPos(c.0, (c.1 - 1) as i32)]
    } else if lz == 15 {
        seq![ChunkPos(c.0, (c.1 + 1) as i32)]
    } else {
        Seq::<ChunkPos>::empty()
    };
    seq![c] + xs + zs
}

/// Chunks to remesh after the block at `block_pos` changed.
pub fn block_update_chunk_positions(block_pos: BlockPos) -> (r: Vec<ChunkPos>)
    ensures
        r@ == spec_update_chunks(block_pos),
{
    let chunk_pos = block_pos.chunk_pos();
    let (local_x, _, local_z) = block_pos.local();
    let mut positions: Vec<ChunkPos> = Vec::new();
    positions.push(chunk_pos);
    if local_x == 0 {
        positions.push(ChunkPos(chunk_pos.0 - 1, chunk_pos.1));
    } else if local_x + 1 == 16 {
        positions.push(ChunkPos(chunk_pos.0 + 1, chunk_pos.1));
    }
    if local_z == 0 {
        positions.push(ChunkPos(chunk_pos.0, chunk_pos.1 - 1));
    } else if local_z + 1 == 16 {
        positions.push(ChunkPos(chunk_pos.0, chunk_pos.1 + 1));
    }
    proof {
        let c = spec_chunk_pos(block_pos);
        let lx = spec_local(block_pos).0;
        let lz = spec_local(block_pos).2;
        let xs = if lx == 0 {
            seq![ChunkPos((c.0 - 1) as i32, c.1)]
        } else if lx == 15 {
            seq![ChunkPos((c.0 + 1) as i32, c.1)]
        } else {
            Seq::<ChunkPos>::empty()
        };
        let zs = if lz == 0 {
            seq![ChunkPos(c.0, (c.1 - 1) as i32)]
        } else if lz == 15 {
            seq![ChunkPos(c.0, (c.1 + 1) as i32)]
        } else {
            Seq::<ChunkPos>::empty()
        };
        assert(positions@ =~= seq![c] + xs + zs);
    }
    positions
}

pub open spec fn is_falling_block(b: Seq<char>) -> bool {
    b == "sand"@ || b == "gravel"@
}

/// The column of blocks at (`x`, `z`), from y 0 to 63.
pub open spec fn column(w: World, x: i32, z: i32) -> Seq<Seq<char>> {
    Seq::new(64, |y: int| w.spec_block(BlockPos(x, y as i32, z)))
}

/// Where a block at height `y` of `col` comes to rest: the lowest height it
/// reaches through air straight below it.
pub open spec fn drop_target(col: Seq<Seq<char>>, y: int) -> int
    decreases y,
{
    if y > 0 && col[y - 1].len() == 0 {
        drop_target(col, y - 1)
    } else {
        y
    }
}

/// Settles the falling blocks of a column from height `y` upward, lowest
/// first; yields the settled column and the (from, to) heights of each move.
pub open spec fn settle_from(col: Seq<Seq<char>>, y: int) -> (Seq<Seq<char>>, Seq<(int, int)>)
    decreases 64 - y,
{
    if y >= 64 || y < 0 {
        (col, Seq::empty())
    } else if is_falling_block(col[y]) && drop_target(col, y) != y {
        let d = drop_target(col, y);
        let next = col.update(d, col[y]).update(y, Seq::<char>::empty());
        let rest = settle_from(next, y + 1);
        (rest.0, seq![(y, d)] + rest.1)
    } else {
        settle_from(col, y + 1)
    }
}

/// Where a block comes to rest: no lower than the floor and no higher than
/// where it started, with only air between, and on the floor or on a block.
proof fn lemma_drop_target(col: Seq<Seq<char>>, y: int)
    requires
        0 <= y < col.len(),
    ensures
        0 <= drop_target(col, y) <= y,
        forall|j: int| drop_target(col, y) <= j < y ==> (#[trigger] col[j]).len() == 0,
        drop_target(col, y) == 0 || col[drop_target(col, y) - 1].len() != 0,
    decreases y,
{
    if y > 0 && col[y - 1].len() == 0 {
        lemma_drop_target(col, y - 1);
    }
}

/// Every falling block from height `start` on rests on the floor or on a block.
pub open spec fn falling_blocks_rest(col: Seq<Seq<char>>, start: int, end: int) -> bool {
    forall|k: int| start <= k < end && k >= 1 && is_falling_block(#[trigger] col[k]) ==> col[k - 1].len() != 0
}

proof fn lemma_settle_rests(col: Seq<Seq<char>>, start: int, y: int)
    requires
        col.len() == 64,
        0 <= start <= y,
        falling_blocks_rest(col, start, y),
    ensures
        settle_from(col, y).0.len() == 64,
        falling_blocks_rest(settle_from(col, y).0, start, 64),
    decreases 64 - y,
{
    if y >= 64 {
    } else if is_falling_block(col[y]) && drop_target(col, y) != y {
        lemma_drop_target(col, y);
        let d = drop_target(col, y);
        let next = col.update(d, col[y]).update(y, Seq::<char>::empty());
        reveal_strlit("sand");
        reveal_strlit("gravel");
        assert forall|k: int| start <= k < y + 1 && k >= 1 && is_falling_block(#[trigger] next[k]) implies next[k - 1].len() != 0 by {
            if k == y {
                assert(next[k].len() == 0);
            } else if k == d {
                assert(next[k - 1] == col[k - 1]);
            } else if k == d + 1 {
                assert(next[k - 1] == col[y]);
            } else if d < k < y {
                assert(next[k] == col[k]);
            } else {
                assert(next[k] == col[k]);
                assert(next[k - 1] == col[k - 1]);
            }
        }
        lemma_settle_rests(next, start, y + 1);
    } else {
        if is_falling_block(col[y]) && y >= 1 {
            lemma_drop_target(col, y);
        }
        lemma_settle_rests(col, start, y + 1);
    }
}

/// Settling a column from height `start` leaves no sand or gravel at or
/// above `start` hanging over air: every falling block has dropped onto the
/// floor or onto a block.
pub proof fn law_settled_blocks_rest(col: Seq<Seq<char>>, start: int)
    requires
        col.len() == 64,
        0 <= start,
    ensures
        settle_from(col, start).0.len() == 64,
        forall|k: int| start <= k < 64 && k >= 1 && is_falling_block(#[trigger] settle_from(col, start).0[k])
            ==> settle_from(col, start).0[k - 1].len() != 0,
{
    lemma_settle_rests(col, start, start);
    assert(falling_blocks_rest(settle_from(col, start).0, start, 64));
}

/// The height that settling starts from for a change at `pos`.
pub open spec fn settle_start(w: World, pos: BlockPos) -> int {
    let s = if is_falling_block(w.spec_block(pos)) { pos.1 as int } else { pos.1 + 1 };
    if s < 1 { 1 } else { s }
}

/// Whether `q` maps to a cell outside the column at (`x`, `z`).
pub open spec fn outside_column(q: BlockPos, x: i32, z: i32) -> bool {
    spec_chunk_pos(q) != spec_chunk_pos(BlockPos(x, 0, z)) || spec_local(q).0 != spec_local(BlockPos(x, 0, z)).0
        || spec_local(q).2 != spec_local(BlockPos(x, 0, z)).2
}

proof fn lemma_drop_target_bounds(col: Seq<Seq<char>>, y: int)
    requires
        0 <= y < col.len(),
    ensures
        0 <= drop_target(col, y) <= y,
        forall|k: int| drop_target(col, y) <= k < y ==> #[trigger] col[k].len() == 0,
        drop_target(col, y) == 0 || col[drop_target(col, y) - 1].len() != 0,
    decreases y,
{
    if y > 0 && col[y - 1].len() == 0 {
        lemma_drop_target_bounds(col, y - 1);
    }
}

proof fn lemma_column_cell(w: World, x: i32, z: i32, y: int)
    requires
        0 <= y < 64,
    ensures
        column(w, x, z)[y] == w.spec_block(BlockPos(x, y as i32, z)),
{
}

/// Facts relating a cell of a column to the cells of other heights and other columns.
proof fn lemma_column_cells_distinct(x: i32, z: i32, y1: int, y2: int)
    requires
        0 <= y1 < 64,
        0 <= y2 < 64,
        y1 != y2,
    ensures
        pos_index(BlockPos(x, y1 as i32, z)) != pos_index(BlockPos(x, y2 as i32, z)),
        spec_chunk_pos(BlockPos(x, y1 as i32, z)) == spec_chunk_pos(BlockPos(x, y2 as i32, z)),
{
}

/// Sets one block of a column and states the effect on the column view.
fn set_column_block(world: &mut World, x: i32, y: i32, z: i32, id: BlockId)
    requires
        old(world).wf(),
        0 <= y < 64,
    ensures
        final(world).wf(),
        column(*final(world), x, z) == column(*old(world), x, z).update(y as int, id@),
        forall|q: BlockPos| outside_column(q, x, z) ==> #[trigger] final(world).spec_block(q) == old(world).spec_block(q),
{
    let ghost idv = id@;
    world.set_block(BlockPos(x, y, z), id);
    proof {
        let c0 = column(*old(world), x, z);
        let c1 = column(*world, x, z);
        assert forall|k: int| 0 <= k < 64 implies #[trigger] c1[k] == c0.update(y as int, idv)[k] by {
            if k != y {
                lemma_column_cells_distinct(x, z, k, y as int);
            }
        }
        assert(c1 =~= c0.update(y as int, idv));
        assert forall|q: BlockPos| outside_column(q, x, z) implies #[trigger] world.spec_block(q) == old(world).spec_block(q) by {
            let p = BlockPos(x, y, z);
            if spec_chunk_pos(q) == spec_chunk_pos(p) && pos_index(q) == pos_index(p) {
                lemma_local_index_bounds(spec_local(q).0, spec_local(q).1, spec_local(q).2);
                lemma_local_index_bounds(spec_local(p).0, spec_local(p).1, spec_local(p).2);
                crate::world::lemma_local_index_injective(spec_local(q).0, spec_local(q).1, spec_local(q).2,
                    spec_local(p).0, spec_local(p).1, spec_local(p).2);
            }
        }
    }
}

/// Drops the sand and gravel in the column of `changed_pos` straight down to
/// the lowest air below each, working upward from the changed block (from the
/// block above it when the changed block does not fall itself), and returns
/// each move as (from, to).
pub fn settle_falling_column(world: &mut World, changed_pos: BlockPos) -> (r: Vec<(BlockPos, BlockPos)>)
    requires
        old(world).wf(),
        changed_pos.1 < i32::MAX,
    ensures
        final(world).wf(),
        column(*final(world), changed_pos.0, changed_pos.2)
            == settle_from(column(*old(world), changed_pos.0, changed_pos.2), settle_start(*old(world), changed_pos)).0,
        r@.len() == settle_from(column(*old(world), changed_pos.0, changed_pos.2), settle_start(*old(world), changed_pos)).1.len(),
        forall|i: int| 0 <= i < r@.len() ==> {
            let m = settle_from(column(*old(world), changed_pos.0, changed_pos.2), settle_start(*old(world), changed_pos)).1[i];
            #[trigger] r@[i] == (BlockPos(changed_pos.0, m.0 as i32, changed_pos.2), BlockPos(changed_pos.0, m.1 as i32, changed_pos.2))
        },
        forall|q: BlockPos| outside_column(q, changed_pos.0, changed_pos.2) ==> #[trigger] final(world).spec_block(q) == old(world).spec_block(q),
        forall|k: int| settle_start(*old(world), changed_pos) <= k < 64 && k >= 1
            && is_falling_block(#[trigger] final(world).spec_block(BlockPos(changed_pos.0, k as i32, changed_pos.2)))
            ==> final(world).spec_block(BlockPos(changed_pos.0, (k - 1) as i32, changed_pos.2)).len() != 0,
{
    let x = changed_pos.0;
    let z = changed_pos.2;
    let changed_block = world.get_block(changed_pos);
    let start_y = if changed_block.is_named("sand") || changed_block.is_named("gravel") {
        changed_pos.1
    } else {
        changed_pos.1 + 1
    };
    let mut y: i32 = if start_y < 1 { 1 } else { start_y };
    let ghost col0 = column(*world, x, z);
    let ghost target = settle_from(col0, y as int);
    let ghost w0 = *world;
    let mut moved: Vec<(BlockPos, BlockPos)> = Vec::new();
    if y > 64 {
        y = 64;
    }
    let ghost prefix: Seq<(int, int)> = Seq::empty();
    proof {
        if settle_start(w0, changed_pos) > 64 {
            assert(settle_from(col0, settle_start(w0, changed_pos)) == (col0, Seq::<(int, int)>::empty()));
            assert(settle_from(col0, 64) == (col0, Seq::<(int, int)>::empty()));
        }
    }
    let ghost target = settle_from(col0, settle_start(w0, changed_pos));
    while y < 64
        invariant
            world.wf(),
            1 <= y <= 64,
            x == changed_pos.0,
            z == changed_pos.2,
            settle_from(column(*world, x, z), y as int).0 == target.0,
            prefix + settle_from(column(*world, x, z), y as int).1 == target.1,
            moved@.len() == prefix.len(),
            forall|i: int| 0 <= i < moved@.len() ==> #[trigger] moved@[i] == (BlockPos(x, prefix[i].0 as i32, z), BlockPos(x, prefix[i].1 as i32, z)),
            forall|q: BlockPos| outside_column(q, x, z) ==> #[trigger] world.spec_block(q) == w0.spec_block(q),
        decreases 64 - y,
    {
        let ghost col = column(*world, x, z);
        let source = BlockPos(x, y, z);
        let block = world.get_block(source);
        proof {
            lemma_column_cell(*world, x, z, y as int);
        }
        if !(block.is_named("sand") || block.is_named("gravel")) {
            y = y + 1;
            continue;
        }
        let mut destination_y = y;
        while destination_y > 0 && world.get_block(BlockPos(x, destination_y - 1, z)).is_air()
            invariant
                world.wf(),
                col == column(*world, x, z),
                0 <= destination_y <= y < 64,
                drop_target(col, destination_y as int) == drop_target(col, y as int),
            decreases destination_y,
        {
            proof {
                lemma_column_cell(*world, x, z, destination_y - 1);
            }
            destination_y = destination_y - 1;
        }
        proof {
            if destination_y > 0 {
                lemma_column_cell(*world, x, z, destination_y - 1);
            }
            assert(drop_target(col, destination_y as int) == destination_y);
        }
        if destination_y == y {
            y = y + 1;
            continue;
        }
        let destination = BlockPos(x, destination_y, z);
        let ghost bv = block@;
        set_column_block(world, x, y, z, BlockId::air());
        set_column_block(world, x, destination_y, z, block);
        proof {
            let next = col.update(destination_y as int, col[y as int]).update(y as int, Seq::<char>::empty());
            assert(column(*world, x, z) =~= next);
            prefix = prefix.push((y as int, destination_y as int));
            assert(settle_from(col, y as int).1 == seq![(y as int, destination_y as int)] + settle_from(next, y + 1).1);
            assert(prefix + settle_from(next, y + 1).1 =~= target.1);
        }
        moved.push((source, destination));
        y = y + 1;
    }
    proof {
        assert(prefix =~= target.1);
        law_settled_blocks_rest(col0, settle_start(w0, changed_pos));
        assert forall|k: int| settle_start(w0, changed_pos) <= k < 64 && k >= 1
            && is_falling_block(#[trigger] world.spec_block(BlockPos(x, k as i32, z)))
            implies world.spec_block(BlockPos(x, (k - 1) as i32, z)).len() != 0 by {
            assert(column(*world, x, z)[k] == world.spec_block(BlockPos(x, k as i32, z)));
            assert(column(*world, x, z)[k - 1] == world.spec_block(BlockPos(x, (k - 1) as i32, z)));
        }
    }
    moved
}

} // verus!
