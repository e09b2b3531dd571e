//! The classic fluid update: water and lava fall straight down through air,
//! spread sideways into air, and turn into stone, or turn their neighbours
//! into stone, where water meets lava.
//!
//! An update reports which cells changed, so that the caller can remesh
//! their chunks and schedule the next updates.

use vstd::prelude::*;
use crate::block::BlockId;
use crate::water::{coords_within, spec_neighbor, horizontal_neighbors, WATER_LEVEL_PROPERTY};
use crate::world::{BlockPos, World, same_cell, spec_local, pos_index, spec_chunk_pos, lemma_local_index_injective};

verus! {

/// Whether a block is one of the two classic fluids.
pub open spec fn is_fluid(b: Seq<char>) -> bool {
    b == "water"@ || b == "lava"@
}

/// The fluid that hardens a fluid into stone.
pub open spec fn opposite(b: Seq<char>) -> Seq<char> {
    if b == "water"@ { "lava"@ } else { "water"@ }
}

/// The cell `k` below `pos` (1 is the cell right below).
pub open spec fn down(pos: BlockPos, k: int) -> BlockPos {
    BlockPos(pos.0, (pos.1 - k) as i32, pos.2)
}

/// Whether the fluid at `pos` touches the other fluid sideways or below.
pub open spec fn touches_opposite(w: World, pos: BlockPos) -> bool {
    let o = opposite(w.spec_block(pos));
    ||| w.spec_block(spec_neighbor(pos, 0)) == o
    ||| w.spec_block(spec_neighbor(pos, 1)) == o
    ||| w.spec_block(spec_neighbor(pos, 2)) == o
    ||| w.spec_block(spec_neighbor(pos, 3)) == o
    ||| (pos.1 > 0 && w.spec_block(down(pos, 1)) == o)
}

/// How many air cells follow each other straight down from `pos`, counting
/// from the cell `k` below it and stopping at the bottom of the world.
pub open spec fn air_run(w: World, pos: BlockPos, k: int) -> int
    decreases pos.1 - k + 1,
{
    if k < 1 || pos.1 - k < 0 || w.spec_block(down(pos, k)).len() != 0 {
        0
    } else {
        1 + air_run(w, pos, k + 1)
    }
}

/// How far the fluid at `pos` falls: water through every air cell below it,
/// lava one cell at most.
pub open spec fn fall_depth(w: World, pos: BlockPos) -> int {
    if w.spec_block(pos) == "lava"@ {
        if air_run(w, pos, 1) > 0 { 1 } else { 0 }
    } else {
        air_run(w, pos, 1)
    }
}

/// Whether `q` is one of the `depth` cells below `pos`.
pub open spec fn fall_cell(pos: BlockPos, depth: int, q: BlockPos) -> bool {
    exists|k: int| 1 <= k <= depth && #[trigger] same_cell(q, down(pos, k))
}

/// Whether the fluid at `pos` spreads sideways: water always, lava only when
/// it did not fall.
pub open spec fn spreads(w: World, pos: BlockPos) -> bool {
    w.spec_block(pos) == "water"@ || fall_depth(w, pos) == 0
}

/// What the update puts into horizontal neighbour `k`: stone over the other
/// fluid, the fluid into air, nothing otherwise.
pub open spec fn neighbor_effect(w: World, pos: BlockPos, k: int) -> Option<Seq<char>> {
    let n = w.spec_block(spec_neighbor(pos, k));
    if !spreads(w, pos) {
        None
    } else if n == opposite(w.spec_block(pos)) {
        Some("stone"@)
    } else if n.len() == 0 {
        Some(w.spec_block(pos))
    } else {
        None
    }
}

/// The block a cell holds after the fluid update at `pos`.
pub open spec fn updated_block(w: World, pos: BlockPos, q: BlockPos) -> Seq<char> {
    if !is_fluid(w.spec_block(pos)) {
        w.spec_block(q)
    } else if touches_opposite(w, pos) {
        if same_cell(q, pos) { "stone"@ } else { w.spec_block(q) }
    } else if fall_cell(pos, fall_depth(w, pos), q) {
        w.spec_block(pos)
    } else if same_cell(q, spec_neighbor(pos, 0)) && neighbor_effect(w, pos, 0) is Some {
        neighbor_effect(w, pos, 0)->0
    } else if same_cell(q, spec_neighbor(pos, 1)) && neighbor_effect(w, pos, 1) is Some {
        neighbor_effect(w, pos, 1)->0
    } else if same_cell(q, spec_neighbor(pos, 2)) && neighbor_effect(w, pos, 2) is Some {
        neighbor_effect(w, pos, 2)->0
    } else if same_cell(q, spec_neighbor(pos, 3)) && neighbor_effect(w, pos, 3) is Some {
        neighbor_effect(w, pos, 3)->0
    } else {
        w.spec_block(q)
    }
}

/// The cells an item of `s` names once, when `c` holds.
pub open spec fn when(c: bool, p: BlockPos) -> Seq<BlockPos> {
    if c { seq![p] } else { Seq::empty() }
}

/// The cells the fluid falls into, top first.
pub open spec fn fall_cells(pos: BlockPos, depth: int) -> Seq<BlockPos> {
    Seq::new(depth as nat, |i: int| down(pos, i + 1))
}

/// Whether the update changes anything.
pub open spec fn update_changes(w: World, pos: BlockPos) -> bool {
    is_fluid(w.spec_block(pos)) && (touches_opposite(w, pos) || fall_depth(w, pos) > 0
        || neighbor_effect(w, pos, 0) is Some || neighbor_effect(w, pos, 1) is Some
        || neighbor_effect(w, pos, 2) is Some || neighbor_effect(w, pos, 3) is Some)
}

/// The cells whose look changed, in the order changed.
pub open spec fn remesh_cells(w: World, pos: BlockPos) -> Seq<BlockPos> {
    if !is_fluid(w.spec_block(pos)) {
        Seq::empty()
    } else if touches_opposite(w, pos) {
        seq![pos]
    } else {
        fall_cells(pos, fall_depth(w, pos))
            + when(neighbor_effect(w, pos, 0) is Some, spec_neighbor(pos, 0))
            + when(neighbor_effect(w, pos, 1) is Some, spec_neighbor(pos, 1))
            + when(neighbor_effect(w, pos, 2) is Some, spec_neighbor(pos, 2))
            + when(neighbor_effect(w, pos, 3) is Some, spec_neighbor(pos, 3))
    }
}

/// Whether neighbour `k` received fluid.
pub open spec fn flowed_into(w: World, pos: BlockPos, k: int) -> bool {
    neighbor_effect(w, pos, k) == Some(w.spec_block(pos)) && w.spec_block(spec_neighbor(pos, k)).len() == 0
}

/// The cells that received fluid, in the order filled: they update next.
pub open spec fn requeue_cells(w: World, pos: BlockPos) -> Seq<BlockPos> {
    if !is_fluid(w.spec_block(pos)) || touches_opposite(w, pos) {
        Seq::empty()
    } else {
        fall_cells(pos, fall_depth(w, pos))
            + when(flowed_into(w, pos, 0), spec_neighbor(pos, 0))
            + when(flowed_into(w, pos, 1), spec_neighbor(pos, 1))
            + when(flowed_into(w, pos, 2), spec_neighbor(pos, 2))
            + when(flowed_into(w, pos, 3), spec_neighbor(pos, 3))
    }
}

/// What a fluid update did.
#[derive(Debug)]
pub struct FluidUpdate {
    /// Whether any block changed.
    pub changed: bool,
    /// Cells whose chunk meshes need rebuilding, in the order changed.
    pub remesh: Vec<BlockPos>,
    /// Cells that received fluid and update next.
    pub requeue: Vec<BlockPos>,
}

/// Cells that differ in a local coordinate are different cells.
proof fn lemma_local_differs(p: BlockPos, q: BlockPos)
    requires
        spec_local(p) != spec_local(q),
    ensures
        !same_cell(p, q),
{
    if same_cell(p, q) {
        let a = spec_local(p);
        let b = spec_local(q);
        assert(0 <= a.0 < 16 && 0 <= a.1 < 64 && 0 <= a.2 < 16);
        assert(0 <= b.0 < 16 && 0 <= b.1 < 64 && 0 <= b.2 < 16);
        lemma_local_index_injective(a.0, a.1, a.2, b.0, b.1, b.2);
    }
}

/// The cells an update touches are pairwise different cells: the cells
/// below `pos` (inside the world), its four horizontal neighbours and itself.
proof fn lemma_update_cells_distinct(pos: BlockPos)
    requires
        0 <= pos.1 < 64,
        coords_within(pos, 1),
    ensures
        forall|a: int, b: int| 1 <= a <= pos.1 && 1 <= b <= pos.1 && a != b ==> !same_cell(#[trigger] down(pos, a), #[trigger] down(pos, b)),
        forall|a: int, k: int| 1 <= a <= pos.1 && 0 <= k < 4 ==> !same_cell(#[trigger] down(pos, a), #[trigger] spec_neighbor(pos, k)),
        forall|a: int| 1 <= a <= pos.1 ==> !same_cell(#[trigger] down(pos, a), pos),
        forall|j: int, k: int| 0 <= j < 4 && 0 <= k < 4 && j != k ==> !same_cell(#[trigger] spec_neighbor(pos, j), #[trigger] spec_neighbor(pos, k)),
        forall|k: int| 0 <= k < 4 ==> !same_cell(#[trigger] spec_neighbor(pos, k), pos),
{
    assert forall|a: int, b: int| 1 <= a <= pos.1 && 1 <= b <= pos.1 && a != b implies !same_cell(#[trigger] down(pos, a), #[trigger] down(pos, b)) by {
        assert(spec_local(down(pos, a)).1 == pos.1 - a);
        assert(spec_local(down(pos, b)).1 == pos.1 - b);
        lemma_local_differs(down(pos, a), down(pos, b));
    }
    assert forall|a: int| 1 <= a <= pos.1 implies !same_cell(#[trigger] down(pos, a), pos) by {
        assert(spec_local(down(pos, a)).1 == pos.1 - a);
        assert(spec_local(pos).1 == pos.1);
        lemma_local_differs(down(pos, a), pos);
    }
    assert forall|a: int, k: int| 1 <= a <= pos.1 && 0 <= k < 4 implies !same_cell(#[trigger] down(pos, a), #[trigger] spec_neighbor(pos, k)) by {
        let n = spec_neighbor(pos, k);
        if k < 2 {
            assert(spec_local(down(pos, a)).0 != spec_local(n).0);
        } else {
            assert(spec_local(down(pos, a)).2 != spec_local(n).2);
        }
        lemma_local_differs(down(pos, a), n);
    }
    assert forall|j: int, k: int| 0 <= j < 4 && 0 <= k < 4 && j != k implies !same_cell(#[trigger] spec_neighbor(pos, j), #[trigger] spec_neighbor(pos, k)) by {
        let m = spec_neighbor(pos, j);
        let n = spec_neighbor(pos, k);
        if j < 2 && k < 2 {
            assert(spec_local(m).0 != spec_local(n).0);
        } else if j >= 2 && k >= 2 {
            assert(spec_local(m).2 != spec_local(n).2);
        } else {
            assert(spec_local(m).0 != spec_local(n).0);
        }
        lemma_local_differs(m, n);
    }
    assert forall|k: int| 0 <= k < 4 implies !same_cell(#[trigger] spec_neighbor(pos, k), pos) by {
        let n = spec_neighbor(pos, k);
        if k < 2 {
            assert(spec_local(n).0 != spec_local(pos).0);
        } else {
            assert(spec_local(n).2 != spec_local(pos).2);
        }
        lemma_local_differs(n, pos);
    }
}

/// Whether the fluid fell or flowed into the cell of `q`.
pub open spec fn filled_cell(w: World, pos: BlockPos, q: BlockPos) -> bool {
    ||| fall_cell(pos, fall_depth(w, pos), q)
    ||| (flowed_into(w, pos, 0) && same_cell(q, spec_neighbor(pos, 0)))
    ||| (flowed_into(w, pos, 1) && same_cell(q, spec_neighbor(pos, 1)))
    ||| (flowed_into(w, pos, 2) && same_cell(q, spec_neighbor(pos, 2)))
    ||| (flowed_into(w, pos, 3) && same_cell(q, spec_neighbor(pos, 3)))
}

/// Whether the update writes the level property of the cell of `q`: the
/// cells the fluid fell or flowed into, and the updated cell itself.
pub open spec fn level_written(w: World, pos: BlockPos, q: BlockPos) -> bool {
    &&& is_fluid(w.spec_block(pos))
    &&& !touches_opposite(w, pos)
    &&& (filled_cell(w, pos, q) || same_cell(q, pos))
}

/// The level value written there: 1 (flowing) for cells filled, and for the
/// updated cell 1 when it changed anything, 0 otherwise.
pub open spec fn level_value(w: World, pos: BlockPos, q: BlockPos) -> u8 {
    if same_cell(q, pos) {
        if update_changes(w, pos) { 1 } else { 0 }
    } else {
        1
    }
}

/// `w1`'s level property of `q` after `v` was written over `w0`'s: it reads
/// back `v`.
pub open spec fn level_after(w0: World, w1: World, q: BlockPos, v: u8) -> bool {
    w1.spec_property(q, WATER_LEVEL_PROPERTY) == v
}

proof fn lemma_air_run_nonneg(w: World, pos: BlockPos, k: int)
    ensures
        air_run(w, pos, k) >= 0,
    decreases pos.1 - k + 1,
{
    if !(k < 1 || pos.1 - k < 0 || w.spec_block(down(pos, k)).len() != 0) {
        lemma_air_run_nonneg(w, pos, k + 1);
    }
}

proof fn lemma_air_run_step(w: World, pos: BlockPos, k: int)
    requires
        1 <= k,
        pos.1 - k >= 0,
        w.spec_block(down(pos, k)).len() == 0,
    ensures
        air_run(w, pos, k) == 1 + air_run(w, pos, k + 1),
{
}

/// Writes `fluid` into an air neighbour, or stone into a neighbour holding
/// the opposite fluid; reports whether it wrote anything.
fn spread_into(
    world: &mut World,
    n: BlockPos,
    fluid: &BlockId,
    opposite_name: &str,
    remesh: &mut Vec<BlockPos>,
    requeue: &mut Vec<BlockPos>,
) -> (r: bool)
    requires
        old(world).wf(),
    ensures
        final(world).wf(),
        final(world).spec_seed() == old(world).spec_seed(),
        ({
            let b = old(world).spec_block(n);
            &&& r == (b == opposite_name@ || b.len() == 0)
            &&& forall|q: BlockPos| #[trigger] final(world).spec_block(q) == if same_cell(q, n) && b == opposite_name@ {
                "stone"@
            } else if same_cell(q, n) && b.len() == 0 {
                fluid@
            } else {
                old(world).spec_block(q)
            }
            &&& final(remesh)@ == old(remesh)@ + when(r, n)
            &&& final(requeue)@ == old(requeue)@ + when(b != opposite_name@ && b.len() == 0, n)
            &&& forall|q: BlockPos, prop: u8| (prop != WATER_LEVEL_PROPERTY || !same_cell(q, n) || b == opposite_name@ || b.len() != 0)
                ==> #[trigger] final(world).spec_property(q, prop) == old(world).spec_property(q, prop)
            &&& forall|q: BlockPos, prop: u8| (prop != WATER_LEVEL_PROPERTY || !same_cell(q, n) || b == opposite_name@ || b.len() != 0)
                ==> #[trigger] final(world).prop_recorded(q, prop) == old(world).prop_recorded(q, prop)
            &&& (b != opposite_name@ && b.len() == 0) ==> forall|q: BlockPos| same_cell(q, n) ==> #[trigger] level_after(*old(world), *final(world), q, 1)
        }),
{
    let ghost w0 = *world;
    let target = world.get_block(n);
    if target.is_named(opposite_name) {
        world.set_block(n, BlockId::named("stone"));
        proof {
            assert forall|q: BlockPos| #[trigger] world.spec_block(q) == if same_cell(q, n) && w0.spec_block(n) == opposite_name@ {
                "stone"@
            } else if same_cell(q, n) && w0.spec_block(n).len() == 0 {
                fluid@
            } else {
                w0.spec_block(q)
            } by {
                if same_cell(q, n) {
                    world.lemma_same_cell(q, n);
                }
            }
            assert(remesh@.push(n) =~= remesh@ + when(true, n));
        }
        remesh.push(n);
        proof {
            assert(requeue@ =~= requeue@ + when(false, n));
        }
        true
    } else if target.is_air() {
        world.set_block(n, fluid.copy());
        let ghost w1 = *world;
        world.set_block_property(n, WATER_LEVEL_PROPERTY, 1);
        proof {
            assert forall|q: BlockPos| #[trigger] world.spec_block(q) == if same_cell(q, n) && w0.spec_block(n) == opposite_name@ {
                "stone"@
            } else if same_cell(q, n) && w0.spec_block(n).len() == 0 {
                fluid@
            } else {
                w0.spec_block(q)
            } by {
                assert(world.spec_block(q) == w1.spec_block(q));
                if same_cell(q, n) {
                    w1.lemma_same_cell(q, n);
                }
            }
            assert forall|q: BlockPos, prop: u8| (prop != WATER_LEVEL_PROPERTY || !same_cell(q, n) || w0.spec_block(n) == opposite_name@ || w0.spec_block(n).len() != 0)
                implies #[trigger] world.spec_property(q, prop) == w0.spec_property(q, prop) by {
                assert(w1.spec_property(q, prop) == w0.spec_property(q, prop));
            }
            assert forall|q: BlockPos, prop: u8| (prop != WATER_LEVEL_PROPERTY || !same_cell(q, n) || w0.spec_block(n) == opposite_name@ || w0.spec_block(n).len() != 0)
                implies #[trigger] world.prop_recorded(q, prop) == w0.prop_recorded(q, prop) by {
                assert(w1.prop_recorded(q, prop) == w0.prop_recorded(q, prop));
            }
            assert forall|q: BlockPos| same_cell(q, n) implies #[trigger] level_after(w0, *world, q, 1) by {
                world.lemma_same_cell(q, n);
                w0.lemma_same_cell(q, n);
                w1.lemma_same_cell(q, n);
                assert(w1.spec_property(n, WATER_LEVEL_PROPERTY) == w0.spec_property(n, WATER_LEVEL_PROPERTY));
                assert(w1.prop_recorded(n, WATER_LEVEL_PROPERTY) == w0.prop_recorded(n, WATER_LEVEL_PROPERTY));
            }
            assert(remesh@.push(n) =~= remesh@ + when(true, n));
            assert(requeue@.push(n) =~= requeue@ + when(true, n));
        }
        remesh.push(n);
        requeue.push(n);
        true
    } else {
        proof {
            assert(remesh@ =~= remesh@ + when(false, n));
            assert(requeue@ =~= requeue@ + when(false, n));
        }
        false
    }
}

/// Updates the fluid at `pos` (inside the world's height): a fluid touching
/// the other fluid sideways or below hardens into stone; otherwise it falls
/// through the air below it (lava one cell at most), then water, or lava that
/// did not fall, hardens the other fluid beside it into stone and flows into
/// the air beside it. Cells filled get level 1 and the cell itself level 1
/// when anything changed, 0 otherwise.
pub fn update_fluid_at(world: &mut World, pos: BlockPos) -> (r: FluidUpdate)
    requires
        old(world).wf(),
        0 <= pos.1 < 64,
        coords_within(pos, 1),
    ensures
        final(world).wf(),
        final(world).spec_seed() == old(world).spec_seed(),
        forall|q: BlockPos| #[trigger] final(world).spec_block(q) == updated_block(*old(world), pos, q),
        r.changed == update_changes(*old(world), pos),
        r.remesh@ == remesh_cells(*old(world), pos),
        r.requeue@ == requeue_cells(*old(world), pos),
        forall|q: BlockPos, prop: u8| (prop != WATER_LEVEL_PROPERTY || !level_written(*old(world), pos, q))
            ==> #[trigger] final(world).spec_property(q, prop) == old(world).spec_property(q, prop),
        forall|q: BlockPos| level_written(*old(world), pos, q)
            ==> #[trigger] level_after(*old(world), *final(world), q, level_value(*old(world), pos, q)),
{
    let ghost w0 = *world;
    let fluid = world.get_block(pos);
    let is_water = fluid.is_named("water");
    let is_lava = fluid.is_named("lava");
    proof {
        reveal_strlit("water");
        reveal_strlit("lava");
        reveal_strlit("stone");
        lemma_update_cells_distinct(pos);
    }
    if !is_water && !is_lava {
        return FluidUpdate { changed: false, remesh: Vec::new(), requeue: Vec::new() };
    }
    let opposite_name: &str = if is_water { "lava" } else { "water" };
    assert(opposite_name@ == opposite(w0.spec_block(pos)));
    let ns = horizontal_neighbors(pos);
    let t0 = world.get_block(ns[0]).is_named(opposite_name);
    let t1 = world.get_block(ns[1]).is_named(opposite_name);
    let t2 = world.get_block(ns[2]).is_named(opposite_name);
    let t3 = world.get_block(ns[3]).is_named(opposite_name);
    let tb = pos.1 > 0 && world.get_block(BlockPos(pos.0, pos.1 - 1, pos.2)).is_named(opposite_name);
    assert(pos.1 > 0 ==> BlockPos(pos.0, (pos.1 - 1) as i32, pos.2) == down(pos, 1));
    if t0 || t1 || t2 || t3 || tb {
        world.set_block(pos, BlockId::named("stone"));
        proof {
            assert forall|q: BlockPos| #[trigger] world.spec_block(q) == updated_block(w0, pos, q) by {
                if same_cell(q, pos) {
                    world.lemma_same_cell(q, pos);
                }
            }
        }
        let mut remesh: Vec<BlockPos> = Vec::new();
        remesh.push(pos);
        proof {
            assert(remesh@ =~= seq![pos]);
        }
        return FluidUpdate { changed: true, remesh, requeue: Vec::new() };
    }
    let mut remesh: Vec<BlockPos> = Vec::new();
    let mut requeue: Vec<BlockPos> = Vec::new();
    let mut k: i32 = 1;
    let mut go = pos.1 - 1 >= 0 && world.get_block(BlockPos(pos.0, pos.1 - 1, pos.2)).is_air();
    proof {
        assert(remesh@ =~= fall_cells(pos, 0));
        assert forall|q: BlockPos| !fall_cell(pos, 0, q) by {}
    }
    while go
        invariant
            world.wf(),
            w0.wf(),
            world.spec_seed() == w0.spec_seed(),
            0 <= pos.1 < 64,
            coords_within(pos, 1),
            fluid@ == w0.spec_block(pos),
            is_water == (fluid@ == "water"@),
            is_lava == (fluid@ == "lava"@),
            is_water || is_lava,
            !touches_opposite(w0, pos),
            1 <= k <= pos.1 + 1,
            is_lava ==> k <= 2,
            go == (pos.1 - k >= 0 && w0.spec_block(down(pos, k as int)).len() == 0 && (!is_lava || k == 1)),
            air_run(w0, pos, 1) == (k - 1) + air_run(w0, pos, k as int),
            forall|q: BlockPos| #[trigger] world.spec_block(q) == if fall_cell(pos, k - 1, q) { fluid@ } else { w0.spec_block(q) },
            remesh@ == fall_cells(pos, k - 1),
            requeue@ == fall_cells(pos, k - 1),
            forall|q: BlockPos, prop: u8| (prop != WATER_LEVEL_PROPERTY || !fall_cell(pos, k - 1, q))
                ==> #[trigger] world.spec_property(q, prop) == w0.spec_property(q, prop),
            forall|q: BlockPos, prop: u8| (prop != WATER_LEVEL_PROPERTY || !fall_cell(pos, k - 1, q))
                ==> #[trigger] world.prop_recorded(q, prop) == w0.prop_recorded(q, prop),
            forall|q: BlockPos| fall_cell(pos, k - 1, q) ==> #[trigger] level_after(w0, *world, q, 1),
        decreases pos.1 - k + 1,
    {
        let below = BlockPos(pos.0, pos.1 - k, pos.2);
        assert(below == down(pos, k as int));
        let ghost wa = *world;
        world.set_block(below, fluid.copy());
        let ghost wb = *world;
        world.set_block_property(below, WATER_LEVEL_PROPERTY, 1);
        proof {
            lemma_air_run_step(w0, pos, k as int);
            assert(!fall_cell(pos, k - 1, below)) by {
                if fall_cell(pos, k - 1, below) {
                    let j = choose|j: int| 1 <= j <= k - 1 && #[trigger] same_cell(below, down(pos, j));
                    assert(!same_cell(down(pos, k as int), down(pos, j)));
                }
            }
            assert forall|q: BlockPos| fall_cell(pos, k as int, q) == (fall_cell(pos, k - 1, q) || same_cell(q, below)) by {
                if fall_cell(pos, k as int, q) {
                    let j = choose|j: int| 1 <= j <= k && #[trigger] same_cell(q, down(pos, j));
                    if j < k {
                        assert(same_cell(q, down(pos, j)));
                    }
                }
                if fall_cell(pos, k - 1, q) {
                    let j = choose|j: int| 1 <= j <= k - 1 && #[trigger] same_cell(q, down(pos, j));
                    assert(same_cell(q, down(pos, j)));
                }
                if same_cell(q, below) {
                    assert(same_cell(q, down(pos, k as int)));
                }
            }
            assert forall|q: BlockPos| #[trigger] world.spec_block(q) == if fall_cell(pos, k as int, q) { fluid@ } else { w0.spec_block(q) } by {
                assert(world.spec_block(q) == wb.spec_block(q));
                if same_cell(q, below) {
                    wb.lemma_same_cell(q, below);
                }
            }
            assert forall|q: BlockPos, prop: u8| (prop != WATER_LEVEL_PROPERTY || !fall_cell(pos, k as int, q))
                implies #[trigger] world.spec_property(q, prop) == w0.spec_property(q, prop) by {
                assert(wb.spec_property(q, prop) == wa.spec_property(q, prop));
                if same_cell(q, below) {
                    assert(prop != WATER_LEVEL_PROPERTY);
                }
            }
            assert forall|q: BlockPos, prop: u8| (prop != WATER_LEVEL_PROPERTY || !fall_cell(pos, k as int, q))
                implies #[trigger] world.prop_recorded(q, prop) == w0.prop_recorded(q, prop) by {
                assert(wb.prop_recorded(q, prop) == wa.prop_recorded(q, prop));
                if same_cell(q, below) {
                    assert(prop != WATER_LEVEL_PROPERTY);
                }
            }
            assert forall|q: BlockPos| fall_cell(pos, k as int, q) implies #[trigger] level_after(w0, *world, q, 1) by {
                if same_cell(q, below) {
                    world.lemma_same_cell(q, below);
                    w0.lemma_same_cell(q, below);
                    wb.lemma_same_cell(q, below);
                    wa.lemma_same_cell(q, below);
                    assert(wb.spec_property(below, WATER_LEVEL_PROPERTY) == wa.spec_property(below, WATER_LEVEL_PROPERTY));
                    assert(wb.prop_recorded(below, WATER_LEVEL_PROPERTY) == wa.prop_recorded(below, WATER_LEVEL_PROPERTY));
                } else {
                    assert(fall_cell(pos, k - 1, q));
                    assert(level_after(w0, wa, q, 1));
                    assert(wb.spec_property(q, WATER_LEVEL_PROPERTY) == wa.spec_property(q, WATER_LEVEL_PROPERTY));
                }
            }
            assert(remesh@.push(below) =~= fall_cells(pos, k as int));
        }
        remesh.push(below);
        requeue.push(below);
        k = k + 1;
        go = !is_lava && pos.1 - k >= 0 && world.get_block(BlockPos(pos.0, pos.1 - k, pos.2)).is_air();
        proof {
            if pos.1 - k >= 0 {
                assert(BlockPos(pos.0, (pos.1 - k) as i32, pos.2) == down(pos, k as int));
                if fall_cell(pos, k - 1, down(pos, k as int)) {
                    let j = choose|j: int| 1 <= j <= k - 1 && #[trigger] same_cell(down(pos, k as int), down(pos, j));
                    assert(!same_cell(down(pos, k as int), down(pos, j)));
                }
            }
        }
    }
    proof {
        lemma_air_run_nonneg(w0, pos, k as int);
        if pos.1 - k >= 0 && w0.spec_block(down(pos, k as int)).len() == 0 {
            assert(is_lava && k == 2);
        } else {
            assert(air_run(w0, pos, k as int) == 0);
        }
        assert(fall_depth(w0, pos) == k - 1);
    }
    let depth = k - 1;
    let moved_down = depth > 0;
    let mut changed = moved_down;
    let ghost ws0 = *world;
    let ghost rm0 = remesh@;
    let ghost rq0 = requeue@;
    let ghost d = depth as int;
    let ghost o = opposite_name@;
    let ghost b = |i: int| w0.spec_block(spec_neighbor(pos, i));
    proof {
        assert forall|i: int| 0 <= i < 4 implies #[trigger] ws0.spec_block(spec_neighbor(pos, i)) == w0.spec_block(spec_neighbor(pos, i)) by {
            if fall_cell(pos, d, spec_neighbor(pos, i)) {
                let j = choose|j: int| 1 <= j <= d && #[trigger] same_cell(spec_neighbor(pos, i), down(pos, j));
                assert(!same_cell(down(pos, j), spec_neighbor(pos, i)));
            }
        }
        assert(!fall_cell(pos, d, pos)) by {
            if fall_cell(pos, d, pos) {
                let j = choose|j: int| 1 <= j <= d && #[trigger] same_cell(pos, down(pos, j));
                assert(!same_cell(down(pos, j), pos));
            }
        }
        assert(forall|i: int| 0 <= i < 4 ==> ns@[i] == #[trigger] spec_neighbor(pos, i));
    }
    let ghost mut ws4 = *world;
    if is_water || !moved_down {
        let fluid_ref = &fluid;
        let c0 = spread_into(world, ns[0], fluid_ref, opposite_name, &mut remesh, &mut requeue);
        let ghost ws1 = *world;
        let c1 = spread_into(world, ns[1], fluid_ref, opposite_name, &mut remesh, &mut requeue);
        let ghost ws2 = *world;
        let c2 = spread_into(world, ns[2], fluid_ref, opposite_name, &mut remesh, &mut requeue);
        let ghost ws3 = *world;
        let c3 = spread_into(world, ns[3], fluid_ref, opposite_name, &mut remesh, &mut requeue);
        changed = changed || c0 || c1 || c2 || c3;
        proof {
            ws4 = *world;
            let n0 = spec_neighbor(pos, 0);
            let n1 = spec_neighbor(pos, 1);
            let n2 = spec_neighbor(pos, 2);
            let n3 = spec_neighbor(pos, 3);
            assert(ws1.spec_block(n1) == ws0.spec_block(n1));
            assert(ws2.spec_block(n2) == ws1.spec_block(n2));
            assert(ws1.spec_block(n2) == ws0.spec_block(n2));
            assert(ws3.spec_block(n3) == ws2.spec_block(n3));
            assert(ws2.spec_block(n3) == ws1.spec_block(n3));
            assert(ws1.spec_block(n3) == ws0.spec_block(n3));
            assert(spreads(w0, pos));
            assert(c0 == (neighbor_effect(w0, pos, 0) is Some));
            assert(c1 == (neighbor_effect(w0, pos, 1) is Some));
            assert(c2 == (neighbor_effect(w0, pos, 2) is Some));
            assert(c3 == (neighbor_effect(w0, pos, 3) is Some));
            assert(remesh@ =~= remesh_cells(w0, pos));
            assert(requeue@ =~= requeue_cells(w0, pos));
            assert forall|q: BlockPos| #[trigger] ws4.spec_block(q) == updated_block(w0, pos, q) by {
                if fall_cell(pos, d, q) {
                    assert(!same_cell(q, n0) && !same_cell(q, n1) && !same_cell(q, n2) && !same_cell(q, n3)) by {
                        let j = choose|j: int| 1 <= j <= d && #[trigger] same_cell(q, down(pos, j));
                        assert(!same_cell(down(pos, j), n0));
                        assert(!same_cell(down(pos, j), n1));
                        assert(!same_cell(down(pos, j), n2));
                        assert(!same_cell(down(pos, j), n3));
                    }
                }
                if same_cell(q, n0) {
                    assert(!same_cell(n0, n1) && !same_cell(n0, n2) && !same_cell(n0, n3));
                }
                if same_cell(q, n1) {
                    assert(!same_cell(n1, n0) && !same_cell(n1, n2) && !same_cell(n1, n3));
                }
                if same_cell(q, n2) {
                    assert(!same_cell(n2, n0) && !same_cell(n2, n1) && !same_cell(n2, n3));
                }
                if same_cell(q, n3) {
                    assert(!same_cell(n3, n0) && !same_cell(n3, n1) && !same_cell(n3, n2));
                }
            }
            assert forall|q: BlockPos, prop: u8| (prop != WATER_LEVEL_PROPERTY || !filled_cell(w0, pos, q))
                implies #[trigger] ws4.spec_property(q, prop) == w0.spec_property(q, prop)
                    && ws4.prop_recorded(q, prop) == w0.prop_recorded(q, prop) by {
                assert(ws0.spec_property(q, prop) == w0.spec_property(q, prop));
                assert(ws0.prop_recorded(q, prop) == w0.prop_recorded(q, prop));
                assert(ws1.spec_property(q, prop) == ws0.spec_property(q, prop));
                assert(ws1.prop_recorded(q, prop) == ws0.prop_recorded(q, prop));
                assert(ws2.spec_property(q, prop) == ws1.spec_property(q, prop));
                assert(ws2.prop_recorded(q, prop) == ws1.prop_recorded(q, prop));
                assert(ws3.spec_property(q, prop) == ws2.spec_property(q, prop));
                assert(ws3.prop_recorded(q, prop) == ws2.prop_recorded(q, prop));
                assert(ws4.spec_property(q, prop) == ws3.spec_property(q, prop));
                assert(ws4.prop_recorded(q, prop) == ws3.prop_recorded(q, prop));
            }
            assert forall|q: BlockPos| filled_cell(w0, pos, q) implies #[trigger] level_after(w0, ws4, q, 1) by {
                let lp = WATER_LEVEL_PROPERTY;
                if fall_cell(pos, d, q) {
                    assert(!same_cell(q, n0) && !same_cell(q, n1) && !same_cell(q, n2) && !same_cell(q, n3)) by {
                        let j = choose|j: int| 1 <= j <= d && #[trigger] same_cell(q, down(pos, j));
                        assert(!same_cell(down(pos, j), n0));
                        assert(!same_cell(down(pos, j), n1));
                        assert(!same_cell(down(pos, j), n2));
                        assert(!same_cell(down(pos, j), n3));
                    }
                    assert(level_after(w0, ws0, q, 1));
                    assert(ws1.spec_property(q, lp) == ws0.spec_property(q, lp));
                    assert(ws2.spec_property(q, lp) == ws1.spec_property(q, lp));
                    assert(ws3.spec_property(q, lp) == ws2.spec_property(q, lp));
                    assert(ws4.spec_property(q, lp) == ws3.spec_property(q, lp));
                } else if flowed_into(w0, pos, 0) && same_cell(q, n0) {
                    assert(!same_cell(n0, n1) && !same_cell(n0, n2) && !same_cell(n0, n3));
                    assert(!fall_cell(pos, d, q));
                    assert(ws0.spec_property(q, lp) == w0.spec_property(q, lp));
                    assert(ws0.prop_recorded(q, lp) == w0.prop_recorded(q, lp));
                    assert(level_after(ws0, ws1, q, 1));
                    assert(ws2.spec_property(q, lp) == ws1.spec_property(q, lp));
                    assert(ws3.spec_property(q, lp) == ws2.spec_property(q, lp));
                    assert(ws4.spec_property(q, lp) == ws3.spec_property(q, lp));
                } else if flowed_into(w0, pos, 1) && same_cell(q, n1) {
                    assert(!same_cell(n1, n0) && !same_cell(n1, n2) && !same_cell(n1, n3));
                    assert(ws0.spec_property(q, lp) == w0.spec_property(q, lp));
                    assert(ws0.prop_recorded(q, lp) == w0.prop_recorded(q, lp));
                    assert(ws1.spec_property(q, lp) == ws0.spec_property(q, lp));
                    assert(ws1.prop_recorded(q, lp) == ws0.prop_recorded(q, lp));
                    assert(level_after(ws1, ws2, q, 1));
                    assert(ws3.spec_property(q, lp) == ws2.spec_property(q, lp));
                    assert(ws4.spec_property(q, lp) == ws3.spec_property(q, lp));
                } else if flowed_into(w0, pos, 2) && same_cell(q, n2) {
                    assert(!same_cell(n2, n0) && !same_cell(n2, n1) && !same_cell(n2, n3));
                    assert(ws0.spec_property(q, lp) == w0.spec_property(q, lp));
                    assert(ws0.prop_recorded(q, lp) == w0.prop_recorded(q, lp));
                    assert(ws1.spec_property(q, lp) == ws0.spec_property(q, lp));
                    assert(ws1.prop_recorded(q, lp) == ws0.prop_recorded(q, lp));
                    assert(ws2.spec_property(q, lp) == ws1.spec_property(q, lp));
                    assert(ws2.prop_recorded(q, lp) == ws1.prop_recorded(q, lp));
                    assert(level_after(ws2, ws3, q, 1));
                    assert(ws4.spec_property(q, lp) == ws3.spec_property(q, lp));
                } else {
                    assert(flowed_into(w0, pos, 3) && same_cell(q, n3));
                    assert(!same_cell(n3, n0) && !same_cell(n3, n1) && !same_cell(n3, n2));
                    assert(ws0.spec_property(q, lp) == w0.spec_property(q, lp));
                    assert(ws0.prop_recorded(q, lp) == w0.prop_recorded(q, lp));
                    assert(ws1.spec_property(q, lp) == ws0.spec_property(q, lp));
                    assert(ws1.prop_recorded(q, lp) == ws0.prop_recorded(q, lp));
                    assert(ws2.spec_property(q, lp) == ws1.spec_property(q, lp));
                    assert(ws2.prop_recorded(q, lp) == ws1.prop_recorded(q, lp));
                    assert(ws3.spec_property(q, lp) == ws2.spec_property(q, lp));
                    assert(ws3.prop_recorded(q, lp) == ws2.prop_recorded(q, lp));
                    assert(level_after(ws3, ws4, q, 1));
                }
            }
        }
    } else {
        proof {
            assert(!spreads(w0, pos));
            assert(remesh@ =~= remesh_cells(w0, pos));
            assert(requeue@ =~= requeue_cells(w0, pos));
            assert forall|q: BlockPos| #[trigger] ws4.spec_block(q) == updated_block(w0, pos, q) by {}
            assert forall|q: BlockPos| filled_cell(w0, pos, q) == fall_cell(pos, d, q) by {}
            assert forall|q: BlockPos, prop: u8| (prop != WATER_LEVEL_PROPERTY || !filled_cell(w0, pos, q))
                implies #[trigger] ws4.spec_property(q, prop) == w0.spec_property(q, prop)
                    && ws4.prop_recorded(q, prop) == w0.prop_recorded(q, prop) by {}
            assert forall|q: BlockPos| filled_cell(w0, pos, q) implies #[trigger] level_after(w0, ws4, q, 1) by {}
        }
    }
    let ghost wq = *world;
    world.set_block_property(pos, WATER_LEVEL_PROPERTY, if changed { 1 } else { 0 });
    proof {
        let lp = WATER_LEVEL_PROPERTY;
        assert(changed == update_changes(w0, pos));
        assert forall|q: BlockPos| #[trigger] world.spec_block(q) == updated_block(w0, pos, q) by {
            assert(world.spec_block(q) == wq.spec_block(q));
        }
        assert(!filled_cell(w0, pos, pos)) by {
            if fall_cell(pos, d, pos) {
                let j = choose|j: int| 1 <= j <= d && #[trigger] same_cell(pos, down(pos, j));
                assert(!same_cell(down(pos, j), pos));
            }
            assert(!same_cell(pos, spec_neighbor(pos, 0)));
            assert(!same_cell(pos, spec_neighbor(pos, 1)));
            assert(!same_cell(pos, spec_neighbor(pos, 2)));
            assert(!same_cell(pos, spec_neighbor(pos, 3)));
        }
        assert(wq.spec_property(pos, lp) == w0.spec_property(pos, lp) && wq.prop_recorded(pos, lp) == w0.prop_recorded(pos, lp));
        assert forall|q: BlockPos, prop: u8| (prop != WATER_LEVEL_PROPERTY || !level_written(w0, pos, q))
            implies #[trigger] world.spec_property(q, prop) == w0.spec_property(q, prop) by {
            if same_cell(q, pos) {
                assert(prop != lp);
            }
            assert(wq.spec_property(q, prop) == w0.spec_property(q, prop));
        }
        assert forall|q: BlockPos| level_written(w0, pos, q) implies #[trigger] level_after(w0, *world, q, level_value(w0, pos, q)) by {
            if same_cell(q, pos) {
                world.lemma_same_cell(q, pos);
                w0.lemma_same_cell(q, pos);
                wq.lemma_same_cell(q, pos);
            } else {
                assert(filled_cell(w0, pos, q));
                assert(level_after(w0, wq, q, 1));
                assert(world.spec_property(q, lp) == wq.spec_property(q, lp));
            }
        }
    }
    FluidUpdate { changed, remesh, requeue }
}

} // verus!
