//! The player's controls between frames: choosing a hotbar slot with the
//! digit keys and the wheel, changing the render distance, opening and
//! closing the inventory, placing, breaking and picking blocks, and how many
//! simulation ticks a frame runs.

use vstd::prelude::*;
use crate::block::BlockId;
use crate::gameplay::{HOTBAR_SIZE, hotbar_block, spec_hotbar_blocks, hotbar_slot_for_block, block_drop,
    spec_block_drop, classic_break_replacement, on_classic_edge};
use crate::inventory::{InventorySlot, add_stack_to_inventory, spec_add_stack, slot_is_empty, spec_empty_slot};
use crate::world::{BlockPos, World, spec_chunk_pos, pos_index};

verus! {

pub const MIN_RENDER_DISTANCE_CHUNKS: i32 = 0;
pub const MAX_RENDER_DISTANCE_CHUNKS: i32 = 16;
pub const DEFAULT_RENDER_DISTANCE_CHUNKS: i32 = 4;
/// How far beyond the render distance loaded chunks are kept.
pub const UNLOAD_MARGIN_CHUNKS: i32 = 2;
/// Number of classic view distances that the F key cycles through.
pub const CLASSIC_VIEW_COUNT: usize = 4;

/// The slot chosen by the first `n` digit keys: the last pressed one among
/// them, or `selected` when none of them is pressed.
pub open spec fn last_pressed(pressed: Seq<bool>, n: int, selected: int) -> int
    decreases n,
{
    if n <= 0 {
        selected
    } else if pressed[n - 1] {
        n - 1
    } else {
        last_pressed(pressed, n - 1, selected)
    }
}

/// The hotbar slot after the digit keys 1 to 9 of a frame (`pressed[i]` for
/// key `i + 1`): the last pressed key wins; none keeps `selected`.
pub fn hotbar_after_digits(selected: usize, pressed: [bool; 9]) -> (r: usize)
    ensures
        r == last_pressed(pressed@, 9, selected as int),
{
    let mut r = selected;
    let mut i: usize = 0;
    while i < HOTBAR_SIZE
        invariant
            i <= 9,
            r == last_pressed(pressed@, i as int, selected as int),
        decreases 9 - i,
    {
        if pressed[i] {
            r = i;
        }
        i = i + 1;
    }
    r
}

/// Which way the mouse wheel turned during a frame.
#[derive(Clone, Copy, Debug, PartialEq, Eq, Structural)]
pub enum Scroll {
    Up,
    Down,
    Still,
}

/// The slot `selected` moves to when the wheel turns: up to the slot
/// before, down to the slot after, wrapping around the 9 slots.
pub open spec fn scrolled(selected: int, scroll: Scroll) -> int {
    match scroll {
        Scroll::Up => (selected + 8) % 9,
        Scroll::Down => (selected + 1) % 9,
        Scroll::Still => selected,
    }
}

/// The hotbar slot after the wheel turned: up moves to the slot before,
/// down to the slot after, wrapping around the 9 slots.
pub fn hotbar_after_scroll(selected: usize, scroll: Scroll) -> (r: usize)
    requires
        selected < HOTBAR_SIZE,
    ensures
        r == scrolled(selected as int, scroll),
{
    match scroll {
        Scroll::Up => (selected + HOTBAR_SIZE - 1) % HOTBAR_SIZE,
        Scroll::Down => (selected + 1) % HOTBAR_SIZE,
        Scroll::Still => selected,
    }
}

/// Turning the wheel up and then down (or down and then up) comes back to
/// the slot it started from.
pub proof fn law_scroll_round_trip(selected: int)
    requires
        0 <= selected < 9,
    ensures
        scrolled(scrolled(selected, Scroll::Up), Scroll::Down) == selected,
        scrolled(scrolled(selected, Scroll::Down), Scroll::Up) == selected,
{
}

/// `d` held between the smallest and the largest render distance.
pub open spec fn clamp_render_distance(d: int) -> int {
    if d < MIN_RENDER_DISTANCE_CHUNKS {
        MIN_RENDER_DISTANCE_CHUNKS as int
    } else if d > MAX_RENDER_DISTANCE_CHUNKS {
        MAX_RENDER_DISTANCE_CHUNKS as int
    } else {
        d
    }
}

/// The render distance, in chunks, after a change by `delta`, held between
/// 0 and 16.
pub fn adjusted_render_distance(current: i32, delta: i32) -> (r: i32)
    requires
        i32::MIN <= current + delta <= i32::MAX,
    ensures
        r == clamp_render_distance(current + delta),
{
    let next = current + delta;
    if next < MIN_RENDER_DISTANCE_CHUNKS {
        MIN_RENDER_DISTANCE_CHUNKS
    } else if next > MAX_RENDER_DISTANCE_CHUNKS {
        MAX_RENDER_DISTANCE_CHUNKS
    } else {
        next
    }
}

/// The chunk radius of classic view distance `view`, far to near.
pub open spec fn classic_chunk_radius(view: int) -> i32 {
    if view == 2 {
        2
    } else if view == 3 {
        1
    } else {
        4
    }
}

/// The next classic view distance, cycling through the four, and its chunk
/// radius.
pub fn next_classic_view(view: usize) -> (r: (usize, i32))
    requires
        view < usize::MAX,
    ensures
        r.0 == (view + 1) % 4,
        r.1 == classic_chunk_radius(r.0 as int),
{
    let next = (view + 1) % CLASSIC_VIEW_COUNT;
    let radius = if next == 2 {
        2
    } else if next == 3 {
        1
    } else {
        4
    };
    (next, radius)
}

/// Opens the inventory, or closes it; closing puts a carried stack back into
/// the hotbar and the inventory (what does not fit is dropped) and empties
/// the cursor. Returns whether the inventory is open now.
pub fn toggle_inventory(
    open: bool,
    hotbar: &mut [InventorySlot; 9],
    inventory: &mut [InventorySlot; 27],
    carried: &mut InventorySlot,
) -> (r: bool)
    ensures
        r == !open,
        open && !slot_is_empty(*old(carried)) ==> {
            &&& final(hotbar)@ + final(inventory)@ == spec_add_stack(old(hotbar)@ + old(inventory)@, *old(carried)).0
            &&& *final(carried) == spec_empty_slot()
        },
        !(open && !slot_is_empty(*old(carried))) ==> {
            &&& final(hotbar)@ == old(hotbar)@
            &&& final(inventory)@ == old(inventory)@
            &&& *final(carried) == *old(carried)
        },
{
    let now_open = !open;
    if !now_open && !carried.is_empty() {
        add_stack_to_inventory(hotbar, inventory, *carried);
        *carried = InventorySlot::default();
    }
    now_open
}

/// Whether a block can be placed into a cell holding `b`: air, water or lava.
pub open spec fn accepts_placement(b: Seq<char>) -> bool {
    b.len() == 0 || b == "water"@ || b == "lava"@
}

/// Whether two positions name different cells of the world.
pub open spec fn other_cell(q: BlockPos, p: BlockPos) -> bool {
    spec_chunk_pos(q) != spec_chunk_pos(p) || pos_index(q) != pos_index(p)
}

/// Places palette block `selected` at `pos` when the cell there holds air,
/// water or lava, and returns the block it replaced; otherwise leaves the
/// world as it is and returns `None`.
pub fn place_selected_block(world: &mut World, pos: BlockPos, selected: usize) -> (r: Option<BlockId>)
    requires
        old(world).wf(),
        selected < HOTBAR_SIZE,
    ensures
        final(world).wf(),
        r is Some <==> accepts_placement(old(world).spec_block(pos)),
        r is None ==> *final(world) == *old(world),
        r is Some ==> {
            &&& r->0@ == old(world).spec_block(pos)
            &&& final(world).spec_block(pos) == spec_hotbar_blocks()[selected as int]
            &&& forall|q: BlockPos| other_cell(q, pos) ==> #[trigger] final(world).spec_block(q) == old(world).spec_block(q)
            &&& forall|q: BlockPos, prop: u8| #[trigger] final(world).spec_property(q, prop) == old(world).spec_property(q, prop)
        },
{
    let previous = world.get_block(pos);
    if !(previous.is_air() || previous.is_named("water") || previous.is_named("lava")) {
        return None;
    }
    world.set_block(pos, BlockId::named(hotbar_block(selected)));
    Some(previous)
}

/// Whether a placed palette block stays: one that would enclose the player
/// or a mob (`obstructed`) is taken back, unless it is a sapling.
pub open spec fn placement_stays(selected: int, obstructed: bool) -> bool {
    !obstructed || spec_hotbar_blocks()[selected] == "oak_sapling"@
}

/// After `place_selected_block` put palette block `selected` at `pos` in
/// place of `previous`: takes it back (puts `previous` there again) when it
/// does not stay. Returns whether it stays.
pub fn keep_or_take_back(world: &mut World, pos: BlockPos, selected: usize, previous: BlockId, obstructed: bool) -> (r: bool)
    requires
        old(world).wf(),
        selected < HOTBAR_SIZE,
    ensures
        final(world).wf(),
        r == placement_stays(selected as int, obstructed),
        r ==> *final(world) == *old(world),
        !r ==> {
            &&& final(world).spec_block(pos) == previous@
            &&& forall|q: BlockPos| other_cell(q, pos) ==> #[trigger] final(world).spec_block(q) == old(world).spec_block(q)
            &&& forall|q: BlockPos, prop: u8| #[trigger] final(world).spec_property(q, prop) == old(world).spec_property(q, prop)
        },
{
    if obstructed && !crate::text::str_eq(hotbar_block(selected), "oak_sapling") {
        world.set_block(pos, previous);
        false
    } else {
        true
    }
}

/// Breaks the block at `pos` unless it is bedrock: it becomes water on the
/// level's edge at ocean height and air elsewhere. Returns whether it broke.
pub fn break_block(world: &mut World, pos: BlockPos) -> (r: bool)
    requires
        old(world).wf(),
    ensures
        final(world).wf(),
        r == (old(world).spec_block(pos) != "bedrock"@),
        !r ==> *final(world) == *old(world),
        r ==> {
            &&& final(world).spec_block(pos) == if on_classic_edge(pos) && 30 <= pos.1 < 32 {
                "water"@
            } else {
                Seq::<char>::empty()
            }
            &&& forall|q: BlockPos| other_cell(q, pos) ==> #[trigger] final(world).spec_block(q) == old(world).spec_block(q)
            &&& forall|q: BlockPos, prop: u8| #[trigger] final(world).spec_property(q, prop) == old(world).spec_property(q, prop)
        },
{
    if world.get_block(pos).is_named("bedrock") {
        return false;
    }
    world.set_block(pos, classic_break_replacement(pos));
    true
}

/// The hotbar slot after picking the block at `pos`: the slot of the palette
/// block it drops (grass drops dirt), or `selected` when the palette has none.
pub fn pick_block(world: &World, pos: BlockPos, selected: usize) -> (r: usize)
    requires
        world.wf(),
    ensures
        (exists|i: int| 0 <= i < 9 && spec_hotbar_blocks()[i] == spec_block_drop(world.spec_block(pos))) ==> {
            &&& r < 9
            &&& spec_hotbar_blocks()[r as int] == spec_block_drop(world.spec_block(pos))
            &&& forall|j: int| 0 <= j < r ==> spec_hotbar_blocks()[j] != spec_block_drop(world.spec_block(pos))
        },
        !(exists|i: int| 0 <= i < 9 && spec_hotbar_blocks()[i] == spec_block_drop(world.spec_block(pos))) ==> r == selected,
{
    let picked = block_drop(&world.get_block(pos));
    match hotbar_slot_for_block(&picked) {
        Some(slot) => slot,
        None => selected,
    }
}

/// Length of a simulation tick in nanoseconds: 20 ticks a second.
pub const FIXED_TIMESTEP_NANOS: u128 = 50_000_000;
/// The most simulation ticks one frame runs.
pub const MAX_FIXED_STEPS_PER_FRAME: u32 = 5;

/// The ticks a frame runs with `total` nanoseconds to simulate, and the
/// nanoseconds kept for the next frame.
pub open spec fn fixed_steps_for(total: int) -> (int, int) {
    let n = total / FIXED_TIMESTEP_NANOS as int;
    if n >= MAX_FIXED_STEPS_PER_FRAME {
        (MAX_FIXED_STEPS_PER_FRAME as int, 0)
    } else {
        (n, total - n * FIXED_TIMESTEP_NANOS)
    }
}

/// The simulation ticks a frame runs, with `accumulated` nanoseconds left
/// from the frames before and `elapsed` since the last one: one tick per
/// whole tick length, at most 5. The rest is kept for the next frame, unless
/// the most ticks ran, which drops it.
pub fn fixed_steps(accumulated: u128, elapsed: u128) -> (r: (u32, u128))
    requires
        accumulated + elapsed <= u128::MAX,
    ensures
        (r.0 as int, r.1 as int) == fixed_steps_for(accumulated + elapsed),
{
    let total = accumulated + elapsed;
    let mut left = total;
    let mut steps: u32 = 0;
    while left >= FIXED_TIMESTEP_NANOS && steps < MAX_FIXED_STEPS_PER_FRAME
        invariant
            steps <= MAX_FIXED_STEPS_PER_FRAME,
            left == total - steps * FIXED_TIMESTEP_NANOS,
        decreases MAX_FIXED_STEPS_PER_FRAME - steps,
    {
        left = left - FIXED_TIMESTEP_NANOS;
        steps = steps + 1;
    }
    proof {
        let t = FIXED_TIMESTEP_NANOS as int;
        if left < t {
            vstd::arithmetic::div_mod::lemma_fundamental_div_mod_converse(total as int, t, steps as int, left as int);
        } else {
            assert(steps == 5);
            assert(total >= 5 * t);
            vstd::arithmetic::div_mod::lemma_div_is_ordered(5 * t, total as int, t);
            vstd::arithmetic::div_mod::lemma_div_multiples_vanish(5, t);
        }
    }
    if steps == MAX_FIXED_STEPS_PER_FRAME {
        left = 0;
    }
    (steps, left)
}

} // verus!
