//! Fluid rules: water levels, source formation, falling columns and the
//! search for the nearest drop that horizontal flow heads toward.
//!
//! Water stores its level in block property 0: 0 is a source, 1..=7 is
//! horizontal flow, 8 and above is falling water.

use vstd::prelude::*;
use crate::block::BlockId;
use crate::world::{BlockPos, ChunkPos, World, spec_chunk_pos};

verus! {

pub const WATER_LEVEL_PROPERTY: u8 = 0;
pub const WATER_SOURCE_LEVEL: u8 = 0;
pub const WATER_MAX_HORIZONTAL_LEVEL: u8 = 7;
pub const WATER_FALLING_LEVEL: u8 = 8;
pub const WATER_MAX_LEVEL: u8 = 15;
pub const WATER_SLOPE_FIND_DISTANCE: usize = 4;

/// Whether every coordinate of `p` stays `margin` away from the `i32` limits.
pub open spec fn coords_within(p: BlockPos, margin: int) -> bool {
    &&& i32::MIN + margin <= p.0 <= i32::MAX - margin
    &&& i32::MIN + margin <= p.1 <= i32::MAX - margin
    &&& i32::MIN + margin <= p.2 <= i32::MAX - margin
}

/// The four horizontal directions in order: +x, -x, +z, -z.
pub open spec fn spec_dir(k: int) -> (i32, i32) {
    if k == 0 {
        (1i32, 0i32)
    } else if k == 1 {
        (-1i32, 0i32)
    } else if k == 2 {
        (0i32, 1i32)
    } else {
        (0i32, -1i32)
    }
}

pub open spec fn spec_neighbor(p: BlockPos, k: int) -> BlockPos {
    BlockPos((p.0 + spec_dir(k).0) as i32, p.1, (p.2 + spec_dir(k).1) as i32)
}

pub open spec fn spec_below(p: BlockPos) -> BlockPos {
    BlockPos(p.0, (p.1 - 1) as i32, p.2)
}

pub open spec fn water_name() -> Seq<char> {
    "water"@
}

pub open spec fn is_water(w: World, p: BlockPos) -> bool {
    w.spec_block(p) == water_name()
}

/// The water level stored at `p`, capped at 15.
pub open spec fn spec_water_level(w: World, p: BlockPos) -> u8 {
    let v = w.spec_property(p, WATER_LEVEL_PROPERTY);
    if v < WATER_MAX_LEVEL {
        v
    } else {
        WATER_MAX_LEVEL
    }
}

pub open spec fn is_source(w: World, p: BlockPos) -> bool {
    is_water(w, p) && spec_water_level(w, p) == WATER_SOURCE_LEVEL
}

/// At least two horizontal neighbors of `p` are water sources.
pub open spec fn spec_two_adjacent_sources(w: World, p: BlockPos) -> bool {
    exists|a: int, b: int| 0 <= a < b < 4 && #[trigger] is_source(w, spec_neighbor(p, a)) && #[trigger] is_source(w, spec_neighbor(p, b))
}

/// A new source forms in air or flowing water that has two source neighbors
/// and stands on the level floor, on a solid block, or on a source.
pub open spec fn spec_can_generate_source(w: World, p: BlockPos) -> bool {
    let block = w.spec_block(p);
    let below = w.spec_block(spec_below(p));
    let supported = p.1 == 0 || (below.len() != 0 && (below != water_name() || spec_water_level(w, spec_below(p)) == WATER_SOURCE_LEVEL));
    &&& (block.len() == 0 || block == water_name())
    &&& !(block == water_name() && spec_water_level(w, p) == WATER_SOURCE_LEVEL)
    &&& spec_two_adjacent_sources(w, p)
    &&& supported
}

/// A new source forms only where the water has something to stand on: above
/// the level floor, the block below is not air, and when it is water it is a
/// source. It also needs two source neighbours, and forms in air or in
/// flowing water, never over an existing source.
pub proof fn law_new_source_is_supported(w: World, p: BlockPos)
    requires
        spec_can_generate_source(w, p),
    ensures
        p.1 != 0 ==> w.spec_block(spec_below(p)).len() != 0,
        p.1 != 0 && w.spec_block(spec_below(p)) == water_name() ==> spec_water_level(w, spec_below(p)) == WATER_SOURCE_LEVEL,
        spec_two_adjacent_sources(w, p),
        w.spec_block(p).len() == 0 || (w.spec_block(p) == water_name() && spec_water_level(w, p) != WATER_SOURCE_LEVEL),
{
}

pub open spec fn spec_has_falling_below(w: World, p: BlockPos) -> bool {
    p.1 != 0 && is_water(w, spec_below(p)) && spec_water_level(w, spec_below(p)) >= WATER_FALLING_LEVEL
}

/// Water of `new_level` may enter `p`: inside the level's height, in a loaded
/// chunk, and either air or water of a higher (weaker) raw level.
pub open spec fn spec_can_replace(w: World, p: BlockPos, new_level: u8) -> bool {
    &&& 0 <= p.1 < 64
    &&& w.is_loaded(spec_chunk_pos(p))
    &&& (w.spec_block(p).len() == 0 || (w.spec_block(p) == water_name() && w.spec_property(p, WATER_LEVEL_PROPERTY) > new_level))
}

pub open spec fn spec_flows_downward(w: World, p: BlockPos) -> bool {
    p.1 != 0 && (spec_can_replace(w, spec_below(p), WATER_FALLING_LEVEL) || spec_has_falling_below(w, p))
}

pub open spec fn spec_can_fall_from(w: World, p: BlockPos) -> bool {
    p.1 > 0 && spec_can_replace(w, spec_below(p), WATER_FALLING_LEVEL)
}

pub open spec fn opt_min(a: Option<int>, b: Option<int>) -> Option<int> {
    match (a, b) {
        (Some(x), Some(y)) => Some(if x <= y { x } else { y }),
        (Some(x), None) => Some(x),
        (None, Some(y)) => Some(y),
        (None, None) => None,
    }
}

/// Direction `k` from `p` is not the one flow came from and water can enter the neighbor there.
pub open spec fn slope_eligible(w: World, p: BlockPos, next_level: u8, blocked: (i32, i32), k: int) -> bool {
    spec_dir(k) != blocked && spec_can_replace(w, spec_neighbor(p, k), next_level)
}

/// Distance to the nearest drop reachable through replaceable cells, searching
/// at most four cells out and never straight back.
pub open spec fn spec_slope_distance(w: World, p: BlockPos, next_level: u8, distance: int, blocked: (i32, i32)) -> Option<int>
    decreases 4 - distance,
{
    if exists|k: int| 0 <= k < 4 && #[trigger] slope_eligible(w, p, next_level, blocked, k) && spec_can_fall_from(w, spec_neighbor(p, k)) {
        Some(distance)
    } else if distance < 4 {
        opt_min(
            opt_min(
                if slope_eligible(w, p, next_level, blocked, 0) {
                    spec_slope_distance(w, spec_neighbor(p, 0), next_level, distance + 1, (-1i32, 0i32))
                } else {
                    None
                },
                if slope_eligible(w, p, next_level, blocked, 1) {
                    spec_slope_distance(w, spec_neighbor(p, 1), next_level, distance + 1, (1i32, 0i32))
                } else {
                    None
                },
            ),
            opt_min(
                if slope_eligible(w, p, next_level, blocked, 2) {
                    spec_slope_distance(w, spec_neighbor(p, 2), next_level, distance + 1, (0i32, -1i32))
                } else {
                    None
                },
                if slope_eligible(w, p, next_level, blocked, 3) {
                    spec_slope_distance(w, spec_neighbor(p, 3), next_level, distance + 1, (0i32, 1i32))
                } else {
                    None
                },
            ),
        )
    } else {
        None
    }
}

/// Distance from a candidate cell to the nearest drop: 0 when water can fall
/// from it, otherwise the slope search from it, not looking back.
pub open spec fn spec_distance_to_drop(w: World, start: BlockPos, next_level: u8, initial: (i32, i32)) -> Option<int> {
    if spec_can_fall_from(w, start) {
        Some(0)
    } else {
        spec_slope_distance(w, start, next_level, 1, ((-initial.0) as i32, (-initial.1) as i32))
    }
}

/// The distance that ranks direction `k` from `source` (`usize::MAX` when no drop is found).
pub open spec fn spread_rank(w: World, source: BlockPos, next_level: u8, k: int) -> int {
    match spec_distance_to_drop(w, spec_neighbor(source, k), next_level, spec_dir(k)) {
        Some(d) => d,
        None => usize::MAX as int,
    }
}

pub open spec fn spread_candidate(w: World, source: BlockPos, next_level: u8, k: int) -> bool {
    spec_can_replace(w, spec_neighbor(source, k), next_level)
}

/// The rank of the best direction (`usize::MAX` when none is a candidate).
pub open spec fn best_rank_from(w: World, source: BlockPos, next_level: u8, k: int) -> int
    decreases 4 - k,
{
    if k >= 4 {
        usize::MAX as int
    } else {
        let rest = best_rank_from(w, source, next_level, k + 1);
        if spread_candidate(w, source, next_level, k) && spread_rank(w, source, next_level, k) < rest {
            spread_rank(w, source, next_level, k)
        } else {
            rest
        }
    }
}

/// The candidate neighbors of `source`, in direction order, whose rank is the best rank.
pub open spec fn spec_spread_targets_from(w: World, source: BlockPos, next_level: u8, k: int, best: int) -> Seq<BlockPos>
    decreases 4 - k,
{
    if k >= 4 {
        Seq::empty()
    } else {
        let rest = spec_spread_targets_from(w, source, next_level, k + 1, best);
        if spread_candidate(w, source, next_level, k) && spread_rank(w, source, next_level, k) == best {
            seq![spec_neighbor(source, k)] + rest
        } else {
            rest
        }
    }
}

pub open spec fn spec_spread_targets(w: World, source: BlockPos, next_level: u8) -> Seq<BlockPos> {
    spec_spread_targets_from(w, source, next_level, 0, best_rank_from(w, source, next_level, 0))
}

pub open spec fn spec_spread_level(level: u8) -> u8 {
    if level >= WATER_FALLING_LEVEL {
        WATER_SOURCE_LEVEL
    } else {
        level
    }
}

/// The horizontal neighbor of `pos` in direction `k` (+x, -x, +z, -z).
fn neighbor(pos: BlockPos, k: usize) -> (r: BlockPos)
    requires
        k < 4,
        coords_within(pos, 1),
    ensures
        r == spec_neighbor(pos, k as int),
{
    if k == 0 {
        BlockPos(pos.0 + 1, pos.1, pos.2)
    } else if k == 1 {
        BlockPos(pos.0 - 1, pos.1, pos.2)
    } else if k == 2 {
        BlockPos(pos.0, pos.1, pos.2 + 1)
    } else {
        BlockPos(pos.0, pos.1, pos.2 - 1)
    }
}

fn direction(k: usize) -> (r: (i32, i32))
    requires
        k < 4,
    ensures
        r == spec_dir(k as int),
{
    if k == 0 {
        (1, 0)
    } else if k == 1 {
        (-1, 0)
    } else if k == 2 {
        (0, 1)
    } else {
        (0, -1)
    }
}

/// The four horizontal directions with the neighbor of `pos` in each.
pub fn horizontal_directions(pos: BlockPos) -> (r: [((i32, i32), BlockPos); 4])
    requires
        coords_within(pos, 1),
    ensures
        forall|k: int| 0 <= k < 4 ==> (#[trigger] r@[k]).0 == spec_dir(k) && r@[k].1 == spec_neighbor(pos, k),
{
    [
        ((1, 0), BlockPos(pos.0 + 1, pos.1, pos.2)),
        ((-1, 0), BlockPos(pos.0 - 1, pos.1, pos.2)),
        ((0, 1), BlockPos(pos.0, pos.1, pos.2 + 1)),
        ((0, -1), BlockPos(pos.0, pos.1, pos.2 - 1)),
    ]
}

/// The four horizontal neighbors of `pos` (+x, -x, +z, -z).
pub fn horizontal_neighbors(pos: BlockPos) -> (r: [BlockPos; 4])
    requires
        coords_within(pos, 1),
    ensures
        forall|k: int| 0 <= k < 4 ==> #[trigger] r@[k] == spec_neighbor(pos, k),
{
    [neighbor(pos, 0), neighbor(pos, 1), neighbor(pos, 2), neighbor(pos, 3)]
}

/// The water level stored at `pos`, capped at the maximum level.
pub fn water_level_at(world: &World, pos: BlockPos) -> (r: u8)
    requires
        world.wf(),
    ensures
        r == spec_water_level(*world, pos),
{
    let v = world.get_block_property(pos, WATER_LEVEL_PROPERTY);
    if v < WATER_MAX_LEVEL {
        v
    } else {
        WATER_MAX_LEVEL
    }
}

fn is_water_at(world: &World, pos: BlockPos) -> (r: bool)
    requires
        world.wf(),
    ensures
        r == is_water(*world, pos),
{
    world.get_block(pos).is_named("water")
}

fn is_source_at(world: &World, pos: BlockPos) -> (r: bool)
    requires
        world.wf(),
    ensures
        r == is_source(*world, pos),
{
    is_water_at(world, pos) && water_level_at(world, pos) == WATER_SOURCE_LEVEL
}

/// Whether at least two horizontal neighbors of `pos` are water sources.
pub fn has_two_adjacent_water_sources(world: &World, pos: BlockPos) -> (r: bool)
    requires
        world.wf(),
        coords_within(pos, 1),
    ensures
        r == spec_two_adjacent_sources(*world, pos),
{
    let s0 = is_source_at(world, neighbor(pos, 0));
    let s1 = is_source_at(world, neighbor(pos, 1));
    let s2 = is_source_at(world, neighbor(pos, 2));
    let s3 = is_source_at(world, neighbor(pos, 3));
    let count = (s0 as u8) + (s1 as u8) + (s2 as u8) + (s3 as u8);
    proof {
        let w = *world;
        if spec_two_adjacent_sources(w, pos) {
            let (a, b) = choose|a: int, b: int| 0 <= a < b < 4 && #[trigger] is_source(w, spec_neighbor(pos, a)) && #[trigger] is_source(w, spec_neighbor(pos, b));
            assert(count >= 2);
        }
        if count >= 2 {
            if s0 && s1 {
                assert(is_source(w, spec_neighbor(pos, 0)) && is_source(w, spec_neighbor(pos, 1)));
            } else if s0 && s2 {
                assert(is_source(w, spec_neighbor(pos, 0)) && is_source(w, spec_neighbor(pos, 2)));
            } else if s0 && s3 {
                assert(is_source(w, spec_neighbor(pos, 0)) && is_source(w, spec_neighbor(pos, 3)));
            } else if s1 && s2 {
                assert(is_source(w, spec_neighbor(pos, 1)) && is_source(w, spec_neighbor(pos, 2)));
            } else if s1 && s3 {
                assert(is_source(w, spec_neighbor(pos, 1)) && is_source(w, spec_neighbor(pos, 3)));
            } else {
                assert(is_source(w, spec_neighbor(pos, 2)) && is_source(w, spec_neighbor(pos, 3)));
            }
        }
    }
    count >= 2
}

/// Whether a new water source forms at `pos`.
pub fn can_generate_water_source(world: &World, pos: BlockPos) -> (r: bool)
    requires
        world.wf(),
        coords_within(pos, 1),
    ensures
        r == spec_can_generate_source(*world, pos),
{
    let block = world.get_block(pos);
    let below_pos = BlockPos(pos.0, pos.1 - 1, pos.2);
    let below = world.get_block(below_pos);
    let supported = pos.1 == 0
        || (!below.is_air() && (!below.is_named("water") || water_level_at(world, below_pos) == WATER_SOURCE_LEVEL));
    let block_is_water = block.is_named("water");
    (block.is_air() || block_is_water)
        && !(block_is_water && water_level_at(world, pos) == WATER_SOURCE_LEVEL)
        && has_two_adjacent_water_sources(world, pos)
        && supported
}

/// Whether the cell below `pos` holds falling water.
pub fn has_falling_water_below(world: &World, pos: BlockPos) -> (r: bool)
    requires
        world.wf(),
        coords_within(pos, 1),
    ensures
        r == spec_has_falling_below(*world, pos),
{
    if pos.1 == 0 {
        return false;
    }
    let below = BlockPos(pos.0, pos.1 - 1, pos.2);
    is_water_at(world, below) && water_level_at(world, below) >= WATER_FALLING_LEVEL
}

/// Whether water at `pos` flows down instead of spreading sideways.
pub fn water_flows_downward(world: &World, pos: BlockPos) -> (r: bool)
    requires
        world.wf(),
        coords_within(pos, 1),
    ensures
        r == spec_flows_downward(*world, pos),
{
    if pos.1 == 0 {
        return false;
    }
    let below = BlockPos(pos.0, pos.1 - 1, pos.2);
    can_water_replace(world, below, WATER_FALLING_LEVEL) || has_falling_water_below(world, pos)
}

/// Whether water of `new_level` may enter `pos`.
pub fn can_water_replace(world: &World, pos: BlockPos, new_level: u8) -> (r: bool)
    requires
        world.wf(),
    ensures
        r == spec_can_replace(*world, pos, new_level),
{
    if !(0 <= pos.1 && pos.1 < 64) || !world.is_chunk_loaded(pos.chunk_pos()) {
        return false;
    }
    let block = world.get_block(pos);
    if block.is_air() {
        true
    } else if block.is_named("water") {
        world.get_block_property(pos, WATER_LEVEL_PROPERTY) > new_level
    } else {
        false
    }
}

/// Whether water can fall from `pos` into the cell below.
pub fn water_can_fall_from(world: &World, pos: BlockPos) -> (r: bool)
    requires
        world.wf(),
        coords_within(pos, 1),
    ensures
        r == spec_can_fall_from(*world, pos),
{
    pos.1 > 0 && can_water_replace(world, BlockPos(pos.0, pos.1 - 1, pos.2), WATER_FALLING_LEVEL)
}

fn same_dir(a: (i32, i32), b: (i32, i32)) -> (r: bool)
    ensures
        r == (a == b),
{
    a.0 == b.0 && a.1 == b.1
}

fn min_opt(a: Option<usize>, b: Option<usize>) -> (r: Option<usize>)
    ensures
        match r {
            Some(x) => opt_min(
                match a { Some(u) => Some(u as int), None => None },
                match b { Some(u) => Some(u as int), None => None },
            ) == Some(x as int),
            None => a is None && b is None,
        },
{
    match (a, b) {
        (Some(x), Some(y)) => Some(if x <= y { x } else { y }),
        (Some(x), None) => Some(x),
        (None, Some(y)) => Some(y),
        (None, None) => None,
    }
}

pub open spec fn as_int_opt(a: Option<usize>) -> Option<int> {
    match a {
        Some(u) => Some(u as int),
        None => None,
    }
}

/// Distance to the nearest drop through replaceable cells, at most four cells
/// out, never stepping back toward `blocked_direction`.
pub fn water_slope_distance(
    world: &World,
    pos: BlockPos,
    next_level: u8,
    distance: usize,
    blocked_direction: (i32, i32),
) -> (r: Option<usize>)
    requires
        world.wf(),
        1 <= distance <= 4,
        coords_within(pos, 6 - distance),
    ensures
        as_int_opt(r) == spec_slope_distance(*world, pos, next_level, distance as int, blocked_direction),
    decreases 4 - distance,
{
    let ghost w = *world;
    let mut k: usize = 0;
    while k < 4
        invariant
            world.wf(),
            w == *world,
            k <= 4,
            1 <= distance <= 4,
            coords_within(pos, 6 - distance),
            forall|j: int| 0 <= j < k ==> !(#[trigger] slope_eligible(w, pos, next_level, blocked_direction, j) && spec_can_fall_from(w, spec_neighbor(pos, j))),
        decreases 4 - k,
    {
        let n = neighbor(pos, k);
        if !same_dir(direction(k), blocked_direction) && can_water_replace(world, n, next_level) && water_can_fall_from(world, n) {
            assert(slope_eligible(w, pos, next_level, blocked_direction, k as int));
            return Some(distance);
        }
        k = k + 1;
    }
    if distance >= WATER_SLOPE_FIND_DISTANCE {
        return None;
    }
    let mut results: [Option<usize>; 4] = [None, None, None, None];
    let mut k: usize = 0;
    while k < 4
        invariant
            world.wf(),
            w == *world,
            k <= 4,
            1 <= distance < 4,
            coords_within(pos, 6 - distance),
            forall|j: int| 0 <= j < k ==> as_int_opt(#[trigger] results@[j]) == (if slope_eligible(w, pos, next_level, blocked_direction, j) {
                spec_slope_distance(w, spec_neighbor(pos, j), next_level, distance + 1, ((-spec_dir(j).0) as i32, (-spec_dir(j).1) as i32))
            } else {
                None
            }),
        decreases 4 - k,
    {
        let n = neighbor(pos, k);
        let d = direction(k);
        if !same_dir(d, blocked_direction) && can_water_replace(world, n, next_level) {
            let found = water_slope_distance(world, n, next_level, distance + 1, (-d.0, -d.1));
            results[k] = found;
        } else {
            results[k] = None;
        }
        k = k + 1;
    }
    let a = min_opt(results[0], results[1]);
    let b = min_opt(results[2], results[3]);
    min_opt(a, b)
}

/// Distance from `start` to the nearest drop: 0 when water can fall from it.
pub fn water_distance_to_drop(
    world: &World,
    start: BlockPos,
    next_level: u8,
    initial_direction: (i32, i32),
) -> (r: Option<usize>)
    requires
        world.wf(),
        coords_within(start, 5),
        -1 <= initial_direction.0 <= 1,
        -1 <= initial_direction.1 <= 1,
    ensures
        as_int_opt(r) == spec_distance_to_drop(*world, start, next_level, initial_direction),
{
    if water_can_fall_from(world, start) {
        return Some(0);
    }
    water_slope_distance(world, start, next_level, 1, (-initial_direction.0, -initial_direction.1))
}

/// The neighbors of `source` that water of `next_level` spreads to: among the
/// replaceable ones, those closest to a drop, in direction order.
pub fn water_spread_targets(world: &World, source: BlockPos, next_level: u8) -> (r: Vec<BlockPos>)
    requires
        world.wf(),
        coords_within(source, 6),
    ensures
        r@ == spec_spread_targets(*world, source, next_level),
{
    let ghost w = *world;
    let mut ranks: [usize; 4] = [0, 0, 0, 0];
    let mut candidates: [bool; 4] = [false, false, false, false];
    let mut k: usize = 0;
    while k < 4
        invariant
            world.wf(),
            w == *world,
            k <= 4,
            coords_within(source, 6),
            forall|j: int| 0 <= j < k ==> #[trigger] candidates@[j] == spread_candidate(w, source, next_level, j),
            forall|j: int| 0 <= j < k && candidates@[j] ==> #[trigger] ranks@[j] as int == spread_rank(w, source, next_level, j),
        decreases 4 - k,
    {
        let candidate = neighbor(source, k);
        if can_water_replace(world, candidate, next_level) {
            let d = match water_distance_to_drop(world, candidate, next_level, direction(k)) {
                Some(d) => d,
                None => usize::MAX,
            };
            candidates[k] = true;
            ranks[k] = d;
        } else {
            candidates[k] = false;
        }
        k = k + 1;
    }
    let mut best: usize = usize::MAX;
    let mut k: usize = 4;
    while k > 0
        invariant
            k <= 4,
            best as int == best_rank_from(w, source, next_level, k as int),
            forall|j: int| 0 <= j < 4 ==> #[trigger] candidates@[j] == spread_candidate(w, source, next_level, j),
            forall|j: int| 0 <= j < 4 && candidates@[j] ==> #[trigger] ranks@[j] as int == spread_rank(w, source, next_level, j),
        decreases k,
    {
        k = k - 1;
        if candidates[k] && ranks[k] < best {
            best = ranks[k];
        }
    }
    let mut targets: Vec<BlockPos> = Vec::new();
    let mut k: usize = 4;
    let ghost b = best as int;
    while k > 0
        invariant
            k <= 4,
            world.wf(),
            coords_within(source, 6),
            best as int == b,
            targets@ == spec_spread_targets_from(w, source, next_level, k as int, b),
            forall|j: int| 0 <= j < 4 ==> #[trigger] candidates@[j] == spread_candidate(w, source, next_level, j),
            forall|j: int| 0 <= j < 4 && candidates@[j] ==> #[trigger] ranks@[j] as int == spread_rank(w, source, next_level, j),
        decreases k,
    {
        k = k - 1;
        if candidates[k] && ranks[k] == best {
            let mut t: Vec<BlockPos> = Vec::new();
            t.push(neighbor(source, k));
            t.append(&mut targets);
            targets = t;
        }
    }
    targets
}

/// The level that horizontal spread continues from: falling water counts as a source.
pub fn water_spread_level(level: u8) -> (r: u8)
    ensures
        r == spec_spread_level(level),
{
    if level >= WATER_FALLING_LEVEL {
        WATER_SOURCE_LEVEL
    } else {
        level
    }
}

} // verus!
