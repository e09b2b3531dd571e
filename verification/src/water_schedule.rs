//! Scheduling of fluid updates.
//!
//! The simulation runs at a fixed tick rate. A fluid update is queued for a
//! later tick; each tick runs the updates that are due, at most
//! `WATER_UPDATES_PER_TICK` of them, in the order they were queued. An
//! update that was queued again for an earlier tick, or already run, is
//! skipped when its older entry comes up.

use vstd::prelude::*;
use std::collections::VecDeque;
use crate::fluid::{update_fluid_at, updated_block, update_changes, remesh_cells, requeue_cells,
    level_written, level_value, level_after, FluidUpdate};
use crate::water::{coords_within, WATER_LEVEL_PROPERTY};
use crate::world::{BlockPos, World, spec_chunk_pos};

verus! {

/// Ticks between a change and the fluid updates it causes.
pub const WATER_FLOW_DELAY_TICKS: u64 = 5;

/// The most fluid updates run in one tick.
pub const WATER_UPDATES_PER_TICK: usize = 128;

/// Whether a fluid update can be queued at `pos`: inside the world's height
/// and at least one block away from the coordinate limits.
pub open spec fn queueable(pos: BlockPos) -> bool {
    &&& 0 <= pos.1 < 64
    &&& coords_within(pos, 1)
}

/// The schedule as values: the current tick, the queue of entries (position
/// and due tick) in order, and the due tick each queued position waits for.
pub struct ScheduleView {
    pub tick: u64,
    pub pending: Seq<(BlockPos, u64)>,
    pub queued: Map<BlockPos, u64>,
}

/// `a + b`, capped at the largest tick.
pub open spec fn saturating_tick(a: u64, b: u64) -> u64 {
    if a + b > u64::MAX { u64::MAX } else { (a + b) as u64 }
}

/// The schedule after queuing an update at `pos`, due `delay` ticks from now:
/// it is queued when the position can be, its chunk is loaded, and it is not
/// already queued for that tick or an earlier one.
pub open spec fn queue_one(v: ScheduleView, w: World, pos: BlockPos, delay: u64) -> ScheduleView {
    let due = saturating_tick(v.tick, delay);
    if queueable(pos) && w.is_loaded(spec_chunk_pos(pos)) && (!v.queued.dom().contains(pos) || due < v.queued[pos]) {
        ScheduleView { tick: v.tick, pending: v.pending.push((pos, due)), queued: v.queued.insert(pos, due) }
    } else {
        v
    }
}

/// The schedule after queuing updates at the positions, in order, each
/// after the flow delay.
pub open spec fn queue_all(v: ScheduleView, w: World, s: Seq<BlockPos>) -> ScheduleView
    decreases s.len(),
{
    if s.len() == 0 {
        v
    } else {
        queue_one(queue_all(v, w, s.drop_last()), w, s.last(), WATER_FLOW_DELAY_TICKS)
    }
}

/// The positions whose fluid may react to a change at `pos`: itself, the
/// cells above and below, its four horizontal neighbours, and the cells two
/// blocks away along each horizontal axis.
pub open spec fn near_positions(pos: BlockPos) -> Seq<BlockPos> {
    seq![
        pos,
        BlockPos(pos.0, (pos.1 + 1) as i32, pos.2),
        BlockPos(pos.0, (pos.1 - 1) as i32, pos.2),
        BlockPos((pos.0 + 1) as i32, pos.1, pos.2),
        BlockPos((pos.0 - 1) as i32, pos.1, pos.2),
        BlockPos(pos.0, pos.1, (pos.2 + 1) as i32),
        BlockPos(pos.0, pos.1, (pos.2 - 1) as i32),
        BlockPos((pos.0 + 2) as i32, pos.1, pos.2),
        BlockPos((pos.0 - 2) as i32, pos.1, pos.2),
        BlockPos(pos.0, pos.1, (pos.2 + 2) as i32),
        BlockPos(pos.0, pos.1, (pos.2 - 2) as i32),
    ]
}

/// Whether `w1` is `w0` after the fluid update at `pos` that reported `r`
/// (what `update_fluid_at` ensures).
pub open spec fn fluid_updated(w0: World, w1: World, pos: BlockPos, r: FluidUpdate) -> bool {
    &&& w1.wf()
    &&& w1.spec_seed() == w0.spec_seed()
    &&& forall|q: BlockPos| #[trigger] w1.spec_block(q) == updated_block(w0, pos, q)
    &&& r.changed == update_changes(w0, pos)
    &&& r.remesh@ == remesh_cells(w0, pos)
    &&& r.requeue@ == requeue_cells(w0, pos)
    &&& forall|q: BlockPos, prop: u8| (prop != WATER_LEVEL_PROPERTY || !level_written(w0, pos, q))
        ==> #[trigger] w1.spec_property(q, prop) == w0.spec_property(q, prop)
    &&& forall|q: BlockPos| level_written(w0, pos, q) ==> #[trigger] level_after(w0, w1, q, level_value(w0, pos, q))
}

/// Whether running the entry at the front of the queue takes schedule `v0`
/// and world `w0` to `v1` and `w1`, reporting `r`: an empty queue stays as
/// it is; an entry not due yet goes back to the end; an entry whose
/// position is queued for another tick, or not at all, is dropped; otherwise
/// the position leaves the queue, its fluid update runs, and the cells the
/// fluid flowed into are queued.
pub open spec fn step_taken(v0: ScheduleView, w0: World, v1: ScheduleView, w1: World, r: WaterStep) -> bool {
    if v0.pending.len() == 0 {
        r is Idle && v1 == v0 && w1 == w0
    } else {
        let (pos, due) = v0.pending[0];
        if due > v0.tick {
            &&& r is Deferred
            &&& v1 == ScheduleView { tick: v0.tick, pending: v0.pending.drop_first().push((pos, due)), queued: v0.queued }
            &&& w1 == w0
        } else if !v0.queued.dom().contains(pos) || v0.queued[pos] != due {
            &&& r is Stale
            &&& v1 == ScheduleView { tick: v0.tick, pending: v0.pending.drop_first(), queued: v0.queued }
            &&& w1 == w0
        } else {
            &&& r matches WaterStep::Updated(u)
            &&& fluid_updated(w0, w1, pos, u)
            &&& v1 == queue_all(
                ScheduleView { tick: v0.tick, pending: v0.pending.drop_first(), queued: v0.queued.remove(pos) },
                w1, u.requeue@)
        }
    }
}

/// The number of updates that ran among the steps.
pub open spec fn updates_in(steps: Seq<WaterStep>) -> int
    decreases steps.len(),
{
    if steps.len() == 0 {
        0
    } else {
        updates_in(steps.drop_last()) + if steps.last() is Updated { 1int } else { 0int }
    }
}

/// The number of updates among the steps that changed a block.
pub open spec fn changes_in(steps: Seq<WaterStep>) -> int
    decreases steps.len(),
{
    if steps.len() == 0 {
        0
    } else {
        changes_in(steps.drop_last()) + match steps.last() {
            WaterStep::Updated(u) => if u.changed { 1int } else { 0int },
            _ => 0int,
        }
    }
}

/// The cells to remesh that the steps' updates reported, in order.
pub open spec fn remesh_in(steps: Seq<WaterStep>) -> Seq<BlockPos>
    decreases steps.len(),
{
    if steps.len() == 0 {
        Seq::empty()
    } else {
        remesh_in(steps.drop_last()) + match steps.last() {
            WaterStep::Updated(u) => u.remesh@,
            _ => Seq::empty(),
        }
    }
}

/// Whether a tick that started with `count` queued entries runs another
/// step after `done`: fewer than `WATER_UPDATES_PER_TICK` updates ran, fewer
/// entries than it started with came up, and the queue was not found empty.
pub open spec fn tick_continues(count: int, done: Seq<WaterStep>) -> bool {
    &&& updates_in(done) < WATER_UPDATES_PER_TICK
    &&& done.len() < count
    &&& (done.len() == 0 || !(done.last() is Idle))
}

/// Whether a tick from schedule `v0` and world `w0` ran the steps `steps`
/// through the schedules `vs` and worlds `ws`, ending at `v1` and `w1`.
pub open spec fn tick_ran(v0: ScheduleView, w0: World, vs: Seq<ScheduleView>, ws: Seq<World>, steps: Seq<WaterStep>,
    v1: ScheduleView, w1: World) -> bool
{
    let k = steps.len();
    &&& vs.len() == k + 1
    &&& ws.len() == k + 1
    &&& vs[0] == v0 && ws[0] == w0
    &&& vs[k as int] == v1 && ws[k as int] == w1
    &&& forall|i: int| 0 <= i < k ==> step_taken(vs[i], ws[i], vs[i + 1], ws[i + 1], #[trigger] steps[i])
    &&& forall|i: int| 0 <= i < k ==> tick_continues(v0.pending.len() as int, #[trigger] steps.take(i))
    &&& !tick_continues(v0.pending.len() as int, steps)
}

/// What running the next queued entry did.
#[derive(Debug)]
pub enum WaterStep {
    /// Nothing was queued.
    Idle,
    /// The entry was not due yet and went back to the end of the queue.
    Deferred,
    /// The position had been queued again since, or already run: the entry
    /// was dropped.
    Stale,
    /// The update ran, with this outcome.
    Updated(FluidUpdate),
}

/// What one tick of fluid updates did.
#[derive(Debug)]
pub struct WaterTick {
    /// Updates that changed a block.
    pub changed: usize,
    /// Cells whose chunk meshes need rebuilding, in the order changed.
    pub remesh: Vec<BlockPos>,
}

/// Pending fluid updates and the simulation tick.
pub struct WaterUpdates {
    tick: u64,
    pending: VecDeque<(BlockPos, u64)>,
    queued: Vec<(BlockPos, u64)>,
}

/// Whether `pos` is a key of the list.
pub open spec fn has_key(s: Seq<(BlockPos, u64)>, pos: BlockPos) -> bool {
    exists|i: int| 0 <= i < s.len() && #[trigger] s[i].0 == pos
}

/// The list of keys and ticks as a map.
pub open spec fn tick_map(s: Seq<(BlockPos, u64)>) -> Map<BlockPos, u64> {
    Map::new(|p: BlockPos| has_key(s, p), |p: BlockPos| s[choose|i: int| 0 <= i < s.len() && #[trigger] s[i].0 == p].1)
}

/// Whether no two entries share a key.
pub open spec fn keys_distinct(s: Seq<(BlockPos, u64)>) -> bool {
    forall|i: int, j: int| 0 <= i < s.len() && 0 <= j < s.len() && i != j ==> #[trigger] s[i].0 != #[trigger] s[j].0
}

proof fn lemma_tick_at(s: Seq<(BlockPos, u64)>, i: int)
    requires
        keys_distinct(s),
        0 <= i < s.len(),
    ensures
        tick_map(s).dom().contains(s[i].0),
        tick_map(s)[s[i].0] == s[i].1,
{
    let p = s[i].0;
    assert(has_key(s, p));
    let j = choose|j: int| 0 <= j < s.len() && #[trigger] s[j].0 == p;
    assert(j == i);
}

impl WaterUpdates {
    /// Whether the queued positions are distinct and every queued entry can
    /// be run.
    pub closed spec fn wf(&self) -> bool {
        &&& keys_distinct(self.queued@)
        &&& forall|i: int| 0 <= i < self.pending@.len() ==> queueable(#[trigger] self.pending@[i].0)
    }

    /// The schedule as values.
    pub closed spec fn view(&self) -> ScheduleView {
        ScheduleView { tick: self.tick, pending: self.pending@, queued: tick_map(self.queued@) }
    }

    /// An empty schedule at tick 0.
    pub fn new() -> (r: WaterUpdates)
        ensures
            r.wf(),
            r.view().tick == 0,
            r.view().pending.len() == 0,
            r.view().queued == Map::<BlockPos, u64>::empty(),
    {
        let r = WaterUpdates { tick: 0, pending: VecDeque::new(), queued: Vec::new() };
        assert(tick_map(r.queued@) =~= Map::<BlockPos, u64>::empty());
        r
    }

    /// The current simulation tick.
    pub fn tick(&self) -> (r: u64)
        ensures
            r == self.view().tick,
    {
        self.tick
    }

    /// Moves on to the next tick (wrapping at the largest tick).
    pub fn advance_tick(&mut self)
        requires
            old(self).wf(),
        ensures
            final(self).wf(),
            final(self).view().tick == if old(self).view().tick == u64::MAX { 0 } else { (old(self).view().tick + 1) as u64 },
            final(self).view().pending == old(self).view().pending,
            final(self).view().queued == old(self).view().queued,
    {
        self.tick = self.tick.wrapping_add(1);
    }

    /// Number of entries in the queue.
    pub fn pending_len(&self) -> (r: usize)
        ensures
            r == self.view().pending.len(),
    {
        self.pending.len()
    }

    fn find_queued(&self, pos: BlockPos) -> (r: Option<usize>)
        requires
            self.wf(),
        ensures
            match r {
                Some(i) => i < self.queued@.len() && self.queued@[i as int].0 == pos,
                None => !has_key(self.queued@, pos),
            },
    {
        let mut i: usize = 0;
        while i < self.queued.len()
            invariant
                i <= self.queued@.len(),
                forall|j: int| 0 <= j < i ==> self.queued@[j].0 != pos,
            decreases self.queued.len() - i,
        {
            if self.queued[i].0 == pos {
                return Some(i);
            }
            i = i + 1;
        }
        None
    }

    /// Queues a fluid update at `pos`, due `delay` ticks from now, unless it
    /// cannot be queued there (outside the world's height, too near the
    /// coordinate limits, or in a chunk that is not loaded) or it is already
    /// queued for that tick or an earlier one.
    pub fn queue_after(&mut self, world: &World, pos: BlockPos, delay: u64)
        requires
            old(self).wf(),
            world.wf(),
        ensures
            final(self).wf(),
            final(self).view() == queue_one(old(self).view(), *world, pos, delay),
    {
        let ghost v0 = self.view();
        if !(0 <= pos.1 && pos.1 < 64) {
            return;
        }
        if !(i32::MIN + 1 <= pos.0 && pos.0 <= i32::MAX - 1 && i32::MIN + 1 <= pos.1 && pos.1 <= i32::MAX - 1
            && i32::MIN + 1 <= pos.2 && pos.2 <= i32::MAX - 1) {
            return;
        }
        if !world.is_chunk_loaded(pos.chunk_pos()) {
            return;
        }
        let due = self.tick.saturating_add(delay);
        assert(due == saturating_tick(self.tick, delay));
        match self.find_queued(pos) {
            Some(i) => {
                proof {
                    lemma_tick_at(self.queued@, i as int);
                }
                if due < self.queued[i].1 {
                    let ghost q0 = self.queued@;
                    self.queued.set(i, (pos, due));
                    self.pending.push_back((pos, due));
                    proof {
                        assert forall|a: int, b: int| 0 <= a < self.queued@.len() && 0 <= b < self.queued@.len() && a != b
                            implies #[trigger] self.queued@[a].0 != #[trigger] self.queued@[b].0 by {
                            assert(q0[a].0 == self.queued@[a].0);
                            assert(q0[b].0 == self.queued@[b].0);
                        }
                        assert forall|p: BlockPos| #[trigger] has_key(self.queued@, p) == has_key(q0, p) by {
                            if has_key(q0, p) {
                                let j = choose|j: int| 0 <= j < q0.len() && #[trigger] q0[j].0 == p;
                                assert(self.queued@[j].0 == p);
                            }
                            if has_key(self.queued@, p) {
                                let j = choose|j: int| 0 <= j < self.queued@.len() && #[trigger] self.queued@[j].0 == p;
                                assert(q0[j].0 == p);
                            }
                        }
                        assert forall|p: BlockPos| has_key(self.queued@, p) && p != pos
                            implies #[trigger] tick_map(self.queued@)[p] == tick_map(q0)[p] by {
                            let j = choose|j: int| 0 <= j < q0.len() && #[trigger] q0[j].0 == p;
                            lemma_tick_at(q0, j);
                            lemma_tick_at(self.queued@, j);
                        }
                        lemma_tick_at(self.queued@, i as int);
                        assert(tick_map(self.queued@) =~= tick_map(q0).insert(pos, due));
                    }
                }
            },
            None => {
                let ghost q0 = self.queued@;
                self.queued.push((pos, due));
                self.pending.push_back((pos, due));
                proof {
                    assert forall|p: BlockPos| #[trigger] has_key(self.queued@, p) == (has_key(q0, p) || p == pos) by {
                        if has_key(q0, p) {
                            let j = choose|j: int| 0 <= j < q0.len() && #[trigger] q0[j].0 == p;
                            assert(self.queued@[j].0 == p);
                        }
                        if has_key(self.queued@, p) {
                            let j = choose|j: int| 0 <= j < self.queued@.len() && #[trigger] self.queued@[j].0 == p;
                            if j < q0.len() {
                                assert(q0[j].0 == p);
                            }
                        }
                        if p == pos {
                            assert(self.queued@[q0.len() as int].0 == p);
                        }
                    }
                    assert forall|p: BlockPos| has_key(self.queued@, p) && p != pos
                        implies #[trigger] tick_map(self.queued@)[p] == tick_map(q0)[p] by {
                        let j = choose|j: int| 0 <= j < q0.len() && #[trigger] q0[j].0 == p;
                        lemma_tick_at(q0, j);
                        lemma_tick_at(self.queued@, j);
                    }
                    lemma_tick_at(self.queued@, q0.len() as int);
                    assert(tick_map(self.queued@) =~= tick_map(q0).insert(pos, due));
                }
            },
        }
    }

    /// Queues a fluid update at `pos` after the flow delay.
    pub fn queue(&mut self, world: &World, pos: BlockPos)
        requires
            old(self).wf(),
            world.wf(),
        ensures
            final(self).wf(),
            final(self).view() == queue_one(old(self).view(), *world, pos, WATER_FLOW_DELAY_TICKS),
    {
        self.queue_after(world, pos, WATER_FLOW_DELAY_TICKS);
    }

    /// Queues the positions, in order, after the flow delay.
    pub fn queue_all(&mut self, world: &World, positions: &Vec<BlockPos>)
        requires
            old(self).wf(),
            world.wf(),
        ensures
            final(self).wf(),
            final(self).view() == queue_all(old(self).view(), *world, positions@),
    {
        let ghost v0 = self.view();
        let mut i: usize = 0;
        while i < positions.len()
            invariant
                i <= positions@.len(),
                self.wf(),
                world.wf(),
                self.view() == queue_all(v0, *world, positions@.subrange(0, i as int)),
            decreases positions.len() - i,
        {
            self.queue(world, positions[i]);
            proof {
                let s = positions@.subrange(0, i + 1);
                assert(s.drop_last() =~= positions@.subrange(0, i as int));
                assert(s.last() == positions@[i as int]);
            }
            i = i + 1;
        }
        assert(positions@.subrange(0, positions@.len() as int) =~= positions@);
    }

    /// Queues fluid updates around a changed block: at the block itself,
    /// above and below it, beside it, and two blocks away along each
    /// horizontal axis.
    pub fn queue_near(&mut self, world: &World, pos: BlockPos)
        requires
            old(self).wf(),
            world.wf(),
            coords_within(pos, 2),
        ensures
            final(self).wf(),
            final(self).view() == queue_all(old(self).view(), *world, near_positions(pos)),
    {
        let near = vec![
            pos,
            BlockPos(pos.0, pos.1 + 1, pos.2),
            BlockPos(pos.0, pos.1 - 1, pos.2),
            BlockPos(pos.0 + 1, pos.1, pos.2),
            BlockPos(pos.0 - 1, pos.1, pos.2),
            BlockPos(pos.0, pos.1, pos.2 + 1),
            BlockPos(pos.0, pos.1, pos.2 - 1),
            BlockPos(pos.0 + 2, pos.1, pos.2),
            BlockPos(pos.0 - 2, pos.1, pos.2),
            BlockPos(pos.0, pos.1, pos.2 + 2),
            BlockPos(pos.0, pos.1, pos.2 - 2),
        ];
        assert(near@ =~= near_positions(pos));
        self.queue_all(world, &near);
    }

    /// Runs the entry at the front of the queue: an entry not due yet goes
    /// back to the end; an entry whose position has been queued again since,
    /// or already run, is dropped; otherwise the position leaves the queue,
    /// its fluid update runs, and the cells the fluid flowed into are queued.
    pub fn process_next(&mut self, world: &mut World) -> (r: WaterStep)
        requires
            old(self).wf(),
            old(world).wf(),
        ensures
            final(self).wf(),
            final(world).wf(),
            final(self).view().tick == old(self).view().tick,
            step_taken(old(self).view(), *old(world), final(self).view(), *final(world), r),
    {
        let ghost v = self.view();
        let ghost q0 = self.queued@;
        let entry = self.pending.pop_front();
        match entry {
            None => {
                WaterStep::Idle
            },
            Some(e) => {
                let (pos, due) = e;
                assert(v.pending[0] == e);
                assert(queueable(pos));
                if due > self.tick {
                    self.pending.push_back((pos, due));
                    proof {
                        assert forall|i: int| 0 <= i < self.pending@.len() implies queueable(#[trigger] self.pending@[i].0) by {
                            if i < self.pending@.len() - 1 {
                                assert(self.pending@[i] == v.pending[i + 1]);
                            }
                        }
                    }
                    return WaterStep::Deferred;
                }
                proof {
                    assert forall|i: int| 0 <= i < self.pending@.len() implies queueable(#[trigger] self.pending@[i].0) by {
                        assert(self.pending@[i] == v.pending[i + 1]);
                    }
                }
                let found = self.find_queued(pos);
                let i = match found {
                    None => {
                        return WaterStep::Stale;
                    },
                    Some(i) => i,
                };
                proof {
                    lemma_tick_at(q0, i as int);
                }
                if self.queued[i].1 != due {
                    return WaterStep::Stale;
                }
                self.queued.remove(i);
                proof {
                    assert forall|a: int, b: int| 0 <= a < self.queued@.len() && 0 <= b < self.queued@.len() && a != b
                        implies #[trigger] self.queued@[a].0 != #[trigger] self.queued@[b].0 by {
                        let oa = if a < i { a } else { a + 1 };
                        let ob = if b < i { b } else { b + 1 };
                        assert(self.queued@[a] == q0[oa]);
                        assert(self.queued@[b] == q0[ob]);
                    }
                    assert forall|p: BlockPos| #[trigger] has_key(self.queued@, p) == (has_key(q0, p) && p != pos) by {
                        if has_key(q0, p) && p != pos {
                            let j = choose|j: int| 0 <= j < q0.len() && #[trigger] q0[j].0 == p;
                            assert(j != i);
                            let k = if j < i { j } else { j - 1 };
                            assert(self.queued@[k].0 == p);
                        }
                        if has_key(self.queued@, p) {
                            let k = choose|k: int| 0 <= k < self.queued@.len() && #[trigger] self.queued@[k].0 == p;
                            let j = if k < i { k } else { k + 1 };
                            assert(q0[j].0 == p);
                            assert(j != i);
                        }
                    }
                    assert forall|p: BlockPos| has_key(self.queued@, p)
                        implies #[trigger] tick_map(self.queued@)[p] == tick_map(q0)[p] by {
                        let k = choose|k: int| 0 <= k < self.queued@.len() && #[trigger] self.queued@[k].0 == p;
                        let j = if k < i { k } else { k + 1 };
                        assert(q0[j] == self.queued@[k]);
                        lemma_tick_at(q0, j);
                        lemma_tick_at(self.queued@, k);
                    }
                    assert(tick_map(self.queued@) =~= tick_map(q0).remove(pos));
                    assert(self.pending@ =~= v.pending.drop_first());
                }
                let u = update_fluid_at(world, pos);
                let ghost before = self.view();
                self.queue_all(world, &u.requeue);
                proof {
                    lemma_queue_all_tick(before, *world, u.requeue@);
                }
                WaterStep::Updated(u)
            },
        }
    }

    /// Runs one tick's fluid updates: the entries queued at the start of the
    /// tick come up in order, one `process_next` at a time, until
    /// `WATER_UPDATES_PER_TICK` updates have run, every entry queued at the
    /// start has come up once, or the queue is empty. Reports how many
    /// updates changed a block and the cells to remesh.
    pub fn process(&mut self, world: &mut World) -> (r: WaterTick)
        requires
            old(self).wf(),
            old(world).wf(),
        ensures
            final(self).wf(),
            final(world).wf(),
            final(self).view().tick == old(self).view().tick,
            r.changed <= WATER_UPDATES_PER_TICK,
            exists|vs: Seq<ScheduleView>, ws: Seq<World>, steps: Seq<WaterStep>|
                #[trigger] tick_ran(old(self).view(), *old(world), vs, ws, steps, final(self).view(), *final(world))
                && r.changed == changes_in(steps) && r.remesh@ == remesh_in(steps),
    {
        let mut changed: usize = 0;
        let mut processed: usize = 0;
        let pending_count = self.pending.len();
        let mut checked: usize = 0;
        let mut idle = false;
        let mut remesh: Vec<BlockPos> = Vec::new();
        let ghost v0 = self.view();
        let ghost w0 = *world;
        let ghost mut vs: Seq<ScheduleView> = seq![v0];
        let ghost mut ws: Seq<World> = seq![w0];
        let ghost mut steps: Seq<WaterStep> = Seq::empty();
        while processed < WATER_UPDATES_PER_TICK && checked < pending_count && !idle
            invariant
                self.wf(),
                world.wf(),
                self.view().tick == v0.tick,
                pending_count == v0.pending.len(),
                checked == steps.len(),
                vs.len() == checked + 1,
                ws.len() == checked + 1,
                vs[0] == v0 && ws[0] == w0,
                vs[checked as int] == self.view() && ws[checked as int] == *world,
                forall|i: int| 0 <= i < checked ==> step_taken(vs[i], ws[i], vs[i + 1], ws[i + 1], #[trigger] steps[i]),
                forall|i: int| 0 <= i < checked ==> tick_continues(pending_count as int, #[trigger] steps.take(i)),
                idle == (checked > 0 && steps.last() is Idle),
                processed == updates_in(steps),
                changed == changes_in(steps),
                changed <= processed <= WATER_UPDATES_PER_TICK,
                remesh@ == remesh_in(steps),
            decreases pending_count - checked,
        {
            proof {
                assert(tick_continues(pending_count as int, steps));
            }
            let ghost before = steps;
            let step = self.process_next(world);
            let ghost done = step;
            proof {
                vs = vs.push(self.view());
                ws = ws.push(*world);
                steps = steps.push(done);
                assert(steps.drop_last() =~= before);
                assert forall|i: int| 0 <= i < checked + 1 implies tick_continues(pending_count as int, #[trigger] steps.take(i)) by {
                    if i < checked {
                        assert(steps.take(i) =~= before.take(i));
                    } else {
                        assert(steps.take(i) =~= before);
                    }
                }
            }
            checked = checked + 1;
            match step {
                WaterStep::Idle => {
                    idle = true;
                },
                WaterStep::Deferred => {},
                WaterStep::Stale => {},
                WaterStep::Updated(u) => {
                    processed = processed + 1;
                    if u.changed {
                        changed = changed + 1;
                    }
                    let mut cells = u.remesh;
                    remesh.append(&mut cells);
                },
            }
        }
        proof {
            assert(tick_ran(v0, w0, vs, ws, steps, self.view(), *world));
        }
        WaterTick { changed, remesh }
    }
}

/// Queuing keeps the tick.
proof fn lemma_queue_all_tick(v: ScheduleView, w: World, s: Seq<BlockPos>)
    ensures
        queue_all(v, w, s).tick == v.tick,
    decreases s.len(),
{
    if s.len() > 0 {
        lemma_queue_all_tick(v, w, s.drop_last());
    }
}

} // verus!
