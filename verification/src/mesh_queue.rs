//! Scheduling of chunk mesh rebuilds.
//!
//! Chunks whose blocks changed wait in a queue for their mesh to be built
//! again; a change next to the player goes to the front. A chunk whose mesh
//! is being built when it changes again is marked, and goes to the front of
//! the queue as soon as that mesh arrives, which is then thrown away.

use vstd::prelude::*;
use crate::render::chunk_distance;
use crate::world::{ChunkPos, World};

verus! {

/// How many mesh rebuilds are started per tick.
pub const CHUNK_MESH_REBUILDS_PER_TICK: usize = 1;
/// How many built meshes are taken in per tick.
pub const GENERATED_MESHES_INTEGRATED_PER_TICK: usize = 1;

/// The rebuild schedule as values: the queue in order, the chunks marked
/// for a rebuild, and the chunks whose mesh is being built.
pub struct MeshQueueView {
    pub order: Seq<ChunkPos>,
    pub queued: Set<ChunkPos>,
    pub building: Set<ChunkPos>,
}

/// The schedule after a rebuild of `pos` is asked for at the back: a chunk
/// being built is only marked; an unmarked one is marked and queued.
pub open spec fn queue_back(v: MeshQueueView, pos: ChunkPos) -> MeshQueueView {
    if v.building.contains(pos) {
        MeshQueueView { queued: v.queued.insert(pos), ..v }
    } else if v.queued.contains(pos) {
        v
    } else {
        MeshQueueView { order: v.order.push(pos), queued: v.queued.insert(pos), ..v }
    }
}

/// The schedule after a rebuild of `pos` is asked for at the front: a chunk
/// being built is only marked; any other is marked and moved (or put) to the
/// front of the queue.
pub open spec fn queue_front(v: MeshQueueView, pos: ChunkPos) -> MeshQueueView {
    if v.building.contains(pos) {
        MeshQueueView { queued: v.queued.insert(pos), ..v }
    } else {
        MeshQueueView {
            order: seq![pos] + without_pos(v.order, pos),
            queued: v.queued.insert(pos),
            ..v
        }
    }
}

/// `s` without the entries of `p`.
pub open spec fn without_pos(s: Seq<ChunkPos>, p: ChunkPos) -> Seq<ChunkPos> {
    s.filter(other_than(p))
}

/// The test for chunks other than `p`.
pub open spec fn other_than(p: ChunkPos) -> spec_fn(ChunkPos) -> bool {
    |q: ChunkPos| q != p
}

/// Asking twice for a rebuild at the back is asking once: a chunk waits in
/// the queue at most once for such requests.
pub proof fn law_queue_back_idempotent(v: MeshQueueView, pos: ChunkPos)
    ensures
        queue_back(queue_back(v, pos), pos) == queue_back(v, pos),
{
    let once = queue_back(v, pos);
    if v.building.contains(pos) {
        assert(once.queued.insert(pos) =~= once.queued);
    }
}

/// A rebuild asked for at the front of the queue, for a chunk not being
/// built, is the next one taken, and the chunk waits only there.
pub proof fn law_front_request_comes_next(v: MeshQueueView, pos: ChunkPos)
    requires
        !v.building.contains(pos),
    ensures
        queue_front(v, pos).order[0] == pos,
        forall|i: int| 0 < i < queue_front(v, pos).order.len() ==> #[trigger] queue_front(v, pos).order[i] != pos,
{
    let rest = without_pos(v.order, pos);
    assert forall|i: int| 0 < i < queue_front(v, pos).order.len() implies #[trigger] queue_front(v, pos).order[i] != pos by {
        assert(queue_front(v, pos).order[i] == rest[i - 1]);
        v.order.lemma_filter_pred(other_than(pos), i - 1);
    }
}

/// A chunk and its four horizontal neighbours, whose meshes a change to the
/// chunk's blocks can affect.
pub open spec fn near_chunks(c: ChunkPos) -> Seq<ChunkPos> {
    seq![
        c,
        ChunkPos((c.0 + 1) as i32, c.1),
        ChunkPos((c.0 - 1) as i32, c.1),
        ChunkPos(c.0, (c.1 + 1) as i32),
        ChunkPos(c.0, (c.1 - 1) as i32),
    ]
}

/// The schedule after rebuilds of the chunks are asked for at the back, in
/// order.
pub open spec fn queue_all_back(v: MeshQueueView, s: Seq<ChunkPos>) -> MeshQueueView
    decreases s.len(),
{
    if s.len() == 0 {
        v
    } else {
        queue_back(queue_all_back(v, s.drop_last()), s.last())
    }
}

/// What to do with the chunk at the front of the queue.
#[derive(Clone, Copy, Debug, PartialEq, Eq, Structural)]
pub enum MeshStep {
    /// The queue is empty.
    Idle,
    /// The chunk is out of the render distance, or no longer loaded: its
    /// mesh is removed.
    Drop(ChunkPos),
    /// Its mesh is to be built.
    Build(ChunkPos),
}

/// What to do with a mesh that arrived.
#[derive(Clone, Copy, Debug, PartialEq, Eq, Structural)]
pub enum MeshArrival {
    /// The chunk changed while it was built: it went back to the front of
    /// the queue and the mesh is thrown away.
    Requeued,
    /// The chunk is out of the render distance, or no longer loaded: its
    /// mesh is removed.
    Dropped,
    /// The mesh is taken in.
    Ready,
}

/// Whether a chunk is out of reach for meshing: farther than the render
/// distance from `center`, or not loaded.
pub open spec fn out_of_reach(w: World, pos: ChunkPos, center: ChunkPos, render_distance: i32) -> bool {
    chunk_distance(pos, center) > render_distance || !w.is_loaded(pos)
}

pub open spec fn set_of(s: Seq<ChunkPos>) -> Set<ChunkPos> {
    Set::new(|p: ChunkPos| s.contains(p))
}

/// The mesh rebuild schedule.
pub struct MeshQueue {
    order: Vec<ChunkPos>,
    queued: Vec<ChunkPos>,
    building: Vec<ChunkPos>,
}

impl View for MeshQueue {
    type V = MeshQueueView;

    closed spec fn view(&self) -> MeshQueueView {
        MeshQueueView { order: self.order@, queued: set_of(self.queued@), building: set_of(self.building@) }
    }
}

fn contains(v: &Vec<ChunkPos>, p: ChunkPos) -> (r: bool)
    ensures
        r == v@.contains(p),
{
    let mut i: usize = 0;
    while i < v.len()
        invariant
            i <= v.len(),
            forall|j: int| 0 <= j < i ==> v@[j] != p,
        decreases v.len() - i,
    {
        if v[i] == p {
            return true;
        }
        i = i + 1;
    }
    false
}

fn without(v: &Vec<ChunkPos>, p: ChunkPos) -> (r: Vec<ChunkPos>)
    ensures
        r@ == without_pos(v@, p),
{
    let mut r: Vec<ChunkPos> = Vec::new();
    let mut i: usize = 0;
    while i < v.len()
        invariant
            i <= v.len(),
            r@ == without_pos(v@.subrange(0, i as int), p),
        decreases v.len() - i,
    {
        let q = v[i];
        proof {
            assert(v@.subrange(0, i + 1) == v@.subrange(0, i as int).push(q));
            v@.subrange(0, i as int).lemma_filter_push(q, other_than(p));
        }
        if q != p {
            r.push(q);
        }
        i = i + 1;
    }
    assert(v@.subrange(0, v@.len() as int) == v@);
    r
}

proof fn lemma_without_set(s: Seq<ChunkPos>, p: ChunkPos)
    ensures
        set_of(without_pos(s, p)) == set_of(s).remove(p),
{
    let f = other_than(p);
    assert forall|q: ChunkPos| #[trigger] set_of(s.filter(f)).contains(q) == set_of(s).remove(p).contains(q) by {
        if s.filter(f).contains(q) {
            s.lemma_filter_contains_rev(f, q);
            let i = choose|i: int| 0 <= i < s.filter(f).len() && s.filter(f)[i] == q;
            s.lemma_filter_pred(f, i);
        }
        if s.contains(q) && q != p {
            let i = choose|i: int| 0 <= i < s.len() && s[i] == q;
            s.lemma_filter_contains(f, i);
        }
    }
    assert(set_of(s.filter(f)) =~= set_of(s).remove(p));
}

proof fn lemma_push_set(s: Seq<ChunkPos>, p: ChunkPos)
    ensures
        set_of(s.push(p)) == set_of(s).insert(p),
{
    assert forall|q: ChunkPos| #[trigger] set_of(s.push(p)).contains(q) == set_of(s).insert(p).contains(q) by {
        if s.contains(q) {
            let i = choose|i: int| 0 <= i < s.len() && s[i] == q;
            assert(s.push(p)[i] == q);
        }
        if s.push(p).contains(q) && q != p {
            let i = choose|i: int| 0 <= i < s.push(p).len() && s.push(p)[i] == q;
            assert(s[i] == q);
        }
        assert(s.push(p)[s.len() as int] == p);
    }
    assert(set_of(s.push(p)) =~= set_of(s).insert(p));
}

fn insert(v: &mut Vec<ChunkPos>, p: ChunkPos)
    ensures
        set_of(final(v)@) == set_of(old(v)@).insert(p),
{
    if !contains(v, p) {
        proof {
            lemma_push_set(v@, p);
        }
        v.push(p);
    } else {
        assert(set_of(v@) =~= set_of(v@).insert(p));
    }
}

fn remove(v: &mut Vec<ChunkPos>, p: ChunkPos)
    ensures
        set_of(final(v)@) == set_of(old(v)@).remove(p),
{
    let kept = without(v, p);
    proof {
        lemma_without_set(v@, p);
    }
    *v = kept;
}

impl MeshQueue {
    /// An empty schedule.
    pub fn new() -> (r: MeshQueue)
        ensures
            r@.order.len() == 0,
            r@.queued.is_empty(),
            r@.building.is_empty(),
    {
        let r = MeshQueue { order: Vec::new(), queued: Vec::new(), building: Vec::new() };
        assert(r@.queued =~= Set::empty());
        assert(r@.building =~= Set::empty());
        r
    }

    /// How many chunks wait in the queue.
    pub fn len(&self) -> (r: usize)
        ensures
            r == self@.order.len(),
    {
        self.order.len()
    }

    /// Asks for a rebuild of `pos` at the back of the queue.
    pub fn queue(&mut self, pos: ChunkPos)
        ensures
            final(self)@ == queue_back(old(self)@, pos),
    {
        if contains(&self.building, pos) {
            insert(&mut self.queued, pos);
            return;
        }
        if !contains(&self.queued, pos) {
            insert(&mut self.queued, pos);
            self.order.push(pos);
        }
    }

    /// Asks for a rebuild of `pos` at the front of the queue.
    pub fn queue_front(&mut self, pos: ChunkPos)
        ensures
            final(self)@ == queue_front(old(self)@, pos),
    {
        if contains(&self.building, pos) {
            insert(&mut self.queued, pos);
            return;
        }
        insert(&mut self.queued, pos);
        let rest = without(&self.order, pos);
        let mut order: Vec<ChunkPos> = Vec::new();
        order.push(pos);
        let mut tail = rest;
        order.append(&mut tail);
        assert(order@ =~= seq![pos] + without_pos(old(self)@.order, pos));
        self.order = order;
    }

    /// Asks for rebuilds of chunk `center` and its four horizontal
    /// neighbours, at the back of the queue.
    pub fn queue_near(&mut self, center: ChunkPos)
        requires
            i32::MIN < center.0 < i32::MAX,
            i32::MIN < center.1 < i32::MAX,
        ensures
            final(self)@ == queue_all_back(old(self)@, near_chunks(center)),
    {
        let ghost v0 = self@;
        let ghost s = near_chunks(center);
        self.queue(center);
        self.queue(ChunkPos(center.0 + 1, center.1));
        self.queue(ChunkPos(center.0 - 1, center.1));
        self.queue(ChunkPos(center.0, center.1 + 1));
        self.queue(ChunkPos(center.0, center.1 - 1));
        proof {
            assert(s.drop_last().drop_last().drop_last().drop_last().drop_last().len() == 0);
            assert(s.drop_last().drop_last().drop_last().drop_last() =~= seq![center]);
            assert(s.drop_last().drop_last().drop_last() =~= seq![center, ChunkPos((center.0 + 1) as i32, center.1)]);
            assert(s.drop_last().drop_last() =~= seq![center, ChunkPos((center.0 + 1) as i32, center.1),
                ChunkPos((center.0 - 1) as i32, center.1)]);
            assert(s.drop_last() =~= seq![center, ChunkPos((center.0 + 1) as i32, center.1),
                ChunkPos((center.0 - 1) as i32, center.1), ChunkPos(center.0, (center.1 + 1) as i32)]);
            reveal_with_fuel(queue_all_back, 6);
        }
    }

    /// Takes the chunk at the front of the queue, unmarks it, and says
    /// whether to build its mesh or drop it.
    pub fn next_step(&mut self, world: &World, center: ChunkPos, render_distance: i32) -> (r: MeshStep)
        requires
            world.wf(),
        ensures
            old(self)@.order.len() == 0 ==> r == MeshStep::Idle && final(self)@ == old(self)@,
            old(self)@.order.len() > 0 ==> {
                let p = old(self)@.order[0];
                &&& final(self)@.order == old(self)@.order.drop_first()
                &&& final(self)@.queued == old(self)@.queued.remove(p)
                &&& final(self)@.building == old(self)@.building
                &&& r == if out_of_reach(*world, p, center, render_distance) { MeshStep::Drop(p) } else { MeshStep::Build(p) }
            },
    {
        if self.order.len() == 0 {
            return MeshStep::Idle;
        }
        let p = self.order.remove(0);
        assert(self.order@ =~= old(self)@.order.drop_first());
        remove(&mut self.queued, p);
        let dx: i64 = if p.0 >= center.0 { p.0 as i64 - center.0 as i64 } else { center.0 as i64 - p.0 as i64 };
        let dz: i64 = if p.1 >= center.1 { p.1 as i64 - center.1 as i64 } else { center.1 as i64 - p.1 as i64 };
        let distance = if dx >= dz { dx } else { dz };
        if distance > render_distance as i64 || !world.is_chunk_loaded(p) {
            MeshStep::Drop(p)
        } else {
            MeshStep::Build(p)
        }
    }

    /// Records that the mesh of `pos` is being built.
    pub fn started(&mut self, pos: ChunkPos)
        ensures
            final(self)@.order == old(self)@.order,
            final(self)@.queued == old(self)@.queued,
            final(self)@.building == old(self)@.building.insert(pos),
    {
        insert(&mut self.building, pos);
    }

    /// Takes in the mesh of `pos` that arrived: a chunk marked again while
    /// it was built goes back to the front of the queue; otherwise the mesh
    /// is taken in, or dropped when the chunk is out of reach.
    pub fn arrived(&mut self, world: &World, pos: ChunkPos, center: ChunkPos, render_distance: i32) -> (r: MeshArrival)
        requires
            world.wf(),
        ensures
            final(self)@.building == old(self)@.building.remove(pos),
            final(self)@.queued == old(self)@.queued,
            old(self)@.queued.contains(pos) ==> r == MeshArrival::Requeued
                && final(self)@.order == seq![pos] + old(self)@.order,
            !old(self)@.queued.contains(pos) ==> final(self)@.order == old(self)@.order
                && r == if out_of_reach(*world, pos, center, render_distance) { MeshArrival::Dropped } else { MeshArrival::Ready },
    {
        remove(&mut self.building, pos);
        if contains(&self.queued, pos) {
            self.order.insert(0, pos);
            assert(self.order@ =~= seq![pos] + old(self)@.order);
            return MeshArrival::Requeued;
        }
        let dx: i64 = if pos.0 >= center.0 { pos.0 as i64 - center.0 as i64 } else { center.0 as i64 - pos.0 as i64 };
        let dz: i64 = if pos.1 >= center.1 { pos.1 as i64 - center.1 as i64 } else { center.1 as i64 - pos.1 as i64 };
        let distance = if dx >= dz { dx } else { dz };
        if distance > render_distance as i64 || !world.is_chunk_loaded(pos) {
            MeshArrival::Dropped
        } else {
            MeshArrival::Ready
        }
    }

    /// Unmarks `pos`, as when its chunk is unloaded; an entry of it in the
    /// queue stays there.
    pub fn forget(&mut self, pos: ChunkPos)
        ensures
            final(self)@.order == old(self)@.order,
            final(self)@.queued == old(self)@.queued.remove(pos),
            final(self)@.building == old(self)@.building,
    {
        remove(&mut self.queued, pos);
    }
}

/// The test for chunks loaded in `w`.
pub open spec fn loaded_in(w: World) -> spec_fn(ChunkPos) -> bool {
    |p: ChunkPos| w.is_loaded(p)
}

/// The chunks a mesh job for `pos` carries, so that the faces on its
/// borders can look at the neighbours: the chunk and those of its four
/// horizontal neighbours that are loaded, in the order of `near_chunks`;
/// no job when the chunk itself is not loaded.
pub fn job_chunks(world: &World, pos: ChunkPos) -> (r: Option<Vec<ChunkPos>>)
    requires
        world.wf(),
        i32::MIN < pos.0 < i32::MAX,
        i32::MIN < pos.1 < i32::MAX,
    ensures
        match r {
            Some(v) => world.is_loaded(pos) && v@ == near_chunks(pos).filter(loaded_in(*world)),
            None => !world.is_loaded(pos),
        },
{
    let candidates = [
        pos,
        ChunkPos(pos.0 + 1, pos.1),
        ChunkPos(pos.0 - 1, pos.1),
        ChunkPos(pos.0, pos.1 + 1),
        ChunkPos(pos.0, pos.1 - 1),
    ];
    let ghost near = near_chunks(pos);
    assert(candidates@ =~= near);
    let mut chunks: Vec<ChunkPos> = Vec::new();
    let mut i: usize = 0;
    while i < 5
        invariant
            world.wf(),
            i <= 5,
            candidates@ == near,
            near.len() == 5,
            chunks@ == near.subrange(0, i as int).filter(loaded_in(*world)),
        decreases 5 - i,
    {
        let p = candidates[i];
        proof {
            assert(near.subrange(0, i + 1) == near.subrange(0, i as int).push(p));
            near.subrange(0, i as int).lemma_filter_push(p, loaded_in(*world));
        }
        if world.is_chunk_loaded(p) {
            chunks.push(p);
        }
        i = i + 1;
    }
    assert(near.subrange(0, 5) == near);
    if world.is_chunk_loaded(pos) {
        Some(chunks)
    } else {
        None
    }
}

} // verus!
