//! Chunk streaming around the player: which chunks near the player to mesh,
//! load or generate, in which order, and which loaded chunks and meshes
//! fall out of range as the player moves.

use vstd::prelude::*;
use crate::world::{ChunkPos, World};
use crate::render::chunk_distance;

verus! {

/// How many chunk requests are made per tick.
pub const CHUNKS_GENERATED_PER_TICK: usize = 1;
/// No chunk is requested while this many generations are under way.
pub const MAX_PENDING_CHUNK_GENERATIONS: usize = 2;

/// What a chunk near the player needs.
#[derive(Clone, Copy, Debug, PartialEq, Eq, Structural)]
pub enum ChunkRequest {
    /// Loaded, but the renderer has no mesh of it.
    Mesh,
    /// Not loaded, but kept in the world's cache.
    Load,
    /// Neither loaded, nor cached, nor being generated.
    Generate,
}

pub open spec fn mesh_view(meshes: Option<&Vec<ChunkPos>>) -> Option<Seq<ChunkPos>> {
    match meshes {
        Some(m) => Some(m@),
        None => None,
    }
}

/// What chunk `p` needs: a mesh when it is loaded and a renderer (whose
/// meshes are `meshes`) has none of it; when it is not loaded and no
/// generation of it is `pending`, loading from the cache or generating.
pub open spec fn request_for(
    w: World,
    meshes: Option<Seq<ChunkPos>>,
    pending: Seq<ChunkPos>,
    cached: Seq<ChunkPos>,
    p: ChunkPos,
) -> Option<ChunkRequest> {
    if w.is_loaded(p) {
        match meshes {
            Some(m) => if m.contains(p) { None } else { Some(ChunkRequest::Mesh) },
            None => None,
        }
    } else if pending.contains(p) {
        None
    } else if cached.contains(p) {
        Some(ChunkRequest::Load)
    } else {
        Some(ChunkRequest::Generate)
    }
}

/// Whether `p` comes before cell (`x`, `z`) of the ring at distance `d`
/// around `c` in the order chunks are visited: nearer rings first, then by
/// x, then by z.
pub open spec fn visited_before(p: ChunkPos, c: ChunkPos, d: int, x: int, z: int) -> bool {
    let e = chunk_distance(p, c);
    e < d || (e == d && (p.0 < x || (p.0 == x && p.1 < z)))
}

/// Whether `p` is visited before `q` around `c`.
pub open spec fn visited_first(p: ChunkPos, q: ChunkPos, c: ChunkPos) -> bool {
    visited_before(p, c, chunk_distance(q, c), q.0 as int, q.1 as int)
}

/// Whether `p` has a request in `r`.
pub open spec fn listed(r: Seq<(ChunkPos, ChunkRequest)>, p: ChunkPos) -> bool {
    exists|i: int| 0 <= i < r.len() && (#[trigger] r[i]).0 == p
}

/// `render_distance`, but not below zero.
pub open spec fn request_radius(render_distance: i32) -> int {
    if render_distance < 0 { 0 } else { render_distance as int }
}

spec fn requests_inv(
    r: Seq<(ChunkPos, ChunkRequest)>,
    w: World,
    meshes: Option<Seq<ChunkPos>>,
    pending: Seq<ChunkPos>,
    cached: Seq<ChunkPos>,
    c: ChunkPos,
    radius: int,
    d: int,
    x: int,
    z: int,
) -> bool {
    &&& forall|i: int| 0 <= i < r.len() ==> visited_before((#[trigger] r[i]).0, c, d, x, z)
    &&& forall|i: int| 0 <= i < r.len() ==> chunk_distance((#[trigger] r[i]).0, c) <= radius
        && request_for(w, meshes, pending, cached, r[i].0) == Some(r[i].1)
    &&& forall|i: int, j: int| 0 <= i < j < r.len() ==> visited_first((#[trigger] r[i]).0, (#[trigger] r[j]).0, c)
    &&& forall|p: ChunkPos| visited_before(p, c, d, x, z) && chunk_distance(p, c) <= radius
        && (#[trigger] request_for(w, meshes, pending, cached, p)) is Some ==> listed(r, p)
}

/// Past the last cell of a row of ring `d`, the next row begins.
proof fn lemma_next_row(p: ChunkPos, c: ChunkPos, d: int, x: int)
    requires
        d >= 0,
    ensures
        visited_before(p, c, d, x, c.1 + d + 1) == visited_before(p, c, d, x + 1, c.1 - d),
{
}

/// Past the last row of ring `d`, the next ring begins.
proof fn lemma_next_ring(p: ChunkPos, c: ChunkPos, d: int)
    requires
        d >= 0,
    ensures
        visited_before(p, c, d, c.0 + d + 1, c.1 - d) == visited_before(p, c, d + 1, c.0 - d - 1, c.1 - d - 1),
        visited_before(p, c, d + 1, c.0 - d - 1, c.1 - d - 1) == (chunk_distance(p, c) <= d),
{
}

fn contains_pos(v: &Vec<ChunkPos>, p: ChunkPos) -> (r: bool)
    ensures
        r == v@.contains(p),
{
    let mut i: usize = 0;
    while i < v.len()
        invariant
            i <= v.len(),
            forall|j: int| 0 <= j < i ==> v@[j] != p,
        decreases v.len() - i,
    {
        if v[i] == p {
            return true;
        }
        i = i + 1;
    }
    false
}

fn request_at(
    world: &World,
    meshes: Option<&Vec<ChunkPos>>,
    pending: &Vec<ChunkPos>,
    cached: &Vec<ChunkPos>,
    p: ChunkPos,
) -> (r: Option<ChunkRequest>)
    requires
        world.wf(),
    ensures
        r == request_for(*world, mesh_view(meshes), pending@, cached@, p),
{
    if world.is_chunk_loaded(p) {
        match meshes {
            Some(m) => if contains_pos(m, p) { None } else { Some(ChunkRequest::Mesh) },
            None => None,
        }
    } else if contains_pos(pending, p) {
        None
    } else if contains_pos(cached, p) {
        Some(ChunkRequest::Load)
    } else {
        Some(ChunkRequest::Generate)
    }
}

/// The chunks within the render distance of `center` that need something,
/// with what each needs, in the order they are visited: ring by ring
/// outward, each ring by x and then by z. None while the most generations
/// allowed are pending. The caller carries out the requests in this order
/// until `CHUNKS_GENERATED_PER_TICK` of them have gone through.
pub fn chunk_requests(
    world: &World,
    center: ChunkPos,
    render_distance: i32,
    meshes: Option<&Vec<ChunkPos>>,
    pending: &Vec<ChunkPos>,
    cached: &Vec<ChunkPos>,
) -> (r: Vec<(ChunkPos, ChunkRequest)>)
    requires
        world.wf(),
        i32::MIN <= center.0 - request_radius(render_distance),
        center.0 + request_radius(render_distance) <= i32::MAX,
        i32::MIN <= center.1 - request_radius(render_distance),
        center.1 + request_radius(render_distance) <= i32::MAX,
    ensures
        pending@.len() >= MAX_PENDING_CHUNK_GENERATIONS ==> r@.len() == 0,
        pending@.len() < MAX_PENDING_CHUNK_GENERATIONS ==> {
            &&& forall|i: int, j: int| 0 <= i < j < r@.len() ==> visited_first((#[trigger] r@[i]).0, (#[trigger] r@[j]).0, center)
            &&& forall|i: int| 0 <= i < r@.len() ==> chunk_distance((#[trigger] r@[i]).0, center) <= request_radius(render_distance)
                && request_for(*world, mesh_view(meshes), pending@, cached@, r@[i].0) == Some(r@[i].1)
            &&& forall|p: ChunkPos| chunk_distance(p, center) <= request_radius(render_distance)
                && (#[trigger] request_for(*world, mesh_view(meshes), pending@, cached@, p)) is Some ==> listed(r@, p)
        },
{
    let mut r: Vec<(ChunkPos, ChunkRequest)> = Vec::new();
    if pending.len() >= MAX_PENDING_CHUNK_GENERATIONS {
        return r;
    }
    let ghost w = *world;
    let ghost m = mesh_view(meshes);
    let ghost radius = request_radius(render_distance);
    let radius_i: i64 = if render_distance < 0 { 0 } else { render_distance as i64 };
    let cx = center.0 as i64;
    let cz = center.1 as i64;
    let mut d: i64 = 0;
    while d <= radius_i
        invariant
            world.wf(),
            w == *world,
            m == mesh_view(meshes),
            radius == radius_i,
            radius == request_radius(render_distance),
            cx == center.0,
            cz == center.1,
            i32::MIN <= cx - radius_i,
            cx + radius_i <= i32::MAX,
            i32::MIN <= cz - radius_i,
            cz + radius_i <= i32::MAX,
            0 <= d <= radius_i + 1,
            requests_inv(r@, w, m, pending@, cached@, center, radius, d as int, cx - d, cz - d),
        decreases radius_i + 1 - d,
    {
        let mut x: i64 = cx - d;
        while x <= cx + d
            invariant
                world.wf(),
                w == *world,
                m == mesh_view(meshes),
                radius == radius_i,
                cx == center.0,
                cz == center.1,
                i32::MIN <= cx - radius_i,
                cx + radius_i <= i32::MAX,
                i32::MIN <= cz - radius_i,
                cz + radius_i <= i32::MAX,
                0 <= d <= radius_i,
                cx - d <= x <= cx + d + 1,
                requests_inv(r@, w, m, pending@, cached@, center, radius, d as int, x as int, cz - d),
            decreases cx + d + 1 - x,
        {
            let mut z: i64 = cz - d;
            while z <= cz + d
                invariant
                    world.wf(),
                    w == *world,
                    m == mesh_view(meshes),
                    radius == radius_i,
                    cx == center.0,
                    cz == center.1,
                    i32::MIN <= cx - radius_i,
                    cx + radius_i <= i32::MAX,
                    i32::MIN <= cz - radius_i,
                    cz + radius_i <= i32::MAX,
                    0 <= d <= radius_i,
                    cx - d <= x <= cx + d,
                    cz - d <= z <= cz + d + 1,
                    requests_inv(r@, w, m, pending@, cached@, center, radius, d as int, x as int, z as int),
                decreases cz + d + 1 - z,
            {
                let dx = if x >= cx { x - cx } else { cx - x };
                let dz = if z >= cz { z - cz } else { cz - z };
                let far = if dx >= dz { dx } else { dz };
                let p = ChunkPos(x as i32, z as i32);
                let ghost r0 = r@;
                proof {
                    assert(chunk_distance(p, center) == far);
                }
                if far == d {
                    let req = request_at(world, meshes, pending, cached, p);
                    match req {
                        Some(q) => {
                            r.push((p, q));
                            proof {
                                assert(r@[r0.len() as int] == (p, q));
                                assert forall|pp: ChunkPos| visited_before(pp, center, d as int, x as int, z + 1)
                                    && chunk_distance(pp, center) <= radius
                                    && (#[trigger] request_for(w, m, pending@, cached@, pp)) is Some implies listed(r@, pp) by {
                                    if pp == p {
                                        assert(r@[r0.len() as int].0 == pp);
                                    } else {
                                        assert(visited_before(pp, center, d as int, x as int, z as int));
                                        assert(listed(r0, pp));
                                        let i = choose|i: int| 0 <= i < r0.len() && (#[trigger] r0[i]).0 == pp;
                                        assert(r@[i] == r0[i]);
                                    }
                                }
                                assert forall|i: int, j: int| 0 <= i < j < r@.len() implies visited_first((#[trigger] r@[i]).0, (#[trigger] r@[j]).0, center) by {
                                    if j == r0.len() {
                                        assert(r@[i] == r0[i]);
                                    } else {
                                        assert(r@[i] == r0[i]);
                                        assert(r@[j] == r0[j]);
                                    }
                                }
                                assert forall|i: int| 0 <= i < r@.len() implies visited_before((#[trigger] r@[i]).0, center, d as int, x as int, z + 1) by {
                                    if i < r0.len() {
                                        assert(r@[i] == r0[i]);
                                    }
                                }
                                assert forall|i: int| 0 <= i < r@.len() implies chunk_distance((#[trigger] r@[i]).0, center) <= radius
                                    && request_for(w, m, pending@, cached@, r@[i].0) == Some(r@[i].1) by {
                                    if i < r0.len() {
                                        assert(r@[i] == r0[i]);
                                    }
                                }
                            }
                        },
                        None => {
                            proof {
                                assert forall|pp: ChunkPos| visited_before(pp, center, d as int, x as int, z + 1)
                                    && chunk_distance(pp, center) <= radius
                                    && (#[trigger] request_for(w, m, pending@, cached@, pp)) is Some implies listed(r@, pp) by {
                                    if pp != p {
                                        assert(visited_before(pp, center, d as int, x as int, z as int));
                                    }
                                }
                            }
                        },
                    }
                } else {
                    proof {
                        assert forall|pp: ChunkPos| visited_before(pp, center, d as int, x as int, z + 1)
                            && chunk_distance(pp, center) <= radius
                            && (#[trigger] request_for(w, m, pending@, cached@, pp)) is Some implies listed(r@, pp) by {
                            if pp != p {
                                assert(visited_before(pp, center, d as int, x as int, z as int));
                            }
                        }
                    }
                }
                z = z + 1;
            }
            proof {
                assert forall|pp: ChunkPos| #![trigger visited_before(pp, center, d as int, x + 1, cz - d)]
                    visited_before(pp, center, d as int, x as int, cz + d + 1)
                        == visited_before(pp, center, d as int, x + 1, cz - d) by {
                    lemma_next_row(pp, center, d as int, x as int);
                }
                assert forall|i: int| 0 <= i < r@.len() implies visited_before((#[trigger] r@[i]).0, center, d as int, x + 1, cz - d) by {
                    lemma_next_row(r@[i].0, center, d as int, x as int);
                }
                assert forall|pp: ChunkPos| visited_before(pp, center, d as int, x + 1, cz - d)
                    && chunk_distance(pp, center) <= radius
                    && (#[trigger] request_for(w, m, pending@, cached@, pp)) is Some implies listed(r@, pp) by {
                    lemma_next_row(pp, center, d as int, x as int);
                }
            }
            x = x + 1;
        }
        proof {
            assert forall|i: int| 0 <= i < r@.len() implies visited_before((#[trigger] r@[i]).0, center, d + 1, cx - d - 1, cz - d - 1) by {
                lemma_next_ring(r@[i].0, center, d as int);
            }
            assert forall|pp: ChunkPos| visited_before(pp, center, d + 1, cx - d - 1, cz - d - 1)
                && chunk_distance(pp, center) <= radius
                && (#[trigger] request_for(w, m, pending@, cached@, pp)) is Some implies listed(r@, pp) by {
                lemma_next_ring(pp, center, d as int);
            }
        }
        d = d + 1;
    }
    proof {
        assert forall|pp: ChunkPos| chunk_distance(pp, center) <= radius
            && (#[trigger] request_for(w, m, pending@, cached@, pp)) is Some implies listed(r@, pp) by {
            lemma_next_ring(pp, center, radius);
            assert(visited_before(pp, center, d as int, cx - d, cz - d));
        }
    }
    r
}

fn distance_to(p: ChunkPos, c: ChunkPos) -> (r: i64)
    ensures
        r == chunk_distance(p, c),
{
    let dx: i64 = if p.0 >= c.0 { p.0 as i64 - c.0 as i64 } else { c.0 as i64 - p.0 as i64 };
    let dz: i64 = if p.1 >= c.1 { p.1 as i64 - c.1 as i64 } else { c.1 as i64 - p.1 as i64 };
    if dx >= dz { dx } else { dz }
}

/// The positions among `positions` more than `distance` chunks from
/// `center`, in their order: the loaded chunks to unload (at the render
/// distance plus `UNLOAD_MARGIN_CHUNKS`) or the meshes to drop (at the
/// render distance).
pub fn chunks_beyond(positions: &Vec<ChunkPos>, center: ChunkPos, distance: i64) -> (r: Vec<ChunkPos>)
    ensures
        r@ == positions@.filter(|p: ChunkPos| chunk_distance(p, center) > distance),
{
    let mut r: Vec<ChunkPos> = Vec::new();
    let mut i: usize = 0;
    while i < positions.len()
        invariant
            i <= positions.len(),
            r@ == positions@.subrange(0, i as int).filter(|p: ChunkPos| chunk_distance(p, center) > distance),
        decreases positions.len() - i,
    {
        let p = positions[i];
        proof {
            assert(positions@.subrange(0, i + 1) == positions@.subrange(0, i as int).push(p));
            positions@.subrange(0, i as int).lemma_filter_push(p, |p: ChunkPos| chunk_distance(p, center) > distance);
        }
        if distance_to(p, center) > distance {
            r.push(p);
        }
        i = i + 1;
    }
    assert(positions@.subrange(0, positions@.len() as int) == positions@);
    r
}

/// The positions among `positions` whose distance from `center` lies
/// between `min` and `max` chunks, in their order: the loaded chunks to
/// remesh when the render distance grows.
pub fn chunks_between(positions: &Vec<ChunkPos>, center: ChunkPos, min: i64, max: i64) -> (r: Vec<ChunkPos>)
    ensures
        r@ == positions@.filter(|p: ChunkPos| min <= chunk_distance(p, center) <= max),
{
    let mut r: Vec<ChunkPos> = Vec::new();
    let mut i: usize = 0;
    while i < positions.len()
        invariant
            i <= positions.len(),
            r@ == positions@.subrange(0, i as int).filter(|p: ChunkPos| min <= chunk_distance(p, center) <= max),
        decreases positions.len() - i,
    {
        let p = positions[i];
        proof {
            assert(positions@.subrange(0, i + 1) == positions@.subrange(0, i as int).push(p));
            positions@.subrange(0, i as int).lemma_filter_push(p, |p: ChunkPos| min <= chunk_distance(p, center) <= max);
        }
        let dist = distance_to(p, center);
        if min <= dist && dist <= max {
            r.push(p);
        }
        i = i + 1;
    }
    assert(positions@.subrange(0, positions@.len() as int) == positions@);
    r
}

} // verus!
