use ferrumcraft::streaming::{chunk_requests, chunks_beyond, chunks_between, ChunkRequest};
use ferrumcraft::world::{ChunkPos, World};

#[test]
fn requests_visit_rings_outward_by_x_then_z() {
    let world = World::new();
    let r = chunk_requests(&world, ChunkPos(0, 0), 1, None, &vec![], &vec![]);
    let order: Vec<ChunkPos> = r.iter().map(|(p, _)| *p).collect();
    assert_eq!(
        order,
        vec![
            ChunkPos(0, 0),
            ChunkPos(-1, -1),
            ChunkPos(-1, 0),
            ChunkPos(-1, 1),
            ChunkPos(0, -1),
            ChunkPos(0, 1),
            ChunkPos(1, -1),
            ChunkPos(1, 0),
            ChunkPos(1, 1),
        ]
    );
    assert!(r.iter().all(|(_, q)| *q == ChunkRequest::Generate));
    // A negative render distance still covers the center chunk.
    let r = chunk_requests(&world, ChunkPos(7, -3), -2, None, &vec![], &vec![]);
    assert_eq!(r, vec![(ChunkPos(7, -3), ChunkRequest::Generate)]);
}

#[test]
fn requests_wait_for_pending_generations() {
    let world = World::new();
    let pending = vec![ChunkPos(5, 5), ChunkPos(6, 6)];
    assert!(chunk_requests(&world, ChunkPos(0, 0), 2, None, &pending, &vec![]).is_empty());
}

#[test]
fn requests_mesh_load_or_generate_what_each_chunk_needs() {
    let mut world = World::new();
    world.load_chunk(ChunkPos(0, 0));
    world.load_chunk(ChunkPos(-1, 0));
    let meshes = vec![ChunkPos(-1, 0)];
    let pending = vec![ChunkPos(1, 0)];
    let cached = vec![ChunkPos(0, 1)];
    let r = chunk_requests(&world, ChunkPos(0, 0), 1, Some(&meshes), &pending, &cached);
    assert_eq!(r[0], (ChunkPos(0, 0), ChunkRequest::Mesh));
    assert!(!r.iter().any(|(p, _)| *p == ChunkPos(-1, 0) || *p == ChunkPos(1, 0)));
    assert!(r.contains(&(ChunkPos(0, 1), ChunkRequest::Load)));
    assert!(r.contains(&(ChunkPos(1, 1), ChunkRequest::Generate)));
    assert_eq!(r.len(), 7);
    // Without a renderer, loaded chunks need nothing.
    let r = chunk_requests(&world, ChunkPos(0, 0), 0, None, &vec![], &vec![]);
    assert!(r.is_empty());
}

#[test]
fn chunks_out_of_range_and_in_a_band() {
    let positions = vec![ChunkPos(0, 0), ChunkPos(3, 0), ChunkPos(-4, 2), ChunkPos(1, -2)];
    assert_eq!(chunks_beyond(&positions, ChunkPos(0, 0), 3), vec![ChunkPos(-4, 2)]);
    assert_eq!(chunks_beyond(&positions, ChunkPos(0, 0), 1), vec![ChunkPos(3, 0), ChunkPos(-4, 2), ChunkPos(1, -2)]);
    assert_eq!(chunks_between(&positions, ChunkPos(0, 0), 2, 3), vec![ChunkPos(3, 0), ChunkPos(1, -2)]);
    assert_eq!(chunks_between(&positions, ChunkPos(1, 0), 0, 0), Vec::<ChunkPos>::new());
}
