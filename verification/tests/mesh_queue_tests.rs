use ferrumcraft::mesh_queue::{job_chunks, MeshArrival, MeshQueue, MeshStep};
use ferrumcraft::world::{ChunkPos, World};

fn loaded_world(positions: &[ChunkPos]) -> World {
    let mut world = World::new();
    for p in positions {
        world.load_chunk(*p);
    }
    world
}

#[test]
fn rebuilds_come_in_order_and_front_requests_jump_the_queue() {
    let a = ChunkPos(0, 0);
    let b = ChunkPos(1, 0);
    let c = ChunkPos(0, 1);
    let world = loaded_world(&[a, b, c]);
    let mut q = MeshQueue::new();
    q.queue(a);
    q.queue(b);
    q.queue(a);
    assert_eq!(q.len(), 2);
    q.queue(c);
    q.queue_front(c);
    assert_eq!(q.len(), 3);
    assert_eq!(q.next_step(&world, a, 4), MeshStep::Build(c));
    assert_eq!(q.next_step(&world, a, 4), MeshStep::Build(a));
    assert_eq!(q.next_step(&world, a, 4), MeshStep::Build(b));
    assert_eq!(q.next_step(&world, a, 4), MeshStep::Idle);
}

#[test]
fn a_chunk_changed_while_built_is_rebuilt_first() {
    let a = ChunkPos(2, 2);
    let b = ChunkPos(3, 2);
    let world = loaded_world(&[a, b]);
    let mut q = MeshQueue::new();
    q.queue(a);
    assert_eq!(q.next_step(&world, a, 4), MeshStep::Build(a));
    q.started(a);
    q.queue(b);
    // A change while the mesh is built only marks the chunk.
    q.queue(a);
    assert_eq!(q.len(), 1);
    assert_eq!(q.arrived(&world, a, a, 4), MeshArrival::Requeued);
    assert_eq!(q.len(), 2);
    assert_eq!(q.next_step(&world, a, 4), MeshStep::Build(a));
    q.started(a);
    assert_eq!(q.arrived(&world, a, a, 4), MeshArrival::Ready);
    assert_eq!(q.next_step(&world, a, 4), MeshStep::Build(b));
}

#[test]
fn chunks_out_of_reach_are_dropped() {
    let near = ChunkPos(0, 0);
    let far = ChunkPos(9, 0);
    let unloaded = ChunkPos(1, 1);
    let world = loaded_world(&[near, far]);
    let mut q = MeshQueue::new();
    q.queue(far);
    q.queue(unloaded);
    assert_eq!(q.next_step(&world, near, 4), MeshStep::Drop(far));
    assert_eq!(q.next_step(&world, near, 4), MeshStep::Drop(unloaded));
    q.started(far);
    assert_eq!(q.arrived(&world, far, near, 4), MeshArrival::Dropped);
}

#[test]
fn a_change_queues_the_chunk_and_its_neighbours() {
    let world = loaded_world(&[ChunkPos(5, 5), ChunkPos(6, 5), ChunkPos(4, 5), ChunkPos(5, 6), ChunkPos(5, 4)]);
    let mut q = MeshQueue::new();
    q.queue_near(ChunkPos(5, 5));
    q.queue_near(ChunkPos(5, 5));
    assert_eq!(q.len(), 5);
    let steps: Vec<MeshStep> = (0..5).map(|_| q.next_step(&world, ChunkPos(5, 5), 2)).collect();
    assert_eq!(
        steps,
        vec![
            MeshStep::Build(ChunkPos(5, 5)),
            MeshStep::Build(ChunkPos(6, 5)),
            MeshStep::Build(ChunkPos(4, 5)),
            MeshStep::Build(ChunkPos(5, 6)),
            MeshStep::Build(ChunkPos(5, 4)),
        ]
    );
}

#[test]
fn forgetting_a_chunk_unmarks_it_but_keeps_its_entry() {
    let a = ChunkPos(0, 0);
    let world = loaded_world(&[a]);
    let mut q = MeshQueue::new();
    q.queue(a);
    q.forget(a);
    q.queue(a);
    assert_eq!(q.len(), 2);
    assert_eq!(q.next_step(&world, a, 1), MeshStep::Build(a));
    assert_eq!(q.next_step(&world, a, 1), MeshStep::Build(a));
}

#[test]
fn mesh_jobs_carry_the_loaded_neighbours() {
    let world = loaded_world(&[ChunkPos(0, 0), ChunkPos(-1, 0), ChunkPos(0, 1)]);
    assert_eq!(
        job_chunks(&world, ChunkPos(0, 0)),
        Some(vec![ChunkPos(0, 0), ChunkPos(-1, 0), ChunkPos(0, 1)])
    );
    assert_eq!(job_chunks(&world, ChunkPos(1, 0)), None);
}
