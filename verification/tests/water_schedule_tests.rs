use ferrumcraft::block::BlockId;
use ferrumcraft::water_schedule::{WaterStep, WaterUpdates, WATER_FLOW_DELAY_TICKS};
use ferrumcraft::world::{BlockPos, World};

fn named(name: &str) -> BlockId {
    BlockId(name.to_string())
}

fn world_with_water(pos: BlockPos) -> World {
    let mut world = World::new();
    world.set_block(pos, named("water"));
    world
}

#[test]
fn updates_wait_for_the_flow_delay() {
    let pos = BlockPos(4, 5, 4);
    let mut world = world_with_water(pos);
    let mut updates = WaterUpdates::new();
    updates.queue(&world, pos);
    assert_eq!(updates.pending_len(), 1);
    for _ in 0..WATER_FLOW_DELAY_TICKS - 1 {
        updates.advance_tick();
        assert!(matches!(updates.process_next(&mut world), WaterStep::Deferred));
    }
    updates.advance_tick();
    match updates.process_next(&mut world) {
        WaterStep::Updated(u) => assert!(u.changed),
        other => panic!("expected an update, got {other:?}"),
    }
    assert_eq!(world.get_block(BlockPos(4, 4, 4)), named("water"));
    // The five cells the water fell into and its four neighbours are queued.
    assert_eq!(updates.pending_len(), 9);
}

#[test]
fn positions_outside_loaded_chunks_or_height_are_not_queued() {
    let world = world_with_water(BlockPos(4, 5, 4));
    let mut updates = WaterUpdates::new();
    updates.queue(&world, BlockPos(100, 5, 100));
    updates.queue(&world, BlockPos(4, 64, 4));
    updates.queue(&world, BlockPos(4, -1, 4));
    assert_eq!(updates.pending_len(), 0);
}

#[test]
fn requeuing_for_a_later_tick_is_ignored_and_old_entries_go_stale() {
    let pos = BlockPos(4, 5, 4);
    let mut world = world_with_water(pos);
    let mut updates = WaterUpdates::new();
    updates.queue_after(&world, pos, 2);
    updates.queue_after(&world, pos, 3);
    assert_eq!(updates.pending_len(), 1);
    updates.queue_after(&world, pos, 1);
    assert_eq!(updates.pending_len(), 2);
    updates.advance_tick();
    updates.advance_tick();
    // The first entry was superseded by the earlier one.
    assert!(matches!(updates.process_next(&mut world), WaterStep::Stale));
    assert!(matches!(updates.process_next(&mut world), WaterStep::Updated(_)));
}

#[test]
fn queue_near_covers_the_block_and_its_surroundings() {
    let mut world = World::new();
    world.set_block(BlockPos(4, 5, 4), named("water"));
    let mut updates = WaterUpdates::new();
    updates.queue_near(&world, BlockPos(4, 5, 4));
    assert_eq!(updates.pending_len(), 11);
    let mut low = WaterUpdates::new();
    low.queue_near(&world, BlockPos(4, 0, 4));
    // The cell below the bottom of the world is left out.
    assert_eq!(low.pending_len(), 10);
}

#[test]
fn a_tick_runs_due_updates_and_reports_changes() {
    let pos = BlockPos(4, 5, 4);
    let mut world = world_with_water(pos);
    let mut updates = WaterUpdates::new();
    updates.queue_after(&world, pos, 0);
    let tick = updates.process(&mut world);
    assert_eq!(tick.changed, 1);
    assert!(tick.remesh.contains(&BlockPos(4, 4, 4)));
    let idle = WaterUpdates::new().process(&mut world);
    assert_eq!(idle.changed, 0);
}
