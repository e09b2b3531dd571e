use ferrumcraft::block::BlockId;
use ferrumcraft::fluid::update_fluid_at;
use ferrumcraft::water::WATER_LEVEL_PROPERTY;
use ferrumcraft::world::{BlockPos, World};

fn named(name: &str) -> BlockId {
    BlockId(name.to_string())
}

#[test]
fn fluid_update_ignores_non_fluid_blocks() {
    let mut world = World::new();
    let pos = BlockPos(4, 10, 4);
    world.set_block(pos, named("dirt"));
    let r = update_fluid_at(&mut world, pos);
    assert!(!r.changed);
    assert!(r.remesh.is_empty());
    assert!(r.requeue.is_empty());
    assert_eq!(world.get_block(pos), named("dirt"));
}

#[test]
fn water_falls_to_the_floor_and_spreads() {
    let mut world = World::new();
    let pos = BlockPos(4, 3, 4);
    world.set_block(BlockPos(4, 0, 4), named("dirt"));
    for (x, z) in [(5, 4), (3, 4), (4, 5), (4, 3)] {
        world.set_block(BlockPos(x, 2, z), named("dirt"));
    }
    world.set_block(pos, named("water"));
    let r = update_fluid_at(&mut world, pos);
    assert!(r.changed);
    // Water falls through the two air cells below it.
    assert_eq!(world.get_block(BlockPos(4, 2, 4)), named("water"));
    assert_eq!(world.get_block(BlockPos(4, 1, 4)), named("water"));
    assert_eq!(world.get_block(BlockPos(4, 0, 4)), named("dirt"));
    assert_eq!(world.get_block_property(BlockPos(4, 1, 4), WATER_LEVEL_PROPERTY), 1);
    // And it flows sideways into the air beside it.
    for (x, z) in [(5, 4), (3, 4), (4, 5), (4, 3)] {
        assert_eq!(world.get_block(BlockPos(x, 3, z)), named("water"));
        assert_eq!(world.get_block_property(BlockPos(x, 3, z), WATER_LEVEL_PROPERTY), 1);
    }
    assert_eq!(world.get_block_property(pos, WATER_LEVEL_PROPERTY), 1);
    assert_eq!(
        r.requeue,
        vec![
            BlockPos(4, 2, 4),
            BlockPos(4, 1, 4),
            BlockPos(5, 3, 4),
            BlockPos(3, 3, 4),
            BlockPos(4, 3, 5),
            BlockPos(4, 3, 3),
        ]
    );
    assert_eq!(r.remesh, r.requeue);
}

#[test]
fn lava_falls_one_cell_and_does_not_spread_after_falling() {
    let mut world = World::new();
    let pos = BlockPos(4, 5, 4);
    world.set_block(pos, named("lava"));
    let r = update_fluid_at(&mut world, pos);
    assert!(r.changed);
    assert_eq!(world.get_block(BlockPos(4, 4, 4)), named("lava"));
    assert_eq!(world.get_block(BlockPos(4, 3, 4)), BlockId::air());
    assert_eq!(world.get_block(BlockPos(5, 5, 4)), BlockId::air());
    assert_eq!(r.requeue, vec![BlockPos(4, 4, 4)]);
}

#[test]
fn water_touching_lava_hardens_into_stone() {
    let mut world = World::new();
    let pos = BlockPos(4, 5, 4);
    world.set_block(pos, named("water"));
    world.set_block(BlockPos(5, 5, 4), named("lava"));
    let r = update_fluid_at(&mut world, pos);
    assert!(r.changed);
    assert_eq!(world.get_block(pos), named("stone"));
    assert_eq!(world.get_block(BlockPos(5, 5, 4)), named("lava"));
    assert_eq!(r.remesh, vec![pos]);
    assert!(r.requeue.is_empty());
}

#[test]
fn settled_water_reports_no_change_and_level_zero() {
    let mut world = World::new();
    let pos = BlockPos(4, 5, 4);
    world.set_block(pos, named("water"));
    world.set_block(BlockPos(4, 4, 4), named("dirt"));
    for (x, z) in [(5, 4), (3, 4), (4, 5), (4, 3)] {
        world.set_block(BlockPos(x, 5, z), named("dirt"));
    }
    let r = update_fluid_at(&mut world, pos);
    assert!(!r.changed);
    assert!(r.remesh.is_empty());
    assert_eq!(world.get_block_property(pos, WATER_LEVEL_PROPERTY), 0);
}
