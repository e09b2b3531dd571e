use ferrumcraft::block::BlockId;
use ferrumcraft::water::{
    can_generate_water_source, can_water_replace, has_falling_water_below, horizontal_neighbors,
    water_distance_to_drop, water_flows_downward, water_level_at, water_slope_distance,
    water_spread_level, water_spread_targets, WATER_FALLING_LEVEL, WATER_LEVEL_PROPERTY,
};
use ferrumcraft::world::{BlockPos, World, CHUNK_SIZE_X, CHUNK_SIZE_Z};

fn world_with_dirt_floor() -> World {
    let mut world = World::new();
    for x in 0..CHUNK_SIZE_X as i32 {
        for z in 0..CHUNK_SIZE_Z as i32 {
            world.set_block(BlockPos(x, 9, z), BlockId("dirt".to_string()));
        }
    }
    world
}

#[test]
fn l_shaped_sources_generate_source_over_dirt() {
    let mut world = World::new();
    let target = BlockPos(8, 10, 8);
    world.set_block(BlockPos(target.0, target.1 - 1, target.2), BlockId("dirt".to_string()));
    world.set_block(BlockPos(target.0 - 1, target.1, target.2), BlockId("water".to_string()));
    world.set_block(BlockPos(target.0, target.1, target.2 - 1), BlockId("water".to_string()));

    assert!(can_generate_water_source(&world, target));

    world.set_block(target, BlockId("water".to_string()));
    assert!(!can_generate_water_source(&world, target));
}

#[test]
fn water_paths_toward_nearest_drop() {
    let mut world = world_with_dirt_floor();
    let source = BlockPos(8, 10, 8);
    let east = BlockPos(9, 10, 8);
    world.set_block(source, BlockId("water".to_string()));
    world.set_block(BlockPos(10, 9, 8), BlockId::air());

    assert_eq!(water_spread_targets(&world, source, 1), vec![east]);
}

#[test]
fn water_uses_all_equally_short_drop_routes() {
    let mut world = world_with_dirt_floor();
    let source = BlockPos(8, 10, 8);
    let east = BlockPos(9, 10, 8);
    let west = BlockPos(7, 10, 8);
    world.set_block(source, BlockId("water".to_string()));
    world.set_block(BlockPos(10, 9, 8), BlockId::air());
    world.set_block(BlockPos(6, 9, 8), BlockId::air());

    assert_eq!(water_spread_targets(&world, source, 1), vec![east, west]);
}

#[test]
fn water_ignores_drops_beyond_slope_search_distance() {
    let mut world = world_with_dirt_floor();
    let source = BlockPos(8, 10, 8);
    world.set_block(source, BlockId("water".to_string()));
    world.set_block(BlockPos(14, 9, 8), BlockId::air());

    assert_eq!(water_spread_targets(&world, source, 1).len(), 4);
}

#[test]
fn falling_column_suppresses_horizontal_spread() {
    let mut world = World::new();
    let source = BlockPos(8, 10, 8);
    let below = BlockPos(8, 9, 8);
    world.set_block(source, BlockId("water".to_string()));

    assert!(water_flows_downward(&world, source));

    world.set_block(below, BlockId("water".to_string()));
    world.set_block_property(below, WATER_LEVEL_PROPERTY, WATER_FALLING_LEVEL);

    assert!(has_falling_water_below(&world, source));
    assert!(water_flows_downward(&world, source));

    world.set_block(below, BlockId("dirt".to_string()));
    assert!(!water_flows_downward(&world, source));
}

#[test]
fn drop_distances_count_cells_to_the_edge() {
    let mut world = world_with_dirt_floor();
    world.set_block(BlockPos(11, 9, 8), BlockId::air());
    // from (9,10,8) heading east: (10,10,8) then the drop at (11,..)
    assert_eq!(water_distance_to_drop(&world, BlockPos(9, 10, 8), 1, (1, 0)), Some(2));
    assert_eq!(water_distance_to_drop(&world, BlockPos(11, 10, 8), 1, (1, 0)), Some(0));
    assert_eq!(water_slope_distance(&world, BlockPos(10, 10, 8), 1, 1, (-1, 0)), Some(1));
    // nothing within reach when the way back is the only way
    assert_eq!(water_slope_distance(&world, BlockPos(2, 10, 2), 1, 4, (0, 1)), None);
}

#[test]
fn replacement_and_levels() {
    let mut world = World::new();
    let p = BlockPos(1, 5, 1);
    assert!(!can_water_replace(&world, p, 1));
    world.load_chunk(p.chunk_pos());
    assert!(can_water_replace(&world, p, 1));
    assert!(!can_water_replace(&world, BlockPos(1, 64, 1), 1));
    world.set_block(p, BlockId::named("water"));
    world.set_block_property(p, WATER_LEVEL_PROPERTY, 3);
    assert!(can_water_replace(&world, p, 2));
    assert!(!can_water_replace(&world, p, 3));
    assert_eq!(water_level_at(&world, p), 3);
    let q = BlockPos(2, 5, 1);
    world.set_block_property(q, WATER_LEVEL_PROPERTY, 200);
    assert_eq!(water_level_at(&world, q), 15);
    assert_eq!(water_spread_level(9), 0);
    assert_eq!(water_spread_level(5), 5);
    assert_eq!(horizontal_neighbors(p), [BlockPos(2, 5, 1), BlockPos(0, 5, 1), BlockPos(1, 5, 2), BlockPos(1, 5, 0)]);
}
