use ferrumcraft::block::BlockId;
use ferrumcraft::physics::{
    break_tenths, chunks_loaded, is_collider, is_lit, spawn_ground_y, water_current, water_flow_depth,
};
use ferrumcraft::world::{BlockPos, ChunkPos, World};

fn b(s: &str) -> BlockId {
    BlockId(s.to_string())
}

#[test]
fn colliders_wall_the_level_in_and_leave_the_sky_open() {
    let mut world = World::new();
    world.set_block(BlockPos(5, 10, 5), b("stone"));
    world.set_block(BlockPos(6, 10, 5), b("water"));
    world.set_block(BlockPos(7, 10, 5), b("oak_sapling"));
    assert!(is_collider(&world, BlockPos(-1, 10, 5)));
    assert!(is_collider(&world, BlockPos(5, 10, 512)));
    assert!(is_collider(&world, BlockPos(5, -1, 5)));
    assert!(!is_collider(&world, BlockPos(5, 64, 5)));
    assert!(is_collider(&world, BlockPos(5, 10, 5)));
    assert!(!is_collider(&world, BlockPos(6, 10, 5)));
    assert!(!is_collider(&world, BlockPos(7, 10, 5)));
    assert!(!is_collider(&world, BlockPos(8, 10, 5)));
}

#[test]
fn water_pushes_toward_air_and_shallower_water() {
    assert_eq!(water_flow_depth(0), 8);
    assert_eq!(water_flow_depth(1), 7);
    assert_eq!(water_flow_depth(7), 1);
    assert_eq!(water_flow_depth(8), 8);
    assert_eq!(water_flow_depth(15), 8);
    let mut world = World::new();
    let pos = BlockPos(10, 10, 10);
    world.set_block(pos, b("water"));
    world.set_block(BlockPos(9, 10, 10), b("stone"));
    world.set_block(BlockPos(10, 10, 11), b("water"));
    world.set_block_property(BlockPos(10, 10, 11), 0, 3);
    world.set_block(BlockPos(10, 10, 9), b("water"));
    assert_eq!(water_current(&world, pos), (8, 0, 3));
    // Falling water also pulls down.
    let falling = BlockPos(20, 10, 20);
    world.set_block(falling, b("water"));
    world.set_block_property(falling, 0, 8);
    for n in [BlockPos(21, 10, 20), BlockPos(19, 10, 20), BlockPos(20, 10, 21), BlockPos(20, 10, 19)] {
        world.set_block(n, b("stone"));
    }
    assert_eq!(water_current(&world, falling), (0, -1, 0));
}

#[test]
fn daylight_stops_at_the_first_opaque_block() {
    let mut world = World::new();
    world.set_block(BlockPos(3, 40, 3), b("oak_leaves"));
    world.set_block(BlockPos(3, 30, 3), b("stone"));
    assert!(is_lit(&world, 3, 31, 3));
    assert!(!is_lit(&world, 3, 30, 3));
    assert!(!is_lit(&world, 3, 5, 3));
    assert!(is_lit(&world, 4, 5, 3));
    assert!(is_lit(&world, -1, 5, 3));
    assert!(is_lit(&world, 3, 64, 3));
}

#[test]
fn the_player_first_stands_on_the_middle_column() {
    let mut world = World::new();
    assert_eq!(spawn_ground_y(&world), 16);
    world.set_block(BlockPos(256, 20, 256), b("stone"));
    world.set_block(BlockPos(256, 25, 256), b("water"));
    assert_eq!(spawn_ground_y(&world), 20);
}

#[test]
fn bodies_wait_for_every_chunk_under_them() {
    let mut world = World::new();
    world.load_chunk(ChunkPos(0, 0));
    world.load_chunk(ChunkPos(1, 0));
    assert!(chunks_loaded(&world, ChunkPos(0, 0), ChunkPos(1, 0)));
    assert!(!chunks_loaded(&world, ChunkPos(0, 0), ChunkPos(1, 1)));
    assert!(chunks_loaded(&world, ChunkPos(2, 0), ChunkPos(1, 0)));
}

#[test]
fn break_times_in_tenths_of_a_second() {
    assert_eq!(break_tenths(&b("bedrock")), None);
    assert_eq!(break_tenths(&BlockId::air()), Some(0));
    assert_eq!(break_tenths(&b("oak_leaves")), Some(2));
    assert_eq!(break_tenths(&b("stone")), Some(15));
    assert_eq!(break_tenths(&b("iron_ore")), Some(30));
    assert_eq!(break_tenths(&b("cobblestone")), Some(10));
}
