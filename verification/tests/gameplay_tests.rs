use ferrumcraft::block::BlockId;
use ferrumcraft::gameplay::{
    block_drop, block_update_chunk_positions, classic_break_replacement, hotbar_slot_for_block,
    is_player_solid_block, is_targetable_block, settle_falling_column, HOTBAR_BLOCKS,
};
use ferrumcraft::world::{BlockPos, ChunkPos, World};

#[test]
fn sand_and_gravel_fall_instantly_to_lowest_air_block() {
    for block_id in ["sand", "gravel"] {
        let mut world = World::new();
        world.set_block(BlockPos(8, 1, 8), BlockId("stone".to_string()));
        world.set_block(BlockPos(8, 8, 8), BlockId(block_id.to_string()));

        let moved = settle_falling_column(&mut world, BlockPos(8, 8, 8));
        assert_eq!(moved, vec![(BlockPos(8, 8, 8), BlockPos(8, 2, 8))]);
        assert_eq!(world.get_block(BlockPos(8, 2, 8)).0, block_id);
    }
}

#[test]
fn creative_palette_matches_archived_client_order() {
    assert_eq!(
        HOTBAR_BLOCKS,
        [
            "stone",
            "dirt",
            "cobblestone",
            "oak_planks",
            "oak_sapling",
            "oak_log",
            "oak_leaves",
            "sand",
            "gravel",
        ]
    );
}

#[test]
fn breaking_ocean_level_edges_refills_them_with_water() {
    assert_eq!(classic_break_replacement(BlockPos(0, 30, 20)).0, "water");
    assert_eq!(classic_break_replacement(BlockPos(511, 31, 20)).0, "water");
    assert_eq!(classic_break_replacement(BlockPos(0, 32, 20)), BlockId::air());
    assert_eq!(classic_break_replacement(BlockPos(1, 30, 20)), BlockId::air());
}

#[test]
fn block_updates_only_remesh_chunks_sharing_the_changed_face() {
    assert_eq!(block_update_chunk_positions(BlockPos(8, 20, 8)), vec![ChunkPos(0, 0)]);
    assert_eq!(
        block_update_chunk_positions(BlockPos(15, 20, 8)),
        vec![ChunkPos(0, 0), ChunkPos(1, 0)]
    );
    assert_eq!(
        block_update_chunk_positions(BlockPos(16, 20, 16)),
        vec![ChunkPos(1, 1), ChunkPos(0, 1), ChunkPos(1, 0)]
    );
}

#[test]
fn stacked_falling_blocks_settle_bottom_up() {
    let mut world = World::new();
    world.set_block(BlockPos(0, 2, 0), BlockId::named("stone"));
    world.set_block(BlockPos(0, 5, 0), BlockId::named("sand"));
    world.set_block(BlockPos(0, 6, 0), BlockId::named("dirt"));
    world.set_block(BlockPos(0, 7, 0), BlockId::named("gravel"));
    let moved = settle_falling_column(&mut world, BlockPos(0, 2, 0));
    assert_eq!(moved, vec![(BlockPos(0, 5, 0), BlockPos(0, 3, 0))]);
    assert_eq!(world.get_block(BlockPos(0, 3, 0)).0, "sand");
    assert_eq!(world.get_block(BlockPos(0, 5, 0)), BlockId::air());
    // gravel rests on dirt
    assert_eq!(world.get_block(BlockPos(0, 7, 0)).0, "gravel");
    world.set_block(BlockPos(0, 6, 0), BlockId::air());
    let moved = settle_falling_column(&mut world, BlockPos(0, 6, 0));
    assert_eq!(moved, vec![(BlockPos(0, 7, 0), BlockPos(0, 4, 0))]);
}

#[test]
fn palette_drops_and_block_classes() {
    assert_eq!(hotbar_slot_for_block(&BlockId::named("bedrock")), None);
    assert_eq!(hotbar_slot_for_block(&BlockId::named("sand")), Some(7));
    assert_eq!(block_drop(&BlockId::named("grass_block")).0, "dirt");
    assert_eq!(block_drop(&BlockId::named("stone")).0, "stone");
    assert!(!is_targetable_block(&BlockId::air()));
    assert!(!is_targetable_block(&BlockId::named("lava")));
    assert!(is_targetable_block(&BlockId::named("oak_sapling")));
    assert!(!is_player_solid_block(&BlockId::named("oak_sapling")));
    assert!(is_player_solid_block(&BlockId::named("stone")));
}
