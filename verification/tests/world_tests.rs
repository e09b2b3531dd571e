use ferrumcraft::block::BlockId;
use ferrumcraft::world::{BlockPos, Chunk, ChunkPos, World};

#[test]
fn chunk_defaults_to_air() {
    let c = Box::new(Chunk::new(ChunkPos(0, 0)));
    assert_eq!(c.get_block(0, 0, 0), BlockId::air());
    assert_eq!(c.get_block(15, 0, 15), BlockId::air());
    assert_eq!(c.get_block(0, 63, 0), BlockId::air());
    assert_eq!(c.get_block(8, 32, 8), BlockId::air());
}

#[test]
fn chunk_set_and_get() {
    let mut c = Chunk::new(ChunkPos(0, 0));
    c.set_block(0, 0, 0, BlockId("stone".to_string()));
    assert_eq!(c.get_block(0, 0, 0), BlockId("stone".to_string()));
    assert!(c.is_dirty());
}

#[test]
fn world_returns_air_for_unloaded() {
    let w = World::new();
    assert_eq!(w.get_block(BlockPos(0, 0, 0)), BlockId::air());
}

#[test]
fn world_set_and_get() {
    let mut w = World::new();
    w.set_block(BlockPos(5, 10, 5), BlockId("custom".to_string()));
    assert_eq!(w.get_block(BlockPos(5, 10, 5)), BlockId("custom".to_string()));
}

#[test]
fn world_tracks_dirty_chunks() {
    let mut w = World::new();
    w.set_block(BlockPos(0, 0, 0), BlockId("stone".to_string()));
    assert_eq!(w.drain_dirty().len(), 1);
    assert!(w.drain_dirty().is_empty());
}

#[test]
fn block_pos_chunk_roundtrip() {
    let bp = BlockPos(16, 32, 48);
    let cp = bp.chunk_pos();
    assert_eq!(cp, ChunkPos(1, 3));
    let (lx, ly, lz) = bp.local();
    assert_eq!((lx, ly, lz), (0, 32, 0));
}

#[test]
fn negative_block_positions() {
    let bp = BlockPos(-1, 0, -1);
    let cp = bp.chunk_pos();
    assert_eq!(cp, ChunkPos(-1, -1));
    let (lx, ly, lz) = bp.local();
    assert_eq!((lx, ly, lz), (15, 0, 15));
}

#[test]
fn coordinates_at_the_i32_limits() {
    assert_eq!(BlockPos(i32::MIN, 0, i32::MAX).chunk_pos(), ChunkPos(i32::MIN / 16, i32::MAX / 16));
    assert_eq!(BlockPos(i32::MIN, -1, i32::MAX).local(), (0, 63, 15));
    assert_eq!(BlockPos(-17, 64, -16).chunk_pos(), ChunkPos(-2, -1));
    assert_eq!(BlockPos(-17, 64, -16).local(), (15, 0, 0));
}

#[test]
fn block_read_back_after_write_and_other_cells_untouched() {
    let mut w = World::with_seed(7);
    w.set_block(BlockPos(3, 4, 5), BlockId("stone".to_string()));
    w.set_block(BlockPos(3, 5, 5), BlockId("dirt".to_string()));
    assert_eq!(w.get_block(BlockPos(3, 4, 5)).0, "stone");
    assert_eq!(w.get_block(BlockPos(3, 5, 5)).0, "dirt");
    assert_eq!(w.get_block(BlockPos(3, 6, 5)), BlockId::air());
    // y wraps within the 64-high chunk column
    assert_eq!(w.get_block(BlockPos(3, 68, 5)).0, "stone");
    assert_eq!(w.chunk_count(), 1);
    assert_eq!(w.seed(), 7);
    assert_eq!(w.drain_dirty(), vec![ChunkPos(0, 0)]);
}

#[test]
fn dirty_list_has_each_chunk_once_in_first_change_order() {
    let mut w = World::new();
    w.set_block(BlockPos(20, 0, 0), BlockId::named("a"));
    w.set_block(BlockPos(0, 0, 0), BlockId::named("b"));
    w.set_block(BlockPos(21, 1, 0), BlockId::named("c"));
    assert_eq!(w.drain_dirty(), vec![ChunkPos(1, 0), ChunkPos(0, 0)]);
}

#[test]
fn load_chunk_keeps_existing_contents_and_is_not_dirty() {
    let mut w = World::new();
    w.set_block(BlockPos(1, 1, 1), BlockId::named("stone"));
    w.drain_dirty();
    w.load_chunk(ChunkPos(0, 0));
    w.load_chunk(ChunkPos(5, 5));
    assert_eq!(w.get_block(BlockPos(1, 1, 1)).0, "stone");
    assert!(w.is_chunk_loaded(ChunkPos(5, 5)));
    assert!(!w.is_chunk_loaded(ChunkPos(4, 5)));
    assert!(w.drain_dirty().is_empty());
    assert_eq!(w.chunks().len(), 2);
}

#[test]
fn a_set_property_value_reads_back() {
    let mut w = World::new();
    let p = BlockPos(2, 3, 4);
    assert_eq!(w.get_block_property(p, 0), 0);
    w.set_block_property(p, 0, 5);
    assert_eq!(w.get_block_property(p, 0), 5);
    w.set_block_property(p, 0, 9);
    assert_eq!(w.get_block_property(p, 0), 9);
    w.set_block_property(p, 1, 9);
    assert_eq!(w.get_block_property(p, 1), 9);
    assert_eq!(w.get_block_property(BlockPos(2, 3, 5), 0), 0);
    let chunk = w.chunk(ChunkPos(0, 0)).unwrap();
    assert_eq!(chunk.property_overrides().len(), 3);
}

#[test]
fn seeded_values_are_deterministic_and_in_range() {
    let w = World::with_seed(12345);
    let v = w.seeded_range(3, -4, 77, 2, 13);
    assert!((2..=13).contains(&v));
    assert_eq!(v, World::with_seed(12345).seeded_range(3, -4, 77, 2, 13));
    assert_eq!(w.seeded_range(3, -4, 77, 5, 5), 5);
    assert_eq!(w.seeded_range(3, -4, 77, 6, 1), 6);
    assert_eq!(w.seeded_u32(1, 2, 3), World::with_seed(12345).seeded_u32(1, 2, 3));
}

#[test]
fn inserted_chunk_replaces_loaded_one() {
    let mut w = World::new();
    w.set_block(BlockPos(0, 0, 0), BlockId::named("dirt"));
    let mut c = Chunk::new(ChunkPos(0, 0));
    c.set_block(1, 0, 0, BlockId::named("stone"));
    w.insert_generated_chunk(c);
    assert_eq!(w.get_block(BlockPos(0, 0, 0)), BlockId::air());
    assert_eq!(w.get_block(BlockPos(1, 0, 0)).0, "stone");
    assert_eq!(w.chunk_count(), 1);
}

#[test]
fn chunks_can_be_changed_in_place() {
    let mut world = World::new();
    world.set_block(BlockPos(1, 2, 3), BlockId("stone".to_string()));
    world.set_block(BlockPos(20, 2, 3), BlockId("dirt".to_string()));
    assert!(world.chunks().iter().all(|c| c.is_dirty()));
    for chunk in world.chunks_mut() {
        chunk.clear_dirty();
        chunk.set_block(0, 0, 0, BlockId("bedrock".to_string()));
    }
    assert_eq!(world.chunks_mut().len(), 2);
    assert_eq!(world.get_block(BlockPos(16, 0, 0)), BlockId("bedrock".to_string()));
    assert_eq!(world.get_block(BlockPos(1, 2, 3)), BlockId("stone".to_string()));
    assert!(world.chunks().iter().all(|c| c.is_dirty()));
}

#[test]
fn a_changed_chunk_is_listed_once_however_often_it_changes() {
    let mut w = World::new();
    w.set_block(BlockPos(1, 2, 3), BlockId("stone".to_string()));
    w.set_block_property(BlockPos(4, 5, 6), 0, 3);
    w.set_block(BlockPos(7, 8, 9), BlockId("dirt".to_string()));
    assert_eq!(w.drain_dirty(), vec![ChunkPos(0, 0)]);
}
