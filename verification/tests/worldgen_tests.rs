use ferrumcraft::block::BlockId;
use ferrumcraft::id::NamespacedId;
use ferrumcraft::world::{BlockPos, ChunkPos, World};
use ferrumcraft::worldgen::{
    apply_surface_column, biome_allowed, fill_sea_column, fill_terrain_column, place_configured_feature,
    placement_attempt_column, placement_y, register_core_feature_types, register_core_structure_sets,
    spawn_area_chunks, structure_origin_in_chunk, surface_blocks, ConfiguredFeature, FeatureConfig,
    FeatureKind, PlacementConfig, PlacementHeight,
};

fn stone() -> BlockId {
    BlockId("stone".to_string())
}

#[test]
fn core_feature_registry_contains_pipeline_feature_types() {
    let registry = register_core_feature_types();

    for path in ["block_column", "tree", "disk", "lake", "ore"] {
        let id = NamespacedId::ferrumcraft(path).expect("valid feature ID");
        assert!(registry.contains(&id));
    }
}

#[test]
fn ore_feature_replaces_only_target_blocks() {
    let registry = register_core_feature_types();
    let mut world = World::with_seed(12345);
    let ore = BlockId("coal_ore".to_string());
    let stone = BlockId("stone".to_string());
    let dirt = BlockId("dirt".to_string());
    let origin = BlockPos(0, 3, 0);
    for x in -1..=1 {
        for y in 2..=4 {
            for z in -1..=1 {
                world.set_block(BlockPos(x, y, z), stone.clone());
            }
        }
    }
    world.set_block(origin, dirt.clone());

    let configured = ConfiguredFeature {
        feature_type: NamespacedId::ferrumcraft("ore").expect("valid feature ID"),
        config: FeatureConfig::Ore {
            ore: ore.clone(),
            replaceable: vec![stone],
            size: 12,
        },
    };
    place_configured_feature(&registry, &configured, &mut world, origin);

    assert_eq!(world.get_block(origin), dirt);
    let placed_ore = (-1..=1)
        .any(|x| (2..=4).any(|y| (-1..=1).any(|z| world.get_block(BlockPos(x, y, z)) == ore)));
    assert!(placed_ore);
}

#[test]
fn structure_set_registry_contains_stone_pile() {
    let registry = register_core_structure_sets();
    let id = NamespacedId::ferrumcraft("stone_pile").expect("valid structure set ID");

    assert!(registry.contains(&id));
}

#[test]
fn spawn_area_chunks_cover_square_radius() {
    let chunks = spawn_area_chunks(ChunkPos(2, -1), 1);

    assert_eq!(chunks.len(), 9);
    assert!(chunks.contains(&ChunkPos(1, -2)));
    assert!(chunks.contains(&ChunkPos(2, -1)));
    assert!(chunks.contains(&ChunkPos(3, 0)));
}

#[test]
fn spawn_area_is_row_major_and_clamps_negative_radius() {
    let chunks = spawn_area_chunks(ChunkPos(2, -1), 1);
    assert_eq!(chunks[0], ChunkPos(1, -2));
    assert_eq!(chunks[1], ChunkPos(1, -1));
    assert_eq!(chunks[3], ChunkPos(2, -2));
    assert_eq!(chunks[8], ChunkPos(3, 0));
    assert_eq!(spawn_area_chunks(ChunkPos(5, 5), -3), vec![ChunkPos(5, 5)]);
}

#[test]
fn feature_types_map_to_their_algorithms() {
    let registry = register_core_feature_types();
    let entries = registry.iter();
    assert_eq!(entries.len(), 5);
    assert_eq!(entries[0].1.kind(), FeatureKind::BlockColumn);
    assert_eq!(entries[1].1.kind(), FeatureKind::Tree);
    assert_eq!(entries[4].1.name(), "Ore");
}

#[test]
fn block_column_feature_fills_seeded_height() {
    let registry = register_core_feature_types();
    let mut world = World::with_seed(7);
    let marker = BlockId("marker".to_string());
    let configured = ConfiguredFeature {
        feature_type: NamespacedId::ferrumcraft("block_column").unwrap(),
        config: FeatureConfig::BlockColumn { block: marker.clone(), min_height: 3, max_height: 3, height_salt: 1 },
    };
    place_configured_feature(&registry, &configured, &mut world, BlockPos(4, 10, 4));
    assert_eq!(world.get_block(BlockPos(4, 10, 4)), marker);
    assert_eq!(world.get_block(BlockPos(4, 12, 4)), marker);
    assert_eq!(world.get_block(BlockPos(4, 13, 4)), BlockId::air());
    assert_eq!(world.get_block(BlockPos(4, 9, 4)), BlockId::air());
}

#[test]
fn tree_feature_places_trunk_and_leaves() {
    let registry = register_core_feature_types();
    let mut world = World::new();
    let log = BlockId("oak_log".to_string());
    let leaves = BlockId("oak_leaves".to_string());
    let configured = ConfiguredFeature {
        feature_type: NamespacedId::ferrumcraft("tree").unwrap(),
        config: FeatureConfig::SimpleTree { log: log.clone(), leaves: leaves.clone(), trunk_height: 3 },
    };
    place_configured_feature(&registry, &configured, &mut world, BlockPos(5, 5, 5));
    for y in 5..8 {
        assert_eq!(world.get_block(BlockPos(5, y, 5)), log);
    }
    assert_eq!(world.get_block(BlockPos(4, 7, 5)), leaves);
    assert_eq!(world.get_block(BlockPos(6, 7, 5)), leaves);
    assert_eq!(world.get_block(BlockPos(5, 7, 4)), leaves);
    assert_eq!(world.get_block(BlockPos(5, 7, 6)), leaves);
    assert_eq!(world.get_block(BlockPos(5, 8, 5)), leaves);
    assert_eq!(world.get_block(BlockPos(4, 7, 4)), BlockId::air());
}

#[test]
fn disk_and_lake_fill_the_circle_downward() {
    let registry = register_core_feature_types();
    let mut world = World::new();
    let sand = BlockId("sand".to_string());
    let configured = ConfiguredFeature {
        feature_type: NamespacedId::ferrumcraft("disk").unwrap(),
        config: FeatureConfig::Disk { block: sand.clone(), radius: 2, depth: 2 },
    };
    place_configured_feature(&registry, &configured, &mut world, BlockPos(8, 10, 8));
    assert_eq!(world.get_block(BlockPos(10, 10, 8)), sand);
    assert_eq!(world.get_block(BlockPos(10, 9, 8)), sand);
    assert_eq!(world.get_block(BlockPos(10, 8, 8)), BlockId::air());
    assert_eq!(world.get_block(BlockPos(10, 10, 10)), BlockId::air());
    assert_eq!(world.get_block(BlockPos(9, 10, 9)), sand);

    let water = BlockId("water".to_string());
    let lake = ConfiguredFeature {
        feature_type: NamespacedId::ferrumcraft("lake").unwrap(),
        config: FeatureConfig::Lake { fluid: water.clone(), radius: 1, depth: 1 },
    };
    place_configured_feature(&registry, &lake, &mut world, BlockPos(20, 5, 20));
    assert_eq!(world.get_block(BlockPos(21, 5, 20)), water);
    assert_eq!(world.get_block(BlockPos(21, 5, 21)), BlockId::air());
}

#[test]
fn mismatched_config_and_missing_type_place_nothing() {
    let registry = register_core_feature_types();
    let mut world = World::new();
    let configured = ConfiguredFeature {
        feature_type: NamespacedId::ferrumcraft("tree").unwrap(),
        config: FeatureConfig::Disk { block: stone(), radius: 1, depth: 1 },
    };
    place_configured_feature(&registry, &configured, &mut world, BlockPos(0, 5, 0));
    assert_eq!(world.chunk_count(), 0);
    let missing = ConfiguredFeature {
        feature_type: NamespacedId::ferrumcraft("missing").unwrap(),
        config: FeatureConfig::Disk { block: stone(), radius: 1, depth: 1 },
    };
    place_configured_feature(&registry, &missing, &mut world, BlockPos(0, 5, 0));
    assert_eq!(world.chunk_count(), 0);
}

#[test]
fn stone_pile_structure_places_four_stones() {
    let registry = register_core_structure_sets();
    let set = registry.iter()[0].1.clone();
    assert_eq!(set.name(), "Stone pile");
    assert_eq!(set.spacing(), 5);
    assert_eq!(set.salt(), 6006);
    let mut world = World::new();
    set.place(&mut world, BlockPos(3, 20, 3));
    assert_eq!(world.get_block(BlockPos(3, 20, 3)), stone());
    assert_eq!(world.get_block(BlockPos(4, 20, 3)), stone());
    assert_eq!(world.get_block(BlockPos(3, 20, 4)), stone());
    assert_eq!(world.get_block(BlockPos(3, 21, 3)), stone());
    assert_eq!(world.get_block(BlockPos(4, 21, 3)), BlockId::air());
}

#[test]
fn structure_origin_matches_seeded_chunk_offsets() {
    let registry = register_core_structure_sets();
    let set = registry.iter()[0].1.clone();
    let world = World::with_seed(12345);
    let mut found = 0;
    for cx in -10..=10 {
        for cz in -10..=10 {
            let chunk = ChunkPos(cx, cz);
            let expected = cx.rem_euclid(5) == world.seeded_range(cx, cz, 6006, 0, 4)
                && cz.rem_euclid(5) == world.seeded_range(cx, cz, 6007, 0, 4);
            match structure_origin_in_chunk(&world, &set, chunk) {
                Some((x, z)) => {
                    assert!(expected);
                    found += 1;
                    assert_eq!(x, cx * 16 + world.seeded_range(cx, cz, 6008, 4, 11));
                    assert_eq!(z, cz * 16 + world.seeded_range(cx, cz, 6009, 4, 11));
                }
                None => assert!(!expected),
            }
        }
    }
    assert!(found > 0);
}

#[test]
fn placement_attempts_pick_seeded_columns() {
    let world = World::with_seed(12345);
    let placement = PlacementConfig {
        attempts_per_chunk: 1,
        chance: 1,
        salt: 77,
        height: PlacementHeight::Surface,
        biome_filter: Vec::new(),
    };
    let chunk_pos = ChunkPos(1, -1);
    let x = chunk_pos.0 * 16 + world.seeded_range(chunk_pos.0, chunk_pos.1, 77, 2, 13);
    let z = chunk_pos.1 * 16 + world.seeded_range(chunk_pos.0, chunk_pos.1, 78, 2, 13);
    assert_eq!(placement_attempt_column(&world, &placement, chunk_pos, 0), Some((x, z)));
    assert_eq!(placement_y(&world, PlacementHeight::Surface, x, z, 77, 20), 21);
    let ranged = placement_y(&world, PlacementHeight::Range { min: 5, max: 9 }, x, z, 77, 20);
    assert!((5..=9).contains(&ranged));
}

#[test]
fn biome_filter_allows_listed_biomes_only() {
    let plains = NamespacedId::ferrumcraft("plains").unwrap();
    let forest = NamespacedId::ferrumcraft("forest").unwrap();
    assert!(biome_allowed(&Vec::new(), &plains));
    assert!(biome_allowed(&vec![forest.clone(), plains.clone()], &plains));
    assert!(!biome_allowed(&vec![NamespacedId::ferrumcraft("missing_biome").unwrap()], &forest));
}

#[test]
fn surface_rules_pick_biome_blocks() {
    let desert = surface_blocks("desert", 20);
    assert_eq!(desert.top.0, "sand");
    assert_eq!(desert.filler.0, "sand");
    let high_hills = surface_blocks("hills", 7);
    assert_eq!(high_hills.top.0, "stone");
    let low_hills = surface_blocks("hills", 6);
    assert_eq!(low_hills.top.0, "grass_block");
    assert_eq!(low_hills.filler.0, "dirt");
}

#[test]
fn terrain_surface_and_sea_columns_stack_up() {
    let mut world = World::new();
    world.load_chunk(ChunkPos(0, 0));
    fill_terrain_column(&mut world, 3, 4, 8, &stone());
    assert_eq!(world.get_block(BlockPos(3, 0, 4)), stone());
    assert_eq!(world.get_block(BlockPos(3, 8, 4)), stone());
    assert_eq!(world.get_block(BlockPos(3, 9, 4)), BlockId::air());
    let surface = surface_blocks("plains", 8);
    apply_surface_column(&mut world, 3, 4, 8, &surface);
    assert_eq!(world.get_block(BlockPos(3, 8, 4)).0, "grass_block");
    assert_eq!(world.get_block(BlockPos(3, 7, 4)).0, "dirt");
    assert_eq!(world.get_block(BlockPos(3, 6, 4)).0, "dirt");
    assert_eq!(world.get_block(BlockPos(3, 5, 4)), stone());
    let water = BlockId("water".to_string());
    fill_sea_column(&mut world, 3, 4, 8, 12, &water);
    assert_eq!(world.get_block(BlockPos(3, 12, 4)), water);
    assert_eq!(world.get_block(BlockPos(3, 9, 4)), water);
    assert_eq!(world.get_block(BlockPos(3, 13, 4)), BlockId::air());
    assert_eq!(world.get_block(BlockPos(3, 8, 4)).0, "grass_block");
    fill_sea_column(&mut world, 5, 5, 20, 12, &water);
    assert_eq!(world.get_block(BlockPos(5, 12, 5)), BlockId::air());
}

#[test]
fn spawn_area_reaches_the_largest_chunk_coordinate() {
    let chunks = spawn_area_chunks(ChunkPos(i32::MAX - 1, 0), 1);
    assert_eq!(chunks.len(), 9);
    assert_eq!(chunks[8], ChunkPos(i32::MAX, 1));
    assert!(chunks.contains(&ChunkPos(i32::MAX - 2, -1)));
}
