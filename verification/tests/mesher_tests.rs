use ferrumcraft::block::BlockId;
use ferrumcraft::mesher::{ao_level, biome_tint_rgb, block_at_world, face_visible, is_transparent, occludes, water_level};
use ferrumcraft::render::{fog_environment_for, in_render_distance, FogEnvironment, RenderStats};
use ferrumcraft::world::{BlockPos, ChunkPos, World};

fn b(s: &str) -> BlockId {
    BlockId(s.to_string())
}

#[test]
fn faces_show_toward_air_and_other_transparent_blocks() {
    assert!(face_visible(&b("stone"), None));
    assert!(face_visible(&b("stone"), Some(&BlockId::air())));
    assert!(face_visible(&b("stone"), Some(&b("water"))));
    assert!(!face_visible(&b("water"), Some(&b("water"))));
    assert!(!face_visible(&b("stone"), Some(&b("dirt"))));
    assert!(is_transparent(&b("oak_leaves")));
    assert!(!is_transparent(&b("stone")));
}

#[test]
fn occlusion_reads_loaded_opaque_neighbours() {
    let mut world = World::new();
    world.set_block(BlockPos(1, 5, 1), b("stone"));
    world.set_block(BlockPos(2, 5, 1), b("glass"));
    assert!(occludes(&world, 0, 5, 1, 1, 0, 0));
    assert!(!occludes(&world, 1, 5, 1, 1, 0, 0));
    assert!(!occludes(&world, 1, 63, 1, 0, 1, 0));
    assert_eq!(block_at_world(&world, 1, 5, 1), Some(b("stone")));
    assert_eq!(block_at_world(&world, 100, 5, 1), None);
    assert_eq!(block_at_world(&world, 1, 64, 1), None);
}

#[test]
fn ambient_occlusion_levels() {
    assert_eq!(ao_level(true, true, false), 0);
    assert_eq!(ao_level(false, false, false), 3);
    assert_eq!(ao_level(true, false, true), 1);
    assert_eq!(ao_level(false, false, true), 2);
}

#[test]
fn water_levels_and_tints() {
    let mut world = World::new();
    world.set_block(BlockPos(0, 1, 0), b("water"));
    world.set_block_property(BlockPos(0, 1, 0), 0, 20);
    assert_eq!(water_level(&world, BlockPos(0, 1, 0)), Some(15));
    assert_eq!(water_level(&world, BlockPos(0, 2, 0)), None);
    assert_eq!(biome_tint_rgb("block/water_still", "desert"), Some((0x44, 0xaf, 0xd8)));
    assert_eq!(biome_tint_rgb("block/oak_leaves", "plains"), Some((0x77, 0xab, 0x2f)));
    assert_eq!(biome_tint_rgb("block/stone", "plains"), None);
}

#[test]
fn fog_and_render_stats() {
    assert_eq!(fog_environment_for(&b("water")), FogEnvironment::Water);
    assert_eq!(fog_environment_for(&b("lava")), FogEnvironment::Lava);
    assert_eq!(fog_environment_for(&b("stone")), FogEnvironment::Air);
    assert_eq!(FogEnvironment::default(), FogEnvironment::Air);
    let mut stats = RenderStats::default();
    stats.record(true);
    stats.record(false);
    stats.record(true);
    assert_eq!(stats.visible_meshes, 2);
    assert_eq!(stats.culled_meshes, 1);
}

#[test]
fn render_distance_is_measured_along_the_farther_axis() {
    let center = ChunkPos(2, -3);
    assert!(in_render_distance(ChunkPos(2, -3), center, 0));
    assert!(in_render_distance(ChunkPos(4, -1), center, 2));
    assert!(!in_render_distance(ChunkPos(5, -3), center, 2));
    assert!(!in_render_distance(ChunkPos(2, 0), center, 2));
    assert!(!in_render_distance(ChunkPos(2, -3), center, -1));
    assert!(in_render_distance(ChunkPos(i32::MIN, 0), ChunkPos(i32::MAX, 0), i32::MAX) == false);
}

use ferrumcraft::mesher::{face_ao_levels, mesh_pieces, MeshPiece, PieceKind};

fn index(x: usize, y: usize, z: usize) -> usize {
    y * 256 + z * 16 + x
}

#[test]
fn a_lone_block_shows_six_unshaded_faces_in_order() {
    let mut world = World::new();
    world.set_block(BlockPos(1, 1, 1), b("stone"));
    let chunk = world.chunk(ChunkPos(0, 0)).unwrap();
    let pieces = mesh_pieces(chunk, &world);
    let expected: Vec<MeshPiece> = (0..6u8)
        .map(|dir| MeshPiece {
            index: index(1, 1, 1),
            transparent: false,
            water_top: false,
            kind: PieceKind::Face(dir, (3, 3, 3, 3)),
        })
        .collect();
    assert_eq!(pieces, expected);
}

#[test]
fn neighbours_hide_faces_and_shade_corners() {
    let mut world = World::new();
    world.set_block(BlockPos(1, 1, 1), b("stone"));
    world.set_block(BlockPos(2, 2, 1), b("stone"));
    assert_eq!(face_ao_levels(&world, 1, 1, 1, 2), (3, 3, 2, 2));
    assert_eq!(face_ao_levels(&world, 1, 1, 1, 0), (3, 2, 2, 3));
    world.set_block(BlockPos(2, 1, 1), b("stone"));
    let chunk = world.chunk(ChunkPos(0, 0)).unwrap();
    let pieces = mesh_pieces(chunk, &world);
    let first: Vec<u8> = pieces
        .iter()
        .filter(|p| p.index == index(1, 1, 1))
        .map(|p| match p.kind {
            PieceKind::Face(dir, _) => dir,
            PieceKind::Sapling => 9,
        })
        .collect();
    // The face toward the block at +x is hidden.
    assert_eq!(first, vec![1, 2, 3, 4, 5]);
    // The block at (2, 1, 1) shows no face toward either stone.
    let second: Vec<u8> = pieces
        .iter()
        .filter(|p| p.index == index(2, 1, 1))
        .map(|p| match p.kind {
            PieceKind::Face(dir, _) => dir,
            PieceKind::Sapling => 9,
        })
        .collect();
    assert_eq!(second, vec![0, 3, 4, 5]);
}

#[test]
fn saplings_and_water_columns() {
    let mut world = World::new();
    world.set_block(BlockPos(3, 0, 3), b("oak_sapling"));
    world.set_block(BlockPos(5, 1, 5), b("water"));
    world.set_block(BlockPos(5, 2, 5), b("water"));
    let chunk = world.chunk(ChunkPos(0, 0)).unwrap();
    let pieces = mesh_pieces(chunk, &world);
    assert_eq!(
        pieces[0],
        MeshPiece { index: index(3, 0, 3), transparent: true, water_top: false, kind: PieceKind::Sapling }
    );
    let lower: Vec<&MeshPiece> = pieces.iter().filter(|p| p.index == index(5, 1, 5)).collect();
    let upper: Vec<&MeshPiece> = pieces.iter().filter(|p| p.index == index(5, 2, 5)).collect();
    // Water shows no face toward water.
    assert_eq!(lower.len(), 5);
    assert_eq!(upper.len(), 5);
    assert!(lower.iter().all(|p| p.transparent && !p.water_top));
    assert!(upper.iter().all(|p| p.transparent && p.water_top));
}
