use ferrumcraft::classic_worldgen::{block_id, ClassicTerrain, DistortedNoise, ImprovedNoise, JavaRandom, OctaveNoise, STONE};
use ferrumcraft::world::ChunkPos;

#[test]
fn java_random_matches_known_sequence() {
    let mut random = JavaRandom::new(0);
    assert_eq!(random.next_int(1000), 360);
    assert_eq!(random.next_int(1000), 948);
    assert_eq!(random.next_int(1000), 29);
}

#[test]
fn java_random_powers_of_two_and_bits() {
    let mut a = JavaRandom::new(42);
    let mut b = JavaRandom::new(42);
    let v = a.next_int(16);
    assert!((0..16).contains(&v));
    assert_eq!(v, ((16i64 * b.next(31) as i64) >> 31) as i32);
    let mut r = JavaRandom::new(0);
    // Java: new Random(0).nextInt() == -1155484576
    assert_eq!(r.next(32), -1155484576);
}

#[test]
fn permutation_tables_are_permutations() {
    let mut random = JavaRandom::new(12345);
    let noise = ImprovedNoise::new(&mut random);
    let mut seen = [false; 256];
    for i in 0..256 {
        let p = noise.permutation(i);
        assert!(!seen[p]);
        seen[p] = true;
        assert_eq!(noise.permutation(i + 256), p);
    }
}

#[test]
fn terrain_cuts_chunks_inside_the_level_only() {
    let mut cells = vec![0u8; 32 * 32 * 64];
    cells[(3 * 32 + 20) * 32 + 17] = STONE;
    let terrain = ClassicTerrain::from_parts(32, 32, cells, [16, 40, 16]);
    assert_eq!(terrain.spawn(), [16, 40, 16]);
    let chunk = terrain.chunk(ChunkPos(1, 1)).unwrap();
    assert_eq!(chunk.get_block(1, 3, 4).0, "stone");
    assert_eq!(chunk.get_block(0, 0, 0).0, "air");
    assert!(!chunk.is_dirty());
    assert!(terrain.chunk(ChunkPos(-1, 0)).is_none());
    assert!(terrain.chunk(ChunkPos(2, 0)).is_none());
    assert_eq!(block_id(17).0, "oak_log");
    assert_eq!(block_id(200).0, "air");
}

use ferrumcraft::classic_worldgen::{Generator, AIR, DIRT, GRASS, LAVA, LEAVES, LOG, WATER};

#[test]
fn generator_floods_border_water_into_air_basins() {
    let mut g = Generator::new(1, 16, 16);
    for x in 0..16usize {
        for z in 0..16usize {
            g.set_height(x, z, -10);
            g.apply_soil(x, z, -6);
        }
    }
    // Dirt up to 32 above the raised height, stone 6 below that, air above.
    assert_eq!(g.get(3, 22, 3), DIRT);
    assert_eq!(g.get(3, 16, 3), ferrumcraft::classic_worldgen::STONE);
    assert_eq!(g.get(3, 23, 3), AIR);
    assert_eq!(g.height(3, 3), 22);
    g.water();
    assert_eq!(g.get(5, 31, 5), WATER);
    assert_eq!(g.get(5, 23, 5), WATER);
    assert_eq!(g.get(5, 32, 5), AIR);
    assert_eq!(g.get(5, 22, 5), DIRT);
    g.lava();
    assert_ne!(g.get(0, 31, 0), AIR);
}

#[test]
fn generator_plants_trees_on_grass() {
    let mut g = Generator::new(3, 64, 64);
    for x in 0..64usize {
        for z in 0..64usize {
            g.set_height(x, z, 20);
            g.apply_soil(x, z, 0);
            g.grow_column(x, z, false, false);
        }
    }
    assert_eq!(g.get(10, 52, 10), GRASS);
    assert!(g.can_place_tree(10, 53, 10, 4));
    g.place_tree(10, 53, 10, 4);
    assert_eq!(g.get(10, 52, 10), DIRT);
    assert_eq!(g.get(10, 53, 10), LOG);
    assert_eq!(g.get(10, 56, 10), LOG);
    assert_eq!(g.get(10, 57, 10), LEAVES);
    assert_eq!(g.get(11, 57, 11), AIR);
    assert!(!g.can_place_tree(11, 53, 10, 4));
    g.plant_trees();
    let spawn = g.find_spawn(7);
    assert!((16..48).contains(&spawn[0]));
    assert!((16..48).contains(&spawn[2]));
    assert!(spawn[1] >= 53);
    let _ = WATER;
    let _ = LAVA;
}

#[test]
fn erosion_snaps_heights_to_parity() {
    let mut g = Generator::new(5, 16, 16);
    g.set_height(1, 1, 7);
    g.erode_column(1, 1, 0);
    assert_eq!(g.height(1, 1), 6);
    g.set_height(1, 1, -7);
    g.erode_column(1, 1, 0);
    assert_eq!(g.height(1, 1), -6);
    g.set_height(1, 1, 6);
    g.erode_column(1, 1, 1);
    assert_eq!(g.height(1, 1), 5);
}

#[test]
fn spawn_search_takes_the_first_high_column_or_the_last_tried() {
    // An empty level: no column stands above the middle, so all 10000
    // columns are tried and the last one is kept.
    let empty = Generator::new(7, 16, 16);
    assert_eq!(empty.find_spawn(42), [11, 1, 5]);
    // A level of soil up to height 32: the first column tried stands at 33.
    let mut soil = Generator::new(7, 16, 16);
    for x in 0..16 {
        for z in 0..16 {
            soil.apply_soil(x, z, 0);
        }
    }
    assert_eq!(soil.find_spawn(42), [9, 33, 4]);
}

#[test]
fn planting_only_grows_logs_leaves_and_dirt() {
    // Fewer than 4000 columns: no group of walks, nothing changes.
    let mut small = Generator::new(3, 16, 16);
    for x in 0..16usize {
        for z in 0..16usize {
            small.apply_soil(x, z, 0);
            small.grow_column(x, z, false, false);
        }
    }
    let before = cells_of(&small);
    small.plant_trees();
    assert_eq!(cells_of(&small), before);
    // One group of walks on a 64 x 64 grass plain: every changed cell grew.
    let mut g = Generator::new(11, 64, 64);
    for x in 0..64usize {
        for z in 0..64usize {
            g.apply_soil(x, z, 0);
            g.grow_column(x, z, false, false);
        }
    }
    let before = cells_of(&g);
    let heights: Vec<i32> = (0..64 * 64).map(|i| g.height(i % 64, i / 64)).collect();
    g.plant_trees();
    let mut logs = 0;
    for x in 0..64usize {
        for y in 0..64usize {
            for z in 0..64usize {
                let (a, b) = (before[(x * 64 + y) * 64 + z], g.get(x, y, z));
                if a != b {
                    assert!((a == AIR && (b == LOG || b == LEAVES)) || (a == GRASS && b == DIRT));
                }
                if b == LOG {
                    logs += 1;
                }
            }
        }
    }
    assert!(logs > 0);
    for x in 0..64usize {
        for z in 0..64usize {
            assert_eq!(g.height(x, z), heights[x + z * 64]);
        }
    }
}

fn cells_of(g: &Generator) -> Vec<u8> {
    let mut cells = Vec::new();
    for x in 0..g.width() {
        for y in 0..64usize {
            for z in 0..g.length() {
                cells.push(g.get(x, y, z));
            }
        }
    }
    cells
}

#[test]
fn noise_tables_follow_the_seed() {
    let mut a = JavaRandom::new(7);
    let mut b = JavaRandom::new(7);
    let mut c = JavaRandom::new(8);
    let na = ImprovedNoise::new(&mut a);
    let nb = ImprovedNoise::new(&mut b);
    let nc = ImprovedNoise::new(&mut c);
    let table = |n: &ImprovedNoise| (0..512).map(|i| n.permutation(i)).collect::<Vec<usize>>();
    assert_eq!(table(&na), table(&nb));
    assert_ne!(table(&na), table(&nc));
    assert_ne!(table(&na)[..256].to_vec(), (0..256).collect::<Vec<usize>>());
    // The random source moved on by the same draws.
    assert_eq!(a.next_int(1000), b.next_int(1000));
    // An octave noise draws its eight tables one after another.
    let mut d = JavaRandom::new(7);
    let octaves = OctaveNoise::new(&mut d);
    assert_eq!(table(octaves.octave(0)), table(&na));
    let mut e = JavaRandom::new(7);
    let distorted = DistortedNoise::new(&mut e);
    assert_eq!(table(distorted.source.octave(7)), table(octaves.octave(7)));
    assert_eq!(d.next_int(1000), {
        let mut f = JavaRandom::new(7);
        let _ = OctaveNoise::new(&mut f);
        f.next_int(1000)
    });
}

#[test]
fn chunk_overhanging_a_partial_level_reads_the_following_row() {
    let mut cells = vec![0u8; 20 * 32 * 64];
    cells[20] = STONE;
    let terrain = ClassicTerrain::from_parts(20, 32, cells, [0, 0, 0]);
    let chunk = terrain.chunk(ChunkPos(1, 0)).unwrap();
    assert_eq!(chunk.get_block(4, 0, 0).0, "stone");
    assert_eq!(chunk.get_block(0, 0, 1).0, "air");
    assert!(terrain.chunk(ChunkPos(2, 0)).is_none());
}
