use ferrumcraft::block::BlockId;
use ferrumcraft::save::{
    chunk_from_save, decode_block_runs, encode_block_properties, encode_block_runs, saved_format_version,
    SaveBlockProperty, SaveBlockRun,
};
use ferrumcraft::world::{Chunk, ChunkPos};

#[test]
fn save_version_is_read_from_header_without_parsing_chunks() {
    let header = r#"{
            "format_version": 6,
            "seed": 12345,
            "chunks": ["#;
    assert_eq!(saved_format_version(header), Some(6));
    assert_eq!(saved_format_version("{}"), None);
}

#[test]
fn format_version_edge_cases() {
    assert_eq!(saved_format_version("\"format_version\" :\u{a0}42x"), Some(42));
    assert_eq!(saved_format_version("\"format_version\": 4294967296"), None);
    assert_eq!(saved_format_version("\"format_version\": 4294967295"), Some(u32::MAX));
    assert_eq!(saved_format_version("\"format_version\": -1"), None);
    assert_eq!(saved_format_version("\"format_version\""), None);
}

#[test]
fn runs_round_trip_a_chunk() {
    let mut chunk = Chunk::new(ChunkPos(0, 0));
    chunk.set_block(0, 0, 0, BlockId::named("stone"));
    chunk.set_block(1, 0, 0, BlockId::named("stone"));
    chunk.set_block(5, 10, 3, BlockId::named("dirt"));
    let runs = encode_block_runs(chunk.blocks());
    assert_eq!(runs.len(), 4);
    assert_eq!(runs[0].len, 2);
    let decoded = decode_block_runs(&runs).unwrap();
    assert_eq!(&decoded, chunk.blocks());
}

#[test]
fn malformed_runs_are_refused() {
    let short = vec![SaveBlockRun { block: BlockId::air(), len: 10 }];
    assert!(decode_block_runs(&short).is_none());
    let empty_run = vec![
        SaveBlockRun { block: BlockId::air(), len: 0 },
        SaveBlockRun { block: BlockId::air(), len: 16384 },
    ];
    assert!(decode_block_runs(&empty_run).is_none());
    let long = vec![SaveBlockRun { block: BlockId::air(), len: 16385 }];
    assert!(decode_block_runs(&long).is_none());
}

#[test]
fn saved_chunks_are_rebuilt_with_their_properties() {
    let mut chunk = Chunk::new(ChunkPos(2, 3));
    chunk.set_block(4, 5, 6, BlockId::named("water"));
    chunk.set_property(4, 5, 6, 0, 3);
    let runs = encode_block_runs(chunk.blocks());
    let mut props = encode_block_properties(&chunk);
    props.push(SaveBlockProperty { index: 20000, prop: 0, value: 1 });
    let restored = chunk_from_save(ChunkPos(2, 3), &runs, &props).unwrap();
    assert_eq!(restored.get_block(4, 5, 6).0, "water");
    assert_eq!(restored.get_property(4, 5, 6, 0), 3);
    assert_eq!(restored.property_overrides().len(), 1);
    assert!(!restored.is_dirty());
    assert_eq!(restored.pos(), ChunkPos(2, 3));
}
