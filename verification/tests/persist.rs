use veldspar::chunk::{BlockId, ChunkData};
use veldspar::compression::{compress_lz4, compress_zstd, decompress_lz4, decompress_zstd};
use veldspar::coords::{ChunkPos, CHUNK_VOLUME};
use veldspar::format::decode_payload;
use veldspar::persistence::PersistenceLayer;
use veldspar::region::{RegionError, RegionFile, REGION_MAGIC};
use veldspar::versioning::{migrate_region_payload, CURRENT_REGION_FORMAT_VERSION};

type V1U8 = (u32, Vec<((i32, i32, i32), Vec<u8>)>);
type V2 = (u32, Vec<((i32, i32, i32), Vec<u16>)>);

#[test]
fn migrate_v1_payload_to_current_v2_format() {
    let blocks = vec![7u8; CHUNK_VOLUME];
    let v1: V1U8 = (1, vec![((2, 0, -1), blocks)]);
    let payload_v1 = bincode::serialize(&v1).expect("serialize v1 payload");

    let migrated =
        migrate_region_payload(1, payload_v1).expect("migrate region payload from v1 to v2");
    let decoded = decode_payload(&migrated).expect("deserialize migrated v2 payload");

    assert_eq!(decoded.format_version, CURRENT_REGION_FORMAT_VERSION);
    assert_eq!(decoded.chunks.len(), 1);
    let chunk = &decoded.chunks[0];
    assert_eq!(chunk.pos, ChunkPos { x: 2, y: 0, z: -1 });
    assert_eq!(BlockId(chunk.blocks[0]), BlockId(7));
    assert_eq!(BlockId(chunk.blocks[CHUNK_VOLUME - 1]), BlockId(7));
}

#[test]
fn current_version_payload_is_unchanged() {
    let mut chunk = ChunkData::new_empty();
    chunk.set_index(0, BlockId(3));
    let blocks: Vec<u16> = chunk.blocks().iter().map(|b| b.0).collect();
    let v2: V2 = (CURRENT_REGION_FORMAT_VERSION, vec![((0, 0, 0), blocks)]);
    let payload = bincode::serialize(&v2).expect("serialize v2 payload");

    let migrated = migrate_region_payload(CURRENT_REGION_FORMAT_VERSION, payload.clone())
        .expect("no-op migration should succeed");
    assert_eq!(migrated, payload);
}

#[test]
fn unknown_version_returns_error() {
    let err = migrate_region_payload(99, vec![1, 2, 3]).expect_err("unknown version must fail");
    assert!(err.contains("unsupported region format version 99"));
}

#[test]
fn version_zero_is_unsupported_with_the_current_version_named() {
    let err = migrate_region_payload(0, vec![]).unwrap_err();
    assert_eq!(err, "unsupported region format version 0; current version is 2");
}

#[test]
fn v1_payload_in_current_layout_migrates_unchanged_in_content() {
    let mut blocks = vec![0u16; CHUNK_VOLUME];
    blocks[5] = 300;
    let v1: V2 = (1, vec![((1, 2, 3), blocks.clone())]);
    let payload = bincode::serialize(&v1).unwrap();
    let migrated = migrate_region_payload(1, payload).unwrap();
    let expected: V2 = (2, vec![((1, 2, 3), blocks)]);
    assert_eq!(migrated, bincode::serialize(&expected).unwrap());
}

#[test]
fn v1_payload_with_short_chunk_reports_its_length() {
    let v1: V1U8 = (1, vec![((4, -5, 6), vec![1u8; 10])]);
    let payload = bincode::serialize(&v1).unwrap();
    let err = migrate_region_payload(1, payload).unwrap_err();
    assert_eq!(err, "chunk ChunkPos { x: 4, y: -5, z: 6 } has 10 blocks; expected 32768");
}

#[test]
fn v1_payload_that_is_not_a_payload_fails_to_decode() {
    let err = migrate_region_payload(1, vec![1, 0]).unwrap_err();
    assert_eq!(err, "failed to decode region payload for migration from v1 to v2");
}

fn filled_chunk(block: u16) -> ChunkData {
    let mut chunk = ChunkData::new_empty();
    for i in 0..CHUNK_VOLUME {
        chunk.set_index(i, BlockId(block + (i % 3) as u16));
    }
    chunk
}

#[test]
fn region_reads_back_what_it_wrote() {
    let mut region = RegionFile::open("world/region/r.0.0.vsr".to_string(), None).unwrap();
    assert_eq!(region.chunk_count(), 0);
    let a = filled_chunk(4);
    let b = filled_chunk(9);
    region.save_chunk(ChunkPos { x: 0, y: 1, z: 2 }, &a);
    region.save_chunk(ChunkPos { x: 3, y: -1, z: 5 }, &b);
    region.save_chunk(ChunkPos { x: 0, y: 1, z: 2 }, &b);
    let bytes = region.flush().unwrap();
    assert_eq!(&bytes[0..4], &REGION_MAGIC);
    assert_eq!(bytes[4], 2);

    let reopened = RegionFile::open("world/region/r.0.0.vsr".to_string(), Some(bytes)).unwrap();
    assert_eq!(reopened.chunk_count(), 2);
    let got = reopened.load_chunk(ChunkPos { x: 0, y: 1, z: 2 }).unwrap();
    assert_eq!(got.blocks(), b.blocks());
    let got = reopened.load_chunk(ChunkPos { x: 3, y: -1, z: 5 }).unwrap();
    assert_eq!(got.blocks(), b.blocks());
    assert!(reopened.load_chunk(ChunkPos { x: 1, y: 1, z: 1 }).is_none());
}

#[test]
fn empty_or_missing_region_file_is_an_empty_region() {
    let region = RegionFile::open("r.vsr".to_string(), Some(Vec::new())).unwrap();
    assert_eq!(region.chunk_count(), 0);
    let region = RegionFile::open("r.vsr".to_string(), None).unwrap();
    assert_eq!(region.chunk_count(), 0);
    assert_eq!(region.path(), "r.vsr");
}

#[test]
fn region_file_without_magic_is_refused() {
    let result = RegionFile::open("r.vsr".to_string(), Some(vec![1, 2, 3, 4, 5]));
    assert!(matches!(result, Err(RegionError::InvalidMagic)));
}

#[test]
fn region_file_with_unknown_wire_version_is_refused() {
    let mut bytes = REGION_MAGIC.to_vec();
    bytes.push(7);
    bytes.extend_from_slice(&[0, 0, 0, 0]);
    let result = RegionFile::open("r.vsr".to_string(), Some(bytes));
    assert!(matches!(result, Err(RegionError::UnsupportedWireVersion(7))));
}

#[test]
fn region_file_with_corrupt_zstd_payload_is_refused() {
    let mut bytes = REGION_MAGIC.to_vec();
    bytes.push(2);
    bytes.extend_from_slice(&[9, 9, 9, 9, 9, 9]);
    let result = RegionFile::open("r.vsr".to_string(), Some(bytes));
    assert!(matches!(result, Err(RegionError::Decompress(_))));
}

#[test]
fn uncompressed_region_payload_is_read() {
    let blocks: Vec<u16> = (0..CHUNK_VOLUME).map(|i| (i % 11) as u16).collect();
    let payload: V2 = (2, vec![((7, 7, 7), blocks.clone())]);
    let mut bytes = REGION_MAGIC.to_vec();
    bytes.push(1);
    bytes.extend_from_slice(&bincode::serialize(&payload).unwrap());
    let region = RegionFile::open("r.vsr".to_string(), Some(bytes)).unwrap();
    let chunk = region.load_chunk(ChunkPos { x: 7, y: 7, z: 7 }).unwrap();
    let got: Vec<u16> = chunk.blocks().iter().map(|b| b.0).collect();
    assert_eq!(got, blocks);
}

#[test]
fn zstd_round_trip_gives_back_the_data() {
    let data: Vec<u8> = (0..5000u32).map(|i| (i * 7 % 251) as u8).collect();
    let packed = compress_zstd(&data, 3).unwrap();
    assert_ne!(packed, data);
    assert_eq!(decompress_zstd(&packed).unwrap(), data);
    assert!(decompress_zstd(&[1, 2, 3]).is_err());
}

#[test]
fn lz4_round_trip_gives_back_the_data() {
    let data: Vec<u8> = (0..3000u32).map(|i| (i % 13) as u8).collect();
    let packed = compress_lz4(&data);
    assert_eq!(&packed[0..4], &(data.len() as u32).to_le_bytes());
    assert_eq!(decompress_lz4(&packed).unwrap(), data);
    assert!(decompress_lz4(&[1, 2]).is_err());
}

#[test]
fn persistence_names_region_files_by_floored_region_coordinates() {
    let layer = PersistenceLayer::open("world".to_string());
    assert_eq!(PersistenceLayer::region_coords(ChunkPos { x: -1, y: 9, z: 16 }), (-1, 1));
    assert_eq!(PersistenceLayer::region_coords(ChunkPos { x: 15, y: 0, z: -17 }), (0, -2));
    assert_eq!(layer.region_path((-1, 0)), "world/region/r.-1.0.vsr");
    let layer = PersistenceLayer::open("saves/".to_string());
    assert_eq!(layer.region_path((3, -4)), "saves/region/r.3.-4.vsr");
}

#[test]
fn persistence_saves_then_loads_a_chunk() {
    let mut layer = PersistenceLayer::open("world".to_string());
    let pos = ChunkPos { x: 20, y: 0, z: -3 };
    let missing = layer.load_chunk(pos).unwrap_err();
    assert_eq!(missing.coords, (1, -1));
    assert_eq!(missing.path, "world/region/r.1.-1.vsr");
    assert!(layer.save_chunk(pos, &filled_chunk(2)).is_err());

    let region = RegionFile::open(missing.path.clone(), None).unwrap();
    layer.insert_region(missing.coords, region);
    assert!(layer.load_chunk(pos).unwrap().is_none());
    let request = layer.save_chunk(pos, &filled_chunk(2)).unwrap();
    assert_eq!(request.path, "world/region/r.1.-1.vsr");
    let loaded = layer.load_chunk(pos).unwrap().unwrap();
    assert_eq!(loaded.blocks(), filled_chunk(2).blocks());

    let reopened = RegionFile::open(request.path.clone(), Some(request.bytes)).unwrap();
    assert_eq!(reopened.load_chunk(pos).unwrap().blocks(), filled_chunk(2).blocks());
    let all = layer.flush_all().unwrap();
    assert_eq!(all.len(), 1);
}

#[test]
fn v1_one_byte_payload_migrates_to_widened_blocks() {
    let mut blocks = vec![7u8; CHUNK_VOLUME];
    blocks[3] = 200;
    let v1: V1U8 = (1, vec![((-1, 0, 2), blocks.clone())]);
    let payload = bincode::serialize(&v1).unwrap();
    let migrated = migrate_region_payload(1, payload).unwrap();
    let widened: Vec<u16> = blocks.iter().map(|b| *b as u16).collect();
    let expected: V2 = (2, vec![((-1, 0, 2), widened)]);
    assert_eq!(migrated, bincode::serialize(&expected).unwrap());
}
