use qres_core::dedup::{xxhash64, ChunkBoundaryDetector, DedupEngine, DedupReference, RollingHash};

#[test]
fn test_rolling_hash() {
    let mut rh = RollingHash::new(4);
    let data = b"abcdefgh";

    for &byte in data {
        rh.update(byte);
    }

    // Hash should be deterministic
    assert_ne!(rh.hash(), 0);
}

#[test]
fn test_deduplication() {
    let mut engine = DedupEngine::new(1024);

    let mut data = Vec::with_capacity(16 * 1024);
    let pattern: Vec<u8> = (0..8192).map(|i| (i % 255) as u8).collect();
    data.extend_from_slice(&pattern);
    data.extend_from_slice(&pattern);

    let result = engine.deduplicate(&data, 0);

    let ratio = engine.total_unique_bytes() as f64 / engine.total_original_bytes() as f64;
    assert!(ratio < 1.0);
    assert!(!result.unique_data.is_empty());
}

#[test]
fn test_chunk_boundaries() {
    let engine = DedupEngine::new(1024);
    let data = vec![0xAB; 10 * 1024];

    let chunks = engine.chunk_data(&data);

    assert!(chunks.len() > 1);

    let total: usize = chunks.iter().map(|(s, e)| e - s).sum();
    assert_eq!(total, data.len());
}

#[test]
fn rolling_hash_window_forgets_old_bytes() {
    let mut a = RollingHash::new(4);
    let mut b = RollingHash::new(4);
    for &x in b"xyzabcd" {
        a.update(x);
    }
    for &x in b"qqqabcd" {
        b.update(x);
    }
    assert_eq!(a.hash(), b.hash());
    a.reset();
    assert_eq!(a.hash(), 0);
}

#[test]
fn chunks_tile_the_input() {
    let engine = DedupEngine::new(256);
    let data: Vec<u8> = (0..5000u32).map(|i| (i.wrapping_mul(2654435761) >> 13) as u8).collect();
    let chunks = engine.chunk_data(&data);
    let mut expected_start = 0;
    for &(s, e) in &chunks {
        assert_eq!(s, expected_start);
        assert!(e > s);
        expected_start = e;
    }
    assert_eq!(expected_start, data.len());
    assert!(engine.chunk_data(&[]).is_empty());
}

#[test]
fn boundary_detector_respects_limits() {
    let d = ChunkBoundaryDetector::new(1024);
    // Below the minimum size nothing is a boundary, even a zero hash.
    assert!(!d.is_boundary(0, 10));
    // At the maximum size everything is a boundary.
    assert!(d.is_boundary(u64::MAX, 1024 * 4));
}

#[test]
fn duplicate_input_is_all_existing_references() {
    let mut engine = DedupEngine::new(512);
    let data: Vec<u8> = (0..4000u32).map(|i| (i * 7 % 251) as u8).collect();
    let first = engine.deduplicate(&data, 0);
    let unique_after_first = engine.total_unique_bytes();
    let second = engine.deduplicate(&data, data.len() as u64);
    assert_eq!(first.references.len(), second.references.len());
    assert!(second.unique_data.is_empty());
    for r in &second.references {
        assert!(matches!(r, DedupReference::Existing { .. }));
    }
    assert_eq!(engine.total_unique_bytes(), unique_after_first);
    assert_eq!(engine.total_original_bytes(), 2 * data.len() as u64);
}

#[test]
fn serialized_index_layout() {
    let mut engine = DedupEngine::new(64);
    let data = vec![1u8; 100];
    engine.deduplicate(&data, 0);
    let idx = engine.serialize_index();
    assert_eq!(&idx[0..4], b"DEDP");
    let count = u32::from_le_bytes([idx[4], idx[5], idx[6], idx[7]]) as usize;
    assert_eq!(count, engine.total_chunks());
    assert_eq!(idx.len(), 8 + count * 28);
}

#[test]
fn xxhash_depends_on_content_and_length() {
    let h1 = xxhash64(b"hello world");
    assert_eq!(h1, xxhash64(b"hello world"));
    assert_ne!(h1, xxhash64(b"hello worle"));
    assert_ne!(xxhash64(&[]), xxhash64(&[0]));
}

#[test]
fn references_expand_back_to_the_input() {
    let mut engine = DedupEngine::new(256);
    let block: Vec<u8> = (0..3000u32).map(|i| (i * 13 % 241) as u8).collect();
    let mut data = block.clone();
    data.extend_from_slice(&block);
    data.extend_from_slice(&block[..700]);
    let result = engine.deduplicate(&data, 0);
    let mut rebuilt: Vec<u8> = Vec::new();
    for r in &result.references {
        match r {
            DedupReference::New { chunk_id, .. } => {
                rebuilt.extend_from_slice(&result.unique_data[*chunk_id as usize]);
            }
            DedupReference::Existing { hash, .. } => {
                let chunk = result
                    .unique_data
                    .iter()
                    .find(|c| xxhash64(c) == *hash)
                    .expect("a repeated chunk is among the unique chunks");
                rebuilt.extend_from_slice(chunk);
            }
        }
    }
    assert_eq!(rebuilt, data);
}

#[test]
fn reset_rolling_hash_matches_a_new_one() {
    let mut a = RollingHash::new(4);
    for x in [9u8, 8, 7, 6, 5] {
        a.update(x);
    }
    a.reset();
    let mut b = RollingHash::new(4);
    assert_eq!(a.hash(), b.hash());
    for x in [1u8, 2, 3, 4, 5] {
        assert_eq!(a.update(x), b.update(x));
    }
}
