use qres_core::archive::stream::{frame_solid_stream, solid_chunk_count, unframe_stream, UnframeError, FLAG_RAW, FLAG_REF};
use qres_core::dedup::xxhash64;

fn sample(len: usize, seed: u32) -> Vec<u8> {
    let mut x = seed;
    (0..len)
        .map(|_| {
            x ^= x << 13;
            x ^= x >> 17;
            x ^= x << 5;
            (x >> 24) as u8
        })
        .collect()
}

#[test]
fn framed_stream_reads_back() {
    let block = sample(200_000, 7);
    let mut data = block.clone();
    data.extend_from_slice(&block);
    data.extend_from_slice(&sample(5_000, 9));
    let framed = frame_solid_stream(&data);
    assert_eq!(unframe_stream(&framed), Ok(data));
}

#[test]
fn empty_stream_frames_to_nothing() {
    assert!(frame_solid_stream(&[]).is_empty());
    assert_eq!(unframe_stream(&[]), Ok(Vec::new()));
}

#[test]
fn small_input_is_one_raw_frame() {
    let data = b"hello archive".to_vec();
    let framed = frame_solid_stream(&data);
    let mut expected = ((data.len() + 1) as u32).to_le_bytes().to_vec();
    expected.push(FLAG_RAW);
    expected.extend_from_slice(&data);
    assert_eq!(framed, expected);
}

#[test]
fn reference_frame_resolves_by_hash() {
    let chunk = b"abcdef".to_vec();
    let mut stream = 7u32.to_le_bytes().to_vec();
    stream.push(FLAG_RAW);
    stream.extend_from_slice(&chunk);
    stream.extend_from_slice(&13u32.to_le_bytes());
    stream.push(FLAG_REF);
    stream.extend_from_slice(&xxhash64(&chunk).to_le_bytes());
    stream.extend_from_slice(&6u32.to_le_bytes());
    // a trailing partial length is ignored
    stream.extend_from_slice(&[1, 2]);
    assert_eq!(unframe_stream(&stream), Ok(b"abcdefabcdef".to_vec()));
}

#[test]
fn unframe_errors() {
    // length larger than what follows
    assert_eq!(unframe_stream(&[9, 0, 0, 0, FLAG_RAW, 1]), Err(UnframeError::TruncatedFrame));
    // zero-length frame
    assert_eq!(unframe_stream(&[0, 0, 0, 0, 5]), Err(UnframeError::EmptyFrame));
    // reference frame shorter than 13 bytes
    assert_eq!(unframe_stream(&[2, 0, 0, 0, FLAG_REF, 0]), Err(UnframeError::ShortReference));
    // reference to a hash never seen
    let mut stream = 13u32.to_le_bytes().to_vec();
    stream.push(FLAG_REF);
    stream.extend_from_slice(&[0u8; 12]);
    assert_eq!(unframe_stream(&stream), Err(UnframeError::UnknownReference));
}

#[test]
fn archive_entry_records_size_offset_and_digest() {
    let data = b"some file contents".to_vec();
    let e = qres_core::archive::archive_entry("a/b.txt".to_string(), &data, 40, Some(0o644), 1234, true);
    assert_eq!(e.path, "a/b.txt");
    assert_eq!(e.original_size, data.len() as u64);
    assert_eq!(e.stream_offset, 40);
    assert_eq!(e.stream_length, data.len() as u64);
    assert_eq!(e.permissions, Some(0o644));
    assert_eq!(e.modified, 1234);
    assert_eq!(e.hash, Some(blake3::hash(&data).to_hex().to_string()));
    let e2 = qres_core::archive::archive_entry("x".to_string(), &data, 0, None, 0, false);
    assert_eq!(e2.hash, None);
}

#[test]
fn solid_manifest_places_files_by_prefix_sums() {
    let files = vec![
        qres_core::archive::SourceFile { path: "one".to_string(), data: vec![1, 2, 3], permissions: None, modified: 1 },
        qres_core::archive::SourceFile { path: "two".to_string(), data: vec![], permissions: None, modified: 2 },
        qres_core::archive::SourceFile { path: "three".to_string(), data: vec![9; 5], permissions: Some(7), modified: 3 },
    ];
    let (m, stream) = qres_core::archive::build_solid_manifest(&files, false);
    assert_eq!(m.total_size, 8);
    assert_eq!(m.compression_method, "qres-v5-dedup");
    assert!(m.metadata.is_empty());
    let offsets: Vec<u64> = m.files.iter().map(|e| e.stream_offset).collect();
    assert_eq!(offsets, vec![0, 3, 3]);
    assert_eq!(stream, vec![1, 2, 3, 9, 9, 9, 9, 9]);
    for (e, f) in m.files.iter().zip(files.iter()) {
        let start = e.stream_offset as usize;
        assert_eq!(&stream[start..start + e.stream_length as usize], &f.data[..]);
        assert_eq!(e.path, f.path);
    }
}

#[test]
fn solid_chunk_count_counts_content_defined_chunks() {
    assert_eq!(solid_chunk_count(&[]), 0);
    assert_eq!(solid_chunk_count(&[7u8; 1000]), 1);
    // Zeros hash to zero, so every chunk is cut at the 16 KiB minimum:
    // 37 full chunks of 600 KiB and the 8 KiB rest.
    let data = vec![0u8; 600 * 1024];
    assert_eq!(solid_chunk_count(&data), 38);
}
