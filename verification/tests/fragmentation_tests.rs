use qres_core::fragmentation::{Fragmenter, MAX_PAYLOAD};

#[test]
fn split_and_reassemble_roundtrip() {
    let data: Vec<u8> = (0..5000u32).map(|i| (i % 253) as u8).collect();
    let frags = Fragmenter::split(&data, 42);
    assert_eq!(frags.len(), (5000 + MAX_PAYLOAD - 1) / MAX_PAYLOAD);
    for (i, f) in frags.iter().enumerate() {
        assert_eq!(f.sequence_id, 42);
        assert_eq!(f.fragment_index as usize, i);
        assert_eq!(f.total_fragments as usize, frags.len());
        assert!(f.payload.len() <= MAX_PAYLOAD);
    }
    let mut shuffled = frags.clone();
    shuffled.reverse();
    assert_eq!(Fragmenter::reassemble(shuffled), Some(data));
}

#[test]
fn reassemble_rejects_empty_missing_and_corrupt() {
    assert_eq!(Fragmenter::reassemble(Vec::new()), None);
    let data = vec![9u8; 3000];
    let mut frags = Fragmenter::split(&data, 1);
    let mut missing = frags.clone();
    missing.remove(1);
    assert_eq!(Fragmenter::reassemble(missing), None);
    frags[0].payload[0] ^= 1;
    assert_eq!(Fragmenter::reassemble(frags), None);
}

#[test]
fn checksum_is_standard_crc32() {
    let frags = Fragmenter::split(b"123456789", 0);
    assert_eq!(frags.len(), 1);
    assert_eq!(frags[0].checksum, 0xCBF4_3926);
}

#[test]
fn empty_payload_has_no_fragments() {
    assert!(Fragmenter::split(&[], 5).is_empty());
}

#[test]
fn missing_fragment_with_a_duplicate_is_refused() {
    let fs = Fragmenter::split(&[0u8; 2025], 1);
    assert_eq!(fs.len(), 3);
    let frags = vec![fs[0].clone(), fs[1].clone(), fs[1].clone()];
    assert_eq!(Fragmenter::reassemble(frags), None);
}

#[test]
fn fragments_in_any_order_reassemble() {
    let data: Vec<u8> = (0..3500u32).map(|i| (i * 7 % 251) as u8).collect();
    let fs = Fragmenter::split(&data, 9);
    let shuffled = vec![fs[2].clone(), fs[0].clone(), fs[3].clone(), fs[1].clone()];
    assert_eq!(Fragmenter::reassemble(shuffled), Some(data));
}
