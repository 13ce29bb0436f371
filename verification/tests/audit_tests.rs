use qres_core::audit::{audit_round_seed, collusion_audit_slots, derive_auditor_id};

fn digest(parts: &[&[u8]]) -> [u8; 32] {
    let mut h = blake3::Hasher::new();
    for p in parts {
        h.update(p);
    }
    *h.finalize().as_bytes()
}

#[test]
fn round_seed_is_blake3_of_label_round_epoch() {
    let epoch = [0xABu8; 32];
    let seed = audit_round_seed(50, &epoch);
    assert_eq!(seed, digest(&[b"QRES-CollusionAudit-v21", &50u64.to_le_bytes(), &epoch]));
}

#[test]
fn auditor_id_is_blake3_of_label_round_epoch() {
    let epoch = [7u8; 32];
    assert_eq!(
        derive_auditor_id(100, &epoch),
        digest(&[b"QRES-AuditorID-v21", &100u64.to_le_bytes(), &epoch])
    );
}

#[test]
fn slots_are_deterministic_and_in_range() {
    let epoch = [0xABu8; 32];
    let a = collusion_audit_slots(50, &epoch, 10, 3);
    let b = collusion_audit_slots(50, &epoch, 10, 3);
    assert_eq!(a, b);
    assert_eq!(a.len(), 3);
    let seed = audit_round_seed(50, &epoch);
    for (slot, (index, nonce)) in a.iter().enumerate() {
        let expected = digest(&[&seed, &(slot as u64).to_le_bytes()]);
        assert_eq!(*nonce, expected);
        let selection = u64::from_le_bytes(expected[..8].try_into().unwrap());
        assert_eq!(*index, (selection % 10) as usize);
        assert!(*index < 10);
    }
}

#[test]
fn slot_count_is_capped_by_active_peers() {
    let epoch = [1u8; 32];
    assert_eq!(collusion_audit_slots(50, &epoch, 2, 3).len(), 2);
    assert_eq!(collusion_audit_slots(50, &epoch, 5, 0).len(), 0);
}

#[test]
fn different_epochs_give_different_nonces() {
    let a = collusion_audit_slots(50, &[1u8; 32], 100, 1);
    let b = collusion_audit_slots(50, &[2u8; 32], 100, 1);
    assert_ne!(a[0].1, b[0].1);
}
