use curve25519_dalek::edwards::CompressedEdwardsY;
use curve25519_dalek::scalar::Scalar;
use qres_core::zk_proofs::{
    challenge_from_seed, generate_transition_proof, transition_proof_with, AuditVerdict, NormProof,
    PedersenGens, SimpleTranscript, StochasticAuditConfig, StochasticAuditor, ZkNormProver,
    ZkTransitionProof, ZkTransitionVerifier,
};

fn weight_bytes(weights: &[f32]) -> Vec<u8> {
    weights.iter().flat_map(|w| w.to_le_bytes()).collect()
}

fn residual_scaled(residuals: &[f32]) -> u64 {
    let norm_sq: f32 = residuals.iter().map(|r| r * r).sum();
    (norm_sq * 1_000_000.0) as u64
}

fn prove(prev_hash: &[u8; 32], weights: &[f32], residuals: &[f32]) -> (Vec<u8>, ZkTransitionProof) {
    generate_transition_proof(prev_hash, &weight_bytes(weights), residual_scaled(residuals)).unwrap()
}

fn scalar_bytes(v: u64) -> [u8; 32] {
    Scalar::from(v).to_bytes()
}

#[test]
fn zk_proofs_test_audit_scheduling() {
    let config = StochasticAuditConfig {
        audit_interval: 50,
        response_deadline: 5,
    };
    let auditor = StochasticAuditor::new(config);

    assert!(!auditor.should_audit(0));
    assert!(!auditor.should_audit(1));
    assert!(!auditor.should_audit(49));
    assert!(auditor.should_audit(50));
    assert!(!auditor.should_audit(51));
    assert!(auditor.should_audit(100));
}

#[test]
fn test_deterministic_challenge_generation() {
    let config = StochasticAuditConfig::default();
    let hash = [0xABu8; 32];

    let mut a1 = StochasticAuditor::new(config.clone());
    a1.update_epoch_hash(&hash);
    let c1 = a1.generate_challenge(50, 10).unwrap();

    let mut a2 = StochasticAuditor::new(StochasticAuditConfig::default());
    a2.update_epoch_hash(&hash);
    let c2 = a2.generate_challenge(50, 10).unwrap();

    assert_eq!(c1, c2);
    assert!(c1.challenged_node_index < 10);
}

#[test]
fn test_different_epoch_different_selection() {
    let config = StochasticAuditConfig::default();

    let mut a1 = StochasticAuditor::new(config.clone());
    a1.update_epoch_hash(&[0x01u8; 32]);
    let c1 = a1.generate_challenge(50, 1000).unwrap();

    let mut a2 = StochasticAuditor::new(StochasticAuditConfig::default());
    a2.update_epoch_hash(&[0x02u8; 32]);
    let c2 = a2.generate_challenge(50, 1000).unwrap();

    assert_ne!(c1.challenge_seed, c2.challenge_seed);
}

#[test]
fn test_audit_timeout() {
    let config = StochasticAuditConfig {
        audit_interval: 50,
        response_deadline: 5,
    };
    let mut auditor = StochasticAuditor::new(config);
    auditor.update_epoch_hash(&[0xFFu8; 32]);
    auditor.generate_challenge(50, 10);

    // Respond after the deadline (round 56 > 50 + 5).
    let prev_hash = [0xABu8; 32];
    let (_, proof) = prove(&prev_hash, &[0.1, 0.2], &[0.01, -0.02]);
    let verdict = auditor.verify_response(56, &prev_hash, &proof);
    assert_eq!(verdict, AuditVerdict::Timeout);
    assert!(auditor.pending().is_none());
}

#[test]
fn test_audit_check_timeout() {
    let config = StochasticAuditConfig {
        audit_interval: 50,
        response_deadline: 5,
    };
    let mut auditor = StochasticAuditor::new(config);
    auditor.update_epoch_hash(&[0xFFu8; 32]);
    auditor.generate_challenge(50, 10);

    assert_eq!(auditor.check_timeout(54), AuditVerdict::NotScheduled);
    assert!(auditor.pending().is_some());
    assert_eq!(auditor.check_timeout(56), AuditVerdict::Timeout);
    assert!(auditor.pending().is_none());
}

#[test]
fn test_no_audit_on_non_scheduled_round() {
    let mut auditor = StochasticAuditor::new(StochasticAuditConfig::default());
    let result = auditor.generate_challenge(37, 10);
    assert!(result.is_none());
}

#[test]
fn test_no_audit_with_zero_nodes() {
    let mut auditor = StochasticAuditor::new(StochasticAuditConfig::default());
    let result = auditor.generate_challenge(50, 0);
    assert!(result.is_none());
}

#[test]
fn test_audit_proof_pass() {
    let mut auditor = StochasticAuditor::new(StochasticAuditConfig::default());
    auditor.update_epoch_hash(&[0xFFu8; 32]);
    let challenge = auditor.generate_challenge(50, 10);
    assert!(challenge.is_some());
    let prev_hash = [0xABu8; 32];
    let (_, proof) = prove(&prev_hash, &[0.1, 0.2, 0.3], &[0.01, -0.02, 0.015]);
    let verdict = auditor.verify_response(51, &prev_hash, &proof);
    assert_eq!(verdict, AuditVerdict::Pass);
}

#[test]
fn test_audit_proof_fail_forged_hash() {
    let mut auditor = StochasticAuditor::new(StochasticAuditConfig::default());
    auditor.update_epoch_hash(&[0xFFu8; 32]);
    auditor.generate_challenge(50, 10);
    let real_hash = [0xABu8; 32];
    let forged_hash = [0xCDu8; 32];
    let (_, proof) = prove(&real_hash, &[0.1, 0.2, 0.3], &[0.01, -0.02, 0.015]);
    let verdict = auditor.verify_response(51, &forged_hash, &proof);
    assert_eq!(verdict, AuditVerdict::Fail);
}

#[test]
fn verdicts_follow_deadline_and_validity() {
    let mut auditor = StochasticAuditor::new(StochasticAuditConfig::default());
    let prev_hash = [3u8; 32];
    let (_, proof) = prove(&prev_hash, &[1.0], &[0.5]);
    assert_eq!(auditor.verify_response(1, &prev_hash, &proof), AuditVerdict::NotScheduled);
    auditor.generate_challenge(50, 3);
    assert_eq!(auditor.verify_response(51, &prev_hash, &proof), AuditVerdict::Pass);
    assert!(auditor.pending().is_none());
    auditor.generate_challenge(100, 3);
    assert_eq!(auditor.verify_response(105, &[4u8; 32], &proof), AuditVerdict::Fail);
}

#[test]
fn test_commitment_homomorphism() {
    let gens = PedersenGens::default();
    let c1 = gens.commit(scalar_bytes(10), scalar_bytes(100));
    let c2 = gens.commit(scalar_bytes(20), scalar_bytes(200));
    let p1 = CompressedEdwardsY(c1).decompress().unwrap();
    let p2 = CompressedEdwardsY(c2).decompress().unwrap();
    let c_sum = (p1 + p2).compress().to_bytes();
    let c_expected = gens.commit(scalar_bytes(30), scalar_bytes(300));
    assert_eq!(c_sum, c_expected, "Homomorphism C(a)+C(b) = C(a+b) failed");
}

#[test]
fn generators_are_basepoint_and_its_double() {
    let gens = PedersenGens::default();
    let mut expected_g = [0x66u8; 32];
    expected_g[0] = 0x58;
    assert_eq!(gens.g(), expected_g);
    let g = CompressedEdwardsY(expected_g).decompress().unwrap();
    assert_eq!(gens.h(), (g + g).compress().to_bytes());
}

#[test]
fn test_transcript_determinism() {
    let mut t1 = SimpleTranscript::new(b"Test");
    t1.append_message(b"data", b"hello");
    let c1 = t1.challenge_scalar(b"challenge");

    let mut t2 = SimpleTranscript::new(b"Test");
    t2.append_message(b"data", b"hello");
    let c2 = t2.challenge_scalar(b"challenge");

    assert_eq!(c1, c2);
}

#[test]
fn transcript_challenge_is_wide_reduction_of_blake3_xof() {
    let mut t = SimpleTranscript::new(b"Test");
    t.append_message(b"data", b"hello");
    t.append_scalar(b"s", &[9u8; 32]);
    let c = t.challenge_scalar(b"challenge");
    let mut hasher = blake3::Hasher::new();
    hasher.update(b"QRES-ZK-Transcript-v1");
    hasher.update(b"Test");
    hasher.update(b"data");
    hasher.update(b"hello");
    hasher.update(b"s");
    hasher.update(&[9u8; 32]);
    hasher.update(b"challenge");
    let mut buf = [0u8; 64];
    hasher.finalize_xof().fill(&mut buf);
    assert_eq!(c, Scalar::from_bytes_mod_order_wide(&buf).to_bytes());
}

#[test]
fn test_norm_proof_valid() {
    let prover = ZkNormProver::new();
    let weights = [0.1f32, 0.2, 0.3];
    let threshold = 1.0f32;
    let norm_sq: f32 = weights.iter().map(|w| w * w).sum();
    assert!(norm_sq <= threshold);
    let (proof, _) = prover.generate_proof_scaled((norm_sq * 1_000_000.0) as u64);
    assert!(prover.verify_proof(&proof));
}

#[test]
fn norm_proof_with_zero_response_is_rejected() {
    let prover = ZkNormProver::default();
    let proof = prover.norm_proof_with(0, [0u8; 32]);
    assert_eq!(proof.response, [0u8; 32]);
    assert!(!prover.verify_proof(&proof));
    let mut invalid = [0u8; 32];
    while CompressedEdwardsY(invalid).decompress().is_some() {
        invalid[0] += 1;
    }
    let bad = NormProof { commitment: invalid, response: [1u8; 32] };
    assert!(!prover.verify_proof(&bad));
}

#[test]
fn test_transition_proof_valid() {
    let prev_hash = [0xABu8; 32];
    let (gene, proof) = prove(&prev_hash, &[0.1, 0.2, 0.3, 0.4], &[0.01, -0.02, 0.015, -0.005]);
    assert_eq!(gene.len(), 16, "Gene should be 4 floats = 16 bytes");
    let verifier = ZkTransitionVerifier::new();
    assert!(verifier.verify_transition(&proof, &prev_hash), "Valid transition proof should verify");
}

#[test]
fn test_malicious_neuron_rejected() {
    let legitimate_hash = [0xABu8; 32];
    let (_, proof) = prove(&legitimate_hash, &[0.1, 0.2, 0.3, 0.4], &[0.01, -0.02, 0.015, -0.005]);
    let forged_hash = [0xCDu8; 32];
    let verifier = ZkTransitionVerifier::new();
    assert!(
        !verifier.verify_transition(&proof, &forged_hash),
        "Malicious neuron with forged prev_hash MUST be rejected"
    );
}

#[test]
fn test_transition_proof_deterministic_transcript() {
    let prev_hash = [0x42u8; 32];
    let r1 = prove(&prev_hash, &[1.0, 2.0, 3.0], &[0.1, 0.2, 0.3]);
    let r2 = prove(&prev_hash, &[1.0, 2.0, 3.0], &[0.1, 0.2, 0.3]);
    let verifier = ZkTransitionVerifier::default();
    assert!(verifier.verify_transition(&r1.1, &prev_hash));
    assert!(verifier.verify_transition(&r2.1, &prev_hash));
}

#[test]
fn transition_proof_with_fixed_randomness_is_deterministic() {
    let prev_hash = [7u8; 32];
    let wb = weight_bytes(&[0.5, -0.25]);
    let a = transition_proof_with(&prev_hash, &wb, 42, scalar_bytes(1), scalar_bytes(2), scalar_bytes(3), scalar_bytes(4));
    let b = transition_proof_with(&prev_hash, &wb, 42, scalar_bytes(1), scalar_bytes(2), scalar_bytes(3), scalar_bytes(4));
    assert_eq!(a.response, b.response);
    assert_eq!(a.announcement, b.announcement);
    // B = (r_new - r_prev) * G = 1 * G
    let mut g = [0x66u8; 32];
    g[0] = 0x58;
    assert_eq!(a.blinding_diff_commitment, g);
    assert!(ZkTransitionVerifier::new().verify_transition(&a, &prev_hash));
    let mut tampered = a.clone();
    tampered.response = scalar_bytes(5);
    assert!(!ZkTransitionVerifier::new().verify_transition(&tampered, &prev_hash));
}

#[test]
fn zero_interval_never_audits() {
    let auditor = StochasticAuditor::new(StochasticAuditConfig {
        audit_interval: 0,
        response_deadline: 5,
    });
    assert!(!auditor.should_audit(0));
    assert!(!auditor.should_audit(7));
}

#[test]
fn challenge_index_is_seed_prefix_modulo_nodes() {
    let mut seed = [0u8; 32];
    seed[0] = 7;
    seed[1] = 1;
    let c = challenge_from_seed(10, 5, seed, 3);
    assert_eq!(c.challenged_node_index, (263 % 5) as usize);
    assert_eq!(c.deadline_round, 13);
    assert_eq!(c.round, 10);
    assert_eq!(c.challenge_seed, seed);
}

#[test]
fn challenge_seed_is_blake3_of_round_data() {
    let mut auditor = StochasticAuditor::new(StochasticAuditConfig::default());
    let epoch = [0x11u8; 32];
    auditor.update_epoch_hash(&epoch);
    let c = auditor.generate_challenge(100, 7).unwrap();
    let mut input = b"QRES-StochasticAudit-v1".to_vec();
    input.extend_from_slice(&100u64.to_le_bytes());
    input.extend_from_slice(&epoch);
    assert_eq!(c.challenge_seed, *blake3::hash(&input).as_bytes());
    assert_eq!(c.deadline_round, 105);
    assert_eq!(auditor.pending(), Some(&c));
}
