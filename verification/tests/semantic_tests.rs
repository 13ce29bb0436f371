use qres_core::semantic::{
    bytes_to_hex, hex_nibble, hex_to_bytes, hex_to_bytes32, Modality, NodeDid, RdfTriple, Regime,
};

fn sample_peer_id() -> [u8; 32] {
    let mut id = [0u8; 32];
    for (i, b) in id.iter_mut().enumerate() {
        *b = (i as u8).wrapping_mul(7).wrapping_add(0x42);
    }
    id
}

#[test]
fn test_did_roundtrip() {
    let peer_id = sample_peer_id();
    let did = NodeDid::from_pubkey(&peer_id);
    assert!(did.id.starts_with("did:qres:"));
    assert_eq!(did.id.len(), 9 + 64);

    let parsed = NodeDid::parse(&did.id).unwrap();
    assert_eq!(parsed.pubkey, peer_id);
    assert_eq!(parsed.id, did.id);
}

#[test]
fn test_did_parse_invalid() {
    assert!(NodeDid::parse("did:eth:abc123").is_none());
    assert!(NodeDid::parse("did:qres:short").is_none());
    assert!(NodeDid::parse("").is_none());
}

#[test]
fn test_hex_roundtrip() {
    let data = [0xDE, 0xAD, 0xBE, 0xEF, 0x00, 0xFF];
    let hex = bytes_to_hex(&data);
    assert_eq!(hex, "deadbeef00ff");
    let recovered = hex_to_bytes(&hex).unwrap();
    assert_eq!(recovered, data);
}

#[test]
fn test_hex_invalid() {
    assert!(hex_to_bytes("0").is_none());
    assert!(hex_to_bytes("zz").is_none());
}

#[test]
fn hex_accepts_upper_case_and_checks_length() {
    assert_eq!(hex_to_bytes("ABcd"), Some(vec![0xAB, 0xCD]));
    assert_eq!(hex_to_bytes(""), Some(vec![]));
    let key = sample_peer_id();
    let hex = bytes_to_hex(&key);
    assert_eq!(hex_to_bytes32(&hex), Some(key));
    assert_eq!(hex_to_bytes32("abcd"), None);
    assert_eq!(hex_nibble(b'f'), Some(15));
    assert_eq!(hex_nibble(b'F'), Some(15));
    assert_eq!(hex_nibble(b'g'), None);
}

#[test]
fn did_text_is_prefix_and_lower_hex() {
    let key = [0xA5u8; 32];
    let did = NodeDid::from_pubkey(&key);
    assert_eq!(did.id, format!("did:qres:{}", "a5".repeat(32)));
    assert_eq!(did.pubkey, key);
    let upper = format!("did:qres:{}", "A5".repeat(32));
    assert_eq!(NodeDid::parse(&upper).unwrap().pubkey, key);
    let bad = format!("did:qres:{}", "g5".repeat(32));
    assert!(NodeDid::parse(&bad).is_none());
    let long = format!("did:qres:{}", "a5".repeat(33));
    assert!(NodeDid::parse(&long).is_none());
}

#[test]
fn names_of_regimes_and_modalities() {
    assert_eq!(Regime::Calm.as_str(), "Calm");
    assert_eq!(Regime::PreStorm.as_str(), "PreStorm");
    assert_eq!(Regime::Storm.as_str(), "Storm");
    assert_eq!(Modality::Temperature.as_str(), "temperature");
    assert_eq!(Modality::AirQuality.as_str(), "air-quality");
    assert_eq!(Modality::Vibration.as_str(), "vibration");
    assert_eq!(Modality::Power.as_str(), "power");
    assert_eq!(Modality::Custom(String::from("co2")).as_str(), "co2");
}

#[test]
fn rdf_triple_copies_its_parts() {
    let t = RdfTriple::new("did:qres:ab", "qres:exported", "gene:linear-48:48B");
    assert_eq!(t.subject, "did:qres:ab");
    assert_eq!(t.predicate, "qres:exported");
    assert_eq!(t.object, "gene:linear-48:48B");
}
