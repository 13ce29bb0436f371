use qres_core::secure_agg::SecureAggregator;
use rand_chacha::rand_core::{RngCore, SeedableRng};
use rand_chacha::ChaCha20Rng;
use x25519_dalek::{PublicKey, StaticSecret};

fn q16(v: i32) -> i32 {
    v * 65536
}

fn wrapping_column_sum(rows: &[Vec<i32>], k: usize) -> i32 {
    rows.iter().fold(0i32, |acc, r| acc.wrapping_add(r[k]))
}

fn clique(seeds: &[[u8; 32]]) -> Vec<SecureAggregator> {
    let mut aggs: Vec<SecureAggregator> = seeds.iter().map(|s| SecureAggregator::from_seed(*s)).collect();
    let keys: Vec<[u8; 32]> = aggs.iter().map(|a| a.get_public_key()).collect();
    for a in aggs.iter_mut() {
        for k in &keys {
            a.add_peer(*k);
        }
    }
    aggs
}

#[test]
fn test_fixed_masking_cancellation_3_peers() {
    let aggs = clique(&[[1u8; 32], [2u8; 32], [3u8; 32]]);
    let updates = vec![
        vec![q16(1), q16(2), q16(3)],
        vec![q16(4), q16(5), q16(6)],
        vec![q16(7), q16(8), q16(9)],
    ];
    let masked: Vec<Vec<i32>> = aggs.iter().zip(updates.iter()).map(|(a, u)| a.mask_update_fixed(u)).collect();
    for (m, u) in masked.iter().zip(updates.iter()) {
        assert_ne!(m, u);
        assert_eq!(m.len(), u.len());
    }
    let expected = [q16(12), q16(15), q16(18)];
    for k in 0..3 {
        assert_eq!(wrapping_column_sum(&masked, k), expected[k]);
    }
}

#[test]
fn test_fixed_masking_cancellation_5_peers_any_order() {
    let seeds = [[9u8; 32], [4u8; 32], [200u8; 32], [17u8; 32], [63u8; 32]];
    let mut aggs = clique(&seeds);
    // Re-add keys in reverse order on a fresh participant: order must not matter.
    let keys: Vec<[u8; 32]> = aggs.iter().map(|a| a.get_public_key()).collect();
    let mut reversed = SecureAggregator::from_seed(seeds[0]);
    for k in keys.iter().rev() {
        reversed.add_peer(*k);
    }
    aggs[0] = reversed;
    let updates: Vec<Vec<i32>> = (0..5).map(|i| vec![i * 1000 - 2000, i32::MAX - i, i32::MIN + i, 7]).collect();
    let masked: Vec<Vec<i32>> = aggs.iter().zip(updates.iter()).map(|(a, u)| a.mask_update_fixed(u)).collect();
    for k in 0..4 {
        assert_eq!(wrapping_column_sum(&masked, k), wrapping_column_sum(&updates, k));
    }
}

#[test]
fn test_fixed_partial_failure() {
    let mut p1 = SecureAggregator::from_seed([1u8; 32]);
    let mut p2 = SecureAggregator::from_seed([2u8; 32]);
    p1.add_peer(p2.get_public_key());
    p2.add_peer(p1.get_public_key());
    let u1 = [q16(10)];
    let m1 = p1.mask_update_fixed(&u1);
    // Without the other member's share the mask stays in place.
    assert_ne!(m1[0], u1[0]);
}

#[test]
fn test_public_key_is_x25519_of_seed() {
    let seed = [42u8; 32];
    let agg = SecureAggregator::from_seed(seed);
    let expected = PublicKey::from(&StaticSecret::from(seed)).to_bytes();
    assert_eq!(agg.get_public_key(), expected);
}

#[test]
fn test_own_key_and_duplicates_are_ignored() {
    let mut agg = SecureAggregator::from_seed([5u8; 32]);
    let own = agg.get_public_key();
    agg.add_peer(own);
    let update = vec![1, -2, 3];
    assert_eq!(agg.mask_update_fixed(&update), update);

    let other = SecureAggregator::from_seed([6u8; 32]).get_public_key();
    let mut once = SecureAggregator::from_seed([5u8; 32]);
    once.add_peer(other);
    agg.add_peer(other);
    agg.add_peer(other);
    assert_eq!(agg.mask_update_fixed(&update), once.mask_update_fixed(&update));
}

#[test]
fn test_mask_words_follow_chacha20_keystream() {
    let seed_a = [11u8; 32];
    let seed_b = [12u8; 32];
    let mut a = SecureAggregator::from_seed(seed_a);
    let b = SecureAggregator::from_seed(seed_b);
    a.add_peer(b.get_public_key());
    let update = vec![0i32, 100, -100, 65536, 3, 4, 5];
    let masked = a.mask_update_fixed(&update);

    let shared = StaticSecret::from(seed_a).diffie_hellman(&PublicKey::from(b.get_public_key()));
    let mut rng = ChaCha20Rng::from_seed(*shared.as_bytes());
    let add = a.get_public_key() < b.get_public_key();
    for (m, u) in masked.iter().zip(update.iter()) {
        let w = rng.next_u32() as i32;
        let expected = if add { u.wrapping_add(w) } else { u.wrapping_sub(w) };
        assert_eq!(*m, expected);
    }
}

#[test]
fn test_random_participants_have_distinct_keys() {
    let a = SecureAggregator::new();
    let b = SecureAggregator::default();
    assert_ne!(a.get_public_key(), b.get_public_key());
    let expected_len = 4;
    let masked = a.mask_update_fixed(&[1, 2, 3, 4]);
    assert_eq!(masked, vec![1, 2, 3, 4]);
    assert_eq!(masked.len(), expected_len);
}

#[test]
fn pair_mask_words_explain_fixed_masking() {
    let mut a = SecureAggregator::from_seed([21u8; 32]);
    let b = SecureAggregator::from_seed([22u8; 32]);
    let c = SecureAggregator::from_seed([23u8; 32]);
    a.add_peer(b.get_public_key());
    a.add_peer(c.get_public_key());
    let update = vec![5i32, -6, 7];
    let masked = a.mask_update_fixed(&update);
    let pairs = a.pair_mask_words(update.len());
    assert_eq!(pairs.len(), 2);
    assert_eq!(pairs[0].0, a.get_public_key() < b.get_public_key());
    assert_eq!(pairs[1].0, a.get_public_key() < c.get_public_key());
    for k in 0..update.len() {
        let mut v = update[k];
        for (add, words) in &pairs {
            assert_eq!(words.len(), update.len());
            v = if *add { v.wrapping_add(words[k] as i32) } else { v.wrapping_sub(words[k] as i32) };
        }
        assert_eq!(masked[k], v);
    }
}
