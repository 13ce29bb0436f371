//! Collusion audits: every audit round, a few active peers are selected
//! deterministically from public round data and challenged with a nonce.
//! (Whether a round is audited also depends on the swarm's entropy, which
//! the callers weigh.)
use vstd::prelude::*;
use vstd::bytes::spec_u64_from_le_bytes;
use crate::dedup::{le_u64_bytes, push_u64_le};
use crate::zk_proofs::{blake3_digest, blake3_hash};

verus! {

/// Domain label of collusion-audit seeds (`QRES-CollusionAudit-v21`).
pub open spec fn collusion_label() -> Seq<u8> {
    seq![81u8, 82u8, 69u8, 83u8, 45u8, 67u8, 111u8, 108u8, 108u8, 117u8, 115u8, 105u8, 111u8, 110u8, 65u8, 117u8, 100u8, 105u8, 116u8, 45u8, 118u8, 50u8, 49u8]
}

/// Domain label of auditor identities (`QRES-AuditorID-v21`).
pub open spec fn auditor_label() -> Seq<u8> {
    seq![81u8, 82u8, 69u8, 83u8, 45u8, 65u8, 117u8, 100u8, 105u8, 116u8, 111u8, 114u8, 73u8, 68u8, 45u8, 118u8, 50u8, 49u8]
}

/// The seed of an audit round: the BLAKE3 digest of the label, the round
/// (little-endian) and the epoch hash.
pub open spec fn round_seed(round: u64, epoch_hash: Seq<u8>) -> Seq<u8> {
    blake3_digest(collusion_label() + le_u64_bytes(round) + epoch_hash)
}

/// The nonce of audit slot `slot`: the digest of the round seed and the
/// slot number (little-endian).
pub open spec fn slot_nonce(seed: Seq<u8>, slot: u64) -> Seq<u8> {
    blake3_digest(seed + le_u64_bytes(slot))
}

/// The peer index a nonce selects: its first eight bytes, little-endian,
/// modulo the number of active peers.
pub open spec fn selected_index(nonce: Seq<u8>, n_active: usize) -> int {
    (spec_u64_from_le_bytes(nonce.subrange(0, 8)) % (n_active as u64)) as int
}

/// Appends a 32-byte array.
fn push_array(v: &mut Vec<u8>, a: &[u8; 32])
    ensures
        final(v)@ == old(v)@ + a@,
{
    let ghost start = v@;
    let mut i: usize = 0;
    while i < 32
        invariant
            i <= 32,
            a@.len() == 32,
            v@ == start + a@.subrange(0, i as int),
        decreases 32 - i,
    {
        v.push(a[i]);
        proof {
            assert(a@.subrange(0, i + 1) =~= a@.subrange(0, i as int).push(a@[i as int]));
        }
        i = i + 1;
    }
    proof {
        assert(a@.subrange(0, 32) =~= a@);
    }
}

/// The seed of audit round `round` under `epoch_hash`.
pub fn audit_round_seed(round: u64, epoch_hash: &[u8; 32]) -> (s: [u8; 32])
    ensures
        s@ == round_seed(round, epoch_hash@),
{
    let mut input: Vec<u8> = vec![81u8, 82u8, 69u8, 83u8, 45u8, 67u8, 111u8, 108u8, 108u8, 117u8, 115u8, 105u8, 111u8, 110u8, 65u8, 117u8, 100u8, 105u8, 116u8, 45u8, 118u8, 50u8, 49u8];
    proof {
        assert(input@ =~= collusion_label());
    }
    push_u64_le(&mut input, round);
    push_array(&mut input, epoch_hash);
    blake3_hash(input.as_slice())
}

/// The canonical auditor identity of a round: the BLAKE3 digest of the
/// auditor label, the round (little-endian) and the epoch hash.
pub fn derive_auditor_id(round: u64, epoch_hash: &[u8; 32]) -> (id: [u8; 32])
    ensures
        id@ == blake3_digest(auditor_label() + le_u64_bytes(round) + epoch_hash@),
{
    let mut input: Vec<u8> = vec![81u8, 82u8, 69u8, 83u8, 45u8, 65u8, 117u8, 100u8, 105u8, 116u8, 111u8, 114u8, 73u8, 68u8, 45u8, 118u8, 50u8, 49u8];
    proof {
        assert(input@ =~= auditor_label());
    }
    push_u64_le(&mut input, round);
    push_array(&mut input, epoch_hash);
    blake3_hash(input.as_slice())
}

/// The audit slots of a round: `min(nodes_per_audit, n_active)` pairs of
/// selected peer index and nonce, slot by slot.
pub fn collusion_audit_slots(
    round: u64,
    epoch_hash: &[u8; 32],
    n_active: usize,
    nodes_per_audit: usize,
) -> (slots: Vec<(usize, [u8; 32])>)
    requires
        n_active > 0,
    ensures
        slots@.len() == if nodes_per_audit < n_active { nodes_per_audit } else { n_active },
        forall|s: int|
            #![trigger slots@[s]]
            0 <= s < slots@.len() ==> {
                let nonce = slot_nonce(round_seed(round, epoch_hash@), s as u64);
                &&& slots@[s].1@ == nonce
                &&& slots@[s].0 == selected_index(nonce, n_active)
            },
{
    let seed = audit_round_seed(round, epoch_hash);
    let count = if nodes_per_audit < n_active { nodes_per_audit } else { n_active };
    let mut slots: Vec<(usize, [u8; 32])> = Vec::new();
    let mut slot: usize = 0;
    while slot < count
        invariant
            n_active > 0,
            count <= n_active,
            slot <= count,
            seed@ == round_seed(round, epoch_hash@),
            slots@.len() == slot,
            forall|s: int|
                #![trigger slots@[s]]
                0 <= s < slot ==> {
                    let nonce = slot_nonce(round_seed(round, epoch_hash@), s as u64);
                    &&& slots@[s].1@ == nonce
                    &&& slots@[s].0 == selected_index(nonce, n_active)
                },
        decreases count - slot,
    {
        let mut input: Vec<u8> = Vec::new();
        push_array(&mut input, &seed);
        push_u64_le(&mut input, slot as u64);
        proof {
            assert(input@ =~= seed@ + le_u64_bytes(slot as u64));
        }
        let nonce = blake3_hash(input.as_slice());
        let first = &nonce[0..8];
        let selection = vstd::bytes::u64_from_le_bytes(first);
        let index = (selection % (n_active as u64)) as usize;
        slots.push((index, nonce));
        slot = slot + 1;
    }
    slots
}

/// Every selected index names an active peer.
pub proof fn lemma_selected_index_in_range(nonce: Seq<u8>, n_active: usize)
    requires
        n_active > 0,
    ensures
        0 <= selected_index(nonce, n_active) < n_active,
{
}

} // verus!
