//! Stochastic compliance audits: every `audit_interval` rounds one active
//! node, selected deterministically from public round data, must answer a
//! challenge before a deadline.
use vstd::prelude::*;
use vstd::bytes::spec_u64_from_le_bytes;
use crate::dedup::{le_u64_bytes, push_u64_le};
use crate::zk_proofs::curve::{
    basepoint_bytes, blake3_xof64, blake3_xof_64, ed_add, ed_basepoint, ed_canonical, ed_decompresses, ed_mul,
    point_add, point_decompresses, point_mul, random_scalar, scalar_add, scalar_add_bytes, scalar_from_u64,
    scalar_from_wide, scalar_from_wide_bytes, scalar_mul, scalar_mul_bytes, scalar_of_u64, scalar_sub,
    scalar_sub_bytes,
};

pub mod curve;

verus! {

/// BLAKE3's 32-byte digest of a byte string.
pub uninterp spec fn blake3_digest(input: Seq<u8>) -> Seq<u8>;

/// Calls `blake3::hash`: the result is the BLAKE3 digest of `input`.
#[verifier::external_body]
pub(crate) fn blake3_hash(input: &[u8]) -> (d: [u8; 32])
    ensures
        d@ == blake3_digest(input@),
{
    *blake3::hash(input).as_bytes()
}

/// The bytes of `QRES-ZK-Transcript-v1`.
pub open spec fn transcript_domain() -> Seq<u8> {
    seq![81u8, 82u8, 69u8, 83u8, 45u8, 90u8, 75u8, 45u8, 84u8, 114u8, 97u8, 110u8, 115u8, 99u8, 114u8, 105u8, 112u8, 116u8, 45u8, 118u8, 49u8]
}

fn transcript_domain_bytes() -> (v: Vec<u8>)
    ensures
        v@ == transcript_domain(),
{
    let v: Vec<u8> = vec![81u8, 82u8, 69u8, 83u8, 45u8, 90u8, 75u8, 45u8, 84u8, 114u8, 97u8, 110u8, 115u8, 99u8, 114u8, 105u8, 112u8, 116u8, 45u8, 118u8, 49u8];
    assert(v@ =~= transcript_domain());
    v
}

/// The bytes of `TransitionProof`.
pub open spec fn label_transition() -> Seq<u8> {
    seq![84u8, 114u8, 97u8, 110u8, 115u8, 105u8, 116u8, 105u8, 111u8, 110u8, 80u8, 114u8, 111u8, 111u8, 102u8]
}

fn label_transition_bytes() -> (v: Vec<u8>)
    ensures
        v@ == label_transition(),
{
    let v: Vec<u8> = vec![84u8, 114u8, 97u8, 110u8, 115u8, 105u8, 116u8, 105u8, 111u8, 110u8, 80u8, 114u8, 111u8, 111u8, 102u8];
    assert(v@ =~= label_transition());
    v
}

/// The bytes of `prev_hash`.
pub open spec fn label_prev_hash() -> Seq<u8> {
    seq![112u8, 114u8, 101u8, 118u8, 95u8, 104u8, 97u8, 115u8, 104u8]
}

fn label_prev_hash_bytes() -> (v: Vec<u8>)
    ensures
        v@ == label_prev_hash(),
{
    let v: Vec<u8> = vec![112u8, 114u8, 101u8, 118u8, 95u8, 104u8, 97u8, 115u8, 104u8];
    assert(v@ =~= label_prev_hash());
    v
}

/// The bytes of `C_prev`.
pub open spec fn label_c_prev() -> Seq<u8> {
    seq![67u8, 95u8, 112u8, 114u8, 101u8, 118u8]
}

fn label_c_prev_bytes() -> (v: Vec<u8>)
    ensures
        v@ == label_c_prev(),
{
    let v: Vec<u8> = vec![67u8, 95u8, 112u8, 114u8, 101u8, 118u8];
    assert(v@ =~= label_c_prev());
    v
}

/// The bytes of `C_new`.
pub open spec fn label_c_new() -> Seq<u8> {
    seq![67u8, 95u8, 110u8, 101u8, 119u8]
}

fn label_c_new_bytes() -> (v: Vec<u8>)
    ensures
        v@ == label_c_new(),
{
    let v: Vec<u8> = vec![67u8, 95u8, 110u8, 101u8, 119u8];
    assert(v@ =~= label_c_new());
    v
}

/// The bytes of `B`.
pub open spec fn label_b() -> Seq<u8> {
    seq![66u8]
}

fn label_b_bytes() -> (v: Vec<u8>)
    ensures
        v@ == label_b(),
{
    let v: Vec<u8> = vec![66u8];
    assert(v@ =~= label_b());
    v
}

/// The bytes of `R`.
pub open spec fn label_r() -> Seq<u8> {
    seq![82u8]
}

fn label_r_bytes() -> (v: Vec<u8>)
    ensures
        v@ == label_r(),
{
    let v: Vec<u8> = vec![82u8];
    assert(v@ =~= label_r());
    v
}

/// The bytes of `residual`.
pub open spec fn label_residual() -> Seq<u8> {
    seq![114u8, 101u8, 115u8, 105u8, 100u8, 117u8, 97u8, 108u8]
}

fn label_residual_bytes() -> (v: Vec<u8>)
    ensures
        v@ == label_residual(),
{
    let v: Vec<u8> = vec![114u8, 101u8, 115u8, 105u8, 100u8, 117u8, 97u8, 108u8];
    assert(v@ =~= label_residual());
    v
}

/// The bytes of `c`.
pub open spec fn label_c() -> Seq<u8> {
    seq![99u8]
}

fn label_c_bytes() -> (v: Vec<u8>)
    ensures
        v@ == label_c(),
{
    let v: Vec<u8> = vec![99u8];
    assert(v@ =~= label_c());
    v
}

/// The bytes of `NormProof`.
pub open spec fn label_norm() -> Seq<u8> {
    seq![78u8, 111u8, 114u8, 109u8, 80u8, 114u8, 111u8, 111u8, 102u8]
}

fn label_norm_bytes() -> (v: Vec<u8>)
    ensures
        v@ == label_norm(),
{
    let v: Vec<u8> = vec![78u8, 111u8, 114u8, 109u8, 80u8, 114u8, 111u8, 111u8, 102u8];
    assert(v@ =~= label_norm());
    v
}

/// The bytes of `C`.
pub open spec fn label_commitment() -> Seq<u8> {
    seq![67u8]
}

fn label_commitment_bytes() -> (v: Vec<u8>)
    ensures
        v@ == label_commitment(),
{
    let v: Vec<u8> = vec![67u8];
    assert(v@ =~= label_commitment());
    v
}

/// Appends `s` to `v`.
fn extend_bytes(v: &mut Vec<u8>, s: &[u8])
    ensures
        final(v)@ == old(v)@ + s@,
{
    let ghost start = v@;
    let mut i: usize = 0;
    while i < s.len()
        invariant
            i <= s@.len(),
            v@ == start + s@.subrange(0, i as int),
        decreases s@.len() - i,
    {
        v.push(s[i]);
        proof {
            assert(s@.subrange(0, i + 1) =~= s@.subrange(0, i as int).push(s@[i as int]));
        }
        i = i + 1;
    }
    proof {
        assert(s@.subrange(0, s@.len() as int) =~= s@);
    }
}

/// Fiat-Shamir transcript over BLAKE3: the bytes absorbed so far are the
/// domain label, the transcript's label, and each appended label followed
/// by its message; a challenge absorbs its label and reduces the first 64
/// bytes of BLAKE3's extendable output of everything absorbed.
pub struct SimpleTranscript {
    absorbed: Vec<u8>,
}

impl View for SimpleTranscript {
    type V = Seq<u8>;

    closed spec fn view(&self) -> Seq<u8> {
        self.absorbed@
    }
}

impl SimpleTranscript {
    /// A transcript that has absorbed the domain label and `label`.
    pub fn new(label: &[u8]) -> (t: Self)
        ensures
            t@ == transcript_domain() + label@,
    {
        let mut absorbed = transcript_domain_bytes();
        extend_bytes(&mut absorbed, label);
        SimpleTranscript { absorbed }
    }

    /// Absorbs `label` then `message`.
    pub fn append_message(&mut self, label: &[u8], message: &[u8])
        ensures
            final(self)@ == old(self)@ + label@ + message@,
    {
        extend_bytes(&mut self.absorbed, label);
        extend_bytes(&mut self.absorbed, message);
    }

    /// Absorbs `label` then a point's compressed bytes.
    pub fn append_point(&mut self, label: &[u8], point: &[u8; 32])
        ensures
            final(self)@ == old(self)@ + label@ + point@,
    {
        self.append_message(label, point.as_slice());
    }

    /// Absorbs `label` then a scalar's bytes.
    pub fn append_scalar(&mut self, label: &[u8], scalar: &[u8; 32])
        ensures
            final(self)@ == old(self)@ + label@ + scalar@,
    {
        self.append_message(label, scalar.as_slice());
    }

    /// Absorbs `label` and derives the challenge scalar from everything
    /// absorbed.
    pub fn challenge_scalar(&mut self, label: &[u8]) -> (c: [u8; 32])
        ensures
            final(self)@ == old(self)@ + label@,
            c@ == scalar_from_wide(blake3_xof64(final(self)@)),
    {
        extend_bytes(&mut self.absorbed, label);
        let wide = blake3_xof_64(self.absorbed.as_slice());
        scalar_from_wide_bytes(wide)
    }
}

/// The Pedersen commitment `value * H + blinding * G`.
pub open spec fn commitment(g: Seq<u8>, h: Seq<u8>, value: Seq<u8>, blinding: Seq<u8>) -> Seq<u8> {
    ed_add(ed_mul(value, h), ed_mul(blinding, g))
}

/// Pedersen generators: `G` the Edwards25519 base point and `H = G + G`.
pub struct PedersenGens {
    g: [u8; 32],
    h: [u8; 32],
}

impl PedersenGens {
    #[verifier::type_invariant]
    spec fn inv(&self) -> bool {
        &&& self.g@ == ed_basepoint()
        &&& self.h@ == ed_add(ed_basepoint(), ed_basepoint())
        &&& ed_decompresses(self.g@)
        &&& ed_decompresses(self.h@)
    }

    /// The blinding generator, compressed.
    pub closed spec fn spec_g(&self) -> Seq<u8> {
        self.g@
    }

    /// The value generator, compressed.
    pub closed spec fn spec_h(&self) -> Seq<u8> {
        self.h@
    }

    /// The blinding generator `G`, compressed.
    pub fn g(&self) -> (g: [u8; 32])
        ensures
            g@ == ed_basepoint(),
            ed_decompresses(g@),
    {
        proof {
            use_type_invariant(self);
        }
        self.g
    }

    /// The value generator `H = G + G`, compressed.
    pub fn h(&self) -> (h: [u8; 32])
        ensures
            h@ == ed_add(ed_basepoint(), ed_basepoint()),
            ed_decompresses(h@),
    {
        proof {
            use_type_invariant(self);
        }
        self.h
    }

    /// The commitment `value * H + blinding * G`, compressed.
    pub fn commit(&self, value: [u8; 32], blinding: [u8; 32]) -> (c: [u8; 32])
        ensures
            c@ == commitment(ed_basepoint(), ed_add(ed_basepoint(), ed_basepoint()), value@, blinding@),
            ed_decompresses(c@),
    {
        proof {
            use_type_invariant(self);
        }
        let vh = point_mul(value, self.h);
        let rg = point_mul(blinding, self.g);
        point_add(vh, rg)
    }
}

impl Default for PedersenGens {
    fn default() -> (gens: Self)
        ensures
            gens.spec_g() == ed_basepoint(),
            gens.spec_h() == ed_add(ed_basepoint(), ed_basepoint()),
    {
        let g = basepoint_bytes();
        let h = point_add(g, g);
        PedersenGens { g, h }
    }
}

/// Proof of a bounded L2 norm: a commitment and a Schnorr-style response.
#[derive(Clone, Debug)]
pub struct NormProof {
    /// Commitment to the scaled squared norm, compressed.
    pub commitment: [u8; 32],
    /// Response scalar.
    pub response: [u8; 32],
}

/// Non-interactive proof that a weight transition follows from the
/// previous weights.
#[derive(Clone, Debug)]
pub struct ZkTransitionProof {
    /// Commitment to the previous weight hash.
    pub commitment_prev: [u8; 32],
    /// Commitment to the new weights.
    pub commitment_new: [u8; 32],
    /// `(r_new - r_prev) * G`.
    pub blinding_diff_commitment: [u8; 32],
    /// Schnorr announcement `k * G`.
    pub announcement: [u8; 32],
    /// Schnorr response `k + c * (r_new - r_prev)`.
    pub response: [u8; 32],
    /// Commitment to the scaled squared residual norm.
    pub residual_commitment: [u8; 32],
}

/// The transcript bytes of a transition proof.
pub open spec fn transition_transcript(
    prev_hash: Seq<u8>,
    c_prev: Seq<u8>,
    c_new: Seq<u8>,
    b: Seq<u8>,
    r: Seq<u8>,
    residual: Seq<u8>,
) -> Seq<u8> {
    transcript_domain() + label_transition() + label_prev_hash() + prev_hash + label_c_prev() + c_prev
        + label_c_new() + c_new + label_b() + b + label_r() + r + label_residual() + residual
        + label_c()
}

/// The Fiat-Shamir challenge of a transition proof.
pub open spec fn transition_challenge(
    prev_hash: Seq<u8>,
    c_prev: Seq<u8>,
    c_new: Seq<u8>,
    b: Seq<u8>,
    r: Seq<u8>,
    residual: Seq<u8>,
) -> Seq<u8> {
    scalar_from_wide(blake3_xof64(transition_transcript(prev_hash, c_prev, c_new, b, r, residual)))
}

/// Calls `CompressedEdwardsY::decompress` and compresses the point again:
/// its canonical encoding, which decompresses.
#[verifier::external_body]
fn point_recompress(p: [u8; 32]) -> (r: [u8; 32])
    requires
        ed_decompresses(p@),
    ensures
        r@ == ed_canonical(p@),
{
    curve25519_dalek::edwards::CompressedEdwardsY(p).decompress().unwrap().compress().to_bytes()
}

/// A transition proof is accepted for `prev_hash`: all five points decode,
/// and `response * G == announcement + c * B` for the challenge `c` of the
/// transcript over the previous hash and the (re-encoded) points.
pub open spec fn transition_accepted(p: ZkTransitionProof, prev_hash: Seq<u8>) -> bool {
    &&& ed_decompresses(p.commitment_prev@)
    &&& ed_decompresses(p.commitment_new@)
    &&& ed_decompresses(p.blinding_diff_commitment@)
    &&& ed_decompresses(p.announcement@)
    &&& ed_decompresses(p.residual_commitment@)
    &&& ed_mul(p.response@, ed_basepoint()) == ed_add(
        p.announcement@,
        ed_mul(
            transition_challenge(
                prev_hash,
                ed_canonical(p.commitment_prev@),
                ed_canonical(p.commitment_new@),
                ed_canonical(p.blinding_diff_commitment@),
                ed_canonical(p.announcement@),
                ed_canonical(p.residual_commitment@),
            ),
            p.blinding_diff_commitment@,
        ),
    )
}

/// Completeness of transition proofs: whatever blindings and nonce the
/// prover draws, the verifier accepts its proof, given two facts of the
/// curve group: scalar multiplication of the base point is linear
/// (`(a + c·b)·G = a·G + c·(b·G)`), and the points the prover sends are
/// canonical encodings of curve points.
pub proof fn lemma_transition_proof_complete(
    p: ZkTransitionProof,
    prev_hash: Seq<u8>,
    weight_bytes: Seq<u8>,
    residual_scaled: u64,
    r_prev: Seq<u8>,
    r_new: Seq<u8>,
    r_residual: Seq<u8>,
    k: Seq<u8>,
)
    requires
        transition_proof_view(p) == transition_proof_spec(
            prev_hash,
            weight_bytes,
            residual_scaled,
            r_prev,
            r_new,
            r_residual,
            k,
        ),
        forall|a: Seq<u8>, b: Seq<u8>, c: Seq<u8>|
            #[trigger] ed_mul(scalar_add(a, scalar_mul(c, b)), ed_basepoint()) == ed_add(
                ed_mul(a, ed_basepoint()),
                ed_mul(c, ed_mul(b, ed_basepoint())),
            ),
        forall|q: Seq<u8>|
            q == p.commitment_prev@ || q == p.commitment_new@ || q == p.blinding_diff_commitment@ || q
                == p.announcement@ || q == p.residual_commitment@ ==> ed_decompresses(q) && #[trigger] ed_canonical(q)
                == q,
    ensures
        transition_accepted(p, prev_hash),
{
    let g = ed_basepoint();
    let d = scalar_sub(r_new, r_prev);
    let c = transition_challenge(
        prev_hash,
        p.commitment_prev@,
        p.commitment_new@,
        p.blinding_diff_commitment@,
        p.announcement@,
        p.residual_commitment@,
    );
    assert(ed_canonical(p.commitment_prev@) == p.commitment_prev@);
    assert(ed_canonical(p.commitment_new@) == p.commitment_new@);
    assert(ed_canonical(p.blinding_diff_commitment@) == p.blinding_diff_commitment@);
    assert(ed_canonical(p.announcement@) == p.announcement@);
    assert(ed_canonical(p.residual_commitment@) == p.residual_commitment@);
    assert(ed_mul(scalar_add(k, scalar_mul(c, d)), g) == ed_add(ed_mul(k, g), ed_mul(c, ed_mul(d, g))));
}

/// Byte-wise equality of two 32-byte strings.
fn bytes32_eq(a: &[u8; 32], b: &[u8; 32]) -> (r: bool)
    ensures
        r == (a@ == b@),
{
    let mut i: usize = 0;
    while i < 32
        invariant
            0 <= i <= 32,
            a@.len() == 32,
            b@.len() == 32,
            forall|j: int| 0 <= j < i ==> a@[j] == b@[j],
        decreases 32 - i,
    {
        if a[i] != b[i] {
            return false;
        }
        i = i + 1;
    }
    assert(a@ =~= b@);
    true
}

/// Verifier of transition proofs.
pub struct ZkTransitionVerifier {
    gens: PedersenGens,
}

impl ZkTransitionVerifier {
    /// The verifier's Pedersen generators.
    pub closed spec fn spec_gens(&self) -> PedersenGens {
        self.gens
    }

    /// A verifier with the standard generators.
    pub fn new() -> (v: Self)
        ensures
            v.spec_gens().spec_g() == ed_basepoint(),
            v.spec_gens().spec_h() == ed_add(ed_basepoint(), ed_basepoint()),
    {
        ZkTransitionVerifier { gens: PedersenGens::default() }
    }

    /// Whether `proof` is accepted for the previous weight hash.
    pub fn verify_transition(&self, proof: &ZkTransitionProof, prev_weight_hash: &[u8; 32]) -> (ok: bool)
        ensures
            ok == transition_accepted(*proof, prev_weight_hash@),
    {
        if !point_decompresses(proof.commitment_prev) || !point_decompresses(proof.commitment_new)
            || !point_decompresses(proof.blinding_diff_commitment) || !point_decompresses(
            proof.announcement,
        ) || !point_decompresses(proof.residual_commitment) {
            return false;
        }
        let c_prev = point_recompress(proof.commitment_prev);
        let c_new = point_recompress(proof.commitment_new);
        let b = point_recompress(proof.blinding_diff_commitment);
        let r = point_recompress(proof.announcement);
        let res = point_recompress(proof.residual_commitment);
        let mut t = SimpleTranscript::new(label_transition_bytes().as_slice());
        t.append_message(label_prev_hash_bytes().as_slice(), prev_weight_hash.as_slice());
        t.append_point(label_c_prev_bytes().as_slice(), &c_prev);
        t.append_point(label_c_new_bytes().as_slice(), &c_new);
        t.append_point(label_b_bytes().as_slice(), &b);
        t.append_point(label_r_bytes().as_slice(), &r);
        t.append_point(label_residual_bytes().as_slice(), &res);
        let challenge = t.challenge_scalar(label_c_bytes().as_slice());
        proof {
            assert(t@ =~= transition_transcript(prev_weight_hash@, c_prev@, c_new@, b@, r@, res@));
        }
        let g = self.gens.g();
        let lhs = point_mul(proof.response, g);
        let cb = point_mul(challenge, proof.blinding_diff_commitment);
        let rhs = point_add(proof.announcement, cb);
        bytes32_eq(&lhs, &rhs)
    }
}

impl Default for ZkTransitionVerifier {
    fn default() -> (v: Self) {
        Self::new()
    }
}

/// 32 zero bytes appended to `b`: the 64-byte input of a wide reduction.
pub open spec fn widen(b: Seq<u8>) -> Seq<u8> {
    b + Seq::new(32, |i: int| 0u8)
}

/// The proof (commitments, blinding difference, announcement, response,
/// residual commitment) built from the previous weight hash, the new
/// weights' bytes, the scaled residual norm, the blindings `r_prev`,
/// `r_new`, `r_residual` and the nonce `k`.
pub open spec fn transition_proof_spec(
    prev_hash: Seq<u8>,
    weight_bytes: Seq<u8>,
    residual_scaled: u64,
    r_prev: Seq<u8>,
    r_new: Seq<u8>,
    r_residual: Seq<u8>,
    k: Seq<u8>,
) -> (Seq<u8>, Seq<u8>, Seq<u8>, Seq<u8>, Seq<u8>, Seq<u8>) {
    let g = ed_basepoint();
    let h = ed_add(g, g);
    let c_prev = commitment(g, h, scalar_from_wide(widen(prev_hash)), r_prev);
    let c_new = commitment(g, h, scalar_from_wide(widen(blake3_digest(weight_bytes))), r_new);
    let c_res = commitment(g, h, scalar_of_u64(residual_scaled), r_residual);
    let d = scalar_sub(r_new, r_prev);
    let b = ed_mul(d, g);
    let r = ed_mul(k, g);
    let c = transition_challenge(prev_hash, c_prev, c_new, b, r, c_res);
    (c_prev, c_new, b, r, scalar_add(k, scalar_mul(c, d)), c_res)
}

/// The fields of a transition proof, in declaration order but with the
/// response fifth.
pub open spec fn transition_proof_view(p: ZkTransitionProof) -> (Seq<u8>, Seq<u8>, Seq<u8>, Seq<u8>, Seq<u8>, Seq<u8>) {
    (p.commitment_prev@, p.commitment_new@, p.blinding_diff_commitment@, p.announcement@, p.response@, p.residual_commitment@)
}

/// `b` followed by 32 zero bytes.
fn widen_bytes(b: &[u8; 32]) -> (w: [u8; 64])
    ensures
        w@ == widen(b@),
{
    let mut w = [0u8; 64];
    let mut i: usize = 0;
    while i < 32
        invariant
            i <= 32,
            w@.len() == 64,
            forall|j: int| 0 <= j < i ==> w@[j] == b@[j],
            forall|j: int| 32 <= j < 64 ==> w@[j] == 0u8,
        decreases 32 - i,
    {
        w[i] = b[i];
        i = i + 1;
    }
    assert(w@ =~= widen(b@));
    w
}

/// The transition proof for the given blindings and nonce.
pub fn transition_proof_with(
    prev_weight_hash: &[u8; 32],
    weight_bytes: &[u8],
    residual_scaled: u64,
    r_prev: [u8; 32],
    r_new: [u8; 32],
    r_residual: [u8; 32],
    k: [u8; 32],
) -> (p: ZkTransitionProof)
    ensures
        transition_proof_view(p) == transition_proof_spec(
            prev_weight_hash@,
            weight_bytes@,
            residual_scaled,
            r_prev@,
            r_new@,
            r_residual@,
            k@,
        ),
{
    let gens = PedersenGens::default();
    let g = gens.g();
    let prev_scalar = scalar_from_wide_bytes(widen_bytes(prev_weight_hash));
    let weight_hash = blake3_hash(weight_bytes);
    let new_scalar = scalar_from_wide_bytes(widen_bytes(&weight_hash));
    let residual_scalar = scalar_from_u64(residual_scaled);
    let c_prev = gens.commit(prev_scalar, r_prev);
    let c_new = gens.commit(new_scalar, r_new);
    let c_residual = gens.commit(residual_scalar, r_residual);
    let blinding_diff = scalar_sub_bytes(r_new, r_prev);
    let b = point_mul(blinding_diff, g);
    let announcement = point_mul(k, g);
    let mut t = SimpleTranscript::new(label_transition_bytes().as_slice());
    t.append_message(label_prev_hash_bytes().as_slice(), prev_weight_hash.as_slice());
    t.append_point(label_c_prev_bytes().as_slice(), &c_prev);
    t.append_point(label_c_new_bytes().as_slice(), &c_new);
    t.append_point(label_b_bytes().as_slice(), &b);
    t.append_point(label_r_bytes().as_slice(), &announcement);
    t.append_point(label_residual_bytes().as_slice(), &c_residual);
    let challenge = t.challenge_scalar(label_c_bytes().as_slice());
    proof {
        assert(t@ =~= transition_transcript(prev_weight_hash@, c_prev@, c_new@, b@, announcement@, c_residual@));
    }
    let response = scalar_add_bytes(k, scalar_mul_bytes(challenge, blinding_diff));
    ZkTransitionProof {
        commitment_prev: c_prev,
        commitment_new: c_new,
        blinding_diff_commitment: b,
        announcement,
        response,
        residual_commitment: c_residual,
    }
}

/// Proves the transition from `prev_weight_hash` to the weights whose
/// little-endian bytes are `weight_bytes`, with the scaled squared residual
/// norm `residual_scaled`, under fresh random blindings and nonce. Returns
/// the gene (the weight bytes) and the proof.
pub fn generate_transition_proof(
    prev_weight_hash: &[u8; 32],
    weight_bytes: &[u8],
    residual_scaled: u64,
) -> (r: Option<(Vec<u8>, ZkTransitionProof)>)
    ensures
        r matches Some((gene, p)) && gene@ == weight_bytes@ && exists|
            rp: Seq<u8>,
            rn: Seq<u8>,
            rr: Seq<u8>,
            k: Seq<u8>,
        |
            transition_proof_view(p) == transition_proof_spec(
                prev_weight_hash@,
                weight_bytes@,
                residual_scaled,
                rp,
                rn,
                rr,
                k,
            ),
{
    let r_prev = random_scalar();
    let r_new = random_scalar();
    let r_residual = random_scalar();
    let k = random_scalar();
    let p = transition_proof_with(prev_weight_hash, weight_bytes, residual_scaled, r_prev, r_new, r_residual, k);
    let mut gene: Vec<u8> = Vec::new();
    extend_bytes(&mut gene, weight_bytes);
    assert(gene@ =~= weight_bytes@);
    Some((gene, p))
}

/// The scalar whose bytes are all zero.
pub open spec fn scalar_zero() -> Seq<u8> {
    Seq::new(32, |i: int| 0u8)
}

/// The transcript bytes of a norm proof with commitment `c`.
pub open spec fn norm_transcript(c: Seq<u8>) -> Seq<u8> {
    transcript_domain() + label_norm() + label_commitment() + c + label_c()
}

/// Prover and verifier of bounded-norm proofs.
pub struct ZkNormProver {
    gens: PedersenGens,
}

impl ZkNormProver {
    /// The prover's Pedersen generators.
    pub closed spec fn spec_gens(&self) -> PedersenGens {
        self.gens
    }

    /// A prover with the standard generators.
    pub fn new() -> (p: Self)
        ensures
            p.spec_gens().spec_g() == ed_basepoint(),
            p.spec_gens().spec_h() == ed_add(ed_basepoint(), ed_basepoint()),
    {
        ZkNormProver { gens: PedersenGens::default() }
    }

    /// The norm proof of the scaled squared norm `norm_scaled` under the
    /// blinding `blinding`: the commitment `norm * H + blinding * G` and
    /// the response `blinding + c * norm` for the transcript challenge `c`.
    pub fn norm_proof_with(&self, norm_scaled: u64, blinding: [u8; 32]) -> (p: NormProof)
        ensures
            ({
                let g = ed_basepoint();
                let c = commitment(g, ed_add(g, g), scalar_of_u64(norm_scaled), blinding@);
                &&& p.commitment@ == c
                &&& p.response@ == scalar_add(
                    blinding@,
                    scalar_mul(scalar_from_wide(blake3_xof64(norm_transcript(c))), scalar_of_u64(norm_scaled)),
                )
            }),
    {
        let value = scalar_from_u64(norm_scaled);
        let commitment = self.gens.commit(value, blinding);
        let mut t = SimpleTranscript::new(label_norm_bytes().as_slice());
        t.append_point(label_commitment_bytes().as_slice(), &commitment);
        let challenge = t.challenge_scalar(label_c_bytes().as_slice());
        proof {
            assert(t@ =~= norm_transcript(commitment@));
        }
        let response = scalar_add_bytes(blinding, scalar_mul_bytes(challenge, value));
        NormProof { commitment, response }
    }

    /// A norm proof of `norm_scaled` under a fresh random blinding, with the
    /// blinding.
    pub fn generate_proof_scaled(&self, norm_scaled: u64) -> (r: (NormProof, [u8; 32]))
        ensures
            ({
                let g = ed_basepoint();
                let c = commitment(g, ed_add(g, g), scalar_of_u64(norm_scaled), r.1@);
                &&& r.0.commitment@ == c
                &&& r.0.response@ == scalar_add(
                    r.1@,
                    scalar_mul(scalar_from_wide(blake3_xof64(norm_transcript(c))), scalar_of_u64(norm_scaled)),
                )
            }),
    {
        let blinding = random_scalar();
        (self.norm_proof_with(norm_scaled, blinding), blinding)
    }

    /// Structural check of a norm proof: the commitment decodes and the
    /// response is not zero.
    pub fn verify_proof(&self, proof: &NormProof) -> (ok: bool)
        ensures
            ok == (ed_decompresses(proof.commitment@) && proof.response@ != scalar_zero()),
    {
        if !point_decompresses(proof.commitment) {
            return false;
        }
        let zero = [0u8; 32];
        proof {
            assert(zero@ =~= scalar_zero());
        }
        !bytes32_eq(&proof.response, &zero)
    }
}

impl Default for ZkNormProver {
    fn default() -> (p: Self) {
        Self::new()
    }
}

/// Domain-separation label of audit challenges (`QRES-StochasticAudit-v1`).
pub open spec fn audit_label() -> Seq<u8> {
    seq![
        81u8, 82u8, 69u8, 83u8, 45u8, 83u8, 116u8, 111u8, 99u8, 104u8, 97u8, 115u8, 116u8, 105u8,
        99u8, 65u8, 117u8, 100u8, 105u8, 116u8, 45u8, 118u8, 49u8,
    ]
}

/// The bytes hashed to seed the challenge of `round`.
pub open spec fn challenge_input(round: u64, epoch_hash: Seq<u8>) -> Seq<u8> {
    audit_label() + le_u64_bytes(round) + epoch_hash
}

/// Audit schedule.
#[derive(Clone, Debug)]
pub struct StochasticAuditConfig {
    /// Rounds between audits.
    pub audit_interval: u64,
    /// Rounds a challenged node has to respond.
    pub response_deadline: u64,
}

impl Default for StochasticAuditConfig {
    fn default() -> (c: Self)
        ensures
            c.audit_interval == 50,
            c.response_deadline == 5,
    {
        StochasticAuditConfig { audit_interval: 50, response_deadline: 5 }
    }
}

/// A challenge issued to one node for one round.
#[derive(Clone, Debug, PartialEq)]
pub struct AuditChallenge {
    /// Round of issue.
    pub round: u64,
    /// Index of the challenged node among the active peers.
    pub challenged_node_index: usize,
    /// Deterministic seed binding the response transcript.
    pub challenge_seed: [u8; 32],
    /// Last round at which a response is accepted.
    pub deadline_round: u64,
}

/// Outcome of an audit.
#[derive(Clone, Copy, Debug, PartialEq, Eq, Structural)]
pub enum AuditVerdict {
    /// The proof verified.
    Pass,
    /// The proof did not verify.
    Fail,
    /// No response before the deadline.
    Timeout,
    /// No audit due.
    NotScheduled,
}

/// Whether an audit is due in `round`: a positive multiple of the interval
/// (never, for interval zero).
pub open spec fn audit_due(round: u64, interval: u64) -> bool {
    round > 0 && interval != 0 && round % interval == 0
}

/// The challenge derived from a seed: the node index is the seed's first
/// eight bytes, read little-endian, modulo the number of active nodes.
pub open spec fn challenge_spec(round: u64, n_active: usize, seed: Seq<u8>, deadline: u64) -> (u64, usize, Seq<u8>, u64) {
    (round, (spec_u64_from_le_bytes(seed.subrange(0, 8)) % (n_active as u64)) as usize, seed, (round + deadline) as u64)
}

/// View of a challenge.
pub open spec fn challenge_view(c: AuditChallenge) -> (u64, usize, Seq<u8>, u64) {
    (c.round, c.challenged_node_index, c.challenge_seed@, c.deadline_round)
}

/// Builds the challenge for `round` from its seed.
pub fn challenge_from_seed(round: u64, n_active_nodes: usize, seed: [u8; 32], response_deadline: u64) -> (c: AuditChallenge)
    requires
        n_active_nodes > 0,
        round + response_deadline <= u64::MAX,
    ensures
        challenge_view(c) == challenge_spec(round, n_active_nodes, seed@, response_deadline),
{
    let first = &seed[0..8];
    let selection = vstd::bytes::u64_from_le_bytes(first);
    let index = (selection % (n_active_nodes as u64)) as usize;
    AuditChallenge {
        round,
        challenged_node_index: index,
        challenge_seed: seed,
        deadline_round: round + response_deadline,
    }
}

/// A field-by-field copy of a challenge.
fn copy_challenge(c: &AuditChallenge) -> (d: AuditChallenge)
    ensures
        d == *c,
{
    AuditChallenge {
        round: c.round,
        challenged_node_index: c.challenged_node_index,
        challenge_seed: c.challenge_seed,
        deadline_round: c.deadline_round,
    }
}

/// Selects audited nodes and tracks the pending challenge.
pub struct StochasticAuditor {
    config: StochasticAuditConfig,
    swarm_epoch_hash: [u8; 32],
    pending_challenge: Option<AuditChallenge>,
}

impl StochasticAuditor {
    /// The audit schedule.
    pub closed spec fn spec_config(&self) -> StochasticAuditConfig {
        self.config
    }

    /// The last swarm epoch hash.
    pub closed spec fn spec_epoch_hash(&self) -> Seq<u8> {
        self.swarm_epoch_hash@
    }

    /// The challenge awaiting a response, if any.
    pub closed spec fn spec_pending(&self) -> Option<AuditChallenge> {
        self.pending_challenge
    }

    /// An auditor with a zero epoch hash and nothing pending.
    pub fn new(config: StochasticAuditConfig) -> (a: Self)
        ensures
            a.spec_config() == config,
            a.spec_epoch_hash() == Seq::new(32, |i: int| 0u8),
            a.spec_pending() is None,
    {
        let a = StochasticAuditor { config, swarm_epoch_hash: [0u8; 32], pending_challenge: None };
        proof {
            assert(a.swarm_epoch_hash@ =~= Seq::new(32, |i: int| 0u8));
        }
        a
    }

    /// Records the hash of the latest consensus round.
    pub fn update_epoch_hash(&mut self, new_hash: &[u8; 32])
        ensures
            final(self).spec_epoch_hash() == new_hash@,
            final(self).spec_config() == old(self).spec_config(),
            final(self).spec_pending() == old(self).spec_pending(),
            final(self).spec_pending() == pending_step(old(self).spec_pending(), AuditEvent::NotIssued),
    {
        self.swarm_epoch_hash = *new_hash;
    }

    /// Whether an audit is due in `round`.
    pub fn should_audit(&self, round: u64) -> (b: bool)
        ensures
            b == audit_due(round, self.spec_config().audit_interval),
    {
        round > 0 && round.is_multiple_of(self.config.audit_interval)
    }

    /// Issues the challenge of `round`: `None` when no audit is due or there
    /// is no active node; otherwise the challenge seeded by the BLAKE3 digest
    /// of the label, the round and the epoch hash, which becomes pending.
    pub fn generate_challenge(&mut self, round: u64, n_active_nodes: usize) -> (r: Option<AuditChallenge>)
        requires
            audit_due(round, old(self).spec_config().audit_interval) && n_active_nodes > 0
                ==> round + old(self).spec_config().response_deadline <= u64::MAX,
        ensures
            final(self).spec_config() == old(self).spec_config(),
            final(self).spec_epoch_hash() == old(self).spec_epoch_hash(),
            !audit_due(round, old(self).spec_config().audit_interval) || n_active_nodes == 0 ==> {
                &&& r is None
                &&& final(self).spec_pending() == old(self).spec_pending()
            },
            audit_due(round, old(self).spec_config().audit_interval) && n_active_nodes > 0 ==> {
                &&& r matches Some(c)
                &&& challenge_view(c) == challenge_spec(
                    round,
                    n_active_nodes,
                    blake3_digest(challenge_input(round, old(self).spec_epoch_hash())),
                    old(self).spec_config().response_deadline,
                )
                &&& final(self).spec_pending() == Some(c)
            },
            final(self).spec_pending() == pending_step(
                old(self).spec_pending(),
                match r {
                    Some(c) => AuditEvent::Issued(c),
                    None => AuditEvent::NotIssued,
                },
            ),
    {
        if !self.should_audit(round) || n_active_nodes == 0 {
            return None;
        }
        let mut input: Vec<u8> = vec![
            81u8, 82u8, 69u8, 83u8, 45u8, 83u8, 116u8, 111u8, 99u8, 104u8, 97u8, 115u8, 116u8, 105u8,
            99u8, 65u8, 117u8, 100u8, 105u8, 116u8, 45u8, 118u8, 49u8,
        ];
        proof {
            assert(input@ =~= audit_label());
        }
        push_u64_le(&mut input, round);
        let mut i: usize = 0;
        while i < 32
            invariant
                i <= 32,
                input@ == audit_label() + le_u64_bytes(round) + self.swarm_epoch_hash@.subrange(0, i as int),
            decreases 32 - i,
        {
            input.push(self.swarm_epoch_hash[i]);
            proof {
                assert(self.swarm_epoch_hash@.subrange(0, i + 1) =~= self.swarm_epoch_hash@.subrange(0, i as int).push(
                    self.swarm_epoch_hash@[i as int],
                ));
            }
            i = i + 1;
        }
        proof {
            assert(self.swarm_epoch_hash@.subrange(0, 32) =~= self.swarm_epoch_hash@);
        }
        let seed = blake3_hash(input.as_slice());
        let challenge = challenge_from_seed(round, n_active_nodes, seed, self.config.response_deadline);
        self.pending_challenge = Some(copy_challenge(&challenge));
        Some(challenge)
    }

    /// Judges the response to the pending challenge: `NotScheduled` when none
    /// is pending; `Timeout` when `current_round` is past its deadline;
    /// otherwise `Pass` or `Fail` as the transition proof is accepted for
    /// `prev_weight_hash`. Every outcome but `NotScheduled` clears the
    /// pending challenge.
    pub fn verify_response(
        &mut self,
        current_round: u64,
        prev_weight_hash: &[u8; 32],
        proof: &ZkTransitionProof,
    ) -> (v: AuditVerdict)
        ensures
            final(self).spec_config() == old(self).spec_config(),
            final(self).spec_epoch_hash() == old(self).spec_epoch_hash(),
            match old(self).spec_pending() {
                None => v == AuditVerdict::NotScheduled && final(self).spec_pending() is None,
                Some(c) => {
                    &&& final(self).spec_pending() is None
                    &&& v == if current_round > c.deadline_round {
                        AuditVerdict::Timeout
                    } else if transition_accepted(*proof, prev_weight_hash@) {
                        AuditVerdict::Pass
                    } else {
                        AuditVerdict::Fail
                    }
                },
            },
            final(self).spec_pending() == pending_step(old(self).spec_pending(), AuditEvent::Answered),
    {
        let deadline = match &self.pending_challenge {
            Some(c) => c.deadline_round,
            None => return AuditVerdict::NotScheduled,
        };
        if current_round > deadline {
            self.pending_challenge = None;
            return AuditVerdict::Timeout;
        }
        let verifier = ZkTransitionVerifier::new();
        let valid = verifier.verify_transition(proof, prev_weight_hash);
        self.pending_challenge = None;
        if valid {
            AuditVerdict::Pass
        } else {
            AuditVerdict::Fail
        }
    }

    /// Times out the pending challenge once `current_round` is past its
    /// deadline (clearing it); `NotScheduled` otherwise.
    pub fn check_timeout(&mut self, current_round: u64) -> (v: AuditVerdict)
        ensures
            final(self).spec_config() == old(self).spec_config(),
            final(self).spec_epoch_hash() == old(self).spec_epoch_hash(),
            match old(self).spec_pending() {
                Some(c) if current_round > c.deadline_round => {
                    v == AuditVerdict::Timeout && final(self).spec_pending() is None
                },
                _ => v == AuditVerdict::NotScheduled && final(self).spec_pending() == old(self).spec_pending(),
            },
            final(self).spec_pending() == pending_step(
                old(self).spec_pending(),
                if v == AuditVerdict::Timeout {
                    AuditEvent::TimedOut
                } else {
                    AuditEvent::StillPending
                },
            ),
    {
        let expired = match &self.pending_challenge {
            Some(c) => current_round > c.deadline_round,
            None => false,
        };
        if expired {
            self.pending_challenge = None;
            AuditVerdict::Timeout
        } else {
            AuditVerdict::NotScheduled
        }
    }

    /// The pending challenge, if any.
    pub fn pending(&self) -> (r: Option<&AuditChallenge>)
        ensures
            match r {
                Some(c) => self.spec_pending() == Some(*c),
                None => self.spec_pending() is None,
            },
    {
        self.pending_challenge.as_ref()
    }
}

/// What a call on an auditor did to its pending challenge.
pub enum AuditEvent {
    /// `generate_challenge` returned this challenge.
    Issued(AuditChallenge),
    /// `generate_challenge` returned `None`, or `update_epoch_hash` ran.
    NotIssued,
    /// `verify_response` ran.
    Answered,
    /// `check_timeout` returned `Timeout`.
    TimedOut,
    /// `check_timeout` returned `NotScheduled`.
    StillPending,
}

/// The pending challenge after one event.
pub open spec fn pending_step(p: Option<AuditChallenge>, e: AuditEvent) -> Option<AuditChallenge> {
    match e {
        AuditEvent::Issued(c) => Some(c),
        AuditEvent::Answered => None,
        AuditEvent::TimedOut => None,
        _ => p,
    }
}

/// The pending challenge of a new auditor after the events, in order.
pub open spec fn pending_after(events: Seq<AuditEvent>) -> Option<AuditChallenge>
    decreases events.len(),
{
    if events.len() == 0 {
        None
    } else {
        pending_step(pending_after(events.drop_last()), events.last())
    }
}

/// Whether an event leaves the pending challenge as it was.
pub open spec fn keeps_pending(e: AuditEvent) -> bool {
    e is NotIssued || e is StillPending
}

/// The pending challenge follows the call history: after any calls on a new
/// auditor, `c` is pending exactly when some call issued `c` and every later
/// call neither issued another challenge, nor answered, nor timed out.
pub proof fn lemma_pending_follows_calls(events: Seq<AuditEvent>, c: AuditChallenge)
    ensures
        pending_after(events) == Some(c) <==> exists|i: int|
            0 <= i < events.len() && #[trigger] events[i] == AuditEvent::Issued(c) && forall|j: int|
                i < j < events.len() ==> keeps_pending(#[trigger] events[j]),
    decreases events.len(),
{
    if events.len() > 0 {
        let d = events.drop_last();
        let last = (events.len() - 1) as int;
        lemma_pending_follows_calls(d, c);
        if keeps_pending(events.last()) {
            if pending_after(events) == Some(c) {
                let i = choose|i: int|
                    0 <= i < d.len() && #[trigger] d[i] == AuditEvent::Issued(c) && forall|j: int|
                        i < j < d.len() ==> keeps_pending(#[trigger] d[j]);
                assert(events[i] == d[i]);
                assert forall|j: int| i < j < events.len() implies keeps_pending(#[trigger] events[j]) by {
                    if j < last {
                        assert(events[j] == d[j]);
                    }
                }
            }
            if exists|i: int|
                0 <= i < events.len() && #[trigger] events[i] == AuditEvent::Issued(c) && forall|j: int|
                    i < j < events.len() ==> keeps_pending(#[trigger] events[j]) {
                let i = choose|i: int|
                    0 <= i < events.len() && #[trigger] events[i] == AuditEvent::Issued(c) && forall|j: int|
                        i < j < events.len() ==> keeps_pending(#[trigger] events[j]);
                assert(i != last);
                assert(d[i] == events[i]);
                assert forall|j: int| i < j < d.len() implies keeps_pending(#[trigger] d[j]) by {
                    assert(d[j] == events[j]);
                    assert(keeps_pending(events[j]));
                }
            }
        } else {
            if exists|i: int|
                0 <= i < events.len() && #[trigger] events[i] == AuditEvent::Issued(c) && forall|j: int|
                    i < j < events.len() ==> keeps_pending(#[trigger] events[j]) {
                let i = choose|i: int|
                    0 <= i < events.len() && #[trigger] events[i] == AuditEvent::Issued(c) && forall|j: int|
                        i < j < events.len() ==> keeps_pending(#[trigger] events[j]);
                if i < last {
                    assert(keeps_pending(events[last]));
                }
                assert(i == last);
            }
            if events.last() == AuditEvent::Issued(c) {
                assert(events[last] == AuditEvent::Issued(c));
                assert(forall|j: int| last < j < events.len() ==> keeps_pending(#[trigger] events[j]));
            }
        }
    }
}

/// Two auditors with the same schedule and epoch hash issue the same
/// challenge for the same round and number of active nodes: what
/// `generate_challenge` returns depends on nothing else.
pub proof fn lemma_auditors_agree(
    a: &StochasticAuditor,
    b: &StochasticAuditor,
    round: u64,
    n_active_nodes: usize,
    ca: AuditChallenge,
    cb: AuditChallenge,
)
    requires
        a.spec_config() == b.spec_config(),
        a.spec_epoch_hash() == b.spec_epoch_hash(),
        challenge_view(ca) == challenge_spec(
            round,
            n_active_nodes,
            blake3_digest(challenge_input(round, a.spec_epoch_hash())),
            a.spec_config().response_deadline,
        ),
        challenge_view(cb) == challenge_spec(
            round,
            n_active_nodes,
            blake3_digest(challenge_input(round, b.spec_epoch_hash())),
            b.spec_config().response_deadline,
        ),
    ensures
        challenge_view(ca) == challenge_view(cb),
{
}

/// The challenged node is always one of the active nodes.
pub proof fn lemma_challenged_index_in_range(round: u64, n: usize, hash: Seq<u8>, deadline: u64)
    requires
        n > 0,
    ensures
        challenge_spec(round, n, blake3_digest(challenge_input(round, hash)), deadline).1 < n,
{
    let s = blake3_digest(challenge_input(round, hash));
    let x = spec_u64_from_le_bytes(s.subrange(0, 8));
    assert(x % (n as u64) < n);
}

/// Failures of the attested-proof gate.
#[derive(Debug, Clone, PartialEq, Eq, Structural)]
pub enum EnclaveError {
    /// Energy below the minimum threshold.
    InsufficientEnergy,
    /// Proof generation failed.
    ProofGenerationFailed,
    /// Invalid input parameters.
    InvalidInput,
}

} // verus!
