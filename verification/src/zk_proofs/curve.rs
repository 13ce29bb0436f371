//! Edwards25519 group operations and scalar arithmetic of
//! `curve25519-dalek`, and BLAKE3's extendable output, on byte encodings:
//! a point by its 32-byte compressed form, a scalar by its 32 little-endian
//! bytes (reduced modulo the group order where an operation reads it).
use vstd::prelude::*;
use curve25519_dalek::constants::ED25519_BASEPOINT_POINT;
use curve25519_dalek::edwards::CompressedEdwardsY;
use curve25519_dalek::scalar::Scalar;

verus! {

/// The 32 bytes decode (decompress) to an Edwards25519 point.
pub uninterp spec fn ed_decompresses(p: Seq<u8>) -> bool;

/// A point's canonical compressed bytes (decompressed, then compressed).
pub uninterp spec fn ed_canonical(p: Seq<u8>) -> Seq<u8>;

/// The compressed sum of the points that `p` and `q` decode to.
pub uninterp spec fn ed_add(p: Seq<u8>, q: Seq<u8>) -> Seq<u8>;

/// The compressed multiple `s * P`, `s` read as a scalar reduced modulo
/// the group order and `P` the point that `p` decodes to.
pub uninterp spec fn ed_mul(s: Seq<u8>, p: Seq<u8>) -> Seq<u8>;

/// The order of the Edwards25519 prime-order subgroup,
/// 2^252 + 27742317777372353535851937790883648493.
pub open spec fn group_order() -> int {
    7237005577332262213973186563042994240857116359379907606001950938285454250989int
}

/// The unsigned integer whose little-endian bytes are `b`.
pub open spec fn le_value(b: Seq<u8>) -> nat
    decreases b.len(),
{
    if b.len() == 0 {
        0
    } else {
        b[0] as nat + 256 * le_value(b.drop_first())
    }
}

/// The 32 little-endian bytes of `n`.
pub open spec fn le_bytes32(n: int) -> Seq<u8> {
    Seq::new(32, |i: int| ((n / vstd::arithmetic::power2::pow2((8 * i) as nat) as int) % 256) as u8)
}

/// The scalar sum `a + b` modulo the group order, as 32 bytes.
pub open spec fn scalar_add(a: Seq<u8>, b: Seq<u8>) -> Seq<u8> {
    le_bytes32((le_value(a) as int + le_value(b) as int) % group_order())
}

/// The scalar difference `a - b` modulo the group order (in `[0, order)`),
/// as 32 bytes.
pub open spec fn scalar_sub(a: Seq<u8>, b: Seq<u8>) -> Seq<u8> {
    le_bytes32((le_value(a) as int - le_value(b) as int) % group_order())
}

/// The scalar product `a * b` modulo the group order, as 32 bytes.
pub open spec fn scalar_mul(a: Seq<u8>, b: Seq<u8>) -> Seq<u8> {
    le_bytes32((le_value(a) as int * le_value(b) as int) % group_order())
}

/// The 64 little-endian bytes `wide` reduced modulo the group order, as 32
/// bytes.
pub open spec fn scalar_from_wide(wide: Seq<u8>) -> Seq<u8> {
    le_bytes32(le_value(wide) as int % group_order())
}

/// The first 64 bytes of BLAKE3's extendable output for `input`.
pub uninterp spec fn blake3_xof64(input: Seq<u8>) -> Seq<u8>;

/// The compressed Edwards25519 base point: `0x58` then 31 bytes `0x66`.
pub open spec fn ed_basepoint() -> Seq<u8> {
    seq![0x58u8].add(Seq::new(31, |i: int| 0x66u8))
}

/// The scalar of a 64-bit integer: its little-endian bytes, zero-padded.
pub open spec fn scalar_of_u64(v: u64) -> Seq<u8> {
    Seq::new(
        32,
        |i: int|
            if i < 8 {
                ((v as int / vstd::arithmetic::power2::pow2((8 * i) as nat) as int) % 256) as u8
            } else {
                0u8
            },
    )
}

/// Calls `ED25519_BASEPOINT_POINT.compress()`: the base point's compressed
/// bytes, which decompress.
#[verifier::external_body]
pub(crate) fn basepoint_bytes() -> (b: [u8; 32])
    ensures
        b@ == ed_basepoint(),
        ed_decompresses(b@),
{
    ED25519_BASEPOINT_POINT.compress().to_bytes()
}

/// Calls `CompressedEdwardsY::decompress` and reports whether it found a
/// point.
#[verifier::external_body]
pub(crate) fn point_decompresses(p: [u8; 32]) -> (ok: bool)
    ensures
        ok == ed_decompresses(p@),
{
    CompressedEdwardsY(p).decompress().is_some()
}

/// Calls `EdwardsPoint + EdwardsPoint` on the decompressed points and
/// compresses the sum. A compressed point always decompresses again, and
/// compressing it again gives the same (canonical) bytes.
#[verifier::external_body]
pub(crate) fn point_add(p: [u8; 32], q: [u8; 32]) -> (r: [u8; 32])
    requires
        ed_decompresses(p@),
        ed_decompresses(q@),
    ensures
        r@ == ed_add(p@, q@),
        ed_decompresses(r@),
        ed_canonical(r@) == r@,
{
    let a = CompressedEdwardsY(p).decompress().unwrap();
    let b = CompressedEdwardsY(q).decompress().unwrap();
    (a + b).compress().to_bytes()
}

/// Calls `Scalar * EdwardsPoint` with `Scalar::from_bytes_mod_order(s)` and
/// the decompressed point, and compresses the product. A compressed point
/// always decompresses again, and compressing it again gives the same
/// (canonical) bytes.
#[verifier::external_body]
pub(crate) fn point_mul(s: [u8; 32], p: [u8; 32]) -> (r: [u8; 32])
    requires
        ed_decompresses(p@),
    ensures
        r@ == ed_mul(s@, p@),
        ed_decompresses(r@),
        ed_canonical(r@) == r@,
{
    let a = CompressedEdwardsY(p).decompress().unwrap();
    (Scalar::from_bytes_mod_order(s) * a).compress().to_bytes()
}

/// Calls `Scalar + Scalar` on `Scalar::from_bytes_mod_order` of each side
/// and returns the sum's bytes.
#[verifier::external_body]
pub(crate) fn scalar_add_bytes(a: [u8; 32], b: [u8; 32]) -> (r: [u8; 32])
    ensures
        r@ == scalar_add(a@, b@),
{
    (Scalar::from_bytes_mod_order(a) + Scalar::from_bytes_mod_order(b)).to_bytes()
}

/// Calls `Scalar - Scalar` on `Scalar::from_bytes_mod_order` of each side
/// and returns the difference's bytes.
#[verifier::external_body]
pub(crate) fn scalar_sub_bytes(a: [u8; 32], b: [u8; 32]) -> (r: [u8; 32])
    ensures
        r@ == scalar_sub(a@, b@),
{
    (Scalar::from_bytes_mod_order(a) - Scalar::from_bytes_mod_order(b)).to_bytes()
}

/// Calls `Scalar * Scalar` on `Scalar::from_bytes_mod_order` of each side
/// and returns the product's bytes.
#[verifier::external_body]
pub(crate) fn scalar_mul_bytes(a: [u8; 32], b: [u8; 32]) -> (r: [u8; 32])
    ensures
        r@ == scalar_mul(a@, b@),
{
    (Scalar::from_bytes_mod_order(a) * Scalar::from_bytes_mod_order(b)).to_bytes()
}

/// Calls `Scalar::from(u64)`: the integer's little-endian bytes followed by
/// zeros.
#[verifier::external_body]
pub(crate) fn scalar_from_u64(v: u64) -> (r: [u8; 32])
    ensures
        r@ == scalar_of_u64(v),
{
    Scalar::from(v).to_bytes()
}

/// Calls `Scalar::from_bytes_mod_order_wide` and returns the scalar's bytes.
#[verifier::external_body]
pub(crate) fn scalar_from_wide_bytes(wide: [u8; 64]) -> (r: [u8; 32])
    ensures
        r@ == scalar_from_wide(wide@),
{
    Scalar::from_bytes_mod_order_wide(&wide).to_bytes()
}

/// Calls `Scalar::random` with the operating system's generator
/// `rand::rngs::OsRng` and returns the scalar's bytes. They come from the
/// operating system's entropy; all that holds of every outcome is that the
/// scalar is reduced, below the group order.
#[verifier::external_body]
pub(crate) fn random_scalar() -> (r: [u8; 32])
    ensures
        le_value(r@) < group_order(),
{
    Scalar::random(&mut rand::rngs::OsRng).to_bytes()
}

/// Calls `blake3::Hasher::new`, `update(input)`, `finalize_xof` and
/// `fill` on a 64-byte buffer: the first 64 bytes of BLAKE3's extendable
/// output for `input`.
#[verifier::external_body]
pub(crate) fn blake3_xof_64(input: &[u8]) -> (r: [u8; 64])
    ensures
        r@ == blake3_xof64(input@),
{
    let mut hasher = blake3::Hasher::new();
    hasher.update(input);
    let mut buf = [0u8; 64];
    hasher.finalize_xof().fill(&mut buf);
    buf
}

} // verus!
