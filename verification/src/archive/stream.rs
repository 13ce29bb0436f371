//! The chunk stream of a solid archive: the concatenated files,
//! deduplicated into content-defined chunks, each written as a frame (a
//! little-endian `u32` length, then the frame). A chunk seen for the first
//! time is written whole after the flag `0x00`; a chunk seen before is
//! written as the flag `0x03`, its hash (`u64`) and its size (`u32`).
//! Reading the stream back resolves each repeated chunk by its hash.
use vstd::prelude::*;
use std::collections::HashMap;
use crate::dedup::{
    chunk_plan, collision_free, dedup_plan, floor_log2, lemma_chunk_plan_short, le_u32_bytes, le_u64_bytes, plan_chunk, push_u32_le,
    push_u64_le, tiles, xxhash64, xxhash64_spec, DedupEngine, DedupReference,
};

verus! {

/// Flag of a frame that holds a chunk's bytes.
pub const FLAG_RAW: u8 = 0x00;

/// Flag of a frame that refers to an earlier chunk by hash.
pub const FLAG_REF: u8 = 0x03;

/// Target chunk size of the solid stream: 64 KiB.
pub const SOLID_CHUNK_TARGET: usize = 65536;

/// The content-defined chunks of a solid stream.
pub open spec fn solid_plan(data: Seq<u8>) -> Seq<(int, int)> {
    chunk_plan(
        data,
        (vstd::arithmetic::power2::pow2(floor_log2(SOLID_CHUNK_TARGET as u64)) - 1) as u64,
        (SOLID_CHUNK_TARGET / 4) as int,
        SOLID_CHUNK_TARGET * 4,
    )
}

/// Longest chunk of the solid stream: four times the target, 256 KiB.
pub const SOLID_CHUNK_MAX: usize = 262144;

/// Every chunk of a solid stream is at most `SOLID_CHUNK_MAX` bytes long.
proof fn lemma_solid_chunks_short(data: Seq<u8>)
    ensures
        forall|q: int|
            0 <= q < solid_plan(data).len() ==> #[trigger] solid_plan(data)[q].1 - solid_plan(data)[q].0
                <= SOLID_CHUNK_MAX,
{
    lemma_chunk_plan_short(
        data,
        (vstd::arithmetic::power2::pow2(floor_log2(SOLID_CHUNK_TARGET as u64)) - 1) as u64,
        (SOLID_CHUNK_TARGET / 4) as int,
        SOLID_CHUNK_TARGET * 4,
    );
}

/// Deduplication of a solid stream by a fresh engine: the references, the
/// known hashes, the unique chunks and their offsets.
pub open spec fn solid_dedup(data: Seq<u8>) -> (Seq<DedupReference>, Set<u64>, Seq<Seq<u8>>, Seq<int>) {
    dedup_plan(data, solid_plan(data), solid_plan(data).len() as int, Set::empty(), 0)
}

/// The frame of one reference.
pub open spec fn ref_frame(r: DedupReference, unique: Seq<Seq<u8>>) -> Seq<u8> {
    match r {
        DedupReference::New { chunk_id, .. } => le_u32_bytes((unique[chunk_id as int].len() + 1) as u32)
            + seq![FLAG_RAW] + unique[chunk_id as int],
        DedupReference::Existing { hash, size } => le_u32_bytes(13u32) + seq![FLAG_REF] + le_u64_bytes(hash)
            + le_u32_bytes(size as u32),
    }
}

/// The frames of the references, one after another.
pub open spec fn frames(refs: Seq<DedupReference>, unique: Seq<Seq<u8>>) -> Seq<u8>
    decreases refs.len(),
{
    if refs.len() == 0 {
        Seq::empty()
    } else {
        frames(refs.drop_last(), unique) + ref_frame(refs.last(), unique)
    }
}

/// The unique chunks are chunks of the plan, so no longer than its longest.
proof fn lemma_unique_chunks_short(data: Seq<u8>, plan: Seq<(int, int)>, k: int)
    requires
        crate::dedup::tiles(plan, 0, data.len() as int),
        0 <= k <= plan.len(),
        forall|q: int| 0 <= q < plan.len() ==> #[trigger] plan[q].1 - plan[q].0 <= SOLID_CHUNK_MAX,
    ensures
        forall|u: int|
            0 <= u < dedup_plan(data, plan, k, Set::empty(), 0).2.len() ==> (#[trigger] dedup_plan(
                data,
                plan,
                k,
                Set::empty(),
                0,
            ).2[u]).len() <= SOLID_CHUNK_MAX,
    decreases k,
{
    if k > 0 {
        lemma_unique_chunks_short(data, plan, k - 1);
        crate::dedup::lemma_tiles_facts(plan, 0, data.len() as int);
        let prev = dedup_plan(data, plan, k - 1, Set::empty(), 0);
        let res = dedup_plan(data, plan, k, Set::empty(), 0);
        assert(plan[k - 1].1 - plan[k - 1].0 <= SOLID_CHUNK_MAX);
        assert forall|u: int| 0 <= u < res.2.len() implies (#[trigger] res.2[u]).len() <= SOLID_CHUNK_MAX by {
            if u < prev.2.len() {
                assert(res.2[u] == prev.2[u]);
            }
        }
    }
}

/// A solid stream has at most as many chunks as bytes.
proof fn lemma_plan_len_bounded(data: Seq<u8>)
    ensures
        solid_plan(data).len() <= data.len(),
        crate::dedup::tiles(solid_plan(data), 0, data.len() as int),
{
    crate::dedup::lemma_chunk_plan_tiles(
        data,
        (vstd::arithmetic::power2::pow2(floor_log2(SOLID_CHUNK_TARGET as u64)) - 1) as u64,
        (SOLID_CHUNK_TARGET / 4) as int,
        SOLID_CHUNK_TARGET * 4,
    );
    crate::dedup::lemma_tiles_len(solid_plan(data), 0, data.len() as int);
}

/// Every new chunk's id names one of the unique chunks, and there is one
/// reference per chunk of the plan.
proof fn lemma_new_ids_in_range(data: Seq<u8>, plan: Seq<(int, int)>, k: int)
    requires
        0 <= k <= plan.len(),
        plan.len() <= u32::MAX,
    ensures
        ({
            let res = dedup_plan(data, plan, k, Set::empty(), 0);
            &&& res.0.len() == k
            &&& res.2.len() <= k
            &&& forall|i: int|
                0 <= i < res.0.len() ==> (#[trigger] res.0[i] matches DedupReference::New { chunk_id, .. }
                    ==> chunk_id < res.2.len())
        }),
    decreases k,
{
    if k > 0 {
        lemma_new_ids_in_range(data, plan, k - 1);
        let prev = dedup_plan(data, plan, k - 1, Set::empty(), 0);
        let res = dedup_plan(data, plan, k, Set::empty(), 0);
        assert forall|i: int|
            0 <= i < res.0.len() implies (#[trigger] res.0[i] matches DedupReference::New { chunk_id, .. }
            ==> chunk_id < res.2.len()) by {
            if i < prev.0.len() {
                assert(res.0[i] == prev.0[i]);
            }
        }
    }
}

/// The number of content-defined chunks of a solid stream.
pub fn solid_chunk_count(data: &[u8]) -> (n: usize)
    ensures
        n == solid_plan(data@).len(),
{
    let engine = DedupEngine::new(SOLID_CHUNK_TARGET);
    let chunks = engine.chunk_data(data);
    chunks.len()
}

/// Deduplicates a solid stream into 64 KiB-target chunks and frames them:
/// a new chunk whole, a repeated chunk by hash and size. Chunk ids are
/// `u32`, so the stream may hold at most `u32::MAX` chunks.
pub fn frame_solid_stream(data: &[u8]) -> (out: Vec<u8>)
    requires
        solid_plan(data@).len() <= u32::MAX,
    ensures
        out@ == frames(solid_dedup(data@).0, solid_dedup(data@).2),
{
    let data_len = data.len();
    let mut engine = DedupEngine::new(SOLID_CHUNK_TARGET);
    let ghost res = solid_dedup(data@);
    proof {
        lemma_plan_len_bounded(data@);
        lemma_solid_chunks_short(data@);
        lemma_new_ids_in_range(data@, solid_plan(data@), solid_plan(data@).len() as int);
        lemma_unique_chunks_short(data@, solid_plan(data@), solid_plan(data@).len() as int);
        assert(engine.known() == Set::<u64>::empty());
        assert(data_len <= u64::MAX);
    }
    let result = engine.deduplicate(data, 0);
    let ghost unique = result.unique_data@.map_values(|v: Vec<u8>| v@);
    proof {
        assert(unique == res.2);
        assert(result.references@ == res.0);
    }
    let mut out: Vec<u8> = Vec::new();
    let mut i: usize = 0;
    while i < result.references.len()
        invariant
            i <= result.references@.len(),
            result.references@ == res.0,
            result.unique_data@.map_values(|v: Vec<u8>| v@) == res.2,
            forall|j: int|
                0 <= j < res.0.len() ==> (#[trigger] res.0[j] matches DedupReference::New { chunk_id, .. }
                    ==> chunk_id < res.2.len()),
            out@ == frames(res.0.take(i as int), res.2),
            forall|u: int| 0 <= u < res.2.len() ==> (#[trigger] res.2[u]).len() <= SOLID_CHUNK_MAX,
        decreases result.references@.len() - i,
    {
        let ghost before = out@;
        match &result.references[i] {
            DedupReference::New { chunk_id, .. } => {
                let id = *chunk_id as usize;
                assert(id < result.unique_data@.len());
                let chunk = &result.unique_data[id];
                assert(chunk@ == res.2[id as int]);
                assert(chunk@.len() <= u32::MAX);
                let framed: u32 = #[verifier::truncate] ((chunk.len() as u64 + 1) as u32);
                push_u32_le(&mut out, framed);
                out.push(FLAG_RAW);
                let ghost mid = out@;
                out.extend_from_slice(chunk.as_slice());
                proof {
                    assert(out@ =~= mid + chunk@);
                }
            },
            DedupReference::Existing { hash, size } => {
                push_u32_le(&mut out, 13);
                out.push(FLAG_REF);
                push_u64_le(&mut out, *hash);
                push_u32_le(&mut out, #[verifier::truncate] (*size as u32));
            },
        }
        proof {
            assert(res.0.take(i + 1).drop_last() =~= res.0.take(i as int));
            assert(res.0.take(i + 1).last() == res.0[i as int]);
            assert(out@ =~= before + ref_frame(res.0[i as int], res.2));
        }
        i = i + 1;
    }
    proof {
        assert(res.0.take(res.0.len() as int) =~= res.0);
    }
    out
}


/// The `u32` whose little-endian bytes start `s`.
pub open spec fn le_u32_value(s: Seq<u8>) -> u32 {
    (s[0] as u32) | ((s[1] as u32) << 8u32) | ((s[2] as u32) << 16u32) | ((s[3] as u32) << 24u32)
}

/// The `u64` whose little-endian bytes start `s`.
pub open spec fn le_u64_value(s: Seq<u8>) -> u64 {
    (s[0] as u64) | ((s[1] as u64) << 8u64) | ((s[2] as u64) << 16u64) | ((s[3] as u64) << 24u64) | ((
    s[4] as u64) << 32u64) | ((s[5] as u64) << 40u64) | ((s[6] as u64) << 48u64) | ((s[7] as u64) << 56u64)
}

/// Reading back the little-endian bytes of a `u32` gives it back.
pub proof fn lemma_le_u32_roundtrip(x: u32)
    ensures
        le_u32_value(le_u32_bytes(x)) == x,
{
    let b = le_u32_bytes(x);
    let (b0, b1, b2, b3) = (b[0], b[1], b[2], b[3]);
    assert(b0 == x as u8 && b1 == (x >> 8u32) as u8 && b2 == (x >> 16u32) as u8 && b3 == (x >> 24u32) as u8);
    assert((b0 as u32) | ((b1 as u32) << 8u32) | ((b2 as u32) << 16u32) | ((b3 as u32) << 24u32) == x)
        by (bit_vector)
        requires
            b0 == x as u8,
            b1 == (x >> 8u32) as u8,
            b2 == (x >> 16u32) as u8,
            b3 == (x >> 24u32) as u8,
    ;
}

/// Reading back the little-endian bytes of a `u64` gives it back.
pub proof fn lemma_le_u64_roundtrip(x: u64)
    ensures
        le_u64_value(le_u64_bytes(x)) == x,
{
    let b = le_u64_bytes(x);
    let (b0, b1, b2, b3, b4, b5, b6, b7) = (b[0], b[1], b[2], b[3], b[4], b[5], b[6], b[7]);
    assert(b0 == x as u8 && b1 == (x >> 8u64) as u8 && b2 == (x >> 16u64) as u8 && b3 == (x >> 24u64) as u8);
    assert(b4 == (x >> 32u64) as u8 && b5 == (x >> 40u64) as u8 && b6 == (x >> 48u64) as u8 && b7 == (x
        >> 56u64) as u8);
    assert((b0 as u64) | ((b1 as u64) << 8u64) | ((b2 as u64) << 16u64) | ((b3 as u64) << 24u64) | ((b4 as u64)
        << 32u64) | ((b5 as u64) << 40u64) | ((b6 as u64) << 48u64) | ((b7 as u64) << 56u64) == x) by (bit_vector)
        requires
            b0 == x as u8,
            b1 == (x >> 8u64) as u8,
            b2 == (x >> 16u64) as u8,
            b3 == (x >> 24u64) as u8,
            b4 == (x >> 32u64) as u8,
            b5 == (x >> 40u64) as u8,
            b6 == (x >> 48u64) as u8,
            b7 == (x >> 56u64) as u8,
    ;
}


/// Why a chunk stream cannot be read back.
#[derive(Debug, Clone, Copy, PartialEq, Eq, Structural)]
pub enum UnframeError {
    /// A frame is shorter than its length says.
    TruncatedFrame,
    /// A frame of length zero, which has no flag to read.
    EmptyFrame,
    /// A reference frame too short for a hash and a size.
    ShortReference,
    /// A reference to a chunk not seen before.
    UnknownReference,
}

/// `r` with `prefix` in front of its bytes.
pub open spec fn prepend(prefix: Seq<u8>, r: Result<Seq<u8>, UnframeError>) -> Result<Seq<u8>, UnframeError> {
    match r {
        Ok(t) => Ok(prefix + t),
        Err(e) => Err(e),
    }
}

/// Reading the frames of `s` with the chunks already seen in `cache`
/// (by hash): fewer than four bytes left end the stream; a chunk frame
/// gives its bytes and is remembered under its hash (the latest chunk
/// wins); a reference frame gives the remembered chunk of its hash.
#[verifier::opaque]
pub open spec fn unframe_spec(s: Seq<u8>, cache: Map<u64, Seq<u8>>) -> Result<Seq<u8>, UnframeError>
    decreases s.len(),
{
    if s.len() < 4 {
        Ok(Seq::empty())
    } else {
        let len = le_u32_value(s) as int;
        if s.len() - 4 < len {
            Err(UnframeError::TruncatedFrame)
        } else if len == 0 {
            Err(UnframeError::EmptyFrame)
        } else {
            let frame = s.subrange(4, 4 + len);
            let rest = s.subrange(4 + len, s.len() as int);
            if frame[0] == FLAG_REF {
                if len < 13 {
                    Err(UnframeError::ShortReference)
                } else {
                    let h = le_u64_value(frame.subrange(1, 9));
                    if cache.contains_key(h) {
                        prepend(cache[h], unframe_spec(rest, cache))
                    } else {
                        Err(UnframeError::UnknownReference)
                    }
                }
            } else {
                let chunk = frame.subrange(1, len);
                prepend(chunk, unframe_spec(rest, cache.insert(xxhash64_spec(chunk), chunk)))
            }
        }
    }
}

/// Putting two prefixes in front one after the other.
pub proof fn lemma_prepend_prepend(a: Seq<u8>, b: Seq<u8>, r: Result<Seq<u8>, UnframeError>)
    ensures
        prepend(a, prepend(b, r)) == prepend(a + b, r),
{
    if let Ok(t) = r {
        assert(a + (b + t) =~= (a + b) + t);
    }
}

/// Reading at position `pos` of `stream`: the first frame there, in terms
/// of `stream` itself.
proof fn lemma_unframe_step(stream: Seq<u8>, pos: int, cache: Map<u64, Seq<u8>>)
    requires
        0 <= pos,
        pos + 4 <= stream.len(),
    ensures
        ({
            let s = stream.subrange(pos, stream.len() as int);
            let len = le_u32_value(stream.subrange(pos, stream.len() as int)) as int;
            let next = pos + 4 + len;
            let rest = stream.subrange(next, stream.len() as int);
            let chunk = stream.subrange(pos + 5, next);
            let h = le_u64_value(stream.subrange(pos + 5, pos + 13));
            unframe_spec(s, cache) == if stream.len() - pos - 4 < len {
                Err(UnframeError::TruncatedFrame)
            } else if len == 0 {
                Err(UnframeError::EmptyFrame)
            } else if stream[pos + 4] == FLAG_REF {
                if len < 13 {
                    Err(UnframeError::ShortReference)
                } else if cache.contains_key(h) {
                    prepend(cache[h], unframe_spec(rest, cache))
                } else {
                    Err(UnframeError::UnknownReference)
                }
            } else {
                prepend(chunk, unframe_spec(rest, cache.insert(xxhash64_spec(chunk), chunk)))
            }
        }),
{
    reveal(unframe_spec);
    let s = stream.subrange(pos, stream.len() as int);
    let len = le_u32_value(s) as int;
    if len <= stream.len() - pos - 4 && len > 0 {
        let next = pos + 4 + len;
        assert(s.subrange(4, 4 + len)[0] == stream[pos + 4]);
        assert(s.subrange(4 + len, s.len() as int) =~= stream.subrange(next, stream.len() as int));
        assert(s.subrange(4, 4 + len).subrange(1, len) =~= stream.subrange(pos + 5, next));
        if len >= 13 {
            assert(s.subrange(4, 4 + len).subrange(1, 9) =~= stream.subrange(pos + 5, pos + 13));
        }
    }
}

/// Fewer than four bytes read as nothing.
proof fn lemma_unframe_end(s: Seq<u8>, cache: Map<u64, Seq<u8>>)
    requires
        s.len() < 4,
    ensures
        unframe_spec(s, cache) == Ok::<Seq<u8>, UnframeError>(Seq::empty()),
{
    reveal(unframe_spec);
}

/// The chunks of an executable cache, by hash.
pub open spec fn cache_view(m: Map<u64, Vec<u8>>) -> Map<u64, Seq<u8>> {
    m.map_values(|v: Vec<u8>| v@)
}

fn read_u32_le(s: &[u8], pos: usize) -> (x: u32)
    requires
        pos + 4 <= s@.len(),
    ensures
        x == le_u32_value(s@.subrange(pos as int, s@.len() as int)),
{
    let ghost t = s@.subrange(pos as int, s@.len() as int);
    assert(t[0] == s@[pos as int] && t[1] == s@[pos + 1] && t[2] == s@[pos + 2] && t[3] == s@[pos + 3]);
    (s[pos] as u32) | ((s[pos + 1] as u32) << 8u32) | ((s[pos + 2] as u32) << 16u32) | ((s[pos + 3] as u32) << 24u32)
}

fn read_u64_le(s: &[u8], pos: usize) -> (x: u64)
    requires
        pos + 8 <= s@.len(),
    ensures
        x == le_u64_value(s@.subrange(pos as int, pos + 8)),
{
    let ghost t = s@.subrange(pos as int, pos + 8);
    assert(t[0] == s@[pos as int] && t[1] == s@[pos + 1] && t[2] == s@[pos + 2] && t[3] == s@[pos + 3]);
    assert(t[4] == s@[pos + 4] && t[5] == s@[pos + 5] && t[6] == s@[pos + 6] && t[7] == s@[pos + 7]);
    (s[pos] as u64) | ((s[pos + 1] as u64) << 8u64) | ((s[pos + 2] as u64) << 16u64) | ((s[pos + 3] as u64)
        << 24u64) | ((s[pos + 4] as u64) << 32u64) | ((s[pos + 5] as u64) << 40u64) | ((s[pos + 6] as u64)
        << 48u64) | ((s[pos + 7] as u64) << 56u64)
}

/// Reads a chunk stream back: the chunk frames' bytes and, for each
/// reference frame, the bytes of the chunk with its hash, in order.
pub fn unframe_stream(stream: &[u8]) -> (r: Result<Vec<u8>, UnframeError>)
    ensures
        match (r, unframe_spec(stream@, Map::empty())) {
            (Ok(v), Ok(t)) => v@ == t,
            (Err(e), Err(e2)) => e == e2,
            _ => false,
        },
{
    broadcast use vstd::std_specs::hash::group_hash_axioms;

    let mut cache: HashMap<u64, Vec<u8>> = HashMap::new();
    let mut out: Vec<u8> = Vec::new();
    let mut pos: usize = 0;
    proof {
        assert(cache_view(cache@) =~= Map::<u64, Seq<u8>>::empty());
        assert(stream@.subrange(0, stream@.len() as int) =~= stream@);
        assert(Seq::<u8>::empty() + unframe_spec(stream@, Map::empty()).get_Ok_0() =~= unframe_spec(
            stream@,
            Map::empty(),
        ).get_Ok_0());
    }
    while stream.len() - pos >= 4
        invariant
            pos <= stream@.len(),
            unframe_spec(stream@, Map::empty()) == prepend(
                out@,
                unframe_spec(stream@.subrange(pos as int, stream@.len() as int), cache_view(cache@)),
            ),
        decreases stream@.len() - pos,
    {
        let ghost cv = cache_view(cache@);
        proof {
            lemma_unframe_step(stream@, pos as int, cv);
        }
        let len = read_u32_le(stream, pos) as usize;
        if stream.len() - pos - 4 < len {
            return Err(UnframeError::TruncatedFrame);
        }
        if len == 0 {
            return Err(UnframeError::EmptyFrame);
        }
        let start = pos + 4;
        let next = start + len;
        if stream[start] == FLAG_REF {
            if len < 13 {
                return Err(UnframeError::ShortReference);
            }
            let h = read_u64_le(stream, start + 1);
            match cache.get(&h) {
                Some(chunk) => {
                    let ghost before = out@;
                    out.extend_from_slice(chunk.as_slice());
                    proof {
                        assert(out@ =~= before + chunk@);
                        assert(cv[h] == chunk@);
                        lemma_prepend_prepend(
                            before,
                            chunk@,
                            unframe_spec(stream@.subrange(next as int, stream@.len() as int), cv),
                        );
                    }
                },
                None => {
                    return Err(UnframeError::UnknownReference);
                },
            }
        } else {
            let mut chunk: Vec<u8> = Vec::new();
            let mut k: usize = start + 1;
            while k < next
                invariant
                    start + 1 <= k <= next,
                    next <= stream@.len(),
                    chunk@ == stream@.subrange(start + 1, k as int),
                decreases next - k,
            {
                chunk.push(stream[k]);
                proof {
                    assert(chunk@ =~= stream@.subrange(start + 1, k + 1));
                }
                k = k + 1;
            }
            let ghost chunk_bytes = chunk@;
            let h = xxhash64(chunk.as_slice());
            let ghost before = out@;
            out.extend_from_slice(chunk.as_slice());
            cache.insert(h, chunk);
            proof {
                assert(out@ =~= before + chunk_bytes);
                assert(cache_view(cache@) =~= cv.insert(h, chunk_bytes));
                lemma_prepend_prepend(
                    before,
                    chunk_bytes,
                    unframe_spec(stream@.subrange(next as int, stream@.len() as int), cache_view(cache@)),
                );
            }
        }
        pos = next;
    }
    proof {
        lemma_unframe_end(stream@.subrange(pos as int, stream@.len() as int), cache_view(cache@));
        assert(out@ + Seq::<u8>::empty() =~= out@);
    }
    Ok(out)
}


/// A chunk frame in front of `rest` reads as the chunk, remembered under
/// its hash, then `rest`.
#[verifier::spinoff_prover]
#[verifier::rlimit(30)]
proof fn lemma_parse_chunk_frame(chunk: Seq<u8>, rest: Seq<u8>, cache: Map<u64, Seq<u8>>)
    requires
        chunk.len() < u32::MAX,
    ensures
        unframe_spec(le_u32_bytes((chunk.len() + 1) as u32) + seq![FLAG_RAW] + chunk + rest, cache) == prepend(
            chunk,
            unframe_spec(rest, cache.insert(xxhash64_spec(chunk), chunk)),
        ),
{
    let len = (chunk.len() + 1) as u32;
    let stream = le_u32_bytes(len) + seq![FLAG_RAW] + chunk + rest;
    lemma_le_u32_roundtrip(len);
    lemma_unframe_step(stream, 0, cache);
    assert(stream.subrange(0, stream.len() as int) =~= stream);
    assert(stream.subrange(0, stream.len() as int).subrange(0, 4) =~= le_u32_bytes(len));
    assert(le_u32_value(stream) == le_u32_value(le_u32_bytes(len)));
    assert(stream[4] == FLAG_RAW);
    assert(stream.subrange(5, 4 + len as int) =~= chunk);
    assert(stream.subrange(4 + len as int, stream.len() as int) =~= rest);
}

/// A reference frame in front of `rest`, for a hash in the cache, reads as
/// the cached chunk, then `rest`.
proof fn lemma_parse_ref_frame(h: u64, size: u32, rest: Seq<u8>, cache: Map<u64, Seq<u8>>)
    requires
        cache.contains_key(h),
    ensures
        unframe_spec(le_u32_bytes(13u32) + seq![FLAG_REF] + le_u64_bytes(h) + le_u32_bytes(size) + rest, cache)
            == prepend(cache[h], unframe_spec(rest, cache)),
{
    let stream = le_u32_bytes(13u32) + seq![FLAG_REF] + le_u64_bytes(h) + le_u32_bytes(size) + rest;
    lemma_le_u32_roundtrip(13u32);
    lemma_le_u64_roundtrip(h);
    lemma_unframe_step(stream, 0, cache);
    assert(stream.subrange(0, stream.len() as int) =~= stream);
    assert(le_u32_value(stream) == le_u32_value(le_u32_bytes(13u32)));
    assert(stream[4] == FLAG_REF);
    assert(stream.subrange(5, 13) =~= le_u64_bytes(h));
    assert(le_u64_value(stream.subrange(5, 13)) == h);
    assert(stream.subrange(17, stream.len() as int) =~= rest);
}


/// The frames of two runs of references, one after the other.
proof fn lemma_frames_concat(a: Seq<DedupReference>, b: Seq<DedupReference>, u: Seq<Seq<u8>>)
    ensures
        frames(a + b, u) == frames(a, u) + frames(b, u),
    decreases b.len(),
{
    if b.len() == 0 {
        assert(a + b =~= a);
        assert(frames(a, u) + Seq::<u8>::empty() =~= frames(a, u));
    } else {
        lemma_frames_concat(a, b.drop_last(), u);
        assert((a + b).drop_last() =~= a + b.drop_last());
        assert((a + b).last() == b.last());
        assert(frames(a, u) + frames(b.drop_last(), u) + ref_frame(b.last(), u) =~= frames(a, u) + (frames(
            b.drop_last(),
            u,
        ) + ref_frame(b.last(), u)));
    }
}

/// The frames of a run that starts with `r`.
proof fn lemma_frames_first(r: DedupReference, b: Seq<DedupReference>, u: Seq<Seq<u8>>)
    ensures
        frames(seq![r] + b, u) == ref_frame(r, u) + frames(b, u),
{
    lemma_frames_concat(seq![r], b, u);
    let one = seq![r];
    assert(one.drop_last() =~= Seq::<DedupReference>::empty());
    assert(one.last() == r);
    assert(frames(one.drop_last(), u) == Seq::<u8>::empty());
    assert(frames(one, u) =~= ref_frame(r, u));
}

/// Deduplicating more chunks keeps the references and unique chunks of
/// fewer in front.
proof fn lemma_plan_prefix_stable(data: Seq<u8>, plan: Seq<(int, int)>, k: int, m: int)
    requires
        0 <= k <= m <= plan.len(),
        plan.len() <= u32::MAX,
    ensures
        ({
            let a = dedup_plan(data, plan, k, Set::empty(), 0);
            let b = dedup_plan(data, plan, m, Set::empty(), 0);
            &&& a.2.len() <= b.2.len()
            &&& b.0.take(k) == a.0
            &&& b.2.take(a.2.len() as int) == a.2
        }),
    decreases m - k,
{
    lemma_new_ids_in_range(data, plan, k);
    lemma_new_ids_in_range(data, plan, m);
    if m > k {
        lemma_plan_prefix_stable(data, plan, k, m - 1);
        crate::dedup::lemma_plan_step(data, plan, m - 1, Set::empty(), 0);
        lemma_new_ids_in_range(data, plan, m - 1);
        let a = dedup_plan(data, plan, k, Set::empty(), 0);
        let p = dedup_plan(data, plan, m - 1, Set::empty(), 0);
        let b = dedup_plan(data, plan, m, Set::empty(), 0);
        assert(b.0.take(k) =~= p.0.take(k));
        assert(b.2.take(a.2.len() as int) =~= p.2.take(a.2.len() as int));
    } else {
        let a = dedup_plan(data, plan, k, Set::empty(), 0);
        assert(a.0.take(k) =~= a.0);
        assert(a.2.take(a.2.len() as int) =~= a.2);
    }
}

/// The chunks a reader remembers after the first `k` frames of a
/// deduplicated stream: each new chunk under its hash.
pub open spec fn cache_after(data: Seq<u8>, plan: Seq<(int, int)>, k: int) -> Map<u64, Seq<u8>>
    decreases k,
{
    if k <= 0 {
        Map::empty()
    } else {
        let prev = cache_after(data, plan, k - 1);
        let bytes = plan_chunk(data, plan, k - 1);
        let h = xxhash64_spec(bytes);
        if dedup_plan(data, plan, k - 1, Set::empty(), 0).1.contains(h) {
            prev
        } else {
            prev.insert(h, bytes)
        }
    }
}

/// The reader remembers exactly the known hashes, each under a chunk of
/// the plan with that hash.
proof fn lemma_cache_after(data: Seq<u8>, plan: Seq<(int, int)>, k: int)
    requires
        0 <= k <= plan.len(),
    ensures
        cache_after(data, plan, k).dom() == dedup_plan(data, plan, k, Set::empty(), 0).1,
        forall|h: u64|
            #[trigger] cache_after(data, plan, k).contains_key(h) ==> {
                &&& xxhash64_spec(cache_after(data, plan, k)[h]) == h
                &&& exists|i: int| 0 <= i < k && cache_after(data, plan, k)[h] == plan_chunk(data, plan, i)
            },
    decreases k,
{
    if k > 0 {
        lemma_cache_after(data, plan, k - 1);
        crate::dedup::lemma_plan_step(data, plan, k - 1, Set::empty(), 0);
        let prev = cache_after(data, plan, k - 1);
        let c = cache_after(data, plan, k);
        let bytes = plan_chunk(data, plan, k - 1);
        let h = xxhash64_spec(bytes);
        assert forall|g: u64| #[trigger] c.contains_key(g) implies {
            &&& xxhash64_spec(c[g]) == g
            &&& exists|i: int| 0 <= i < k && c[g] == plan_chunk(data, plan, i)
        } by {
            if prev.contains_key(g) && (c == prev || g != h) {
                assert(c[g] == prev[g]);
                let i = choose|i: int| 0 <= i < k - 1 && prev[g] == plan_chunk(data, plan, i);
                assert(c[g] == plan_chunk(data, plan, i));
            } else {
                assert(g == h);
                assert(c[g] == bytes);
                assert(c[g] == plan_chunk(data, plan, k - 1));
            }
        }
        assert(c.dom() =~= dedup_plan(data, plan, k, Set::empty(), 0).1);
    } else {
        assert(cache_after(data, plan, 0).dom() =~= Set::<u64>::empty());
    }
}

/// Where chunk `k` of the plan starts.
pub open spec fn chunk_start(plan: Seq<(int, int)>, k: int) -> int {
    if k == 0 {
        0
    } else {
        plan[k - 1].1
    }
}

/// Reading the frames from reference `k` on, with what the reader
/// remembers after the first `k`, gives the data from chunk `k` on.
proof fn lemma_unframe_suffix(data: Seq<u8>, k: int)
    requires
        solid_plan(data).len() <= u32::MAX,
        collision_free(data, solid_plan(data)),
        0 <= k <= solid_plan(data).len(),
    ensures
        unframe_spec(
            frames(solid_dedup(data).0.subrange(k, solid_plan(data).len() as int), solid_dedup(data).2),
            cache_after(data, solid_plan(data), k),
        ) == Ok::<Seq<u8>, UnframeError>(data.subrange(chunk_start(solid_plan(data), k), data.len() as int)),
    decreases solid_plan(data).len() - k,
{
    let plan = solid_plan(data);
    let n = plan.len() as int;
    let res = solid_dedup(data);
    lemma_plan_len_bounded(data);
    crate::dedup::lemma_tiles_facts(plan, 0, data.len() as int);
    lemma_new_ids_in_range(data, plan, n);
    if k == n {
        assert(res.0.subrange(k, n) =~= Seq::<DedupReference>::empty());
        assert(frames(Seq::<DedupReference>::empty(), res.2) == Seq::<u8>::empty());
        lemma_unframe_end(Seq::<u8>::empty(), cache_after(data, plan, k));
        assert(chunk_start(plan, k) == data.len());
        assert(data.subrange(data.len() as int, data.len() as int) =~= Seq::<u8>::empty());
    } else {
        lemma_unframe_suffix(data, k + 1);
        let r = res.0[k];
        let rest = res.0.subrange(k + 1, n);
        assert(res.0.subrange(k, n) =~= seq![r] + rest);
        lemma_frames_first(r, rest, res.2);
        lemma_plan_prefix_stable(data, plan, k + 1, n);
        crate::dedup::lemma_plan_step(data, plan, k, Set::empty(), 0);
        lemma_new_ids_in_range(data, plan, k);
        lemma_cache_after(data, plan, k);
        let prev = dedup_plan(data, plan, k, Set::empty(), 0);
        let nxt = dedup_plan(data, plan, k + 1, Set::empty(), 0);
        let bytes = plan_chunk(data, plan, k);
        let h = xxhash64_spec(bytes);
        let cache = cache_after(data, plan, k);
        let tail = frames(rest, res.2);
        assert(res.0.take(k + 1)[k] == r);
        assert(r == nxt.0[k]);
        assert(nxt.0[k] == nxt.0.last());
        assert(chunk_start(plan, k) == plan[k].0) by {
            if k > 0 {
                assert(plan[k].0 == plan[k - 1].1);
            }
        }
        assert(chunk_start(plan, k + 1) == plan[k].1);
        assert(data.subrange(chunk_start(plan, k), data.len() as int) =~= bytes + data.subrange(
            chunk_start(plan, k + 1),
            data.len() as int,
        ));
        if prev.1.contains(h) {
            assert(cache.contains_key(h));
            let i = choose|i: int| 0 <= i < k && cache[h] == plan_chunk(data, plan, i);
            assert(xxhash64_spec(plan_chunk(data, plan, i)) == xxhash64_spec(plan_chunk(data, plan, k)));
            assert(cache[h] == bytes);
            let size = (plan[k].1 - plan[k].0) as usize;
            assert(ref_frame(r, res.2) == le_u32_bytes(13u32) + seq![FLAG_REF] + le_u64_bytes(h) + le_u32_bytes(
                size as u32,
            ));
            lemma_parse_ref_frame(h, size as u32, tail, cache);
            assert(cache_after(data, plan, k + 1) == cache);
        } else {
            let id = prev.2.len();
            assert(r == DedupReference::New { hash: h, chunk_id: (0 + id) as u32, size: (plan[k].1 - plan[k].0) as usize });
            assert(nxt.2 == prev.2.push(bytes));
            assert(res.2.take(nxt.2.len() as int)[id as int] == nxt.2[id as int]);
            assert(res.2[id as int] == bytes);
            assert(((0 + id) as u32) as int == id as int);
            assert(bytes.len() <= SOLID_CHUNK_MAX) by {
                lemma_solid_chunks_short(data);
                assert(plan[k].1 - plan[k].0 <= SOLID_CHUNK_MAX);
            }
            assert(ref_frame(r, res.2) == le_u32_bytes((bytes.len() + 1) as u32) + seq![FLAG_RAW] + bytes);
            lemma_parse_chunk_frame(bytes, tail, cache);
            assert(cache_after(data, plan, k + 1) == cache.insert(h, bytes));
        }
    }
}

/// A solid stream reads back as it was framed: the data itself, provided
/// no two different chunks of it share a hash. The stream may hold at most
/// `u32::MAX` chunks, chunk ids being `u32`; frame lengths fit a `u32`
/// because no chunk is longer than `SOLID_CHUNK_MAX`.
pub proof fn lemma_solid_stream_roundtrip(data: Seq<u8>)
    requires
        solid_plan(data).len() <= u32::MAX,
        collision_free(data, solid_plan(data)),
    ensures
        unframe_spec(frames(solid_dedup(data).0, solid_dedup(data).2), Map::empty()) == Ok::<
            Seq<u8>,
            UnframeError,
        >(data),
{
    let plan = solid_plan(data);
    lemma_plan_len_bounded(data);
    lemma_new_ids_in_range(data, plan, plan.len() as int);
    lemma_unframe_suffix(data, 0);
    assert(solid_dedup(data).0.subrange(0, plan.len() as int) =~= solid_dedup(data).0);
    assert(cache_after(data, plan, 0) == Map::<u64, Seq<u8>>::empty());
    assert(data.subrange(0, data.len() as int) =~= data);
}

} // verus!
