//! MTU-aware packet fragmentation with CRC32 integrity.
use vstd::prelude::*;

verus! {

/// Safe MTU for constrained links after lower-layer headers.
pub const SAFE_MTU: usize = 1024;

/// Fragment header: sequence id (4), index (2), total (2), checksum (4).
pub const HEADER_SIZE: usize = 12;

/// Payload bytes carried by one fragment.
pub const MAX_PAYLOAD: usize = 1012;

/// Reflected CRC-32 (IEEE) polynomial.
pub const CRC32_POLY: u32 = 0xEDB8_8320;

/// One bit-step of the reflected CRC-32 register.
pub open spec fn crc_round(c: u32) -> u32 {
    if c & 1 == 1 {
        (c >> 1u32) ^ CRC32_POLY
    } else {
        c >> 1u32
    }
}

/// `k` bit-steps of the register.
pub open spec fn crc_rounds(c: u32, k: nat) -> u32
    decreases k,
{
    if k == 0 {
        c
    } else {
        crc_round(crc_rounds(c, (k - 1) as nat))
    }
}

/// The register after the first `n` bytes of `s`.
pub open spec fn crc_state(s: Seq<u8>, n: int) -> u32
    decreases n,
{
    if n <= 0 {
        0xFFFF_FFFFu32
    } else {
        crc_rounds(crc_state(s, n - 1) ^ (s[n - 1] as u32), 8)
    }
}

/// CRC-32 (IEEE) of a byte sequence.
pub open spec fn crc32_spec(s: Seq<u8>) -> u32 {
    !crc_state(s, s.len() as int)
}

/// One fragment of a payload.
#[derive(Debug, Clone)]
pub struct Fragment {
    pub sequence_id: u32,
    pub fragment_index: u16,
    pub total_fragments: u16,
    pub checksum: u32,
    pub payload: Vec<u8>,
}

impl View for Fragment {
    type V = (u32, u16, u16, u32, Seq<u8>);

    open spec fn view(&self) -> (u32, u16, u16, u32, Seq<u8>) {
        (self.sequence_id, self.fragment_index, self.total_fragments, self.checksum, self.payload@)
    }
}

/// Views of a list of fragments.
pub open spec fn frag_views(v: Seq<Fragment>) -> Seq<(u32, u16, u16, u32, Seq<u8>)> {
    v.map_values(|f: Fragment| f@)
}

/// Number of fragments a payload of `len` bytes is split into.
pub open spec fn fragment_count(len: nat) -> nat {
    if len == 0 {
        0
    } else {
        (((len - 1) as int) / (MAX_PAYLOAD as int) + 1) as nat
    }
}

/// The payload of fragment `i` of `data`.
pub open spec fn fragment_payload(data: Seq<u8>, i: int) -> Seq<u8> {
    let start = i * MAX_PAYLOAD;
    let end = if start + MAX_PAYLOAD <= data.len() { start + MAX_PAYLOAD } else { data.len() as int };
    data.subrange(start, end)
}

/// The fragments of `data` under sequence id `seq_id`.
pub open spec fn split_spec(data: Seq<u8>, seq_id: u32) -> Seq<(u32, u16, u16, u32, Seq<u8>)> {
    Seq::new(
        fragment_count(data.len()),
        |i: int|
            (
                seq_id,
                i as u16,
                fragment_count(data.len()) as u16,
                crc32_spec(fragment_payload(data, i)),
                fragment_payload(data, i),
            ),
    )
}

/// Stable insertion of `x` into `s`, after every element with an index not
/// above its own.
pub open spec fn insert_by_index(s: Seq<(u32, u16, u16, u32, Seq<u8>)>, x: (u32, u16, u16, u32, Seq<u8>)) -> Seq<
    (u32, u16, u16, u32, Seq<u8>),
>
    decreases s.len(),
{
    if s.len() == 0 {
        seq![x]
    } else if s.last().1 <= x.1 {
        s.push(x)
    } else {
        insert_by_index(s.drop_last(), x).push(s.last())
    }
}

/// Stable sort of fragments by fragment index.
pub open spec fn sort_by_index(s: Seq<(u32, u16, u16, u32, Seq<u8>)>) -> Seq<(u32, u16, u16, u32, Seq<u8>)>
    decreases s.len(),
{
    if s.len() == 0 {
        s
    } else {
        insert_by_index(sort_by_index(s.drop_last()), s.last())
    }
}

/// Whether every fragment's checksum matches its payload.
pub open spec fn all_checksums_ok(s: Seq<(u32, u16, u16, u32, Seq<u8>)>) -> bool {
    forall|i: int| 0 <= i < s.len() ==> crc32_spec(#[trigger] s[i].4) == s[i].3
}

/// Concatenation of the fragments' payloads, in order.
pub open spec fn concat_payloads(s: Seq<(u32, u16, u16, u32, Seq<u8>)>) -> Seq<u8>
    decreases s.len(),
{
    if s.len() == 0 {
        Seq::empty()
    } else {
        concat_payloads(s.drop_last()) + s.last().4
    }
}

/// Whether the fragments, in index order, carry the indices `0, 1, ...`:
/// each index from zero up once, none missing.
pub open spec fn indices_complete(s: Seq<(u32, u16, u16, u32, Seq<u8>)>) -> bool {
    forall|i: int| 0 <= i < s.len() ==> #[trigger] s[i].1 == i
}

/// What reassembly yields: nothing for an empty list, a wrong fragment count
/// (as announced by the lowest-index fragment), a missing or repeated index
/// or a bad checksum; otherwise the payloads concatenated in index order.
pub open spec fn reassemble_spec(s: Seq<(u32, u16, u16, u32, Seq<u8>)>) -> Option<Seq<u8>> {
    if s.len() == 0 {
        None
    } else {
        let sorted = sort_by_index(s);
        if sorted.len() != sorted[0].2 as int {
            None
        } else if !indices_complete(sorted) {
            None
        } else if !all_checksums_ok(sorted) {
            None
        } else {
            Some(concat_payloads(sorted))
        }
    }
}

/// Fragment `i` of a payload of `len` bytes starts inside it.
proof fn lemma_fragment_start(len: nat, i: nat)
    requires
        i < fragment_count(len),
    ensures
        i * (MAX_PAYLOAD as nat) < len,
{
    let q = ((len - 1) as int) / (MAX_PAYLOAD as int);
    assert(i <= q);
    assert(q * (MAX_PAYLOAD as int) <= len - 1) by (nonlinear_arith)
        requires
            q == ((len - 1) as int) / 1012,
            len >= 1,
    ;
    assert(i * (MAX_PAYLOAD as int) <= q * (MAX_PAYLOAD as int)) by (nonlinear_arith)
        requires
            i <= q,
    ;
}

/// A sequence already ordered by fragment index is left as it is by the sort.
proof fn lemma_sort_sorted(s: Seq<(u32, u16, u16, u32, Seq<u8>)>)
    requires
        forall|i: int, j: int| 0 <= i <= j < s.len() ==> s[i].1 <= s[j].1,
    ensures
        sort_by_index(s) == s,
    decreases s.len(),
{
    if s.len() > 0 {
        let d = s.drop_last();
        assert forall|i: int, j: int| 0 <= i <= j < d.len() implies d[i].1 <= d[j].1 by {
            assert(d[i] == s[i] && d[j] == s[j]);
        }
        lemma_sort_sorted(d);
        if d.len() == 0 {
            assert(s =~= seq![s.last()]);
        } else {
            assert(d.last() == s[s.len() - 2]);
            assert(d.push(s.last()) =~= s);
        }
    }
}

/// The payloads of the first `k` fragments of `data` are its first
/// `min(k * MAX_PAYLOAD, len)` bytes.
proof fn lemma_concat_prefix(data: Seq<u8>, seq_id: u32, k: nat)
    requires
        k <= fragment_count(data.len()),
    ensures
        concat_payloads(split_spec(data, seq_id).subrange(0, k as int)) == data.subrange(
            0,
            if k * MAX_PAYLOAD <= data.len() { k * MAX_PAYLOAD } else { data.len() as int },
        ),
    decreases k,
{
    let s = split_spec(data, seq_id);
    if k == 0 {
        assert(s.subrange(0, 0) =~= Seq::<(u32, u16, u16, u32, Seq<u8>)>::empty());
        assert(data.subrange(0, 0) =~= Seq::<u8>::empty());
    } else {
        let km1 = (k - 1) as nat;
        lemma_concat_prefix(data, seq_id, km1);
        lemma_fragment_start(data.len(), km1);
        assert(s.subrange(0, k as int).drop_last() =~= s.subrange(0, km1 as int));
        assert(s.subrange(0, k as int).last() == s[km1 as int]);
        let start = km1 * MAX_PAYLOAD;
        let end = if k * MAX_PAYLOAD <= data.len() { k * MAX_PAYLOAD } else { data.len() as int };
        assert(s[km1 as int].4 == data.subrange(start, end));
        assert(data.subrange(0, start) + data.subrange(start, end) =~= data.subrange(0, end));
    }
}

/// Splitting a non-empty payload of at most 65535 fragments and reassembling
/// the fragments gives the payload back.
pub proof fn lemma_split_reassemble(data: Seq<u8>, seq_id: u32)
    requires
        0 < data.len() <= 65535 * MAX_PAYLOAD,
    ensures
        reassemble_spec(split_spec(data, seq_id)) == Some(data),
{
    let s = split_spec(data, seq_id);
    let n = fragment_count(data.len());
    assert(n <= 65535);
    assert forall|i: int, j: int| 0 <= i <= j < s.len() implies s[i].1 <= s[j].1 by {
        assert(s[i].1 == i as u16 && s[j].1 == j as u16);
    }
    lemma_sort_sorted(s);
    assert(s[0].2 == n as u16);
    assert(s.len() == s[0].2 as int);
    assert forall|i: int| 0 <= i < s.len() implies #[trigger] s[i].1 == i by {
        assert(s[i].1 == i as u16);
    }
    assert forall|i: int| 0 <= i < s.len() implies crc32_spec(#[trigger] s[i].4) == s[i].3 by {}
    lemma_concat_prefix(data, seq_id, n);
    assert(s.subrange(0, n as int) =~= s);
    assert(n * MAX_PAYLOAD >= data.len());
    assert(data.subrange(0, data.len() as int) =~= data);
}

/// Whether fragment indices never decrease along `s`.
pub open spec fn ordered_by_index(s: Seq<(u32, u16, u16, u32, Seq<u8>)>) -> bool {
    forall|i: int, j: int| 0 <= i <= j < s.len() ==> #[trigger] s[i].1 <= #[trigger] s[j].1
}

/// Inserting into an ordered sequence adds the fragment and keeps the order.
proof fn lemma_insert_by_index(s: Seq<(u32, u16, u16, u32, Seq<u8>)>, x: (u32, u16, u16, u32, Seq<u8>))
    requires
        ordered_by_index(s),
    ensures
        insert_by_index(s, x).to_multiset() =~= s.to_multiset().insert(x),
        ordered_by_index(insert_by_index(s, x)),
    decreases s.len(),
{
    broadcast use vstd::seq_lib::group_to_multiset_ensures;
    broadcast use vstd::multiset::group_multiset_axioms;

    if s.len() == 0 {
        assert(Seq::<(u32, u16, u16, u32, Seq<u8>)>::empty().push(x) =~= seq![x]);
        assert(s =~= Seq::<(u32, u16, u16, u32, Seq<u8>)>::empty());
    } else if s.last().1 <= x.1 {
        let r = s.push(x);
        assert forall|i: int, j: int| 0 <= i <= j < r.len() implies #[trigger] r[i].1 <= #[trigger] r[j].1 by {
            if j == s.len() {
                if i < s.len() {
                    assert(s[i].1 <= s[s.len() - 1].1);
                }
            } else {
                assert(s[i].1 <= s[j].1);
            }
        }
    } else {
        let d = s.drop_last();
        let last = s.last();
        assert forall|i: int, j: int| 0 <= i <= j < d.len() implies #[trigger] d[i].1 <= #[trigger] d[j].1 by {
            assert(s[i].1 <= s[j].1);
        }
        lemma_insert_by_index(d, x);
        let r0 = insert_by_index(d, x);
        let r = r0.push(last);
        assert(d.push(last) =~= s);
        assert(r.to_multiset() =~= s.to_multiset().insert(x));
        assert forall|k: int| 0 <= k < r0.len() implies #[trigger] r0[k].1 <= last.1 by {
            assert(r0.contains(r0[k]));
            assert(r0.to_multiset().count(r0[k]) > 0);
            if r0[k] != x {
                assert(d.to_multiset().count(r0[k]) > 0);
                assert(d.contains(r0[k]));
                let m = choose|m: int| 0 <= m < d.len() && d[m] == r0[k];
                assert(s[m].1 <= s[s.len() - 1].1);
            }
        }
        assert forall|i: int, j: int| 0 <= i <= j < r.len() implies #[trigger] r[i].1 <= #[trigger] r[j].1 by {
            if j == r0.len() {
                if i < r0.len() {
                    assert(r0[i].1 <= last.1);
                }
            } else {
                assert(r0[i].1 <= r0[j].1);
            }
        }
    }
}

/// Sorting by index keeps the fragments and orders them.
proof fn lemma_sort_by_index(s: Seq<(u32, u16, u16, u32, Seq<u8>)>)
    ensures
        sort_by_index(s).to_multiset() =~= s.to_multiset(),
        ordered_by_index(sort_by_index(s)),
    decreases s.len(),
{
    broadcast use vstd::seq_lib::group_to_multiset_ensures;
    broadcast use vstd::multiset::group_multiset_axioms;

    if s.len() > 0 {
        let d = s.drop_last();
        lemma_sort_by_index(d);
        lemma_insert_by_index(sort_by_index(d), s.last());
        assert(d.push(s.last()) =~= s);
    }
}

/// An ordered sequence holding the same fragments as a sequence whose
/// indices strictly increase is that sequence.
proof fn lemma_ordered_unique(t: Seq<(u32, u16, u16, u32, Seq<u8>)>, s: Seq<(u32, u16, u16, u32, Seq<u8>)>)
    requires
        ordered_by_index(t),
        forall|i: int, j: int| 0 <= i < j < s.len() ==> #[trigger] s[i].1 < #[trigger] s[j].1,
        t.to_multiset() == s.to_multiset(),
    ensures
        t == s,
    decreases t.len(),
{
    broadcast use vstd::seq_lib::group_to_multiset_ensures;
    broadcast use vstd::multiset::group_multiset_axioms;

    vstd::seq_lib::to_multiset_len(t);
    vstd::seq_lib::to_multiset_len(s);
    assert(t.len() == s.len());
    if t.len() > 0 {
        assert(s.to_multiset().count(t[0]) > 0);
        assert(s.contains(t[0]));
        let i = choose|i: int| 0 <= i < s.len() && s[i] == t[0];
        assert(t.to_multiset().count(s[0]) > 0);
        assert(t.contains(s[0]));
        let j = choose|j: int| 0 <= j < t.len() && t[j] == s[0];
        assert(t[0].1 <= t[j].1);
        if i > 0 {
            assert(s[0].1 < s[i].1);
        }
        assert(i == 0);
        assert(t.remove(0) =~= t.drop_first());
        assert(s.remove(0) =~= s.drop_first());
        let td = t.drop_first();
        let sd = s.drop_first();
        assert forall|a: int, b: int| 0 <= a <= b < td.len() implies #[trigger] td[a].1 <= #[trigger] td[b].1 by {
            assert(t[a + 1].1 <= t[b + 1].1);
        }
        assert forall|a: int, b: int| 0 <= a < b < sd.len() implies #[trigger] sd[a].1 < #[trigger] sd[b].1 by {
            assert(s[a + 1].1 < s[b + 1].1);
        }
        lemma_ordered_unique(td, sd);
        assert forall|k: int| 0 <= k < t.len() implies t[k] == s[k] by {
            if k > 0 {
                assert(td[k - 1] == sd[k - 1]);
            }
        }
        assert(t =~= s);
    }
}

/// Fragments arriving in any order reassemble as they were split: any
/// sequence holding exactly the fragments of a non-empty payload of at most
/// 65535 fragments reassembles to that payload.
pub proof fn lemma_reassemble_any_order(
    data: Seq<u8>,
    seq_id: u32,
    frags: Seq<(u32, u16, u16, u32, Seq<u8>)>,
)
    requires
        0 < data.len() <= 65535 * MAX_PAYLOAD,
        frags.to_multiset() == split_spec(data, seq_id).to_multiset(),
    ensures
        reassemble_spec(frags) == Some(data),
{
    broadcast use vstd::seq_lib::group_to_multiset_ensures;

    let s = split_spec(data, seq_id);
    let n = fragment_count(data.len());
    assert(n <= 65535);
    lemma_split_reassemble(data, seq_id);
    assert forall|i: int, j: int| 0 <= i <= j < s.len() implies s[i].1 <= s[j].1 by {
        assert(s[i].1 == i as u16 && s[j].1 == j as u16);
    }
    lemma_sort_sorted(s);
    lemma_sort_by_index(frags);
    let t = sort_by_index(frags);
    assert forall|i: int, j: int| 0 <= i < j < s.len() implies #[trigger] s[i].1 < #[trigger] s[j].1 by {
        assert(s[i].1 == i as u16 && s[j].1 == j as u16);
    }
    lemma_ordered_unique(t, s);
    assert(frags.to_multiset().len() == s.to_multiset().len());
    assert(frags.len() == s.len());
}

/// Splitting into fragments and reassembling them.
pub struct Fragmenter;

impl Fragmenter {
    /// Splits a payload into `MAX_PAYLOAD`-byte fragments carrying the
    /// sequence id, their index, the fragment count and the payload's CRC32.
    /// Index and count are 16-bit.
    pub fn split(data: &[u8], sequence_id: u32) -> (r: Vec<Fragment>)
        ensures
            frag_views(r@) == split_spec(data@, sequence_id),
    {
        let len = data.len();
        let count: usize = if len == 0 { 0 } else { (len - 1) / MAX_PAYLOAD + 1 };
        let total = #[verifier::truncate] (count as u16);
        let mut fragments: Vec<Fragment> = Vec::new();
        let mut i: usize = 0;
        while i < count
            invariant
                len == data@.len(),
                count == fragment_count(len as nat),
                total == count as u16,
                i <= count,
                frag_views(fragments@) == split_spec(data@, sequence_id).subrange(0, i as int),
            decreases count - i,
        {
            proof {
                lemma_fragment_start(len as nat, i as nat);
            }
            let start = i * MAX_PAYLOAD;
            let end = if len - start >= MAX_PAYLOAD { start + MAX_PAYLOAD } else { len };
            let chunk = &data[start..end];
            let checksum = Self::crc32(chunk);
            let payload = vstd::slice::slice_to_vec(chunk);
            let ghost old_frags = fragments@;
            fragments.push(Fragment {
                sequence_id,
                fragment_index: #[verifier::truncate] (i as u16),
                total_fragments: total,
                checksum,
                payload,
            });
            proof {
                assert(fragments@.len() == old_frags.len() + 1);
                assert(frag_views(old_frags).len() == old_frags.len());
                assert(split_spec(data@, sequence_id).len() == count);
                assert(split_spec(data@, sequence_id).subrange(0, i as int).len() == i);
                assert(old_frags.len() == i);
                assert(chunk@ == fragment_payload(data@, i as int));
                let target = split_spec(data@, sequence_id).subrange(0, i + 1);
                assert(fragments@[i as int]@ == target[i as int]);
                assert forall|j: int| 0 <= j < i implies #[trigger] frag_views(fragments@)[j] == target[j] by {
                    assert(fragments@[j] == old_frags[j]);
                    assert(frag_views(old_frags)[j] == split_spec(data@, sequence_id).subrange(0, i as int)[j]);
                }
                assert(frag_views(fragments@) =~= target);
            }
            i = i + 1;
        }
        proof {
            assert(split_spec(data@, sequence_id).subrange(0, count as int) =~= split_spec(data@, sequence_id));
        }
        fragments
    }

    /// Reassembles fragments: sorts them by index (stably), checks the count
    /// announced by the first one and every checksum, and concatenates the
    /// payloads. `None` when the list is empty, a fragment is missing or
    /// repeated, or a checksum fails.
    pub fn reassemble(fragments: Vec<Fragment>) -> (r: Option<Vec<u8>>)
        ensures
            r matches Some(v) ==> reassemble_spec(frag_views(fragments@)) == Some(v@),
            r is None ==> reassemble_spec(frag_views(fragments@)) is None,
    {
        let ghost input = frag_views(fragments@);
        if fragments.len() == 0 {
            return None;
        }
        let sorted = Self::sort_fragments(fragments);
        let expected_total = sorted[0].total_fragments as usize;
        if sorted.len() != expected_total {
            return None;
        }
        let mut buffer: Vec<u8> = Vec::new();
        let mut i: usize = 0;
        while i < sorted.len()
            invariant
                i <= sorted@.len(),
                input.len() > 0,
                input == frag_views(fragments@),
                frag_views(sorted@) == sort_by_index(input),
                sorted@.len() == sorted@[0].total_fragments as int,
                indices_complete(frag_views(sorted@).subrange(0, i as int)),
                all_checksums_ok(frag_views(sorted@).subrange(0, i as int)),
                buffer@ == concat_payloads(frag_views(sorted@).subrange(0, i as int)),
            decreases sorted@.len() - i,
        {
            let frag = &sorted[i];
            if frag.fragment_index as usize != i {
                proof {
                    let v = frag_views(sorted@);
                    assert(v[i as int].1 == frag.fragment_index);
                    assert(!indices_complete(v));
                    assert(v[0].2 == sorted@[0].total_fragments);
                }
                return None;
            }
            let c = Self::crc32(frag.payload.as_slice());
            if c != frag.checksum {
                proof {
                    let v = frag_views(sorted@);
                    assert(v[i as int].4 == frag.payload@);
                    assert(v[i as int].3 == frag.checksum);
                    assert(crc32_spec(v[i as int].4) != v[i as int].3);
                    assert(!all_checksums_ok(v));
                    assert(v[0].2 == sorted@[0].total_fragments);
                    assert(v.len() == v[0].2 as int);
                    assert(sort_by_index(input) == v);
                }
                return None;
            }
            buffer.extend_from_slice(frag.payload.as_slice());
            proof {
                let v = frag_views(sorted@);
                assert(v.subrange(0, i + 1).drop_last() =~= v.subrange(0, i as int));
                assert forall|j: int| 0 <= j < i + 1 implies #[trigger] v.subrange(0, i + 1)[j].1 == j by {
                    if j < i {
                        assert(v.subrange(0, i + 1)[j] == v.subrange(0, i as int)[j]);
                    }
                }
                assert forall|j: int| 0 <= j < i + 1 implies crc32_spec(#[trigger] v.subrange(0, i + 1)[j].4)
                    == v.subrange(0, i + 1)[j].3 by {
                    if j < i {
                        assert(v.subrange(0, i + 1)[j] == v.subrange(0, i as int)[j]);
                    }
                }
            }
            i = i + 1;
        }
        proof {
            assert(frag_views(sorted@).subrange(0, i as int) =~= frag_views(sorted@));
        }
        Some(buffer)
    }

    /// Stable insertion sort by fragment index.
    fn sort_fragments(fragments: Vec<Fragment>) -> (r: Vec<Fragment>)
        ensures
            frag_views(r@) == sort_by_index(frag_views(fragments@)),
            r@.len() == fragments@.len(),
    {
        let n = fragments.len();
        let mut input = fragments;
        let ghost all = frag_views(input@);
        let mut result: Vec<Fragment> = Vec::new();
        let mut done: usize = 0;
        while input.len() > 0
            invariant
                done + input@.len() == all.len(),
                all.len() == n,
                result@.len() == done,
                frag_views(input@) == all.subrange(done as int, all.len() as int),
                frag_views(result@) == sort_by_index(all.subrange(0, done as int)),
            decreases input@.len(),
        {
            let ghost before = input@;
            let x = input.remove(0);
            let ghost xv = x@;
            proof {
                assert(frag_views(before)[0] == xv);
                assert(all[done as int] == frag_views(before)[0]);
            }
            let key = x.fragment_index;
            let mut p = result.len();
            let ghost rs = frag_views(result@);
            proof {
                assert(rs.subrange(0, p as int) =~= rs);
                assert(rs.subrange(p as int, rs.len() as int) =~= Seq::<(u32, u16, u16, u32, Seq<u8>)>::empty());
                assert(insert_by_index(rs, xv) =~= insert_by_index(rs.subrange(0, p as int), xv) + rs.subrange(p as int, rs.len() as int));
            }
            while p > 0 && result[p - 1].fragment_index > key
                invariant
                    p <= result@.len(),
                    frag_views(result@) == rs,
                    insert_by_index(rs, xv) == insert_by_index(rs.subrange(0, p as int), xv) + rs.subrange(
                        p as int,
                        rs.len() as int,
                    ),
                    xv.1 == key,
                decreases p,
            {
                proof {
                    let pre = rs.subrange(0, p as int);
                    assert(pre.last() == rs[p - 1]);
                    assert(pre.drop_last() =~= rs.subrange(0, p - 1));
                    assert(rs.subrange(p - 1, rs.len() as int) =~= seq![rs[p - 1]] + rs.subrange(p as int, rs.len() as int));
                    assert(insert_by_index(pre, xv) == insert_by_index(pre.drop_last(), xv).push(pre.last()));
                    assert(insert_by_index(rs.subrange(0, p as int), xv) + rs.subrange(p as int, rs.len() as int)
                        =~= insert_by_index(rs.subrange(0, p - 1), xv) + rs.subrange(p - 1, rs.len() as int));
                }
                p = p - 1;
            }
            proof {
                let pre = rs.subrange(0, p as int);
                if p > 0 {
                    assert(pre.last() == rs[p - 1]);
                    assert(insert_by_index(pre, xv) == pre.push(xv));
                } else {
                    assert(pre =~= Seq::<(u32, u16, u16, u32, Seq<u8>)>::empty());
                    assert(insert_by_index(pre, xv) == seq![xv]);
                }
            }
            result.insert(p, x);
            proof {
                assert(frag_views(result@) =~= rs.subrange(0, p as int).push(xv) + rs.subrange(p as int, rs.len() as int));
                let pre_all = all.subrange(0, done + 1);
                assert(pre_all.drop_last() =~= all.subrange(0, done as int));
                assert(pre_all[done as int] == all[done as int]);
                assert(pre_all.last() == xv);
                assert forall|k: int| 0 <= k < input@.len() implies #[trigger] frag_views(input@)[k] == all[done + 1 + k] by {
                    assert(input@[k] == before[k + 1]);
                    assert(frag_views(before)[k + 1] == all.subrange(done as int, all.len() as int)[k + 1]);
                }
                assert(frag_views(input@) =~= all.subrange(done + 1, all.len() as int));
            }
            done = done + 1;
        }
        proof {
            assert(all.subrange(0, done as int) =~= all);
        }
        result
    }

    /// CRC-32 (IEEE), bitwise.
    fn crc32(data: &[u8]) -> (c: u32)
        ensures
            c == crc32_spec(data@),
    {
        let mut crc: u32 = 0xFFFF_FFFF;
        let mut i: usize = 0;
        while i < data.len()
            invariant
                i <= data@.len(),
                crc == crc_state(data@, i as int),
            decreases data@.len() - i,
        {
            crc = crc ^ (data[i] as u32);
            let ghost start = crc;
            let mut k: u32 = 0;
            while k < 8
                invariant
                    k <= 8,
                    crc == crc_rounds(start, k as nat),
                decreases 8 - k,
            {
                if crc & 1 == 1 {
                    crc = (crc >> 1u32) ^ CRC32_POLY;
                } else {
                    crc = crc >> 1u32;
                }
                k = k + 1;
            }
            i = i + 1;
        }
        !crc
    }
}

} // verus!
