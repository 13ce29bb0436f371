//! Content-defined chunking with a Rabin-style rolling hash, and global
//! deduplication of the chunks by their 64-bit hash.
use vstd::prelude::*;
use vstd::arithmetic::div_mod::{
    lemma_add_mod_noop,
    lemma_mul_mod_noop_left,
    lemma_sub_mod_noop,
    lemma_mod_twice,
};
use vstd::wrapping::u64_specs;

verus! {

/// Multiplier of the rolling polynomial hash.
pub const RABIN_PRIME: u64 = 0x3DA3358B4DC173;

/// Width of the rolling window that `DedupEngine::chunk_data` uses.
pub const CHUNK_WINDOW: usize = 64;

/// 2^64, the modulus of all hash arithmetic.
pub open spec fn modulus() -> int {
    0x1_0000_0000_0000_0000
}

/// `RABIN_PRIME` to the power `n`, over the integers.
pub open spec fn prime_pow(n: nat) -> int
    decreases n,
{
    if n == 0 {
        1
    } else {
        prime_pow((n - 1) as nat) * RABIN_PRIME
    }
}

/// Polynomial value of a byte sequence: the oldest byte has the highest power.
pub open spec fn poly(s: Seq<u8>) -> int
    decreases s.len(),
{
    if s.len() == 0 {
        0
    } else {
        poly(s.drop_last()) * RABIN_PRIME + s.last() as int
    }
}

/// The rolling hash of a window: its polynomial value modulo 2^64.
pub open spec fn window_hash(s: Seq<u8>) -> u64 {
    (poly(s) % modulus()) as u64
}

/// The last `w` bytes of `s` (all of `s` when it is shorter).
pub open spec fn last_window(s: Seq<u8>, w: nat) -> Seq<u8> {
    if s.len() <= w {
        s
    } else {
        s.subrange(s.len() - w, s.len() as int)
    }
}

/// The window after feeding one byte: appended while the window is not
/// full, otherwise the oldest byte drops out.
pub open spec fn window_step(c: Seq<u8>, w: nat, b: u8) -> Seq<u8> {
    if c.len() < w {
        c.push(b)
    } else {
        c.drop_first().push(b)
    }
}

/// The window after feeding `bytes` one by one to an empty window of `w`
/// bytes (a new or reset rolling hash).
pub open spec fn fed_window(w: nat, bytes: Seq<u8>) -> Seq<u8>
    decreases bytes.len(),
{
    if bytes.len() == 0 {
        Seq::empty()
    } else {
        window_step(fed_window(w, bytes.drop_last()), w, bytes.last())
    }
}

/// Rolling hash over the last `window_size` bytes fed since the last reset.
pub struct RollingHash {
    window_size: usize,
    hash: u64,
    window: Vec<u8>,
    position: usize,
    pow: u64,
    prime: u64,
}

impl RollingHash {
    /// Number of bytes the window holds.
    pub closed spec fn spec_window_size(&self) -> nat {
        self.window_size as nat
    }

    /// The window's bytes, oldest first.
    pub closed spec fn contents(&self) -> Seq<u8> {
        if self.window@.len() < self.window_size {
            self.window@
        } else {
            self.window@.subrange(self.position as int, self.window@.len() as int)
                + self.window@.subrange(0, self.position as int)
        }
    }

    /// The current hash value.
    pub closed spec fn spec_hash(&self) -> u64 {
        self.hash
    }

    /// Internal consistency: the hash is the polynomial hash of the window.
    pub closed spec fn wf(&self) -> bool {
        &&& self.window@.len() <= self.window_size
        &&& self.window@.len() < self.window_size ==> self.position == 0
        &&& (self.window@.len() == self.window_size && self.window_size > 0) ==> self.position < self.window_size
        &&& self.prime == RABIN_PRIME
        &&& self.pow as int == prime_pow(self.window_size as nat) % modulus()
        &&& self.hash == window_hash(self.contents())
    }

    /// An empty rolling hash over windows of `window_size` bytes.
    pub fn new(window_size: usize) -> (r: Self)
        ensures
            r.wf(),
            r.spec_window_size() == window_size,
            r.contents() == Seq::<u8>::empty(),
            r.spec_hash() == 0,
    {
        let prime: u64 = RABIN_PRIME;
        let mut pow: u64 = 1;
        let mut k: usize = 0;
        while k < window_size
            invariant
                k <= window_size,
                pow as int == prime_pow(k as nat) % modulus(),
            decreases window_size - k,
        {
            proof {
                lemma_pow_step(pow, k as nat);
            }
            pow = pow.wrapping_mul(RABIN_PRIME);
            k = k + 1;
        }
        let r = RollingHash {
            window_size,
            hash: 0,
            window: Vec::with_capacity(window_size),
            position: 0,
            pow,
            prime,
        };
        proof {
            assert(r.contents() =~= Seq::<u8>::empty());
            assert(poly(Seq::<u8>::empty()) == 0);
        }
        r
    }

    /// Feeds one byte and returns the hash of the updated window.
    pub fn update(&mut self, byte: u8) -> (h: u64)
        requires
            old(self).wf(),
            old(self).spec_window_size() > 0,
        ensures
            final(self).wf(),
            final(self).spec_window_size() == old(self).spec_window_size(),
            final(self).contents() == window_step(old(self).contents(), old(self).spec_window_size(), byte),
            h == final(self).spec_hash(),
            h == window_hash(final(self).contents()),
    {
        let ghost old_contents = self.contents();
        let ghost m = modulus();
        if self.window.len() < self.window_size {
            self.window.push(byte);
            proof {
                assert(self.contents() =~= old_contents.push(byte));
                assert(old_contents.push(byte).drop_last() =~= old_contents);
                lemma_mul_mod_noop_left(poly(old_contents), RABIN_PRIME as int, m);
                lemma_add_mod_noop(poly(old_contents) * RABIN_PRIME, byte as int, m);
                lemma_mod_twice(poly(old_contents) * RABIN_PRIME, m);
                lemma_small_byte_mod(byte);
            }
            self.hash = self.hash.wrapping_mul(self.prime).wrapping_add(byte as u64);
        } else {
            let old_byte = self.window[self.position];
            let ghost pos = self.position as int;
            let ghost w = self.window@;
            let ghost ws = self.window_size as int;
            proof {
                assert(old_contents =~= w.subrange(pos, ws) + w.subrange(0, pos));
            }
            self.window.set(self.position, byte);
            let shifted = self.hash.wrapping_mul(self.prime);
            let removed = (old_byte as u64).wrapping_mul(self.pow);
            self.hash = shifted.wrapping_sub(removed).wrapping_add(byte as u64);
            self.position = (self.position + 1) % self.window_size;
            proof {
                let rest = old_contents.drop_first();
                assert(old_contents =~= seq![old_byte] + rest);
                assert(rest =~= w.subrange(pos + 1, ws) + w.subrange(0, pos));
                let nw = self.window@;
                assert(nw =~= w.update(pos, byte));
                if pos + 1 == ws {
                    vstd::arithmetic::div_mod::lemma_mod_self_0(ws);
                    assert(self.position == 0);
                    assert(self.contents() =~= nw.subrange(0, ws));
                    assert(self.contents() =~= rest.push(byte));
                } else {
                    vstd::arithmetic::div_mod::lemma_small_mod((pos + 1) as nat, ws as nat);
                    assert(self.position == pos + 1);
                    assert(self.contents() =~= nw.subrange(pos + 1, ws) + nw.subrange(0, pos + 1));
                    assert(self.contents() =~= rest.push(byte));
                }
                lemma_poly_prepend(old_byte, rest);
                assert(rest.push(byte).drop_last() =~= rest);
                lemma_rolling_step(poly(old_contents), poly(rest), old_byte, byte, self.window_size as nat);
            }
        }
        self.hash
    }

    /// Forgets all bytes fed so far.
    pub fn reset(&mut self)
        requires
            old(self).wf(),
        ensures
            final(self).wf(),
            final(self).spec_window_size() == old(self).spec_window_size(),
            final(self).contents() == Seq::<u8>::empty(),
            final(self).spec_hash() == 0,
    {
        self.hash = 0;
        self.window.clear();
        self.position = 0;
        proof {
            assert(poly(Seq::<u8>::empty()) == 0);
        }
    }

    /// The current hash value.
    pub fn hash(&self) -> (h: u64)
        ensures
            h == self.spec_hash(),
    {
        self.hash
    }
}

proof fn lemma_pow_step(pow: u64, k: nat)
    requires
        pow as int == prime_pow(k) % modulus(),
    ensures
        u64_specs::wrapping_mul(pow, RABIN_PRIME) as int == prime_pow(k + 1) % modulus(),
{
    lemma_mul_mod_noop_left(prime_pow(k), RABIN_PRIME as int, modulus());
    assert(prime_pow(k + 1) == prime_pow(k) * RABIN_PRIME);
}

proof fn lemma_small_byte_mod(b: u8)
    ensures
        (b as int) % modulus() == b as int,
{
}

/// Prepending a byte adds it at the highest power.
pub proof fn lemma_poly_prepend(x: u8, r: Seq<u8>)
    ensures
        poly(seq![x] + r) == x as int * prime_pow(r.len()) + poly(r),
    decreases r.len(),
{
    let s = seq![x] + r;
    if r.len() == 0 {
        assert(s.drop_last() =~= Seq::<u8>::empty());
        assert(s.last() == x);
        assert(poly(Seq::<u8>::empty()) == 0);
        assert(prime_pow(0) == 1);
    } else {
        assert(s.drop_last() =~= seq![x] + r.drop_last());
        assert(s.last() == r.last());
        lemma_poly_prepend(x, r.drop_last());
        assert(prime_pow(r.len()) == prime_pow((r.len() - 1) as nat) * RABIN_PRIME);
        assert((x as int * prime_pow((r.len() - 1) as nat) + poly(r.drop_last())) * RABIN_PRIME
            == x as int * (prime_pow((r.len() - 1) as nat) * RABIN_PRIME) + poly(r.drop_last()) * RABIN_PRIME)
            by (nonlinear_arith);
    }
}

/// One rolling step in modular arithmetic: dropping the oldest byte and
/// appending a new one.
proof fn lemma_rolling_step(p_old: int, p_rest: int, old_byte: u8, byte: u8, w: nat)
    requires
        w > 0,
        p_old == old_byte as int * prime_pow((w - 1) as nat) + p_rest,
    ensures
        u64_specs::wrapping_add(
            u64_specs::wrapping_sub(
                u64_specs::wrapping_mul((p_old % modulus()) as u64, RABIN_PRIME),
                u64_specs::wrapping_mul(old_byte as u64, (prime_pow(w) % modulus()) as u64),
            ),
            byte as u64,
        ) as int == (p_rest * RABIN_PRIME + byte as int) % modulus(),
{
    let m = modulus();
    let a = p_old * RABIN_PRIME;
    let b = old_byte as int * prime_pow(w);
    assert(prime_pow(w) == prime_pow((w - 1) as nat) * RABIN_PRIME);
    assert(a - b == p_rest * RABIN_PRIME) by (nonlinear_arith)
        requires
            a == p_old * RABIN_PRIME,
            b == old_byte as int * (prime_pow((w - 1) as nat) * RABIN_PRIME),
            p_old == old_byte as int * prime_pow((w - 1) as nat) + p_rest,
    ;
    lemma_mul_mod_noop_left(p_old, RABIN_PRIME as int, m);
    let x = ((p_old % m) * RABIN_PRIME) % m;
    assert(x == a % m);
    lemma_mul_mod_noop_left(prime_pow(w), old_byte as int, m);
    assert((prime_pow(w) % m) * old_byte as int == old_byte as int * (prime_pow(w) % m)) by (nonlinear_arith);
    assert(prime_pow(w) * old_byte as int == old_byte as int * prime_pow(w)) by (nonlinear_arith);
    let y = (old_byte as int * (prime_pow(w) % m)) % m;
    assert(y == b % m);
    let sub = if x - y < 0 { x - y + m } else { x - y };
    lemma_sub_mod_noop(a, b, m);
    assert(sub == (a - b) % m);
    lemma_add_mod_noop(a - b, byte as int, m);
    lemma_mod_twice(a - b, m);
    lemma_small_byte_mod(byte);
}

/// Content-defined chunk boundary rule.
pub struct ChunkBoundaryDetector {
    mask: u64,
    min_size: usize,
    max_size: usize,
}

/// Number of bits below the highest set bit: floor(log2(n)) for n >= 1, 0 for 0.
pub open spec fn floor_log2(n: u64) -> nat
    decreases n,
{
    if n <= 1 {
        0
    } else {
        1 + floor_log2(n / 2)
    }
}

/// The boundary decision for a hash and the current chunk size.
pub open spec fn boundary_rule(mask: u64, min_size: int, max_size: int, hash: u64, size: int) -> bool {
    if size >= max_size {
        true
    } else if size < min_size {
        false
    } else {
        hash & mask == 0
    }
}

impl ChunkBoundaryDetector {
    /// Mask applied to the hash.
    pub closed spec fn spec_mask(&self) -> u64 {
        self.mask
    }

    /// Smallest chunk that may end at a content boundary.
    pub closed spec fn spec_min_size(&self) -> int {
        self.min_size as int
    }

    /// Size at which a chunk is cut regardless of content.
    pub closed spec fn spec_max_size(&self) -> int {
        self.max_size as int
    }

    /// A detector aiming at chunks of `avg_chunk_size` bytes on average:
    /// the mask has floor(log2(avg)) low bits set, chunks are cut between a
    /// quarter and four times the average.
    pub fn new(avg_chunk_size: usize) -> (d: Self)
        requires
            avg_chunk_size <= usize::MAX / 4,
        ensures
            d.spec_mask() as int == vstd::arithmetic::power2::pow2(floor_log2(avg_chunk_size as u64)) - 1,
            d.spec_min_size() == avg_chunk_size / 4,
            d.spec_max_size() == avg_chunk_size * 4,
    {
        let bits = log2_floor(avg_chunk_size as u64);
        let mask = low_bits_mask(bits);
        ChunkBoundaryDetector { mask, min_size: avg_chunk_size / 4, max_size: avg_chunk_size * 4 }
    }

    /// Whether a chunk of `current_size` bytes ending with rolling hash
    /// `hash` ends here.
    pub fn is_boundary(&self, hash: u64, current_size: usize) -> (b: bool)
        ensures
            b == boundary_rule(self.spec_mask(), self.spec_min_size(), self.spec_max_size(), hash, current_size as int),
    {
        if current_size >= self.max_size {
            return true;
        }
        if current_size < self.min_size {
            return false;
        }
        (hash & self.mask) == 0
    }
}

/// floor(log2(n)) for n >= 1, and 0 for n == 0.
fn log2_floor(n: u64) -> (r: u32)
    ensures
        r as nat == floor_log2(n),
        r < 64,
{
    proof {
        vstd::arithmetic::power2::lemma2_to64();
        lemma_floor_log2_bound(n, 64);
    }
    let mut v = n;
    let mut r: u32 = 0;
    while v > 1
        invariant
            r as nat + floor_log2(v) == floor_log2(n),
            r as nat + floor_log2(v) < 64,
        decreases v,
    {
        v = v / 2;
        r = r + 1;
    }
    r
}

/// A value below 2^k has floor(log2) below k.
proof fn lemma_floor_log2_bound(n: u64, k: nat)
    requires
        k >= 1,
        n < vstd::arithmetic::power2::pow2(k),
    ensures
        floor_log2(n) < k,
    decreases k,
{
    if n > 1 {
        vstd::arithmetic::power2::lemma_pow2_unfold(k);
        if k == 1 {
            vstd::arithmetic::power2::lemma2_to64();
        } else {
            lemma_floor_log2_bound(n / 2, (k - 1) as nat);
        }
    }
}

/// The u64 with the low `bits` bits set.
fn low_bits_mask(bits: u32) -> (m: u64)
    requires
        bits < 64,
    ensures
        m as int == vstd::arithmetic::power2::pow2(bits as nat) - 1,
{
    proof {
        vstd::arithmetic::power2::lemma2_to64();
    }
    let mut m: u64 = 0;
    let mut k: u32 = 0;
    while k < bits
        invariant
            k <= bits < 64,
            m as int == vstd::arithmetic::power2::pow2(k as nat) - 1,
        decreases bits - k,
    {
        proof {
            vstd::arithmetic::power2::lemma_pow2_unfold((k + 1) as nat);
            vstd::arithmetic::power2::lemma_pow2_strictly_increases((k + 1) as nat, 64);
            vstd::arithmetic::power2::lemma2_to64();
        }
        m = m * 2 + 1;
        k = k + 1;
    }
    m
}


/// Whether the chunk that started at `c` ends after byte `i`: the rolling
/// hash over the last `CHUNK_WINDOW` bytes of `data[c..=i]` meets the rule.
pub open spec fn cut_after(data: Seq<u8>, c: int, i: int, mask: u64, min_size: int, max_size: int) -> bool {
    boundary_rule(
        mask,
        min_size,
        max_size,
        window_hash(last_window(data.subrange(c, i + 1), CHUNK_WINDOW as nat)),
        i - c + 1,
    )
}

/// The chunks of `data` that a scan produces when the current chunk starts
/// at `c` and bytes `c..i` have been examined without a cut.
pub open spec fn chunks_from(data: Seq<u8>, c: int, i: int, mask: u64, min_size: int, max_size: int) -> Seq<(int, int)>
    decreases data.len() - i,
{
    if i >= data.len() || i < 0 {
        if 0 <= c < data.len() {
            seq![(c, data.len() as int)]
        } else {
            Seq::empty()
        }
    } else if cut_after(data, c, i, mask, min_size, max_size) {
        seq![(c, i + 1)] + chunks_from(data, i + 1, i + 1, mask, min_size, max_size)
    } else {
        chunks_from(data, c, i + 1, mask, min_size, max_size)
    }
}

/// Content-defined chunks of `data` under a detector: half-open byte ranges.
pub open spec fn chunk_plan(data: Seq<u8>, mask: u64, min_size: int, max_size: int) -> Seq<(int, int)> {
    chunks_from(data, 0, 0, mask, min_size, max_size)
}

/// `s` lists non-empty half-open ranges that follow one another from `a` to `b`.
pub open spec fn tiles(s: Seq<(int, int)>, a: int, b: int) -> bool
    decreases s.len(),
{
    if s.len() == 0 {
        a == b
    } else {
        &&& s[0].0 == a
        &&& s[0].0 < s[0].1
        &&& tiles(s.drop_first(), s[0].1, b)
    }
}

/// The ranges as integers.
pub open spec fn ranges_view(v: Seq<(usize, usize)>) -> Seq<(int, int)> {
    v.map_values(|p: (usize, usize)| (p.0 as int, p.1 as int))
}

/// The scan from any intermediate state tiles the rest of the data.
proof fn lemma_chunks_from_tiles(data: Seq<u8>, c: int, i: int, mask: u64, min_size: int, max_size: int)
    requires
        0 <= c <= i <= data.len(),
    ensures
        tiles(chunks_from(data, c, i, mask, min_size, max_size), c, data.len() as int),
    decreases data.len() - i,
{
    let s = chunks_from(data, c, i, mask, min_size, max_size);
    if i >= data.len() {
        if c < data.len() {
            assert(s.drop_first() =~= Seq::<(int, int)>::empty());
            assert(tiles(s.drop_first(), data.len() as int, data.len() as int));
        }
    } else if cut_after(data, c, i, mask, min_size, max_size) {
        lemma_chunks_from_tiles(data, i + 1, i + 1, mask, min_size, max_size);
        let rest = chunks_from(data, i + 1, i + 1, mask, min_size, max_size);
        assert(s.drop_first() =~= rest);
        assert(s[0] == (c, i + 1));
    } else {
        lemma_chunks_from_tiles(data, c, i + 1, mask, min_size, max_size);
    }
}

/// Every chunk a scan cuts is at most `max_size` bytes long, provided the
/// chunk in progress is still shorter than that.
proof fn lemma_chunks_from_short(data: Seq<u8>, c: int, i: int, mask: u64, min_size: int, max_size: int)
    requires
        0 <= c <= i <= data.len(),
        i - c < max_size,
    ensures
        forall|q: int|
            0 <= q < chunks_from(data, c, i, mask, min_size, max_size).len() ==> #[trigger] chunks_from(
                data,
                c,
                i,
                mask,
                min_size,
                max_size,
            )[q].1 - chunks_from(data, c, i, mask, min_size, max_size)[q].0 <= max_size,
    decreases data.len() - i,
{
    let s = chunks_from(data, c, i, mask, min_size, max_size);
    if i >= data.len() {
        if c < data.len() {
            assert(s == seq![(c, data.len() as int)]);
            assert(s[0].1 - s[0].0 <= max_size);
        } else {
            assert(s.len() == 0);
        }
    } else if cut_after(data, c, i, mask, min_size, max_size) {
        lemma_chunks_from_short(data, i + 1, i + 1, mask, min_size, max_size);
        let rest = chunks_from(data, i + 1, i + 1, mask, min_size, max_size);
        assert(s == seq![(c, i + 1)] + rest);
        assert forall|q: int| 0 <= q < s.len() implies #[trigger] s[q].1 - s[q].0 <= max_size by {
            if q > 0 {
                assert(s[q] == rest[q - 1]);
            } else {
                assert(s[0] == (c, i + 1));
            }
        }
    } else {
        assert(i - c + 1 < max_size);
        lemma_chunks_from_short(data, c, i + 1, mask, min_size, max_size);
        assert(s == chunks_from(data, c, i + 1, mask, min_size, max_size));
    }
}

/// Content-defined chunks are never longer than the detector's maximum.
pub proof fn lemma_chunk_plan_short(data: Seq<u8>, mask: u64, min_size: int, max_size: int)
    requires
        max_size > 0,
    ensures
        forall|q: int|
            0 <= q < chunk_plan(data, mask, min_size, max_size).len() ==> #[trigger] chunk_plan(
                data,
                mask,
                min_size,
                max_size,
            )[q].1 - chunk_plan(data, mask, min_size, max_size)[q].0 <= max_size,
{
    lemma_chunks_from_short(data, 0, 0, mask, min_size, max_size);
}

/// Content-defined chunking covers the input: the chunks are non-empty,
/// consecutive, start at 0 and end at the data's length.
pub proof fn lemma_chunk_plan_tiles(data: Seq<u8>, mask: u64, min_size: int, max_size: int)
    ensures
        tiles(chunk_plan(data, mask, min_size, max_size), 0, data.len() as int),
{
    lemma_chunks_from_tiles(data, 0, 0, mask, min_size, max_size);
}

/// The last `w` bytes after appending one byte.
proof fn lemma_last_window_push(s: Seq<u8>, b: u8, w: nat)
    requires
        w > 0,
    ensures
        last_window(s.push(b), w) == if last_window(s, w).len() < w {
            last_window(s, w).push(b)
        } else {
            last_window(s, w).drop_first().push(b)
        },
{
    if s.len() < w {
        assert(last_window(s.push(b), w) =~= s.push(b));
    } else if s.len() == w {
        assert(last_window(s.push(b), w) =~= s.drop_first().push(b));
    } else {
        assert(last_window(s.push(b), w) =~= last_window(s, w).drop_first().push(b));
    }
}

/// Feeding a byte string to a new or reset rolling hash leaves exactly its
/// last `w` bytes in the window, so the hash `update` returns last is the
/// hash of those bytes: two strings ending in the same `w` bytes give the
/// same hash, and a reset rolling hash answers any string as a new one does.
pub proof fn lemma_fed_window_is_last_bytes(w: nat, bytes: Seq<u8>)
    requires
        w > 0,
    ensures
        fed_window(w, bytes) == last_window(bytes, w),
        window_hash(fed_window(w, bytes)) == window_hash(last_window(bytes, w)),
    decreases bytes.len(),
{
    if bytes.len() > 0 {
        let d = bytes.drop_last();
        lemma_fed_window_is_last_bytes(w, d);
        lemma_last_window_push(d, bytes.last(), w);
        assert(d.push(bytes.last()) =~= bytes);
    } else {
        assert(last_window(bytes, w) =~= Seq::<u8>::empty());
    }
}

/// A rolling hash holding the last `w` bytes of what it was fed still does
/// after one more `update`, and its hash is then the hash of those bytes
/// alone. From an empty window (new or reset), the hash therefore depends
/// only on the last `w` bytes fed.
pub proof fn lemma_update_keeps_last_window(before: &RollingHash, after: &RollingHash, fed: Seq<u8>, b: u8)
    requires
        before.wf(),
        after.wf(),
        before.spec_window_size() > 0,
        before.contents() == last_window(fed, before.spec_window_size()),
        after.spec_window_size() == before.spec_window_size(),
        after.contents() == if before.contents().len() < before.spec_window_size() {
            before.contents().push(b)
        } else {
            before.contents().drop_first().push(b)
        },
    ensures
        after.contents() == last_window(fed.push(b), after.spec_window_size()),
        after.spec_hash() == window_hash(last_window(fed.push(b), after.spec_window_size())),
{
    lemma_last_window_push(fed, b, before.spec_window_size());
}

/// Two rolling hashes holding the same window bytes have the same hash; in
/// particular a reset rolling hash and a new one agree.
pub proof fn lemma_hash_depends_on_window(a: &RollingHash, b: &RollingHash)
    requires
        a.wf(),
        b.wf(),
        a.contents() == b.contents(),
    ensures
        a.spec_hash() == b.spec_hash(),
{
}

/// How one chunk of a deduplicated stream is represented.
#[derive(Clone, Debug)]
pub enum DedupReference {
    /// A chunk seen for the first time; its bytes are stored under `chunk_id`.
    New { hash: u64, chunk_id: u32, size: usize },
    /// A chunk whose bytes were stored before.
    Existing { hash: u64, size: usize },
}

/// The references for the chunks of one input, and the bytes of the chunks
/// seen for the first time, in order.
pub struct DedupResult {
    pub references: Vec<DedupReference>,
    pub unique_data: Vec<Vec<u8>>,
    pub original_size: usize,
}

/// Number of references to chunk hash `h`.
pub open spec fn count_refs(refs: Seq<DedupReference>, h: u64) -> nat
    decreases refs.len(),
{
    if refs.len() == 0 {
        0
    } else {
        count_refs(refs.drop_last(), h) + match refs.last() {
            DedupReference::New { hash, .. } => if hash == h { 1nat } else { 0nat },
            DedupReference::Existing { hash, .. } => if hash == h { 1nat } else { 0nat },
        }
    }
}

/// The deduplication of the first `k` chunks of `plan` over `data`, given the
/// hashes already `known` and the id `base` of the next new chunk: the
/// references, the hashes known afterwards, the bytes and start offsets of
/// the chunks seen for the first time.
pub open spec fn dedup_plan(data: Seq<u8>, plan: Seq<(int, int)>, k: int, known: Set<u64>, base: int) -> (
    Seq<DedupReference>,
    Set<u64>,
    Seq<Seq<u8>>,
    Seq<int>,
)
    decreases k,
{
    if k <= 0 {
        (Seq::empty(), known, Seq::empty(), Seq::empty())
    } else {
        let prev = dedup_plan(data, plan, k - 1, known, base);
        let bytes = data.subrange(plan[k - 1].0, plan[k - 1].1);
        let h = xxhash64_spec(bytes);
        let size = (plan[k - 1].1 - plan[k - 1].0) as usize;
        if prev.1.contains(h) {
            (prev.0.push(DedupReference::Existing { hash: h, size }), prev.1, prev.2, prev.3)
        } else {
            (
                prev.0.push(DedupReference::New { hash: h, chunk_id: (base + prev.2.len()) as u32, size }),
                prev.1.insert(h),
                prev.2.push(bytes),
                prev.3.push(plan[k - 1].0),
            )
        }
    }
}

/// The hash of chunk `j` of a plan.
pub open spec fn plan_chunk_hash(data: Seq<u8>, plan: Seq<(int, int)>, j: int) -> u64 {
    xxhash64_spec(data.subrange(plan[j].0, plan[j].1))
}

/// After the first `k` chunks the known hashes include the ones known before
/// and the hash of each of those chunks.
proof fn lemma_plan_learns_hashes(data: Seq<u8>, plan: Seq<(int, int)>, k: int, known: Set<u64>, base: int)
    ensures
        known.subset_of(dedup_plan(data, plan, k, known, base).1),
        forall|j: int| 0 <= j < k ==> dedup_plan(data, plan, k, known, base).1.contains(#[trigger] plan_chunk_hash(data, plan, j)),
    decreases k,
{
    if k > 0 {
        lemma_plan_learns_hashes(data, plan, k - 1, known, base);
        let prev = dedup_plan(data, plan, k - 1, known, base);
        let cur = dedup_plan(data, plan, k, known, base);
        assert(prev.1.subset_of(cur.1));
        assert(cur.1.contains(plan_chunk_hash(data, plan, k - 1)));
    }
}

/// When every chunk's hash is known already, deduplication finds only
/// existing chunks, stores nothing and learns nothing.
proof fn lemma_plan_all_known(data: Seq<u8>, plan: Seq<(int, int)>, k: int, known: Set<u64>, base: int)
    requires
        forall|j: int| 0 <= j < k ==> known.contains(#[trigger] plan_chunk_hash(data, plan, j)),
    ensures
        dedup_plan(data, plan, k, known, base).1 == known,
        dedup_plan(data, plan, k, known, base).2.len() == 0,
        dedup_plan(data, plan, k, known, base).0.len() == if k > 0 { k } else { 0 },
        forall|i: int|
            0 <= i < dedup_plan(data, plan, k, known, base).0.len() ==> #[trigger] dedup_plan(
                data,
                plan,
                k,
                known,
                base,
            ).0[i] is Existing,
    decreases k,
{
    if k > 0 {
        lemma_plan_all_known(data, plan, k - 1, known, base);
        assert(known.contains(plan_chunk_hash(data, plan, k - 1)));
    }
}

/// A run refers to any hash at most once per chunk, and there are at most
/// as many chunks as bytes.
pub proof fn lemma_run_refs_bound(e: DedupEngine, data: Seq<u8>, h: u64)
    ensures
        count_refs(e.dedup_run(data).0, h) <= e.spec_plan(data).len() <= data.len(),
        e.dedup_run(data).2.len() <= e.spec_plan(data).len(),
{
    let plan = e.spec_plan(data);
    lemma_plan_hashes_known(data, plan, plan.len() as int, e.known(), e.stored().len() as int);
    lemma_new_chunks_le_len(data, plan, plan.len() as int, e.known(), e.stored().len() as int);
    lemma_count_refs_le_len(e.dedup_run(data).0, h);
    lemma_chunk_plan_tiles(
        data,
        (vstd::arithmetic::power2::pow2(floor_log2(e.spec_target() as u64)) - 1) as u64,
        (e.spec_target() / 4) as int,
        e.spec_target() * 4,
    );
    lemma_tiles_len(plan, 0, data.len() as int);
}

/// At most one new chunk per chunk.
proof fn lemma_new_chunks_le_len(data: Seq<u8>, plan: Seq<(int, int)>, k: int, known: Set<u64>, base: int)
    requires
        k >= 0,
    ensures
        dedup_plan(data, plan, k, known, base).2.len() <= k,
    decreases k,
{
    if k > 0 {
        lemma_new_chunks_le_len(data, plan, k - 1, known, base);
    }
}

/// Deduplicating the same data a second time stores nothing new: after the
/// first pass every chunk's hash is known, so the second pass refers only to
/// existing chunks and leaves the known hashes as they were.
pub proof fn lemma_second_pass_stores_nothing(
    data: Seq<u8>,
    plan: Seq<(int, int)>,
    known: Set<u64>,
    base: int,
    base2: int,
)
    ensures
        ({
            let first = dedup_plan(data, plan, plan.len() as int, known, base);
            let second = dedup_plan(data, plan, plan.len() as int, first.1, base2);
            &&& second.2.len() == 0
            &&& second.1 == first.1
            &&& second.0.len() == plan.len()
            &&& forall|i: int| 0 <= i < second.0.len() ==> #[trigger] second.0[i] is Existing
        }),
{
    let first = dedup_plan(data, plan, plan.len() as int, known, base);
    lemma_plan_learns_hashes(data, plan, plan.len() as int, known, base);
    lemma_plan_all_known(data, plan, plan.len() as int, first.1, base2);
}

/// Sum of the lengths of byte sequences.
pub open spec fn total_len(s: Seq<Seq<u8>>) -> int
    decreases s.len(),
{
    if s.len() == 0 {
        0
    } else {
        total_len(s.drop_last()) + s.last().len()
    }
}

/// The global deduplication engine.
pub struct DedupEngine {
    chunks: Vec<DedupChunk>,
    index: std::collections::HashMap<u64, usize>,
    chunk_size_target: usize,
    total_original: u64,
    total_unique: u64,
    next_chunk_id: u32,
}

/// A stored unique chunk with its hash and how often it was referenced.
#[derive(Clone, Debug)]
pub struct DedupChunk {
    pub hash: u64,
    pub data: Vec<u8>,
    pub ref_count: usize,
    pub first_offset: u64,
}

/// How recording one chunk of bytes `bytes`, found at stream position `at`,
/// changes the engine, and which reference it yields.
pub open spec fn ingest_post(e0: DedupEngine, e1: DedupEngine, bytes: Seq<u8>, at: u64, r: DedupReference) -> bool {
    let h = xxhash64_spec(bytes);
    let n = e0.stored().len();
    &&& e1.spec_total_original() == e0.spec_total_original() + bytes.len()
    &&& if e0.known().contains(h) {
        &&& r == DedupReference::Existing { hash: h, size: bytes.len() as usize }
        &&& e1.known() == e0.known()
        &&& e1.spec_total_unique() == e0.spec_total_unique()
        &&& e1.stored().len() == n
        &&& forall|i: int|
            #![trigger e1.stored()[i]]
            0 <= i < n ==> {
                &&& e1.stored()[i].hash == e0.stored()[i].hash
                &&& e1.stored()[i].data@ == e0.stored()[i].data@
                &&& e1.stored()[i].first_offset == e0.stored()[i].first_offset
                &&& e1.stored()[i].ref_count == e0.stored()[i].ref_count + if e0.stored()[i].hash == h {
                    1int
                } else {
                    0int
                }
            }
    } else {
        &&& r == DedupReference::New { hash: h, chunk_id: n as u32, size: bytes.len() as usize }
        &&& e1.known() == e0.known().insert(h)
        &&& e1.spec_total_unique() == e0.spec_total_unique() + bytes.len()
        &&& e1.stored().len() == n + 1
        &&& forall|i: int|
            #![trigger e1.stored()[i]]
            0 <= i < n ==> {
                &&& e1.stored()[i].hash == e0.stored()[i].hash
                &&& e1.stored()[i].data@ == e0.stored()[i].data@
                &&& e1.stored()[i].first_offset == e0.stored()[i].first_offset
                &&& e1.stored()[i].ref_count == e0.stored()[i].ref_count
            }
        &&& e1.stored()[n as int].hash == h
        &&& e1.stored()[n as int].data@ == bytes
        &&& e1.stored()[n as int].first_offset == at
        &&& e1.stored()[n as int].ref_count == 1
    }
}

/// The engine `e` after deduplicating the first `k` chunks of `plan`,
/// starting from stored chunks `old_chunks` with known hashes `known0`.
pub open spec fn dedup_progress(
    e: DedupEngine,
    data: Seq<u8>,
    plan: Seq<(int, int)>,
    k: int,
    known0: Set<u64>,
    old_chunks: Seq<DedupChunk>,
    offset: u64,
    uniq0: u64,
) -> bool {
    let n = old_chunks.len() as int;
    let res = dedup_plan(data, plan, k, known0, n);
    &&& e.known() == res.1
    &&& e.spec_total_unique() == uniq0 + total_len(res.2)
    &&& e.stored().len() == n + res.2.len()
    &&& forall|i: int|
        #![trigger e.stored()[i]]
        0 <= i < n ==> {
            &&& e.stored()[i].hash == old_chunks[i].hash
            &&& e.stored()[i].data@ == old_chunks[i].data@
            &&& e.stored()[i].first_offset == old_chunks[i].first_offset
            &&& e.stored()[i].ref_count == old_chunks[i].ref_count + count_refs(res.0, old_chunks[i].hash)
        }
    &&& forall|j: int|
        #![trigger e.stored()[n + j]]
        0 <= j < res.2.len() ==> {
            &&& e.stored()[n + j].data@ == res.2[j]
            &&& e.stored()[n + j].hash == xxhash64_spec(res.2[j])
            &&& e.stored()[n + j].first_offset == offset + res.3[j]
            &&& e.stored()[n + j].ref_count == count_refs(res.0, xxhash64_spec(res.2[j]))
        }
}

/// The deduplication plan after one more chunk, in terms of the plan before.
pub(crate) proof fn lemma_plan_step(data: Seq<u8>, plan: Seq<(int, int)>, k: int, known0: Set<u64>, n: int)
    requires
        0 <= k < plan.len(),
    ensures
        ({
            let prev = dedup_plan(data, plan, k, known0, n);
            let nxt = dedup_plan(data, plan, k + 1, known0, n);
            let bytes = data.subrange(plan[k].0, plan[k].1);
            let h = xxhash64_spec(bytes);
            let size = (plan[k].1 - plan[k].0) as usize;
            if prev.1.contains(h) {
                &&& nxt.0 == prev.0.push(DedupReference::Existing { hash: h, size })
                &&& nxt.1 == prev.1
                &&& nxt.2 == prev.2
                &&& nxt.3 == prev.3
            } else {
                &&& nxt.0 == prev.0.push(DedupReference::New { hash: h, chunk_id: (n + prev.2.len()) as u32, size })
                &&& nxt.1 == prev.1.insert(h)
                &&& nxt.2 == prev.2.push(bytes)
                &&& nxt.3 == prev.3.push(plan[k].0)
            }
        }),
{
}

/// A step on a chunk whose hash is already known.
#[verifier::spinoff_prover]
proof fn lemma_step_existing(
    e0: DedupEngine,
    e1: DedupEngine,
    n: int,
    old_chunks: Seq<DedupChunk>,
    prev0: Seq<DedupReference>,
    nxt0: Seq<DedupReference>,
    fresh: Seq<Seq<u8>>,
    starts: Seq<int>,
    offset: u64,
    h: u64,
    r: DedupReference,
)
    requires
        n == old_chunks.len(),
        nxt0 == prev0.push(r),
        r matches DedupReference::Existing { hash, .. } && hash == h,
        e0.stored().len() == n + fresh.len(),
        e1.stored().len() == e0.stored().len(),
        forall|i: int|
            #![trigger e1.stored()[i]]
            0 <= i < e0.stored().len() ==> {
                &&& e1.stored()[i].hash == e0.stored()[i].hash
                &&& e1.stored()[i].data@ == e0.stored()[i].data@
                &&& e1.stored()[i].first_offset == e0.stored()[i].first_offset
                &&& e1.stored()[i].ref_count == e0.stored()[i].ref_count + if e0.stored()[i].hash == h {
                    1int
                } else {
                    0int
                }
            },
        forall|i: int|
            #![trigger e0.stored()[i]]
            0 <= i < n ==> {
                &&& e0.stored()[i].hash == old_chunks[i].hash
                &&& e0.stored()[i].data@ == old_chunks[i].data@
                &&& e0.stored()[i].first_offset == old_chunks[i].first_offset
                &&& e0.stored()[i].ref_count == old_chunks[i].ref_count + count_refs(prev0, old_chunks[i].hash)
            },
        forall|j: int|
            #![trigger e0.stored()[n + j]]
            0 <= j < fresh.len() ==> {
                &&& e0.stored()[n + j].data@ == fresh[j]
                &&& e0.stored()[n + j].hash == xxhash64_spec(fresh[j])
                &&& e0.stored()[n + j].first_offset == offset + starts[j]
                &&& e0.stored()[n + j].ref_count == count_refs(prev0, xxhash64_spec(fresh[j]))
            },
    ensures
        forall|i: int|
            #![trigger e1.stored()[i]]
            0 <= i < n ==> {
                &&& e1.stored()[i].hash == old_chunks[i].hash
                &&& e1.stored()[i].data@ == old_chunks[i].data@
                &&& e1.stored()[i].first_offset == old_chunks[i].first_offset
                &&& e1.stored()[i].ref_count == old_chunks[i].ref_count + count_refs(nxt0, old_chunks[i].hash)
            },
        forall|j: int|
            #![trigger e1.stored()[n + j]]
            0 <= j < fresh.len() ==> {
                &&& e1.stored()[n + j].data@ == fresh[j]
                &&& e1.stored()[n + j].hash == xxhash64_spec(fresh[j])
                &&& e1.stored()[n + j].first_offset == offset + starts[j]
                &&& e1.stored()[n + j].ref_count == count_refs(nxt0, xxhash64_spec(fresh[j]))
            },
{
    lemma_count_refs_push(prev0, r);
    assert forall|i: int| #![trigger e1.stored()[i]] 0 <= i < n implies {
        &&& e1.stored()[i].hash == old_chunks[i].hash
        &&& e1.stored()[i].data@ == old_chunks[i].data@
        &&& e1.stored()[i].first_offset == old_chunks[i].first_offset
        &&& e1.stored()[i].ref_count == old_chunks[i].ref_count + count_refs(nxt0, old_chunks[i].hash)
    } by {
        let x = old_chunks[i].hash;
        assert(e0.stored()[i].hash == x);
        assert(count_refs(nxt0, x) == count_refs(prev0, x) + if x == h { 1nat } else { 0nat });
    }
    assert forall|j: int| #![trigger e1.stored()[n + j]] 0 <= j < fresh.len() implies {
        &&& e1.stored()[n + j].data@ == fresh[j]
        &&& e1.stored()[n + j].hash == xxhash64_spec(fresh[j])
        &&& e1.stored()[n + j].first_offset == offset + starts[j]
        &&& e1.stored()[n + j].ref_count == count_refs(nxt0, xxhash64_spec(fresh[j]))
    } by {
        let x = xxhash64_spec(fresh[j]);
        assert(e0.stored()[n + j].hash == x);
        assert(e1.stored()[n + j].hash == e0.stored()[n + j].hash);
        assert(count_refs(nxt0, x) == count_refs(prev0, x) + if x == h { 1nat } else { 0nat });
    }
}

/// A step on a chunk whose hash was not known.
#[verifier::spinoff_prover]
proof fn lemma_step_new(
    e0: DedupEngine,
    e1: DedupEngine,
    n: int,
    old_chunks: Seq<DedupChunk>,
    prev0: Seq<DedupReference>,
    nxt0: Seq<DedupReference>,
    fresh: Seq<Seq<u8>>,
    starts: Seq<int>,
    offset: u64,
    bytes: Seq<u8>,
    start: int,
    r: DedupReference,
)
    requires
        n == old_chunks.len(),
        nxt0 == prev0.push(r),
        r matches DedupReference::New { hash, .. } && hash == xxhash64_spec(bytes),
        count_refs(prev0, xxhash64_spec(bytes)) == 0,
        forall|i: int| 0 <= i < n ==> old_chunks[i].hash != xxhash64_spec(bytes),
        forall|j: int| 0 <= j < fresh.len() ==> xxhash64_spec(fresh[j]) != xxhash64_spec(bytes),
        fresh.len() == starts.len(),
        e0.stored().len() == n + fresh.len(),
        e1.stored().len() == e0.stored().len() + 1,
        forall|i: int|
            #![trigger e1.stored()[i]]
            0 <= i < e0.stored().len() ==> {
                &&& e1.stored()[i].hash == e0.stored()[i].hash
                &&& e1.stored()[i].data@ == e0.stored()[i].data@
                &&& e1.stored()[i].first_offset == e0.stored()[i].first_offset
                &&& e1.stored()[i].ref_count == e0.stored()[i].ref_count
            },
        e1.stored()[e0.stored().len() as int].hash == xxhash64_spec(bytes),
        e1.stored()[e0.stored().len() as int].data@ == bytes,
        e1.stored()[e0.stored().len() as int].first_offset == offset + start,
        e1.stored()[e0.stored().len() as int].ref_count == 1,
        forall|i: int|
            #![trigger e0.stored()[i]]
            0 <= i < n ==> {
                &&& e0.stored()[i].hash == old_chunks[i].hash
                &&& e0.stored()[i].data@ == old_chunks[i].data@
                &&& e0.stored()[i].first_offset == old_chunks[i].first_offset
                &&& e0.stored()[i].ref_count == old_chunks[i].ref_count + count_refs(prev0, old_chunks[i].hash)
            },
        forall|j: int|
            #![trigger e0.stored()[n + j]]
            0 <= j < fresh.len() ==> {
                &&& e0.stored()[n + j].data@ == fresh[j]
                &&& e0.stored()[n + j].hash == xxhash64_spec(fresh[j])
                &&& e0.stored()[n + j].first_offset == offset + starts[j]
                &&& e0.stored()[n + j].ref_count == count_refs(prev0, xxhash64_spec(fresh[j]))
            },
    ensures
        forall|i: int|
            #![trigger e1.stored()[i]]
            0 <= i < n ==> {
                &&& e1.stored()[i].hash == old_chunks[i].hash
                &&& e1.stored()[i].data@ == old_chunks[i].data@
                &&& e1.stored()[i].first_offset == old_chunks[i].first_offset
                &&& e1.stored()[i].ref_count == old_chunks[i].ref_count + count_refs(nxt0, old_chunks[i].hash)
            },
        forall|j: int|
            #![trigger e1.stored()[n + j]]
            0 <= j < fresh.push(bytes).len() ==> {
                &&& e1.stored()[n + j].data@ == fresh.push(bytes)[j]
                &&& e1.stored()[n + j].hash == xxhash64_spec(fresh.push(bytes)[j])
                &&& e1.stored()[n + j].first_offset == offset + starts.push(start)[j]
                &&& e1.stored()[n + j].ref_count == count_refs(nxt0, xxhash64_spec(fresh.push(bytes)[j]))
            },
{
    let h = xxhash64_spec(bytes);
    lemma_count_refs_push(prev0, r);
    assert forall|i: int| #![trigger e1.stored()[i]] 0 <= i < n implies {
        &&& e1.stored()[i].hash == old_chunks[i].hash
        &&& e1.stored()[i].data@ == old_chunks[i].data@
        &&& e1.stored()[i].first_offset == old_chunks[i].first_offset
        &&& e1.stored()[i].ref_count == old_chunks[i].ref_count + count_refs(nxt0, old_chunks[i].hash)
    } by {
        let x = old_chunks[i].hash;
        assert(e0.stored()[i].hash == x);
        assert(count_refs(nxt0, x) == count_refs(prev0, x));
    }
    assert forall|j: int| #![trigger e1.stored()[n + j]] 0 <= j < fresh.push(bytes).len() implies {
        &&& e1.stored()[n + j].data@ == fresh.push(bytes)[j]
        &&& e1.stored()[n + j].hash == xxhash64_spec(fresh.push(bytes)[j])
        &&& e1.stored()[n + j].first_offset == offset + starts.push(start)[j]
        &&& e1.stored()[n + j].ref_count == count_refs(nxt0, xxhash64_spec(fresh.push(bytes)[j]))
    } by {
        if j < fresh.len() {
            let x = xxhash64_spec(fresh[j]);
            assert(e0.stored()[n + j].hash == x);
            assert(count_refs(nxt0, x) == count_refs(prev0, x));
        } else {
            assert(count_refs(nxt0, h) == count_refs(prev0, h) + 1);
        }
    }
}

/// One recorded chunk advances the deduplication by one step.
proof fn lemma_progress_step(
    e0: DedupEngine,
    e1: DedupEngine,
    data: Seq<u8>,
    plan: Seq<(int, int)>,
    k: int,
    known0: Set<u64>,
    old_chunks: Seq<DedupChunk>,
    offset: u64,
    uniq0: u64,
    r: DedupReference,
)
    requires
        0 <= k < plan.len(),
        0 <= plan[k].0 <= plan[k].1 <= data.len(),
        known0.subset_of(e0.known()),
        forall|i: int| 0 <= i < old_chunks.len() ==> known0.contains(#[trigger] old_chunks[i].hash),
        dedup_progress(e0, data, plan, k, known0, old_chunks, offset, uniq0),
        ingest_post(e0, e1, data.subrange(plan[k].0, plan[k].1), (offset + plan[k].0) as u64, r),
        offset + data.len() <= u64::MAX,
    ensures
        dedup_progress(e1, data, plan, k + 1, known0, old_chunks, offset, uniq0),
        dedup_plan(data, plan, k + 1, known0, old_chunks.len() as int).0 == dedup_plan(
            data,
            plan,
            k,
            known0,
            old_chunks.len() as int,
        ).0.push(r),
        known0.subset_of(e1.known()),
{
    let n = old_chunks.len() as int;
    let prev = dedup_plan(data, plan, k, known0, n);
    let nxt = dedup_plan(data, plan, k + 1, known0, n);
    let bytes = data.subrange(plan[k].0, plan[k].1);
    let h = xxhash64_spec(bytes);
    lemma_plan_hashes_known(data, plan, k, known0, n);
    lemma_plan_step(data, plan, k, known0, n);
    if prev.1.contains(h) {
        lemma_step_existing(e0, e1, n, old_chunks, prev.0, nxt.0, prev.2, prev.3, offset, h, r);
    } else {
        assert forall|i: int| 0 <= i < n implies old_chunks[i].hash != h by {
            assert(known0.contains(old_chunks[i].hash));
        }
        assert forall|j: int| 0 <= j < prev.2.len() implies xxhash64_spec(prev.2[j]) != h by {
            assert(prev.1.contains(xxhash64_spec(prev.2[j])));
        }
        lemma_step_new(e0, e1, n, old_chunks, prev.0, nxt.0, prev.2, prev.3, offset, bytes, plan[k].0, r);
        assert(nxt.2.drop_last() =~= prev.2);
    }
}

impl DedupEngine {
    /// The average chunk size the engine aims at.
    pub closed spec fn spec_target(&self) -> usize {
        self.chunk_size_target
    }

    /// The unique chunks stored so far, in the order they were first seen.
    pub closed spec fn stored(&self) -> Seq<DedupChunk> {
        self.chunks@
    }

    /// The hashes of the stored chunks.
    pub closed spec fn known(&self) -> Set<u64> {
        self.index@.dom()
    }

    /// Bytes fed to the engine so far.
    pub closed spec fn spec_total_original(&self) -> u64 {
        self.total_original
    }

    /// Bytes of the unique chunks stored so far.
    pub closed spec fn spec_total_unique(&self) -> u64 {
        self.total_unique
    }

    /// Internal consistency: the index maps each stored hash to its chunk,
    /// hashes are distinct, ids are dense, counters bound each other.
    pub closed spec fn wf(&self) -> bool {
        &&& self.next_chunk_id as int == self.chunks@.len()
        &&& forall|i: int|
            0 <= i < self.chunks@.len() ==> #[trigger] self.index@.contains_key(self.chunks@[i].hash)
                && self.index@[self.chunks@[i].hash] == i
        &&& forall|h: u64|
            #[trigger] self.index@.contains_key(h) ==> self.index@[h] < self.chunks@.len()
                && self.chunks@[self.index@[h] as int].hash == h
        &&& forall|i: int|
            0 <= i < self.chunks@.len() ==> #[trigger] self.chunks@[i].ref_count <= self.total_original
        &&& forall|i: int|
            0 <= i < self.chunks@.len() ==> #[trigger] self.chunks@[i].hash == xxhash64_spec(self.chunks@[i].data@)
        &&& self.total_unique <= self.total_original
    }

    /// An empty engine aiming at chunks of `avg_chunk_size` bytes.
    pub fn new(avg_chunk_size: usize) -> (e: Self)
        ensures
            e.wf(),
            e.spec_target() == avg_chunk_size,
            e.stored() == Seq::<DedupChunk>::empty(),
            e.known() == Set::<u64>::empty(),
            e.spec_total_original() == 0,
            e.spec_total_unique() == 0,
    {
        let e = DedupEngine {
            chunks: Vec::new(),
            index: std::collections::HashMap::new(),
            chunk_size_target: avg_chunk_size,
            total_original: 0,
            total_unique: 0,
            next_chunk_id: 0,
        };
        proof {
            assert(e.index@.dom() =~= Set::<u64>::empty());
        }
        e
    }

    /// Splits `data` into content-defined chunks `(start, end)` using a
    /// fresh rolling hash over a 64-byte window for every chunk.
    pub fn chunk_data(&self, data: &[u8]) -> (r: Vec<(usize, usize)>)
        requires
            self.spec_target() <= usize::MAX / 4,
        ensures
            ranges_view(r@) == chunk_plan(
                data@,
                (vstd::arithmetic::power2::pow2(floor_log2(self.spec_target() as u64)) - 1) as u64,
                (self.spec_target() / 4) as int,
                self.spec_target() * 4,
            ),
    {
        let mut boundaries: Vec<(usize, usize)> = Vec::new();
        let mut rolling = RollingHash::new(CHUNK_WINDOW);
        let detector = ChunkBoundaryDetector::new(self.chunk_size_target);
        let ghost mask = detector.spec_mask();
        let ghost lo = detector.spec_min_size();
        let ghost hi = detector.spec_max_size();
        let mut chunk_start: usize = 0;
        let mut i: usize = 0;
        while i < data.len()
            invariant
                0 <= chunk_start <= i <= data.len(),
                rolling.wf(),
                rolling.spec_window_size() == CHUNK_WINDOW,
                rolling.contents() == last_window(data@.subrange(chunk_start as int, i as int), CHUNK_WINDOW as nat),
                detector.spec_mask() == mask,
                detector.spec_min_size() == lo,
                detector.spec_max_size() == hi,
                ranges_view(boundaries@) + chunks_from(data@, chunk_start as int, i as int, mask, lo, hi)
                    == chunks_from(data@, 0, 0, mask, lo, hi),
            decreases data.len() - i,
        {
            let byte = data[i];
            proof {
                let cur = data@.subrange(chunk_start as int, i as int);
                assert(data@.subrange(chunk_start as int, i + 1) =~= cur.push(byte));
                lemma_last_window_push(cur, byte, CHUNK_WINDOW as nat);
            }
            let hash = rolling.update(byte);
            let chunk_size = i - chunk_start + 1;
            if detector.is_boundary(hash, chunk_size) {
                proof {
                    assert(ranges_view(boundaries@.push((chunk_start, (i + 1) as usize))) =~= ranges_view(boundaries@).push(
                        (chunk_start as int, i + 1),
                    ));
                    assert(ranges_view(boundaries@).push((chunk_start as int, i + 1)) + chunks_from(data@, i + 1, i + 1, mask, lo, hi)
                        =~= ranges_view(boundaries@) + chunks_from(data@, chunk_start as int, i as int, mask, lo, hi));
                }
                boundaries.push((chunk_start, i + 1));
                chunk_start = i + 1;
                rolling.reset();
                proof {
                    assert(data@.subrange(chunk_start as int, i + 1) =~= Seq::<u8>::empty());
                }
            }
            i = i + 1;
        }
        if chunk_start < data.len() {
            proof {
                assert(ranges_view(boundaries@.push((chunk_start, data.len()))) =~= ranges_view(boundaries@)
                    + chunks_from(data@, chunk_start as int, i as int, mask, lo, hi));
            }
            boundaries.push((chunk_start, data.len()));
        } else {
            proof {
                assert(ranges_view(boundaries@) =~= ranges_view(boundaries@) + chunks_from(
                    data@,
                    chunk_start as int,
                    i as int,
                    mask,
                    lo,
                    hi,
                ));
            }
        }
        boundaries
    }

    /// Records one chunk: a reference to the stored copy when its hash is
    /// known, otherwise a new stored chunk (and a copy of its bytes).
    fn ingest(&mut self, bytes: &[u8], at: u64) -> (r: (DedupReference, Option<Vec<u8>>))
        requires
            old(self).wf(),
            bytes@.len() >= 1,
            old(self).spec_total_original() + bytes@.len() <= u64::MAX,
            forall|i: int|
                0 <= i < old(self).stored().len() && #[trigger] old(self).stored()[i].hash == xxhash64_spec(bytes@)
                    ==> old(self).stored()[i].ref_count < usize::MAX,
            !old(self).known().contains(xxhash64_spec(bytes@)) ==> old(self).stored().len() < u32::MAX,
        ensures
            final(self).wf(),
            final(self).spec_target() == old(self).spec_target(),
            ingest_post(*old(self), *final(self), bytes@, at, r.0),
            !old(self).known().contains(xxhash64_spec(bytes@)) ==> (r.1 matches Some(v) && v@ == bytes@),
            old(self).known().contains(xxhash64_spec(bytes@)) ==> r.1 is None,
    {
        broadcast use vstd::std_specs::hash::group_hash_axioms;
        let chunk_hash = xxhash64(bytes);
        let size = bytes.len();
        self.total_original = self.total_original + size as u64;
        match self.index.get(&chunk_hash) {
            Some(idx_ref) => {
                let idx = *idx_ref;
                let rc = self.chunks[idx].ref_count;
                proof {
                    assert(self.chunks@[idx as int].hash == chunk_hash);
                    assert(old(self).stored()[idx as int].hash == xxhash64_spec(bytes@));
                }
                self.chunks[idx].ref_count = rc + 1;
                (DedupReference::Existing { hash: chunk_hash, size }, None)
            },
            None => {
                let chunk_id = self.next_chunk_id;
                self.next_chunk_id = self.next_chunk_id + 1;
                self.total_unique = self.total_unique + size as u64;
                let stored_bytes = vstd::slice::slice_to_vec(bytes);
                let fresh_bytes = vstd::slice::slice_to_vec(bytes);
                let pos = self.chunks.len();
                self.chunks.push(DedupChunk { hash: chunk_hash, data: stored_bytes, ref_count: 1, first_offset: at });
                self.index.insert(chunk_hash, pos);
                (DedupReference::New { hash: chunk_hash, chunk_id, size }, Some(fresh_bytes))
            },
        }
    }

    /// The chunks of `data` under this engine's target size.
    pub open spec fn spec_plan(&self, data: Seq<u8>) -> Seq<(int, int)> {
        chunk_plan(
            data,
            (vstd::arithmetic::power2::pow2(floor_log2(self.spec_target() as u64)) - 1) as u64,
            (self.spec_target() / 4) as int,
            self.spec_target() * 4,
        )
    }

    /// What deduplicating `data` next would give: the references, the
    /// known hashes afterwards, and the bytes and offsets of the new chunks.
    pub open spec fn dedup_run(&self, data: Seq<u8>) -> (Seq<DedupReference>, Set<u64>, Seq<Seq<u8>>, Seq<int>) {
        dedup_plan(data, self.spec_plan(data), self.spec_plan(data).len() as int, self.known(), self.stored().len() as int)
    }

    /// Chunks `data` and stores every chunk not seen before; returns the
    /// references of all chunks in order and the bytes of the new ones.
    /// `offset` is the stream position of `data[0]`.
    pub fn deduplicate(&mut self, data: &[u8], offset: u64) -> (r: DedupResult)
        requires
            old(self).wf(),
            old(self).spec_target() <= usize::MAX / 4,
            old(self).spec_total_original() + data@.len() <= u64::MAX,
            offset + data@.len() <= u64::MAX,
            old(self).stored().len() + old(self).dedup_run(data@).2.len() <= u32::MAX,
            forall|i: int|
                0 <= i < old(self).stored().len() ==> #[trigger] old(self).stored()[i].ref_count + count_refs(
                    old(self).dedup_run(data@).0,
                    old(self).stored()[i].hash,
                ) <= usize::MAX,
        ensures
            final(self).wf(),
            final(self).spec_target() == old(self).spec_target(),
            ({
                let plan = chunk_plan(
                    data@,
                    (vstd::arithmetic::power2::pow2(floor_log2(old(self).spec_target() as u64)) - 1) as u64,
                    (old(self).spec_target() / 4) as int,
                    old(self).spec_target() * 4,
                );
                let res = dedup_plan(data@, plan, plan.len() as int, old(self).known(), old(self).stored().len() as int);
                let n = old(self).stored().len();
                &&& r.references@ == res.0
                &&& r.unique_data@.map_values(|v: Vec<u8>| v@) == res.2
                &&& r.original_size == data@.len()
                &&& final(self).known() == res.1
                &&& final(self).spec_total_original() == old(self).spec_total_original() + data@.len()
                &&& final(self).spec_total_unique() == old(self).spec_total_unique() + total_len(res.2)
                &&& final(self).stored().len() == n + res.2.len()
                &&& forall|i: int|
                    #![trigger final(self).stored()[i]]
                    0 <= i < n ==> {
                        &&& final(self).stored()[i].hash == old(self).stored()[i].hash
                        &&& final(self).stored()[i].data@ == old(self).stored()[i].data@
                        &&& final(self).stored()[i].first_offset == old(self).stored()[i].first_offset
                        &&& final(self).stored()[i].ref_count == old(self).stored()[i].ref_count + count_refs(
                            res.0,
                            old(self).stored()[i].hash,
                        )
                    }
                &&& forall|j: int|
                    #![trigger final(self).stored()[n + j]]
                    0 <= j < res.2.len() ==> {
                        &&& final(self).stored()[n + j].data@ == res.2[j]
                        &&& final(self).stored()[n + j].hash == xxhash64_spec(res.2[j])
                        &&& final(self).stored()[n + j].first_offset == offset + res.3[j]
                        &&& final(self).stored()[n + j].ref_count == count_refs(res.0, xxhash64_spec(res.2[j]))
                    }
            }),
    {
        broadcast use vstd::std_specs::hash::group_hash_axioms;
        let chunks = self.chunk_data(data);
        let ghost plan = ranges_view(chunks@);
        let ghost known0 = self.known();
        let ghost n = self.chunks@.len();
        let ghost old_chunks = self.chunks@;
        let ghost orig0 = self.total_original;
        let ghost uniq0 = self.total_unique;
        proof {
            lemma_chunk_plan_tiles(
                data@,
                (vstd::arithmetic::power2::pow2(floor_log2(self.chunk_size_target as u64)) - 1) as u64,
                (self.chunk_size_target / 4) as int,
                self.chunk_size_target * 4,
            );
            lemma_tiles_facts(plan, 0, data@.len() as int);
        }
        let mut references: Vec<DedupReference> = Vec::new();
        let mut unique_data: Vec<Vec<u8>> = Vec::new();
        let mut k: usize = 0;
        proof {
            assert(unique_data@.map_values(|v: Vec<u8>| v@) =~= Seq::<Seq<u8>>::empty());
            assert(known0 =~= self.known());
            assert forall|i: int| 0 <= i < n implies known0.contains(#[trigger] old_chunks[i].hash) by {
                assert(self.index@.contains_key(old_chunks[i].hash));
            }
        }
        while k < chunks.len()
            invariant
                self.wf(),
                self.chunk_size_target == old(self).spec_target(),
                plan == ranges_view(chunks@),
                forall|q: int| 0 <= q < plan.len() ==> 0 <= #[trigger] plan[q].0 < plan[q].1 <= data@.len(),
                forall|q: int| 0 < q < plan.len() ==> #[trigger] plan[q].0 == plan[q - 1].1,
                plan.len() > 0 ==> plan[0].0 == 0 && plan[plan.len() - 1].1 == data@.len(),
                plan.len() == 0 ==> data@.len() == 0,
                k <= plan.len(),
                self.total_original == orig0 + if k == 0 { 0 } else { plan[k - 1].1 },
                k <= if k == 0 { 0 } else { plan[k - 1].1 },
                n == old_chunks.len(),
                self.chunks@.len() <= n + k,
                orig0 + data@.len() <= u64::MAX,
                plan.len() <= usize::MAX,
                forall|i: int|
                    0 <= i < n ==> #[trigger] old_chunks[i].ref_count + count_refs(
                        dedup_plan(data@, plan, plan.len() as int, known0, n as int).0,
                        old_chunks[i].hash,
                    ) <= usize::MAX,
                offset + data@.len() <= u64::MAX,
                n + dedup_plan(data@, plan, plan.len() as int, known0, n as int).2.len() <= u32::MAX,
                known0.subset_of(self.known()),
                forall|i: int| 0 <= i < n ==> known0.contains(#[trigger] old_chunks[i].hash),
                dedup_progress(*self, data@, plan, k as int, known0, old_chunks, offset, uniq0),
                references@ == dedup_plan(data@, plan, k as int, known0, n as int).0,
                unique_data@.map_values(|v: Vec<u8>| v@) == dedup_plan(data@, plan, k as int, known0, n as int).2,
            decreases chunks.len() - k,
        {
            let (start, end) = chunks[k];
            proof {
                assert(plan[k as int] == (start as int, end as int));
                if k > 0 {
                    assert(plan[k as int].0 == plan[k - 1].1);
                }
                lemma_plan_hashes_known(data@, plan, k as int, known0, n as int);
                lemma_new_chunks_grow(data@, plan, k + 1, plan.len() as int, known0, n as int);
            }
            let chunk_bytes = &data[start..end];
            proof {
                assert(chunk_bytes@ == data@.subrange(plan[k as int].0, plan[k as int].1));
                let h = plan_chunk_hash(data@, plan, k as int);
                let prev = dedup_plan(data@, plan, k as int, known0, n as int);
                assert(h == xxhash64_spec(chunk_bytes@));
                lemma_refs_grow(data@, plan, k as int, plan.len() as int, known0, n as int, h);
                lemma_count_refs_le_len(prev.0, h);
                assert forall|i: int|
                    0 <= i < self.stored().len() && #[trigger] self.stored()[i].hash == xxhash64_spec(chunk_bytes@)
                        implies self.stored()[i].ref_count < usize::MAX by {
                    if i < n {
                        assert(self.stored()[i].hash == old_chunks[i].hash);
                        assert(old_chunks[i].ref_count + count_refs(
                            dedup_plan(data@, plan, plan.len() as int, known0, n as int).0,
                            old_chunks[i].hash,
                        ) <= usize::MAX);
                    } else {
                        let j = i - n;
                        assert(self.stored()[n + j].ref_count == count_refs(prev.0, xxhash64_spec(prev.2[j])));
                        assert(self.stored()[n + j].hash == xxhash64_spec(prev.2[j]));
                    }
                }
            }
            let ghost e0 = *self;
            let ghost prev = dedup_plan(data@, plan, k as int, known0, n as int);
            let (reference, fresh) = self.ingest(chunk_bytes, offset + start as u64);
            proof {
                lemma_progress_step(e0, *self, data@, plan, k as int, known0, old_chunks, offset, uniq0, reference);
            }
            references.push(reference);
            match fresh {
                Some(bytes) => {
                    unique_data.push(bytes);
                },
                None => {},
            }
            proof {
                let nxt = dedup_plan(data@, plan, k + 1, known0, n as int);
                assert(unique_data@.map_values(|v: Vec<u8>| v@) =~= nxt.2);
            }
            k = k + 1;
        }
        proof {
            let res = dedup_plan(data@, plan, k as int, known0, n as int);
            assert(k == plan.len());
        }
        DedupResult { references, unique_data, original_size: data.len() }
    }

    /// Serializes the index: the magic `DEDP`, the chunk count (u32 LE),
    /// then per stored chunk its hash (u64 LE), length (u32 LE), reference
    /// count (u64 LE) and first offset (u64 LE), in the order the chunks were
    /// first seen.
    pub fn serialize_index(&self) -> (r: Vec<u8>)
        requires
            self.wf(),
        ensures
            r@ == seq![0x44u8, 0x45u8, 0x44u8, 0x50u8] + le_u32_bytes(self.stored().len() as u32) + index_entries(self.stored()),
            r@.len() == 8 + 28 * self.stored().len(),
    {
        let mut buffer: Vec<u8> = Vec::new();
        buffer.push(0x44u8);
        buffer.push(0x45u8);
        buffer.push(0x44u8);
        buffer.push(0x50u8);
        push_u32_le(&mut buffer, self.chunks.len() as u32);
        let ghost header = buffer@;
        let mut i: usize = 0;
        while i < self.chunks.len()
            invariant
                i <= self.chunks@.len(),
                buffer@ == header + index_entries(self.chunks@.subrange(0, i as int)),
            decreases self.chunks@.len() - i,
        {
            let c = &self.chunks[i];
            push_u64_le(&mut buffer, c.hash);
            push_u32_le(&mut buffer, c.data.len() as u32);
            push_u64_le(&mut buffer, c.ref_count as u64);
            push_u64_le(&mut buffer, c.first_offset);
            proof {
                let s = self.chunks@.subrange(0, i + 1);
                assert(s.drop_last() =~= self.chunks@.subrange(0, i as int));
                assert(buffer@ =~= header + index_entries(s));
            }
            i = i + 1;
        }
        proof {
            assert(self.chunks@.subrange(0, i as int) =~= self.chunks@);
            lemma_index_entries_len(self.chunks@);
        }
        buffer
    }

    /// Number of stored unique chunks.
    pub fn total_chunks(&self) -> (n: usize)
        ensures
            n == self.stored().len(),
    {
        self.chunks.len()
    }

    /// Bytes fed to the engine so far.
    pub fn total_original_bytes(&self) -> (n: u64)
        ensures
            n == self.spec_total_original(),
    {
        self.total_original
    }

    /// Bytes of the unique chunks stored so far.
    pub fn total_unique_bytes(&self) -> (n: u64)
        ensures
            n == self.spec_total_unique(),
    {
        self.total_unique
    }

    /// Average size of a stored chunk (0 when nothing is stored).
    pub fn avg_chunk_size(&self) -> (n: u64)
        ensures
            n == if self.stored().len() == 0 { 0 } else { self.spec_total_unique() / (self.stored().len() as u64) },
    {
        if self.chunks.len() == 0 {
            0
        } else {
            self.total_unique / (self.chunks.len() as u64)
        }
    }
}


pub const XX_PRIME1: u64 = 0x9E3779B185EBCA87;
pub const XX_PRIME2: u64 = 0xC2B2AE3D27D4EB4F;
pub const XX_PRIME3: u64 = 0x165667B19E3779F9;
pub const XX_PRIME5: u64 = 0x27D4EB2F165667C5;

/// Left rotation of a 64-bit word by `r` bits, 0 < r < 64.
pub open spec fn rotl(x: u64, r: u64) -> u64 {
    (x << r) | (x >> (64 - r) as u64)
}

/// The little-endian 64-bit word at byte offset `off` of `s`.
pub open spec fn le_word(s: Seq<u8>, off: int) -> u64 {
    (s[off] as u64) | ((s[off + 1] as u64) << 8u64) | ((s[off + 2] as u64) << 16u64) | ((s[off + 3] as u64) << 24u64)
        | ((s[off + 4] as u64) << 32u64) | ((s[off + 5] as u64) << 40u64) | ((s[off + 6] as u64) << 48u64)
        | ((s[off + 7] as u64) << 56u64)
}

/// Mixing of one 8-byte word into the hash state.
pub open spec fn xx_word_step(h: u64, k: u64) -> u64 {
    u64_specs::wrapping_mul(rotl(h ^ u64_specs::wrapping_mul(k, XX_PRIME2), 31), XX_PRIME1)
}

/// Mixing of one trailing byte into the hash state.
pub open spec fn xx_byte_step(h: u64, b: u8) -> u64 {
    u64_specs::wrapping_mul(rotl(h ^ u64_specs::wrapping_mul(b as u64, XX_PRIME5), 11), XX_PRIME1)
}

/// The state after mixing the first `n` whole words of `data`.
pub open spec fn xx_words(data: Seq<u8>, n: int) -> u64
    decreases n,
{
    if n <= 0 {
        u64_specs::wrapping_add(XX_PRIME5, data.len() as u64)
    } else {
        xx_word_step(xx_words(data, n - 1), le_word(data, 8 * (n - 1)))
    }
}

/// The state after the whole words and the first `n` trailing bytes.
pub open spec fn xx_tail(data: Seq<u8>, n: int) -> u64
    decreases n,
{
    if n <= 0 {
        xx_words(data, (data.len() / 8) as int)
    } else {
        xx_byte_step(xx_tail(data, n - 1), data[8 * (data.len() / 8) + n - 1])
    }
}

/// Final avalanche of the hash state.
pub open spec fn xx_avalanche(h0: u64) -> u64 {
    let h1 = h0 ^ (h0 >> 33u64);
    let h2 = u64_specs::wrapping_mul(h1, XX_PRIME2);
    let h3 = h2 ^ (h2 >> 29u64);
    let h4 = u64_specs::wrapping_mul(h3, XX_PRIME3);
    h4 ^ (h4 >> 32u64)
}

/// The 64-bit chunk hash of a byte sequence.
pub open spec fn xxhash64_spec(data: Seq<u8>) -> u64 {
    xx_avalanche(xx_tail(data, (data.len() % 8) as int))
}

/// Fast 64-bit hash of a byte slice (word-at-a-time, then byte-at-a-time,
/// then a final avalanche).
pub fn xxhash64(data: &[u8]) -> (h: u64)
    ensures
        h == xxhash64_spec(data@),
{
    let len = data.len();
    let nwords = len / 8;
    let mut hash: u64 = XX_PRIME5.wrapping_add(len as u64);
    let mut k: usize = 0;
    while k < nwords
        invariant
            len == data@.len(),
            nwords == len / 8,
            k <= nwords,
            hash == xx_words(data@, k as int),
        decreases nwords - k,
    {
        let off = 8 * k;
        let w: u64 = (data[off] as u64) | ((data[off + 1] as u64) << 8u64) | ((data[off + 2] as u64) << 16u64)
            | ((data[off + 3] as u64) << 24u64) | ((data[off + 4] as u64) << 32u64) | ((data[off + 5] as u64) << 40u64)
            | ((data[off + 6] as u64) << 48u64) | ((data[off + 7] as u64) << 56u64);
        let x = hash ^ w.wrapping_mul(XX_PRIME2);
        hash = ((x << 31u64) | (x >> 33u64)).wrapping_mul(XX_PRIME1);
        k = k + 1;
    }
    let base = 8 * nwords;
    let mut j: usize = 0;
    while j < len % 8
        invariant
            len == data@.len(),
            nwords == len / 8,
            base == 8 * nwords,
            j <= len % 8,
            hash == xx_tail(data@, j as int),
        decreases len % 8 - j,
    {
        let b = data[base + j];
        let x = hash ^ (b as u64).wrapping_mul(XX_PRIME5);
        hash = ((x << 11u64) | (x >> 53u64)).wrapping_mul(XX_PRIME1);
        j = j + 1;
    }
    hash = hash ^ (hash >> 33u64);
    hash = hash.wrapping_mul(XX_PRIME2);
    hash = hash ^ (hash >> 29u64);
    hash = hash.wrapping_mul(XX_PRIME3);
    hash = hash ^ (hash >> 32u64);
    hash
}

/// Facts about tiling ranges: bounds, adjacency, first start and last end.
pub(crate) proof fn lemma_tiles_facts(s: Seq<(int, int)>, a: int, b: int)
    requires
        tiles(s, a, b),
    ensures
        forall|q: int| 0 <= q < s.len() ==> a <= #[trigger] s[q].0 < s[q].1 <= b,
        forall|q: int| 0 < q < s.len() ==> #[trigger] s[q].0 == s[q - 1].1,
        s.len() > 0 ==> s[0].0 == a && s[s.len() - 1].1 == b,
        s.len() == 0 ==> a == b,
        a <= b,
    decreases s.len(),
{
    if s.len() > 0 {
        let r = s.drop_first();
        lemma_tiles_facts(r, s[0].1, b);
        assert forall|q: int| 0 <= q < s.len() implies a <= #[trigger] s[q].0 < s[q].1 <= b by {
            if q > 0 {
                assert(s[q] == r[q - 1]);
            }
        }
        assert forall|q: int| 0 < q < s.len() implies #[trigger] s[q].0 == s[q - 1].1 by {
            assert(s[q] == r[q - 1]);
            if q > 1 {
                assert(s[q - 1] == r[q - 2]);
            }
        }
        if r.len() > 0 {
            assert(s[s.len() - 1] == r[r.len() - 1]);
        }
    }
}

/// A tiling has at most as many ranges as positions it covers.
pub(crate) proof fn lemma_tiles_len(s: Seq<(int, int)>, a: int, b: int)
    requires
        tiles(s, a, b),
    ensures
        s.len() <= b - a,
    decreases s.len(),
{
    if s.len() > 0 {
        lemma_tiles_len(s.drop_first(), s[0].1, b);
    }
}

/// Counting references after appending one.
proof fn lemma_count_refs_push(s: Seq<DedupReference>, r: DedupReference)
    ensures
        forall|h: u64| #[trigger] count_refs(s.push(r), h) == count_refs(s, h) + match r {
            DedupReference::New { hash, .. } => if hash == h { 1nat } else { 0nat },
            DedupReference::Existing { hash, .. } => if hash == h { 1nat } else { 0nat },
        },
{
    assert(s.push(r).drop_last() =~= s);
}

/// A hash is referenced at most once per reference.
pub proof fn lemma_count_refs_le_len(s: Seq<DedupReference>, h: u64)
    ensures
        count_refs(s, h) <= s.len(),
    decreases s.len(),
{
    if s.len() > 0 {
        lemma_count_refs_le_len(s.drop_last(), h);
    }
}

/// References to a hash among the first `k` chunks: one more after chunk
/// `k` when that chunk has the hash, and never more than among the first
/// `m`, for `k < m`.
proof fn lemma_refs_grow(data: Seq<u8>, plan: Seq<(int, int)>, k: int, m: int, known: Set<u64>, base: int, h: u64)
    requires
        0 <= k < m <= plan.len(),
    ensures
        count_refs(dedup_plan(data, plan, k, known, base).0, h) + (if plan_chunk_hash(data, plan, k) == h {
            1int
        } else {
            0int
        }) <= count_refs(dedup_plan(data, plan, m, known, base).0, h),
    decreases m - k,
{
    lemma_plan_step(data, plan, k, known, base);
    let prev = dedup_plan(data, plan, k, known, base);
    let bytes = data.subrange(plan[k].0, plan[k].1);
    let hk = xxhash64_spec(bytes);
    let size = (plan[k].1 - plan[k].0) as usize;
    if prev.1.contains(hk) {
        lemma_count_refs_push(prev.0, DedupReference::Existing { hash: hk, size });
    } else {
        lemma_count_refs_push(prev.0, DedupReference::New { hash: hk, chunk_id: (base + prev.2.len()) as u32, size });
    }
    if k + 1 < m {
        lemma_refs_grow(data, plan, k + 1, m, known, base, h);
    }
}

/// The chunks first seen among the first `k` chunks are among those first
/// seen among the first `m`, for `k <= m`.
proof fn lemma_new_chunks_grow(data: Seq<u8>, plan: Seq<(int, int)>, k: int, m: int, known: Set<u64>, base: int)
    requires
        k <= m,
    ensures
        dedup_plan(data, plan, k, known, base).2.len() <= dedup_plan(data, plan, m, known, base).2.len(),
    decreases m - k,
{
    if k < m {
        lemma_new_chunks_grow(data, plan, k, m - 1, known, base);
    }
}

/// Every hash referenced or stored by a deduplication prefix is known
/// afterwards, and what was known before stays known.
proof fn lemma_plan_hashes_known(data: Seq<u8>, plan: Seq<(int, int)>, k: int, known: Set<u64>, base: int)
    ensures
        ({
            let res = dedup_plan(data, plan, k, known, base);
            &&& known.subset_of(res.1)
            &&& forall|j: int| 0 <= j < res.2.len() ==> res.1.contains(#[trigger] xxhash64_spec(res.2[j]))
            &&& forall|h: u64| !res.1.contains(h) ==> #[trigger] count_refs(res.0, h) == 0
            &&& res.2.len() == res.3.len()
            &&& res.0.len() == if k <= 0 { 0 } else { k }
        }),
    decreases k,
{
    if k > 0 {
        lemma_plan_hashes_known(data, plan, k - 1, known, base);
        let prev = dedup_plan(data, plan, k - 1, known, base);
        let res = dedup_plan(data, plan, k, known, base);
        let bytes = data.subrange(plan[k - 1].0, plan[k - 1].1);
        let h = xxhash64_spec(bytes);
        let size = (plan[k - 1].1 - plan[k - 1].0) as usize;
        if prev.1.contains(h) {
            lemma_count_refs_push(prev.0, DedupReference::Existing { hash: h, size });
        } else {
            lemma_count_refs_push(prev.0, DedupReference::New { hash: h, chunk_id: (base + prev.2.len()) as u32, size });
            assert forall|j: int| 0 <= j < res.2.len() implies res.1.contains(#[trigger] xxhash64_spec(res.2[j])) by {
                if j < prev.2.len() {
                    assert(res.2[j] == prev.2[j]);
                }
            }
        }
    }
}

/// Little-endian bytes of a u32.
pub open spec fn le_u32_bytes(x: u32) -> Seq<u8> {
    seq![x as u8, (x >> 8u32) as u8, (x >> 16u32) as u8, (x >> 24u32) as u8]
}

/// Little-endian bytes of a u64.
pub open spec fn le_u64_bytes(x: u64) -> Seq<u8> {
    seq![
        x as u8,
        (x >> 8u64) as u8,
        (x >> 16u64) as u8,
        (x >> 24u64) as u8,
        (x >> 32u64) as u8,
        (x >> 40u64) as u8,
        (x >> 48u64) as u8,
        (x >> 56u64) as u8,
    ]
}

/// The serialized index entry of one stored chunk.
pub open spec fn index_entry(c: DedupChunk) -> Seq<u8> {
    le_u64_bytes(c.hash) + le_u32_bytes(c.data@.len() as u32) + le_u64_bytes(c.ref_count as u64) + le_u64_bytes(
        c.first_offset,
    )
}

/// The serialized index entries of stored chunks, in order.
pub open spec fn index_entries(cs: Seq<DedupChunk>) -> Seq<u8>
    decreases cs.len(),
{
    if cs.len() == 0 {
        Seq::empty()
    } else {
        index_entries(cs.drop_last()) + index_entry(cs.last())
    }
}

/// Each serialized index entry takes 28 bytes.
proof fn lemma_index_entries_len(cs: Seq<DedupChunk>)
    ensures
        index_entries(cs).len() == 28 * cs.len(),
    decreases cs.len(),
{
    if cs.len() > 0 {
        lemma_index_entries_len(cs.drop_last());
    }
}

/// Appends the little-endian bytes of a u32.
pub fn push_u32_le(buf: &mut Vec<u8>, x: u32)
    ensures
        final(buf)@ == old(buf)@ + le_u32_bytes(x),
{
    buf.push(x as u8);
    buf.push((x >> 8u32) as u8);
    buf.push((x >> 16u32) as u8);
    buf.push((x >> 24u32) as u8);
    proof {
        assert(final(buf)@ =~= old(buf)@ + le_u32_bytes(x));
    }
}

/// Appends the little-endian bytes of a u64.
pub fn push_u64_le(buf: &mut Vec<u8>, x: u64)
    ensures
        final(buf)@ == old(buf)@ + le_u64_bytes(x),
{
    buf.push(x as u8);
    buf.push((x >> 8u64) as u8);
    buf.push((x >> 16u64) as u8);
    buf.push((x >> 24u64) as u8);
    buf.push((x >> 32u64) as u8);
    buf.push((x >> 40u64) as u8);
    buf.push((x >> 48u64) as u8);
    buf.push((x >> 56u64) as u8);
    proof {
        assert(final(buf)@ =~= old(buf)@ + le_u64_bytes(x));
    }
}

/// The first of the unique chunks whose hash is `h`, if any.
pub open spec fn chunk_with_hash(unique: Seq<Seq<u8>>, h: u64) -> Option<Seq<u8>>
    decreases unique.len(),
{
    if unique.len() == 0 {
        None
    } else {
        match chunk_with_hash(unique.drop_last(), h) {
            Some(c) => Some(c),
            None => if xxhash64_spec(unique.last()) == h {
                Some(unique.last())
            } else {
                None
            },
        }
    }
}

/// The bytes a reference stands for: a new chunk by its id among the
/// unique chunks, a repeated chunk by its hash.
pub open spec fn ref_bytes(r: DedupReference, unique: Seq<Seq<u8>>) -> Seq<u8> {
    match r {
        DedupReference::New { chunk_id, .. } => unique[chunk_id as int],
        DedupReference::Existing { hash, .. } => match chunk_with_hash(unique, hash) {
            Some(c) => c,
            None => Seq::empty(),
        },
    }
}

/// The bytes the references stand for, one after another.
pub open spec fn expand_refs(refs: Seq<DedupReference>, unique: Seq<Seq<u8>>) -> Seq<u8>
    decreases refs.len(),
{
    if refs.len() == 0 {
        Seq::empty()
    } else {
        expand_refs(refs.drop_last(), unique) + ref_bytes(refs.last(), unique)
    }
}

/// A reference whose chunk is among the unique chunks.
pub open spec fn resolvable(r: DedupReference, unique: Seq<Seq<u8>>) -> bool {
    match r {
        DedupReference::New { chunk_id, .. } => chunk_id < unique.len(),
        DedupReference::Existing { hash, .. } => chunk_with_hash(unique, hash) is Some,
    }
}

proof fn lemma_chunk_with_hash_push(unique: Seq<Seq<u8>>, b: Seq<u8>, h: u64)
    ensures
        chunk_with_hash(unique, h) is Some ==> chunk_with_hash(unique.push(b), h) == chunk_with_hash(unique, h),
        chunk_with_hash(unique, h) is None ==> chunk_with_hash(unique.push(b), h) == if xxhash64_spec(b) == h {
            Some(b)
        } else {
            None
        },
{
    assert(unique.push(b).drop_last() =~= unique);
}

proof fn lemma_chunk_with_hash_found(unique: Seq<Seq<u8>>, h: u64)
    ensures
        chunk_with_hash(unique, h) matches Some(c) ==> xxhash64_spec(c) == h && unique.contains(c),
        chunk_with_hash(unique, h) is None ==> forall|i: int| 0 <= i < unique.len() ==> xxhash64_spec(#[trigger] unique[i]) != h,
    decreases unique.len(),
{
    if unique.len() > 0 {
        let init = unique.drop_last();
        lemma_chunk_with_hash_found(init, h);
        if let Some(c) = chunk_with_hash(init, h) {
            let i = choose|i: int| 0 <= i < init.len() && init[i] == c;
            assert(unique[i] == c);
        } else {
            assert forall|i: int| 0 <= i < unique.len() implies xxhash64_spec(#[trigger] unique[i]) != h || chunk_with_hash(unique, h) is Some by {
                if i < init.len() {
                    assert(unique[i] == init[i]);
                }
            }
            if xxhash64_spec(unique.last()) == h {
                assert(unique[unique.len() - 1] == unique.last());
            }
        }
    }
}

proof fn lemma_expand_push_unique(refs: Seq<DedupReference>, unique: Seq<Seq<u8>>, b: Seq<u8>)
    requires
        forall|i: int| 0 <= i < refs.len() ==> resolvable(#[trigger] refs[i], unique),
    ensures
        expand_refs(refs, unique.push(b)) == expand_refs(refs, unique),
        forall|i: int| 0 <= i < refs.len() ==> resolvable(#[trigger] refs[i], unique.push(b)),
    decreases refs.len(),
{
    if refs.len() > 0 {
        let init = refs.drop_last();
        assert forall|i: int| 0 <= i < init.len() implies resolvable(#[trigger] init[i], unique) by {
            assert(init[i] == refs[i]);
        }
        lemma_expand_push_unique(init, unique, b);
        let r = refs.last();
        assert(resolvable(refs[refs.len() - 1], unique));
        match r {
            DedupReference::New { chunk_id, .. } => {
                assert(unique.push(b)[chunk_id as int] == unique[chunk_id as int]);
            },
            DedupReference::Existing { hash, .. } => {
                lemma_chunk_with_hash_push(unique, b, hash);
            },
        }
        assert forall|i: int| 0 <= i < refs.len() implies resolvable(#[trigger] refs[i], unique.push(b)) by {
            if i < init.len() {
                assert(refs[i] == init[i]);
            }
            match refs[i] {
                DedupReference::New { .. } => {},
                DedupReference::Existing { hash, .. } => {
                    lemma_chunk_with_hash_push(unique, b, hash);
                },
            }
        }
    }
}

/// The chunk of `data` that plan entry `i` names.
pub open spec fn plan_chunk(data: Seq<u8>, plan: Seq<(int, int)>, i: int) -> Seq<u8> {
    data.subrange(plan[i].0, plan[i].1)
}

/// The prefix of `data` covered by the first `k` chunks of `plan`.
pub open spec fn plan_prefix(data: Seq<u8>, plan: Seq<(int, int)>, k: int) -> Seq<u8> {
    data.subrange(0, if k == 0 { 0 } else { plan[k - 1].1 })
}

/// The references of the first `k` chunks, expanded, give back the prefix
/// they cover, and each of them names a unique chunk.
pub open spec fn prefix_expands(data: Seq<u8>, plan: Seq<(int, int)>, k: int) -> bool {
    let res = dedup_plan(data, plan, k, Set::empty(), 0);
    &&& expand_refs(res.0, res.2) == plan_prefix(data, plan, k)
    &&& forall|i: int| 0 <= i < res.0.len() ==> resolvable(#[trigger] res.0[i], res.2)
}

/// A hash is known exactly when one of the unique chunks has it.
pub open spec fn prefix_known(data: Seq<u8>, plan: Seq<(int, int)>, k: int) -> bool {
    let res = dedup_plan(data, plan, k, Set::empty(), 0);
    forall|h: u64| #[trigger] res.1.contains(h) <==> chunk_with_hash(res.2, h) is Some
}

/// Each unique chunk is one of the first `k` chunks of the plan.
pub open spec fn prefix_origin(data: Seq<u8>, plan: Seq<(int, int)>, k: int) -> bool {
    let res = dedup_plan(data, plan, k, Set::empty(), 0);
    forall|u: int|
        0 <= u < res.2.len() ==> exists|i: int| 0 <= i < k && #[trigger] res.2[u] == plan_chunk(data, plan, i)
}

/// What holds of the first `k` chunks deduplicated from a fresh engine.
pub open spec fn dedup_prefix_ok(data: Seq<u8>, plan: Seq<(int, int)>, k: int) -> bool {
    &&& prefix_expands(data, plan, k)
    &&& prefix_known(data, plan, k)
    &&& prefix_origin(data, plan, k)
}

/// No two different chunks of the plan share a hash.
pub open spec fn collision_free(data: Seq<u8>, plan: Seq<(int, int)>) -> bool {
    forall|i: int, j: int|
        0 <= i < plan.len() && 0 <= j < plan.len() && xxhash64_spec(plan_chunk(data, plan, i))
            == xxhash64_spec(plan_chunk(data, plan, j)) ==> #[trigger] plan_chunk(data, plan, i)
            == #[trigger] plan_chunk(data, plan, j)
}

proof fn lemma_dedup_chunk_extends(data: Seq<u8>, plan: Seq<(int, int)>, k: int)
    requires
        tiles(plan, 0, data.len() as int),
        0 < k <= plan.len(),
    ensures
        plan_prefix(data, plan, k) == plan_prefix(data, plan, k - 1) + plan_chunk(data, plan, k - 1),
{
    lemma_tiles_facts(plan, 0, data.len() as int);
    let start = if k - 1 == 0 { 0 } else { plan[k - 2].1 };
    assert(plan[k - 1].0 == start) by {
        if k - 1 > 0 {
            assert(plan[k - 1].0 == plan[(k - 1) - 1].1);
        }
    }
    assert(data.subrange(0, plan[k - 1].1) =~= data.subrange(0, start) + plan_chunk(data, plan, k - 1));
}

#[verifier::rlimit(30)]
proof fn lemma_dedup_step_existing(data: Seq<u8>, plan: Seq<(int, int)>, k: int)
    requires
        tiles(plan, 0, data.len() as int),
        0 < k <= plan.len(),
        collision_free(data, plan),
        dedup_prefix_ok(data, plan, k - 1),
        dedup_plan(data, plan, k - 1, Set::empty(), 0).1.contains(xxhash64_spec(plan_chunk(data, plan, k - 1))),
    ensures
        dedup_prefix_ok(data, plan, k),
{
    let prev = dedup_plan(data, plan, k - 1, Set::empty(), 0);
    let res = dedup_plan(data, plan, k, Set::empty(), 0);
    let bytes = plan_chunk(data, plan, k - 1);
    let h = xxhash64_spec(bytes);
    lemma_dedup_chunk_extends(data, plan, k);
    lemma_chunk_with_hash_found(prev.2, h);
    assert(chunk_with_hash(prev.2, h) is Some);
    let c = chunk_with_hash(prev.2, h)->0;
    let u = choose|u: int| 0 <= u < prev.2.len() && prev.2[u] == c;
    let i = choose|i: int| 0 <= i < k - 1 && #[trigger] prev.2[u] == plan_chunk(data, plan, i);
    assert(plan_chunk(data, plan, i) == plan_chunk(data, plan, k - 1));
    assert(res.2 == prev.2);
    assert(res.0.drop_last() =~= prev.0);
    assert(ref_bytes(res.0.last(), res.2) == bytes);
    assert forall|j: int| 0 <= j < res.0.len() implies resolvable(#[trigger] res.0[j], res.2) by {
        if j < prev.0.len() {
            assert(res.0[j] == prev.0[j]);
        }
    }
    assert forall|w: int| 0 <= w < res.2.len() implies exists|q: int| 0 <= q < k && #[trigger] res.2[w] == plan_chunk(data, plan, q) by {
        let q = choose|q: int| 0 <= q < k - 1 && #[trigger] prev.2[w] == plan_chunk(data, plan, q);
    }
}

proof fn lemma_dedup_step_new(data: Seq<u8>, plan: Seq<(int, int)>, k: int)
    requires
        tiles(plan, 0, data.len() as int),
        0 < k <= plan.len(),
        plan.len() <= u32::MAX,
        dedup_prefix_ok(data, plan, k - 1),
        !dedup_plan(data, plan, k - 1, Set::empty(), 0).1.contains(xxhash64_spec(plan_chunk(data, plan, k - 1))),
    ensures
        dedup_prefix_ok(data, plan, k),
{
    lemma_plan_step(data, plan, k - 1, Set::empty(), 0);
    lemma_new_expands(data, plan, k);
    lemma_new_known(data, plan, k);
    lemma_new_origin(data, plan, k);
}

proof fn lemma_plan_unique_len(data: Seq<u8>, plan: Seq<(int, int)>, k: int, known: Set<u64>, base: int)
    requires
        0 <= k,
    ensures
        dedup_plan(data, plan, k, known, base).2.len() <= k,
    decreases k,
{
    if k > 0 {
        lemma_plan_unique_len(data, plan, k - 1, known, base);
    }
}

proof fn lemma_new_expands(data: Seq<u8>, plan: Seq<(int, int)>, k: int)
    requires
        tiles(plan, 0, data.len() as int),
        0 < k <= plan.len(),
        plan.len() <= u32::MAX,
        prefix_expands(data, plan, k - 1),
        !dedup_plan(data, plan, k - 1, Set::empty(), 0).1.contains(xxhash64_spec(plan_chunk(data, plan, k - 1))),
    ensures
        prefix_expands(data, plan, k),
{
    let prev = dedup_plan(data, plan, k - 1, Set::empty(), 0);
    let res = dedup_plan(data, plan, k, Set::empty(), 0);
    let bytes = plan_chunk(data, plan, k - 1);
    lemma_plan_step(data, plan, k - 1, Set::empty(), 0);
    lemma_plan_unique_len(data, plan, k - 1, Set::empty(), 0);
    assert(res.0.drop_last() =~= prev.0);
    lemma_dedup_new_expand(prev.0, prev.2, bytes, res.0, plan_prefix(data, plan, k - 1));
    lemma_dedup_chunk_extends(data, plan, k);
}

proof fn lemma_new_known(data: Seq<u8>, plan: Seq<(int, int)>, k: int)
    requires
        0 < k <= plan.len(),
        prefix_known(data, plan, k - 1),
        !dedup_plan(data, plan, k - 1, Set::empty(), 0).1.contains(xxhash64_spec(plan_chunk(data, plan, k - 1))),
    ensures
        prefix_known(data, plan, k),
{
    let prev = dedup_plan(data, plan, k - 1, Set::empty(), 0);
    let res = dedup_plan(data, plan, k, Set::empty(), 0);
    let bytes = plan_chunk(data, plan, k - 1);
    lemma_plan_step(data, plan, k - 1, Set::empty(), 0);
    assert forall|hh: u64| #[trigger] res.1.contains(hh) <==> chunk_with_hash(res.2, hh) is Some by {
        lemma_chunk_with_hash_push(prev.2, bytes, hh);
    }
}

proof fn lemma_new_origin(data: Seq<u8>, plan: Seq<(int, int)>, k: int)
    requires
        0 < k <= plan.len(),
        prefix_origin(data, plan, k - 1),
        !dedup_plan(data, plan, k - 1, Set::empty(), 0).1.contains(xxhash64_spec(plan_chunk(data, plan, k - 1))),
    ensures
        prefix_origin(data, plan, k),
{
    let prev = dedup_plan(data, plan, k - 1, Set::empty(), 0);
    let res = dedup_plan(data, plan, k, Set::empty(), 0);
    lemma_plan_step(data, plan, k - 1, Set::empty(), 0);
    assert forall|w: int| 0 <= w < res.2.len() implies exists|q: int| 0 <= q < k && #[trigger] res.2[w] == plan_chunk(data, plan, q) by {
        if w < prev.2.len() {
            assert(res.2[w] == prev.2[w]);
            let q = choose|q: int| 0 <= q < k - 1 && #[trigger] prev.2[w] == plan_chunk(data, plan, q);
        } else {
            assert(res.2[w] == plan_chunk(data, plan, k - 1));
        }
    }
}

proof fn lemma_dedup_new_expand(
    refs: Seq<DedupReference>,
    unique: Seq<Seq<u8>>,
    bytes: Seq<u8>,
    refs2: Seq<DedupReference>,
    prefix: Seq<u8>,
)
    requires
        expand_refs(refs, unique) == prefix,
        forall|i: int| 0 <= i < refs.len() ==> resolvable(#[trigger] refs[i], unique),
        refs2.len() == refs.len() + 1,
        refs2.drop_last() == refs,
        refs2.last() matches DedupReference::New { chunk_id, .. } && chunk_id == unique.len(),
    ensures
        expand_refs(refs2, unique.push(bytes)) == prefix + bytes,
        forall|i: int| 0 <= i < refs2.len() ==> resolvable(#[trigger] refs2[i], unique.push(bytes)),
{
    lemma_expand_push_unique(refs, unique, bytes);
    assert(unique.push(bytes)[unique.len() as int] == bytes);
    assert forall|i: int| 0 <= i < refs2.len() implies resolvable(#[trigger] refs2[i], unique.push(bytes)) by {
        if i < refs.len() {
            assert(refs2[i] == refs[i]);
        }
    }
}

proof fn lemma_dedup_prefix(data: Seq<u8>, plan: Seq<(int, int)>, k: int)
    requires
        tiles(plan, 0, data.len() as int),
        0 <= k <= plan.len(),
        plan.len() <= u32::MAX,
        collision_free(data, plan),
    ensures
        dedup_prefix_ok(data, plan, k),
    decreases k,
{
    if k > 0 {
        lemma_dedup_prefix(data, plan, k - 1);
        let prev = dedup_plan(data, plan, k - 1, Set::empty(), 0);
        if prev.1.contains(xxhash64_spec(plan_chunk(data, plan, k - 1))) {
            lemma_dedup_step_existing(data, plan, k);
        } else {
            lemma_dedup_step_new(data, plan, k);
        }
    } else {
        assert(data.subrange(0, 0) =~= Seq::<u8>::empty());
    }
}

/// Deduplication is lossless: from a fresh engine, the references of any
/// tiling of the input, expanded with the unique chunks (a repeated chunk
/// found by its hash), give back the input, provided no two different
/// chunks of the input share a hash.
pub proof fn lemma_dedup_lossless(data: Seq<u8>, plan: Seq<(int, int)>)
    requires
        tiles(plan, 0, data.len() as int),
        plan.len() <= u32::MAX,
        collision_free(data, plan),
    ensures
        ({
            let res = dedup_plan(data, plan, plan.len() as int, Set::empty(), 0);
            expand_refs(res.0, res.2) == data
        }),
{
    lemma_tiles_facts(plan, 0, data.len() as int);
    lemma_dedup_prefix(data, plan, plan.len() as int);
    assert(data.subrange(0, data.len() as int) =~= data);
}

} // verus!
