//! Integer back end of the "golden" time-series pipeline: ZigZag-encoded
//! deltas bit-packed in blocks of `BLOCK_SIZE` values. Each block is one
//! byte holding the bit width of its largest value, then the block's
//! values packed little-endian at that width, first value in the lowest
//! bits, padded to whole bytes.
use vstd::prelude::*;
use vstd::arithmetic::power2::{lemma_pow2_adds, lemma_pow2_pos, lemma2_to64, pow2};
use vstd::bits::lemma_u64_shl_is_mul;

verus! {

/// Values per packed block.
pub const BLOCK_SIZE: usize = 256;

/// ZigZag code of a signed value: 0, -1, 1, -2, 2, ... map to 0, 1, 2, 3, 4, ...
pub open spec fn zigzag(n: i16) -> u16 {
    if n >= 0 {
        (2 * n) as u16
    } else {
        (-2 * n - 1) as u16
    }
}

/// Number of binary digits of `v` (at least one).
pub open spec fn bit_width(v: u16) -> nat
    decreases v,
{
    if v < 2 {
        1
    } else {
        1 + bit_width(v / 2)
    }
}

/// The largest of the values (0 for none).
pub open spec fn max_of(vals: Seq<u16>) -> u16
    decreases vals.len(),
{
    if vals.len() == 0 {
        0
    } else {
        let m = max_of(vals.drop_last());
        if vals.last() > m {
            vals.last()
        } else {
            m
        }
    }
}

/// The integer holding `vals` at `width` bits each, the first value in the
/// lowest bits.
pub open spec fn packed_value(vals: Seq<u16>, width: nat) -> nat
    decreases vals.len(),
{
    if vals.len() == 0 {
        0
    } else {
        packed_value(vals.drop_last(), width) + vals.last() as nat * pow2(
            ((vals.len() - 1) * width) as nat,
        )
    }
}

/// Little-endian base-256 value of a byte string.
pub open spec fn le_value(s: Seq<u8>) -> nat
    decreases s.len(),
{
    if s.len() == 0 {
        0
    } else {
        s[0] as nat + 256 * le_value(s.drop_first())
    }
}

/// The `len` lowest little-endian base-256 digits of `v`.
pub open spec fn le_digits(v: nat, len: nat) -> Seq<u8>
    decreases len,
{
    if len == 0 {
        Seq::empty()
    } else {
        seq![(v % 256) as u8] + le_digits(v / 256, (len - 1) as nat)
    }
}

/// One block: its bit width, then its packed values in as few bytes as
/// hold `len * width` bits.
pub open spec fn block_bytes(vals: Seq<u16>) -> Seq<u8> {
    let w = bit_width(max_of(vals));
    seq![w as u8] + le_digits(packed_value(vals, w), ((vals.len() * w + 7) / 8) as nat)
}

/// All blocks of a value stream, `BLOCK_SIZE` values per block.
pub open spec fn packed_stream(vals: Seq<u16>) -> Seq<u8>
    decreases vals.len(),
{
    if vals.len() == 0 {
        Seq::empty()
    } else if vals.len() <= 256 {
        block_bytes(vals)
    } else {
        block_bytes(vals.take(256)) + packed_stream(vals.skip(256))
    }
}

/// The packed stream of ZigZag-encoded deltas.
pub open spec fn packed_deltas(deltas: Seq<i16>) -> Seq<u8> {
    packed_stream(deltas.map_values(|d: i16| zigzag(d)))
}

/// ZigZag-encodes one value.
fn zigzag_encode(n: i16) -> (z: u16)
    ensures
        z == zigzag(n),
{
    if n >= 0 {
        (n as u16) * 2
    } else {
        ((-(n as i32)) * 2 - 1) as u16
    }
}

proof fn lemma_bit_width_bounds(v: u16, k: nat)
    requires
        k >= 1,
        v < pow2(k),
    ensures
        bit_width(v) <= k,
        v < pow2(bit_width(v)),
        bit_width(v) >= 1,
    decreases v,
{
    lemma_pow2_adds(1, (k - 1) as nat);
    lemma2_to64();
    if v >= 2 {
        lemma_bit_width_bounds(v / 2, (k - 1) as nat);
        lemma_pow2_adds(1, (bit_width(v) - 1) as nat);
    }
}

/// Number of bits that hold `max_val` (at least one).
fn bits_needed(max_val: u16) -> (b: u8)
    ensures
        b as nat == bit_width(max_val),
        1 <= b <= 16,
        max_val < pow2(b as nat),
{
    proof {
        lemma2_to64();
        lemma_bit_width_bounds(max_val, 16);
    }
    let mut x = max_val;
    let mut b: u8 = 1;
    while x >= 2
        invariant
            bit_width(max_val) == bit_width(x) + b - 1,
            bit_width(max_val) <= 16,
            1 <= b,
        decreases x,
    {
        proof {
            lemma2_to64();
            lemma_bit_width_bounds(x / 2, 16);
        }
        x = x / 2;
        b = b + 1;
    }
    b
}

proof fn lemma_max_of_bounds(vals: Seq<u16>, k: int)
    requires
        0 <= k < vals.len(),
    ensures
        vals[k] <= max_of(vals),
    decreases vals.len(),
{
    if k < vals.len() - 1 {
        lemma_max_of_bounds(vals.drop_last(), k);
    }
}

proof fn lemma_le_value_push(s: Seq<u8>, b: u8)
    ensures
        le_value(s.push(b)) == le_value(s) + b as nat * pow2(8 * s.len()),
    decreases s.len(),
{
    lemma2_to64();
    if s.len() == 0 {
        assert(s.push(b).drop_first() =~= Seq::<u8>::empty());
        assert(le_value(s.push(b).drop_first()) == 0);
        assert(le_value(s.push(b)) == b as nat);
        assert(pow2(8 * s.len()) == 1);
        assert(le_value(s) == 0);
    } else {
        assert(s.push(b).drop_first() =~= s.drop_first().push(b));
        lemma_le_value_push(s.drop_first(), b);
        let p = pow2(8 * (s.len() - 1) as nat);
        lemma_pow2_adds(8, 8 * (s.len() - 1) as nat);
        assert(pow2(8 * s.len()) == 256 * p);
        let x = le_value(s.drop_first());
        assert(256 * (x + b as nat * p) == 256 * x + b as nat * (256 * p)) by (nonlinear_arith);
        assert(s.push(b)[0] == s[0]);
        assert(le_value(s.push(b)) == s[0] as nat + 256 * (x + b as nat * p));
        assert(le_value(s) == s[0] as nat + 256 * x);
        assert(b as nat * pow2(8 * s.len()) == b as nat * (256 * p));
    }
}

proof fn lemma_le_digits_of_value(s: Seq<u8>)
    ensures
        le_digits(le_value(s), s.len()) == s,
    decreases s.len(),
{
    if s.len() > 0 {
        let v = le_value(s);
        let rest = le_value(s.drop_first());
        assert(v % 256 == s[0] && v / 256 == rest) by (nonlinear_arith)
            requires
                v == s[0] as nat + 256 * rest,
                s[0] < 256,
        ;
        lemma_le_digits_of_value(s.drop_first());
        assert(le_digits(v, s.len()) =~= s);
    }
}

/// Appends the block `zs[lo..hi]` to `out`.
fn pack_block(zs: &Vec<u16>, lo: usize, hi: usize, out: &mut Vec<u8>)
    requires
        lo < hi <= zs@.len(),
    ensures
        final(out)@ == old(out)@ + block_bytes(zs@.subrange(lo as int, hi as int)),
{
    let ghost vals = zs@.subrange(lo as int, hi as int);
    let mut m: u16 = 0;
    let mut i: usize = lo;
    while i < hi
        invariant
            lo <= i <= hi <= zs@.len(),
            m == max_of(zs@.subrange(lo as int, i as int)),
        decreases hi - i,
    {
        assert(zs@.subrange(lo as int, i + 1).drop_last() =~= zs@.subrange(lo as int, i as int));
        if zs[i] > m {
            m = zs[i];
        }
        i = i + 1;
    }
    let w = bits_needed(m);
    let ghost wn = w as nat;
    proof {
        lemma2_to64();
        assert forall|k: int| 0 <= k < vals.len() implies vals[k] < pow2(wn) by {
            lemma_max_of_bounds(vals, k);
        }
    }
    let ghost prefix = old(out)@.push(w);
    out.push(w);
    let mut buffer: u64 = 0;
    let mut bits: u8 = 0;
    let mut i: usize = lo;
    while i < hi
        invariant
            lo <= i <= hi <= zs@.len(),
            vals == zs@.subrange(lo as int, hi as int),
            1 <= w <= 16,
            wn == w as nat,
            forall|k: int| 0 <= k < vals.len() ==> vals[k] < pow2(wn),
            out@.len() >= prefix.len(),
            out@.subrange(0, prefix.len() as int) == prefix,
            bits < 8,
            buffer < pow2(bits as nat),
            ({
                let e = out@.subrange(prefix.len() as int, out@.len() as int);
                &&& le_value(e) + buffer * pow2(8 * e.len()) == packed_value(
                    zs@.subrange(lo as int, i as int),
                    wn,
                )
                &&& (i - lo) * wn == 8 * e.len() + bits
            }),
        decreases hi - i,
    {
        let ghost e0 = out@.subrange(prefix.len() as int, out@.len() as int);
        let ghost p0 = pow2(8 * e0.len());
        let z = zs[i] as u64;
        proof {
            assert(vals[i - lo] == zs@[i as int]);
            lemma_pow2_pos(bits as nat);
            lemma_pow2_pos(wn);
            lemma_pow2_adds(bits as nat, wn);
            lemma_pow2_adds(8 * e0.len(), bits as nat);
            assert(pow2(bits as nat) <= 128 && pow2(wn) <= 65536) by {
                lemma2_to64();
                if bits < 7 {
                    vstd::arithmetic::power2::lemma_pow2_strictly_increases(bits as nat, 7);
                }
                if wn < 16 {
                    vstd::arithmetic::power2::lemma_pow2_strictly_increases(wn, 16);
                }
            }
            assert(z * pow2(bits as nat) <= 65535 * 128) by (nonlinear_arith)
                requires
                    z < 65536,
                    pow2(bits as nat) <= 128,
            ;
            lemma_u64_shl_is_mul(z, bits as u64);
            assert(zs@.subrange(lo as int, i + 1).drop_last() =~= zs@.subrange(lo as int, i as int));
            assert(zs@.subrange(lo as int, i + 1).last() == zs@[i as int]);
            let pb = pow2(bits as nat);
            let pw = pow2(wn);
            assert(buffer + z * pb < pb * pw) by (nonlinear_arith)
                requires
                    buffer < pb,
                    z < pw,
                    pb > 0,
            ;
            assert((buffer + z * pb) * p0 == buffer * p0 + z * (p0 * pb)) by (nonlinear_arith);
            assert((i + 1 - lo) * wn == (i - lo) * wn + wn) by (nonlinear_arith);
        }
        buffer = buffer + (z << (bits as u64));
        bits = bits + w;
        while bits >= 8
            invariant
                lo <= i < hi <= zs@.len(),
                out@.len() >= prefix.len(),
                out@.subrange(0, prefix.len() as int) == prefix,
                bits < 8 + 16,
                buffer < pow2(bits as nat),
                ({
                    let e = out@.subrange(prefix.len() as int, out@.len() as int);
                    &&& le_value(e) + buffer * pow2(8 * e.len()) == packed_value(
                        zs@.subrange(lo as int, i + 1),
                        wn,
                    )
                    &&& (i + 1 - lo) * wn == 8 * e.len() + bits
                }),
            decreases bits,
        {
            let ghost e1 = out@.subrange(prefix.len() as int, out@.len() as int);
            let byte = (buffer % 256) as u8;
            proof {
                lemma_le_value_push(e1, byte);
                lemma_pow2_adds(8 * e1.len(), 8);
                lemma_pow2_adds(8, (bits - 8) as nat);
                lemma2_to64();
                let pe = pow2(8 * e1.len());
                let pr = pow2((bits - 8) as nat);
                assert(buffer % 256 + 256 * (buffer / 256) == buffer) by (nonlinear_arith);
                assert((buffer / 256) < pr) by (nonlinear_arith)
                    requires
                        buffer < 256 * pr,
                ;
                assert(byte as nat * pe + (buffer / 256) as nat * (pe * 256) == buffer as nat * pe) by (nonlinear_arith)
                    requires
                        byte as nat == buffer % 256,
                        buffer % 256 + 256 * (buffer / 256) == buffer,
                ;
            }
            out.push(byte);
            proof {
                assert(out@.subrange(prefix.len() as int, out@.len() as int) =~= e1.push(byte));
                assert(out@.subrange(0, prefix.len() as int) =~= prefix);
            }
            buffer = buffer / 256;
            bits = bits - 8;
        }
        i = i + 1;
    }
    let ghost e2 = out@.subrange(prefix.len() as int, out@.len() as int);
    let ghost n = vals.len();
    proof {
        assert(zs@.subrange(lo as int, hi as int) == vals);
        lemma2_to64();
    }
    if bits > 0 {
        proof {
            vstd::arithmetic::power2::lemma_pow2_strictly_increases(bits as nat, 8);
            lemma_le_value_push(e2, buffer as u8);
        }
        out.push(buffer as u8);
        proof {
            assert(out@.subrange(prefix.len() as int, out@.len() as int) =~= e2.push(buffer as u8));
            assert((n * wn + 7) / 8 == e2.len() + 1);
            lemma_le_digits_of_value(e2.push(buffer as u8));
            assert(out@ =~= prefix + e2.push(buffer as u8));
        }
    } else {
        proof {
            assert(buffer == 0);
            assert((n * wn + 7) / 8 == e2.len());
            lemma_le_digits_of_value(e2);
            assert(out@ =~= prefix + e2);
        }
    }
    proof {
        assert(prefix =~= old(out)@ + seq![w]);
    }
}

/// Bit-packs ZigZag-encoded deltas in blocks of `BLOCK_SIZE` values.
pub fn pack_deltas(deltas: &[i16]) -> (out: Vec<u8>)
    ensures
        out@ == packed_deltas(deltas@),
{
    let n = deltas.len();
    let mut zs: Vec<u16> = Vec::new();
    let mut i: usize = 0;
    while i < n
        invariant
            n == deltas@.len(),
            i <= n,
            zs@ == deltas@.subrange(0, i as int).map_values(|d: i16| zigzag(d)),
        decreases n - i,
    {
        zs.push(zigzag_encode(deltas[i]));
        proof {
            assert(zs@ =~= deltas@.subrange(0, i + 1).map_values(|d: i16| zigzag(d)));
        }
        i = i + 1;
    }
    proof {
        assert(deltas@.subrange(0, n as int) =~= deltas@);
    }
    let ghost all = zs@;
    let mut out: Vec<u8> = Vec::new();
    proof {
        assert(all.skip(0) =~= all);
        assert(out@ + packed_stream(all.skip(0)) =~= packed_stream(all));
    }
    let mut start: usize = 0;
    while start < n
        invariant
            n == zs@.len(),
            zs@ == all,
            start <= n,
            out@ + packed_stream(all.skip(start as int)) == packed_stream(all),
        decreases n - start,
    {
        let ghost rest = all.skip(start as int);
        let end = if n - start <= BLOCK_SIZE {
            n
        } else {
            start + BLOCK_SIZE
        };
        let ghost before = out@;
        pack_block(&zs, start, end, &mut out);
        proof {
            if n - start <= 256 {
                assert(rest =~= zs@.subrange(start as int, end as int));
                assert(all.skip(end as int) =~= Seq::<u16>::empty());
                assert(packed_stream(all.skip(end as int)) =~= Seq::<u8>::empty());
            } else {
                assert(rest.take(256) =~= zs@.subrange(start as int, end as int));
                assert(rest.skip(256) =~= all.skip(end as int));
            }
            assert(out@ + packed_stream(all.skip(end as int)) =~= before + packed_stream(rest));
        }
        start = end;
    }
    proof {
        assert(all.skip(n as int) =~= Seq::<u16>::empty());
        assert(out@ + Seq::<u8>::empty() =~= out@);
    }
    out
}

} // verus!
