//! Fixed-point tensors (Q16.16 bit patterns) and the exponent correction of
//! block floating-point vectors.
use vstd::prelude::*;
use crate::multimodal::Bfp16Vec;
use crate::predictors::clamp_int;
use crate::fixed_point::{i16f16_checked_mul, i8f8_to_i16f16};

verus! {

/// A tensor of Q16.16 values, held as their 32-bit patterns.
#[derive(Debug, Clone)]
pub struct FixedTensor {
    pub data: Vec<i32>,
}

/// The values read from little-endian 4-byte groups (a trailing partial
/// group is ignored).
pub open spec fn values_from_bytes(b: Seq<u8>) -> Seq<i32> {
    Seq::new(
        b.len() / 4,
        |i: int|
            (b[4 * i] as int + 256 * b[4 * i + 1] as int + 65536 * b[4 * i + 2] as int + 16777216 * b[4 * i + 3] as int) as u32 as i32,
    )
}

/// The Q8.8 patterns read from little-endian 2-byte groups (a trailing
/// odd byte is ignored).
pub open spec fn i8f8_from_bytes(b: Seq<u8>) -> Seq<i16> {
    Seq::new(b.len() / 2, |i: int| (b[2 * i] as int + 256 * b[2 * i + 1] as int) as u16 as i16)
}

/// `b / 256` rounded to the nearest integer, ties to even.
pub open spec fn round_div256_even(b: int) -> int {
    let q = b / 256;
    let r = b % 256;
    if r > 128 {
        q + 1
    } else if r < 128 {
        q
    } else if q % 2 == 0 {
        q
    } else {
        q + 1
    }
}

/// A Q16.16 pattern narrowed to Q8.8: rounded to the nearest multiple of
/// 2^-8 (ties to even) and saturated to the Q8.8 range.
pub open spec fn narrow_to_i8f8(b: i32) -> i16 {
    clamp_int(round_div256_even(b as int), -32768, 32767) as i16
}

impl FixedTensor {
    /// A tensor holding `data`.
    pub fn new(data: Vec<i32>) -> (t: Self)
        ensures
            t.data@ == data@,
    {
        FixedTensor { data }
    }

    /// A tensor from little-endian Q16.16 bytes, four per value.
    pub fn from_i16f16_bytes(bytes: &[u8]) -> (t: Self)
        ensures
            t.data@ == values_from_bytes(bytes@),
    {
        let len = bytes.len();
        let n = len / 4;
        let mut data: Vec<i32> = Vec::new();
        let mut i: usize = 0;
        while i < n
            invariant
                n == bytes@.len() / 4,
                bytes@.len() <= usize::MAX,
                i <= n,
                data@ == values_from_bytes(bytes@).subrange(0, i as int),
            decreases n - i,
        {
            assert(4 * i + 3 < bytes@.len());
            let b0 = bytes[4 * i] as u32;
            let b1 = bytes[4 * i + 1] as u32;
            let b2 = bytes[4 * i + 2] as u32;
            let b3 = bytes[4 * i + 3] as u32;
            let v = b0 | (b1 << 8u32) | (b2 << 16u32) | (b3 << 24u32);
            assert(v == b0 + 256 * b1 + 65536 * b2 + 16777216 * b3) by (bit_vector)
                requires
                    b0 < 256,
                    b1 < 256,
                    b2 < 256,
                    b3 < 256,
                    v == b0 | (b1 << 8u32) | (b2 << 16u32) | (b3 << 24u32),
            ;
            data.push(#[verifier::truncate] (v as i32));
            proof {
                assert(data@ =~= values_from_bytes(bytes@).subrange(0, i + 1));
            }
            i = i + 1;
        }
        proof {
            assert(values_from_bytes(bytes@).subrange(0, n as int) =~= values_from_bytes(bytes@));
        }
        FixedTensor { data }
    }

    /// A tensor from little-endian Q8.8 bytes, two per value, each widened
    /// to Q16.16.
    pub fn from_i8f8_bytes(bytes: &[u8]) -> (t: Self)
        ensures
            t.data@.len() == bytes@.len() / 2,
            forall|i: int|
                0 <= i < t.data@.len() ==> t.data@[i] == i8f8_from_bytes(bytes@)[i] * 256,
    {
        let len = bytes.len();
        let n = len / 2;
        let mut raw: Vec<i16> = Vec::new();
        let mut i: usize = 0;
        while i < n
            invariant
                n == bytes@.len() / 2,
                bytes@.len() <= usize::MAX,
                i <= n,
                raw@ == i8f8_from_bytes(bytes@).subrange(0, i as int),
            decreases n - i,
        {
            assert(2 * i + 1 < bytes@.len());
            let lo = bytes[2 * i] as u16;
            let hi = bytes[2 * i + 1] as u16;
            assert(lo < 256 && hi < 256);
            let v: u16 = lo + 256 * hi;
            raw.push(#[verifier::truncate] (v as i16));
            proof {
                assert(raw@ =~= i8f8_from_bytes(bytes@).subrange(0, i + 1));
            }
            i = i + 1;
        }
        proof {
            assert(i8f8_from_bytes(bytes@).subrange(0, n as int) =~= i8f8_from_bytes(bytes@));
        }
        Self::from_i8f8(&raw)
    }

    /// Narrows every value to Q8.8 (Storm mode): rounded to the nearest
    /// multiple of 2^-8, ties to even, and saturated to the Q8.8 range.
    pub fn quantize_to_i8f8(&self) -> (q: Vec<i16>)
        ensures
            q@.len() == self.data@.len(),
            forall|i: int| 0 <= i < q@.len() ==> q@[i] == narrow_to_i8f8(self.data@[i]),
    {
        let mut q: Vec<i16> = Vec::new();
        let mut i: usize = 0;
        while i < self.data.len()
            invariant
                i <= self.data@.len(),
                q@.len() == i,
                forall|k: int| 0 <= k < i ==> q@[k] == narrow_to_i8f8(self.data@[k]),
            decreases self.data@.len() - i,
        {
            q.push(narrow_value(self.data[i]));
            i = i + 1;
        }
        q
    }

    /// A tensor from Q8.8 patterns, each widened to Q16.16 (exactly: eight
    /// zero fraction bits are added).
    pub fn from_i8f8(data: &[i16]) -> (t: Self)
        ensures
            t.data@.len() == data@.len(),
            forall|i: int| 0 <= i < data@.len() ==> t.data@[i] == data@[i] * 256,
    {
        let mut out: Vec<i32> = Vec::new();
        let mut i: usize = 0;
        while i < data.len()
            invariant
                i <= data@.len(),
                out@.len() == i,
                forall|k: int| 0 <= k < i ==> out@[k] == data@[k] * 256,
            decreases data@.len() - i,
        {
            out.push(i8f8_to_i16f16(data[i]));
            i = i + 1;
        }
        FixedTensor { data: out }
    }
}

/// Narrowing a widened Q8.8 value gives it back: `from_i8f8` followed by
/// `quantize_to_i8f8` is the identity.
pub proof fn lemma_i8f8_roundtrip(b: i16)
    ensures
        narrow_to_i8f8((b * 256) as i32) == b,
{
    let w = b as int * 256;
    assert(w / 256 == b as int && w % 256 == 0) by (nonlinear_arith)
        requires
            w == b as int * 256,
    ;
}

/// One Q16.16 pattern narrowed to Q8.8.
fn narrow_value(b: i32) -> (r: i16)
    ensures
        r == narrow_to_i8f8(b),
{
    let u: i64 = b as i64 + 0x8000_0000;
    let q: i64 = u / 256 - 0x80_0000;
    let r: i64 = u % 256;
    assert(q == (b as int) / 256 && r == (b as int) % 256) by (nonlinear_arith)
        requires
            u == b as int + 0x8000_0000,
            0 <= u,
            q == u / 256 - 0x80_0000,
            r == u % 256,
    ;
    let rounded: i64 = if r > 128 {
        q + 1
    } else if r < 128 {
        q
    } else if q % 2 == 0 {
        q
    } else {
        q + 1
    };
    if rounded < -32768 {
        -32768
    } else if rounded > 32767 {
        32767
    } else {
        rounded as i16
    }
}

/// Saturating `i8` subtraction.
pub open spec fn sat_sub_i8(a: i8, b: i8) -> i8 {
    clamp_int(a - b, -128, 127) as i8
}

/// Re-centres a block floating-point vector on small values: the exponent
/// drops by `shift` (saturating), and when it dropped by 1 to 15 the
/// mantissas are scaled up by that power of two, clamped to `±32767`.
pub fn apply_correction(bfp: &mut Bfp16Vec, shift: i8)
    ensures
        final(bfp).exponent == sat_sub_i8(old(bfp).exponent, shift),
        ({
            let d = old(bfp).exponent - sat_sub_i8(old(bfp).exponent, shift);
            final(bfp).mantissas@ == if 0 < d < 16 {
                Seq::new(
                    old(bfp).mantissas@.len(),
                    |i: int| clamp_int(old(bfp).mantissas@[i] * vstd::arithmetic::power2::pow2(d as nat), -32767, 32767) as i16,
                )
            } else {
                old(bfp).mantissas@
            }
        }),
{
    let diff_wide = bfp.exponent as i32 - shift as i32;
    let new_exp: i8 = if diff_wide < -128 { -128 } else if diff_wide > 127 { 127 } else { diff_wide as i8 };
    let exp_diff = bfp.exponent as i32 - new_exp as i32;
    if exp_diff > 0 && exp_diff < 16 {
        let ghost m0 = bfp.mantissas@;
        let mut i: usize = 0;
        while i < bfp.mantissas.len()
            invariant
                0 < exp_diff < 16,
                i <= bfp.mantissas@.len(),
                bfp.mantissas@.len() == m0.len(),
                forall|k: int|
                    0 <= k < m0.len() ==> #[trigger] bfp.mantissas@[k] == if k < i {
                        clamp_int(m0[k] * vstd::arithmetic::power2::pow2(exp_diff as nat), -32767, 32767) as i16
                    } else {
                        m0[k]
                    },
            decreases bfp.mantissas@.len() - i,
        {
            let m = bfp.mantissas[i] as i32;
            let shifted = m << (exp_diff as u32);
            proof {
                lemma_shl_is_mul(m, exp_diff as u32);
            }
            let c = if shifted < -32767 { -32767 } else if shifted > 32767 { 32767 } else { shifted };
            bfp.mantissas.set(i, c as i16);
            i = i + 1;
        }
        proof {
            assert(bfp.mantissas@ =~= Seq::new(
                m0.len(),
                |k: int| clamp_int(m0[k] * vstd::arithmetic::power2::pow2(exp_diff as nat), -32767, 32767) as i16,
            ));
        }
    }
    bfp.exponent = new_exp;
}

/// A small value shifted left by less than 16 bits is multiplied by the
/// power of two.
proof fn lemma_shl_is_mul(m: i32, k: u32)
    requires
        -32768 <= m <= 32767,
        0 < k < 16,
    ensures
        (m << k) as int == m as int * vstd::arithmetic::power2::pow2(k as nat),
{
    vstd::arithmetic::power2::lemma2_to64();
    let r = m << k;
    let p = 1u32 << k;
    vstd::bits::lemma_u32_shl_is_mul(1u32, k);
    assert(r == m * (p as i32)) by (bit_vector)
        requires
            -32768 <= m <= 32767,
            0 < k < 16,
            r == m << k,
            p == 1u32 << k,
    ;
}

/// `1 / sqrt(2)` in Q16.16, rounded to nearest.
pub const FRAC_1_SQRT_2_BITS: i32 = 46341;

/// Q16.16 sum, `i32::MAX` on overflow.
pub open spec fn add_or_max(a: i32, b: i32) -> i32 {
    if i32::MIN <= a + b <= i32::MAX { (a + b) as i32 } else { i32::MAX }
}

/// Q16.16 difference, `i32::MAX` on overflow.
pub open spec fn sub_or_max(a: i32, b: i32) -> i32 {
    if i32::MIN <= a - b <= i32::MAX { (a - b) as i32 } else { i32::MAX }
}

/// Q16.16 product with `1 / sqrt(2)`, `i32::MAX` on overflow.
pub open spec fn scale_or_max(a: i32) -> i32 {
    let p = (a as int * FRAC_1_SQRT_2_BITS as int) / 65536;
    if i32::MIN <= p <= i32::MAX { p as i32 } else { i32::MAX }
}

/// One Haar level on the first `h` values of `row`, with scratch `temp`:
/// the scaled pair sums go to `temp[0..h/2]`, the scaled pair differences
/// to `temp[h/2..2*(h/2)]`, the rest of `temp` is kept, and `temp[0..h]`
/// replaces `row[0..h]`. Returns the new (row, temp).
pub open spec fn haar_level(row: Seq<i32>, temp: Seq<i32>, h: int) -> (Seq<i32>, Seq<i32>) {
    let half = h / 2;
    let t2 = Seq::new(
        temp.len(),
        |i: int|
            if i < half {
                scale_or_max(add_or_max(row[2 * i], row[2 * i + 1]))
            } else if i < 2 * half {
                scale_or_max(sub_or_max(row[2 * (i - half)], row[2 * (i - half) + 1]))
            } else {
                temp[i]
            },
    );
    (Seq::new(row.len(), |i: int| if i < h { t2[i] } else { row[i] }), t2)
}

/// The Haar levels from width `h` down to 1.
pub open spec fn haar_levels(row: Seq<i32>, temp: Seq<i32>, h: nat) -> Seq<i32>
    decreases h,
{
    if h <= 1 {
        row
    } else {
        let next = haar_level(row, temp, h as int);
        haar_levels(next.0, next.1, h / 2)
    }
}

/// The multi-level Haar transform of a row (scratch starting at zero).
pub open spec fn haar_row(row: Seq<i32>) -> Seq<i32> {
    haar_levels(row, Seq::new(row.len(), |i: int| 0i32), row.len())
}

/// `s` with the segment `[start, start + len)` transformed.
pub open spec fn haar_segment(s: Seq<i32>, start: int, len: int) -> Seq<i32> {
    let t = haar_row(s.subrange(start, start + len));
    Seq::new(s.len(), |i: int| if start <= i < start + len { t[i - start] } else { s[i] })
}

/// Every row of a row-major `rows x cols` matrix transformed, the first
/// `r` rows so far.
pub open spec fn rows_transformed(m: Seq<i32>, cols: int, r: int) -> Seq<i32>
    decreases r,
{
    if r <= 0 {
        m
    } else {
        haar_segment(rows_transformed(m, cols, r - 1), (r - 1) * cols, cols)
    }
}

/// The transpose of a row-major `rows x cols` matrix (column-major order).
pub open spec fn transposed(m: Seq<i32>, rows: int, cols: int) -> Seq<i32> {
    Seq::new(m.len(), |i: int| m[(i % rows) * cols + i / rows])
}

/// The 2-D Haar transform: every row transformed, then every column; the
/// result in column-major order.
pub open spec fn haar_2d_spec(m: Seq<i32>, rows: int, cols: int) -> Seq<i32> {
    rows_transformed(transposed(rows_transformed(m, cols, rows), rows, cols), rows, cols)
}

fn add_or_max_exec(a: i32, b: i32) -> (r: i32)
    ensures
        r == add_or_max(a, b),
{
    let s = a as i64 + b as i64;
    if s < i32::MIN as i64 || s > i32::MAX as i64 {
        i32::MAX
    } else {
        s as i32
    }
}

fn sub_or_max_exec(a: i32, b: i32) -> (r: i32)
    ensures
        r == sub_or_max(a, b),
{
    let s = a as i64 - b as i64;
    if s < i32::MIN as i64 || s > i32::MAX as i64 {
        i32::MAX
    } else {
        s as i32
    }
}

fn scale_or_max_exec(a: i32) -> (r: i32)
    ensures
        r == scale_or_max(a),
{
    match i16f16_checked_mul(a, FRAC_1_SQRT_2_BITS) {
        Some(v) => v,
        None => i32::MAX,
    }
}

/// Transforms the segment `[start, start + len)` of `data` in place.
fn haar_1d(data: &mut Vec<i32>, start: usize, len: usize)
    requires
        start + len <= old(data)@.len(),
    ensures
        final(data)@ == haar_segment(old(data)@, start as int, len as int),
{
    let ghost target = haar_row(old(data)@.subrange(start as int, start + len));
    let ghost outside = old(data)@;
    let mut temp: Vec<i32> = Vec::new();
    let mut z: usize = 0;
    while z < len
        invariant
            z <= len,
            temp@ == Seq::new(z as nat, |i: int| 0i32),
        decreases len - z,
    {
        temp.push(0);
        z = z + 1;
        proof {
            assert(temp@ =~= Seq::new(z as nat, |i: int| 0i32));
        }
    }
    let mut h = len;
    proof {
        assert(old(data)@.subrange(start as int, start + len) =~= data@.subrange(start as int, start + len));
    }
    while h > 1
        invariant
            start + len <= data@.len(),
            data@.len() == outside.len(),
            h <= len,
            temp@.len() == len,
            forall|i: int| 0 <= i < data@.len() && !(start <= i < start + len) ==> data@[i] == outside[i],
            haar_levels(data@.subrange(start as int, start + len), temp@, h as nat) == target,
        decreases h,
    {
        let half = h / 2;
        let ghost row0 = data@.subrange(start as int, start + len);
        let ghost temp0 = temp@;
        let dlen = data.len();
        let mut i: usize = 0;
        while i < half
            invariant
                half == h / 2,
                h <= len,
                dlen == data@.len(),
                start + len <= data@.len(),
                data@.subrange(start as int, start + len) == row0,
                temp@.len() == len,
                temp0.len() == len,
                i <= half,
                forall|k: int|
                    0 <= k < len ==> #[trigger] temp@[k] == if k < i {
                        scale_or_max(add_or_max(row0[2 * k], row0[2 * k + 1]))
                    } else if half <= k < half + i {
                        scale_or_max(sub_or_max(row0[2 * (k - half)], row0[2 * (k - half) + 1]))
                    } else {
                        temp0[k]
                    },
            decreases half - i,
        {
            let a = data[start + 2 * i];
            let b = data[start + 2 * i + 1];
            proof {
                assert(a == row0[2 * i as int]);
                assert(b == row0[2 * i + 1]);
            }
            let s = scale_or_max_exec(add_or_max_exec(a, b));
            let d = scale_or_max_exec(sub_or_max_exec(a, b));
            temp.set(i, s);
            temp.set(half + i, d);
            i = i + 1;
        }
        let ghost next = haar_level(row0, temp0, h as int);
        proof {
            assert(temp@ =~= next.1);
        }
        let mut c: usize = 0;
        while c < h
            invariant
                h <= len,
                dlen == data@.len(),
                start + len <= data@.len(),
                data@.len() == outside.len(),
                temp@ == next.1,
                temp@.len() == len,
                c <= h,
                forall|i: int| 0 <= i < data@.len() && !(start <= i < start + len) ==> data@[i] == outside[i],
                forall|k: int|
                    0 <= k < len ==> #[trigger] data@[start + k] == if k < c { temp@[k] } else { row0[k] },
            decreases h - c,
        {
            data.set(start + c, temp[c]);
            c = c + 1;
        }
        proof {
            assert forall|k: int| 0 <= k < len implies #[trigger] data@.subrange(start as int, start + len)[k] == next.0[k] by {
                assert(data@.subrange(start as int, start + len)[k] == data@[start + k]);
            }
            assert(data@.subrange(start as int, start + len) =~= next.0);
        }
        h = half;
    }
    proof {
        assert(data@ =~= haar_segment(outside, start as int, len as int));
    }
}

/// Multi-resolution compressor: a 2-D Haar transform in Q16.16 whose small
/// coefficients are dropped.
pub struct MpsCompressor {
    /// Bond dimension of the decomposition.
    pub bond_dim: usize,
    /// Coefficients whose magnitude does not exceed this (Q16.16) are zeroed.
    pub threshold: i32,
}

impl MpsCompressor {
    /// The 2-D Haar transform of a row-major `rows x cols` Q16.16 matrix:
    /// every row, then every column, transformed (sums and differences
    /// scaled by `1 / sqrt(2)`, an overflow giving `i32::MAX`); the result
    /// in column-major order.
    pub fn haar_transform(&self, matrix: Vec<i32>, rows: usize, cols: usize) -> (t: Vec<i32>)
        requires
            matrix@.len() == rows * cols,
        ensures
            t@ == haar_2d_spec(matrix@, rows as int, cols as int),
    {
        let mut m = matrix;
        let ghost m0 = m@;
        let n = m.len();
        let mut r: usize = 0;
        while r < rows
            invariant
                n == m@.len(),
                m@.len() == rows * cols,
                m0.len() == rows * cols,
                r <= rows,
                m@ == rows_transformed(m0, cols as int, r as int),
            decreases rows - r,
        {
            proof {
                assert(r * cols + cols <= rows * cols) by (nonlinear_arith)
                    requires
                        r < rows,
                ;
            }
            haar_1d(&mut m, r * cols, cols);
            r = r + 1;
        }
        let ghost rt = m@;
        let mut t: Vec<i32> = Vec::new();
        let mut i: usize = 0;
        while i < n
            invariant
                n == rows * cols,
                m@ == rt,
                rt.len() == n,
                i <= n,
                t@ == transposed(rt, rows as int, cols as int).subrange(0, i as int),
            decreases n - i,
        {
            let c = i / rows;
            let rr = i % rows;
            proof {
                assert(rr * cols + c < n) by (nonlinear_arith)
                    requires
                        i < n,
                        n == rows * cols,
                        c == i / rows,
                        rr == i % rows,
                        rows > 0,
                ;
                assert(rows > 0) by (nonlinear_arith)
                    requires
                        i < n,
                        n == rows * cols,
                ;
            }
            t.push(m[rr * cols + c]);
            proof {
                assert(t@ =~= transposed(rt, rows as int, cols as int).subrange(0, i + 1));
            }
            i = i + 1;
        }
        proof {
            assert(transposed(rt, rows as int, cols as int).subrange(0, n as int) =~= transposed(
                rt,
                rows as int,
                cols as int,
            ));
        }
        let ghost t0 = t@;
        let mut c: usize = 0;
        while c < cols
            invariant
                n == rows * cols,
                t@.len() == rows * cols,
                t0.len() == rows * cols,
                c <= cols,
                t@ == rows_transformed(t0, rows as int, c as int),
            decreases cols - c,
        {
            proof {
                assert(c * rows + rows <= rows * cols) by (nonlinear_arith)
                    requires
                        c < cols,
                ;
            }
            haar_1d(&mut t, c * rows, rows);
            c = c + 1;
        }
        t
    }
}

} // verus!
