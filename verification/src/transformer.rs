//! Fixed-point attention over a byte stream: the four most recent bytes are
//! compared with earlier four-byte patches, and the bytes that followed the
//! closest patches are averaged with weights falling off with distance.
use vstd::prelude::*;
use crate::predictors::{Predictor, clamp_int};

verus! {

/// Bytes kept in the circular history.
pub const WINDOW_SIZE: usize = 4096;

/// Mask of a history index.
pub const BUFFER_MASK: usize = 4095;

/// Number of earlier patches compared (the first one is skipped).
pub const SEARCH_DEPTH: usize = 32;

/// One in Q16.16.
pub const FIXED_ONE: i64 = 65536;

/// The history byte at absolute position `x` (any integer, taken modulo the
/// window).
pub open spec fn tf_at(h: Seq<u8>, x: int) -> int {
    h[x % 4096] as int
}

/// Absolute difference.
pub open spec fn abs_diff(a: int, b: int) -> int {
    if a >= b {
        a - b
    } else {
        b - a
    }
}

/// Distance between the query patch (the last four bytes) and the patch
/// ending `4 * i` bytes back.
#[verifier::opaque]
pub open spec fn tf_dist(h: Seq<u8>, pos: int, i: int) -> int {
    abs_diff(tf_at(h, pos - 4), tf_at(h, pos - 4 * i - 4)) + abs_diff(tf_at(h, pos - 3), tf_at(h, pos - 4 * i - 3))
        + abs_diff(tf_at(h, pos - 2), tf_at(h, pos - 4 * i - 2)) + abs_diff(tf_at(h, pos - 1), tf_at(h, pos - 4 * i - 1))
}

/// The byte that followed patch `i`.
pub open spec fn tf_value(h: Seq<u8>, pos: int, i: int) -> int {
    tf_at(h, pos - 4 * i)
}

/// Scan of patches `1 .. n`: whether an exact match was met (and the byte
/// after the first one), else the sums of weights and of weighted values.
pub open spec fn tf_scan(h: Seq<u8>, pos: int, n: int) -> (bool, int, int, int)
    decreases n,
{
    if n <= 1 {
        (false, 0, 0, 0)
    } else {
        let prev = tf_scan(h, pos, n - 1);
        if prev.0 {
            prev
        } else {
            let d = tf_dist(h, pos, n - 1);
            if d == 0 {
                (true, tf_value(h, pos, n - 1), prev.2, prev.3)
            } else {
                let w = 131072int / (2 + d);
                (false, 0, prev.2 + w, prev.3 + w * tf_value(h, pos, n - 1))
            }
        }
    }
}

/// The attention prediction: 128 during warm-up (fewer than 32 bytes), the
/// byte after the first exactly matching patch if any, otherwise the
/// rounded weighted average clamped to a byte.
pub open spec fn tf_prediction(h: Seq<u8>, pos: int) -> int {
    if pos < 32 {
        128
    } else {
        let s = tf_scan(h, pos, 32);
        if s.0 {
            s.1
        } else if s.2 == 0 {
            128
        } else {
            clamp_int((s.3 + s.2 / 2) / s.2, 0, 255)
        }
    }
}

/// A patch distance lies between 0 and 4 * 255.
proof fn lemma_dist_bounds(h: Seq<u8>, pos: int, i: int)
    ensures
        0 <= tf_dist(h, pos, i) <= 1020,
{
    reveal(tf_dist);
}

/// Once an exact match is met, the scan's answer no longer changes.
proof fn lemma_scan_found_stable(h: Seq<u8>, pos: int, n: int, m: int)
    requires
        tf_scan(h, pos, n).0,
        n <= m,
    ensures
        tf_scan(h, pos, m) == tf_scan(h, pos, n),
    decreases m - n,
{
    if m > n {
        lemma_scan_found_stable(h, pos, n, m - 1);
    }
}

/// Bounds of a scan prefix.
proof fn lemma_scan_bounds(h: Seq<u8>, pos: int, n: int)
    requires
        h.len() == 4096,
        n >= 1,
    ensures
        !tf_scan(h, pos, n).0 ==> 0 <= tf_scan(h, pos, n).2 <= 65536 * n && 0 <= tf_scan(h, pos, n).3 <= 65536 * 255 * n,
        tf_scan(h, pos, n).0 ==> 0 <= tf_scan(h, pos, n).1 <= 255,
    decreases n,
{
    if n > 1 {
        lemma_scan_bounds(h, pos, n - 1);
        let d = tf_dist(h, pos, n - 1);
        lemma_dist_bounds(h, pos, n - 1);
        if d > 0 {
            let w = 131072int / (2 + d);
            assert(0 <= w <= 65536) by (nonlinear_arith)
                requires
                    d >= 1,
                    w == 131072int / (2 + d),
            ;
            let v = tf_value(h, pos, n - 1);
            assert(0 <= w * v <= 65536 * 255) by (nonlinear_arith)
                requires
                    0 <= w <= 65536,
                    0 <= v <= 255,
            ;
        }
    }
}

/// Index arithmetic of the ring: masking a wrapped difference is taking the
/// true difference modulo the window.
proof fn lemma_wrapped_index(a: usize, b: usize)
    ensures
        a.wrapping_sub(b) & 4095usize == (a - b) % 4096,
{
    let w = a.wrapping_sub(b);
    assert(w & 4095usize == w % 4096) by (bit_vector);
    if a < b {
        assert(usize::MAX == 0xffff_ffff || usize::MAX == 0xffff_ffff_ffff_ffff);
        assert((usize::MAX + 1) % 4096 == 0);
        assert(w == a - b + usize::MAX + 1);
        assert((a - b + (usize::MAX + 1)) % 4096 == (a - b) % 4096) by {
            vstd::arithmetic::div_mod::lemma_mod_add_multiples_vanish((a - b) as int, 4096);
            let k = (usize::MAX + 1) / 4096;
            assert(usize::MAX + 1 == k * 4096);
            vstd::arithmetic::div_mod::lemma_mod_multiples_vanish(k, (a - b) as int, 4096);
        }
    }
}

/// Self-attention predictor over a 4096-byte ring, in Q16.16.
pub struct TransformerPredictor {
    history: Vec<u8>,
    buffer_mask: usize,
    pos: usize,
}

impl TransformerPredictor {
    /// The history ring.
    pub closed spec fn spec_history(&self) -> Seq<u8> {
        self.history@
    }

    /// Number of bytes observed since the last reset.
    pub closed spec fn spec_pos(&self) -> int {
        self.pos as int
    }

    /// Consistent state: a 4096-byte ring and its mask.
    pub closed spec fn tf_wf(&self) -> bool {
        self.history@.len() == WINDOW_SIZE && self.buffer_mask == BUFFER_MASK
    }

    /// An empty predictor.
    pub fn new() -> (p: Self)
        ensures
            p.wf(),
            p.spec_pos() == 0,
            p.spec_history() == Seq::new(WINDOW_SIZE as nat, |i: int| 0u8),
    {
        let history = vec![0u8; WINDOW_SIZE];
        proof {
            assert(history@ =~= Seq::new(WINDOW_SIZE as nat, |i: int| 0u8));
        }
        TransformerPredictor { history, buffer_mask: BUFFER_MASK, pos: 0 }
    }

    /// The byte at ring index `a - b` (wrapping), as an `i32`.
    fn at(&self, a: usize, b: usize) -> (v: i32)
        requires
            self.tf_wf(),
        ensures
            v as int == tf_at(self.history@, a - b),
    {
        proof {
            lemma_wrapped_index(a, b);
        }
        self.history[a.wrapping_sub(b) & self.buffer_mask] as i32
    }
}

impl TransformerPredictor {
    /// Distance of patch `i` from the query patch, and the byte after it.
    fn patch(&self, i: usize, q0: i32, q1: i32, q2: i32, q3: i32) -> (r: (i64, i32))
        requires
            self.tf_wf(),
            1 <= i < 32,
            q0 == tf_at(self.history@, self.pos - 4),
            q1 == tf_at(self.history@, self.pos - 3),
            q2 == tf_at(self.history@, self.pos - 2),
            q3 == tf_at(self.history@, self.pos - 1),
        ensures
            r.0 == tf_dist(self.history@, self.pos as int, i as int),
            r.1 == tf_value(self.history@, self.pos as int, i as int),
            0 <= r.1 <= 255,
            0 <= r.0 <= 1020,
    {
        let k0 = self.at(self.pos, i * 4 + 4);
        let k1 = self.at(self.pos, i * 4 + 3);
        let k2 = self.at(self.pos, i * 4 + 2);
        let k3 = self.at(self.pos, i * 4 + 1);
        let d0 = if q0 >= k0 { q0 - k0 } else { k0 - q0 };
        let d1 = if q1 >= k1 { q1 - k1 } else { k1 - q1 };
        let d2 = if q2 >= k2 { q2 - k2 } else { k2 - q2 };
        let d3 = if q3 >= k3 { q3 - k3 } else { k3 - q3 };
        let dist = (d0 + d1 + d2 + d3) as i64;
        let value = self.at(self.pos, i * 4);
        proof {
            reveal(tf_dist);
            lemma_dist_bounds(self.history@, self.pos as int, i as int);
        }
        (dist, value)
    }
}

impl Predictor for TransformerPredictor {
    open spec fn wf(&self) -> bool {
        self.tf_wf()
    }

    open spec fn has_room(&self) -> bool {
        self.spec_pos() < usize::MAX
    }

    /// Distance-weighted attention over the earlier patches.
    fn predict_next(&self) -> (b: u8)
        ensures
            b as int == tf_prediction(self.spec_history(), self.spec_pos()),
    {
        if self.pos < 32 {
            return 128;
        }
        let q0 = self.at(self.pos, 4);
        let q1 = self.at(self.pos, 3);
        let q2 = self.at(self.pos, 2);
        let q3 = self.at(self.pos, 1);
        let ghost h = self.history@;
        let ghost p = self.pos as int;
        let mut sum_weights: i64 = 0;
        let mut sum_values: i64 = 0;
        let mut i: usize = 1;
        while i < SEARCH_DEPTH
            invariant
                self.tf_wf(),
                h == self.history@,
                p == self.pos,
                p >= 32,
                1 <= i <= 32,
                q0 == tf_at(h, p - 4),
                q1 == tf_at(h, p - 3),
                q2 == tf_at(h, p - 2),
                q3 == tf_at(h, p - 1),
                !tf_scan(h, p, i as int).0,
                sum_weights == tf_scan(h, p, i as int).2,
                sum_values == tf_scan(h, p, i as int).3,
            decreases SEARCH_DEPTH - i,
        {
            proof {
                lemma_scan_bounds(h, p, i as int);
            }
            let (dist, value) = self.patch(i, q0, q1, q2, q3);
            if dist == 0 {
                proof {
                    assert(tf_scan(h, p, i + 1).0);
                    lemma_scan_found_stable(h, p, i + 1, 32);
                }
                return value as u8;
            }
            let weight = (FIXED_ONE * 2) / (2 + dist);
            assert(0 <= weight <= 65536) by (nonlinear_arith)
                requires
                    dist >= 1,
                    weight == 131072int / (2 + dist),
            ;
            assert(0 <= weight * (value as i64) <= 65536 * 255) by (nonlinear_arith)
                requires
                    0 <= weight <= 65536,
                    0 <= value <= 255,
            ;
            let contribution = weight * (value as i64);
            assert(65536 * 255 * (i as int) <= 65536 * 255 * 31) by (nonlinear_arith)
                requires
                    i < 32,
            ;
            assert(0 <= sum_values <= 65536 * 255 * 31);
            sum_values = sum_values + contribution;
            sum_weights = sum_weights + weight;
            i = i + 1;
        }
        proof {
            lemma_scan_bounds(h, p, 32);
        }
        if sum_weights == 0 {
            return 128;
        }
        let prediction = (sum_values + (sum_weights / 2)) / sum_weights;
        if prediction < 0 {
            0
        } else if prediction > 255 {
            255
        } else {
            prediction as u8
        }
    }

    /// Appends a byte to the ring.
    fn update(&mut self, byte: u8)
        ensures
            final(self).spec_pos() == old(self).spec_pos() + 1,
            final(self).spec_history() == old(self).spec_history().update(old(self).spec_pos() % 4096, byte),
    {
        let cur = self.pos;
        let slot = cur & self.buffer_mask;
        assert(slot == cur % 4096) by (bit_vector)
            requires
                slot == cur & 4095usize,
        ;
        self.history.set(slot, byte);
        self.pos = self.pos + 1;
    }

    /// Zeroes the ring and the position in place.
    fn reset(&mut self)
        ensures
            final(self).spec_pos() == 0,
            final(self).spec_history() == Seq::new(WINDOW_SIZE as nat, |i: int| 0u8),
    {
        let mut j: usize = 0;
        while j < self.history.len()
            invariant
                self.history@.len() == WINDOW_SIZE,
                self.buffer_mask == BUFFER_MASK,
                j <= WINDOW_SIZE,
                forall|k: int| 0 <= k < j ==> self.history@[k] == 0u8,
            decreases WINDOW_SIZE - j,
        {
            self.history.set(j, 0);
            j = j + 1;
        }
        self.pos = 0;
        proof {
            assert(self.history@ =~= Seq::new(WINDOW_SIZE as nat, |i: int| 0u8));
        }
    }
}

impl Default for TransformerPredictor {
    fn default() -> (p: Self)
        ensures
            p.wf(),
            p.spec_pos() == 0,
    {
        Self::new()
    }
}

} // verus!
