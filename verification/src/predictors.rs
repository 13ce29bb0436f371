//! Byte predictors for the context-mixing compressor. All arithmetic is
//! integer (Q16.16 fixed point where weights are involved), so every platform
//! predicts the same bytes.
use vstd::prelude::*;

verus! {

/// A next-byte predictor.
pub trait Predictor {
    /// Internal consistency of the predictor's state.
    spec fn wf(&self) -> bool;

    /// Whether one more byte can be observed without a position counter
    /// overflowing.
    spec fn has_room(&self) -> bool;

    /// Predicts the next byte.
    fn predict_next(&self) -> u8
        requires
            self.wf(),
    ;

    /// Observes the actual next byte.
    fn update(&mut self, actual: u8)
        requires
            old(self).wf(),
            old(self).has_room(),
        ensures
            final(self).wf(),
    ;

    /// Returns to the initial state without reallocating.
    fn reset(&mut self)
        requires
            old(self).wf(),
        ensures
            final(self).wf(),
            final(self).has_room(),
    ;
}

/// One in Q16.16.
pub const FIXED_SCALE: i32 = 65536;

/// One half in Q16.16 (rounding offset).
pub const FIXED_ROUND: i32 = 32768;

// ---------------------------------------------------------------------------
// Order-3 context predictor
// ---------------------------------------------------------------------------

/// Size of the order-3 context table (256^3 entries).
pub const CONTEXT_SIZE: usize = 16777216;

/// Index of the context formed by the last three bytes.
pub open spec fn context_index(p3: u8, p2: u8, p1: u8) -> int {
    p3 * 65536 + p2 * 256 + p1
}

/// Order-3 context predictor: remembers, for every context of three bytes,
/// the byte that last followed it.
pub struct SimplePredictor {
    prev1: u8,
    prev2: u8,
    prev3: u8,
    context: Vec<u8>,
}

impl SimplePredictor {
    /// The last three bytes seen, most recent first.
    pub closed spec fn spec_prev(&self) -> (u8, u8, u8) {
        (self.prev1, self.prev2, self.prev3)
    }

    /// The context table.
    pub closed spec fn spec_context(&self) -> Seq<u8> {
        self.context@
    }

    /// A predictor with an all-zero table and zero history.
    pub fn new() -> (p: Self)
        ensures
            p.wf(),
            p.spec_prev() == (0u8, 0u8, 0u8),
            p.spec_context() == Seq::new(CONTEXT_SIZE as nat, |i: int| 0u8),
    {
        let context = vec![0u8; CONTEXT_SIZE];
        proof {
            assert(context@ =~= Seq::new(CONTEXT_SIZE as nat, |i: int| 0u8));
        }
        SimplePredictor { prev1: 0, prev2: 0, prev3: 0, context }
    }

    fn index(&self) -> (idx: usize)
        requires
            self.wf(),
        ensures
            idx == context_index(self.prev3, self.prev2, self.prev1),
            idx < self.context@.len(),
    {
        let p3 = self.prev3 as usize;
        let p2 = self.prev2 as usize;
        let p1 = self.prev1 as usize;
        let idx = (p3 << 16usize) | (p2 << 8usize) | p1;
        assert(idx == p3 * 65536 + p2 * 256 + p1) by (bit_vector)
            requires
                p3 < 256,
                p2 < 256,
                p1 < 256,
                idx == (p3 << 16usize) | (p2 << 8usize) | p1,
        ;
        idx
    }
}

impl Predictor for SimplePredictor {
    open spec fn wf(&self) -> bool {
        self.spec_context().len() == CONTEXT_SIZE
    }

    open spec fn has_room(&self) -> bool {
        true
    }

    /// The byte stored for the current context.
    fn predict_next(&self) -> (b: u8)
        ensures
            b == self.spec_context()[context_index(self.spec_prev().2, self.spec_prev().1, self.spec_prev().0)],
    {
        let idx = self.index();
        self.context[idx]
    }

    /// Stores `actual` for the current context and shifts it into the history.
    fn update(&mut self, actual: u8)
        ensures
            final(self).spec_context() == old(self).spec_context().update(
                context_index(old(self).spec_prev().2, old(self).spec_prev().1, old(self).spec_prev().0),
                actual,
            ),
            final(self).spec_prev() == (actual, old(self).spec_prev().0, old(self).spec_prev().1),
    {
        let idx = self.index();
        self.context.set(idx, actual);
        self.prev3 = self.prev2;
        self.prev2 = self.prev1;
        self.prev1 = actual;
    }

    /// Zeroes the history and the table in place.
    fn reset(&mut self)
        ensures
            final(self).spec_prev() == (0u8, 0u8, 0u8),
            final(self).spec_context() == Seq::new(CONTEXT_SIZE as nat, |i: int| 0u8),
    {
        self.prev1 = 0;
        self.prev2 = 0;
        self.prev3 = 0;
        let mut i: usize = 0;
        while i < self.context.len()
            invariant
                self.context@.len() == CONTEXT_SIZE,
                i <= CONTEXT_SIZE,
                self.prev1 == 0 && self.prev2 == 0 && self.prev3 == 0,
                forall|k: int| 0 <= k < i ==> self.context@[k] == 0u8,
            decreases CONTEXT_SIZE - i,
        {
            self.context.set(i, 0);
            i = i + 1;
        }
        proof {
            assert(self.context@ =~= Seq::new(CONTEXT_SIZE as nat, |i: int| 0u8));
        }
    }
}

impl Default for SimplePredictor {
    fn default() -> (p: Self)
        ensures
            p.wf(),
            p.spec_prev() == (0u8, 0u8, 0u8),
            p.spec_context() == Seq::new(CONTEXT_SIZE as nat, |i: int| 0u8),
    {
        Self::new()
    }
}

// ---------------------------------------------------------------------------
// Lag-graph predictor (Q16.16)
// ---------------------------------------------------------------------------

/// Length of the graph predictor's history ring.
pub const GRAPH_HISTORY: usize = 64;

/// Weight bound: 5.0 in Q16.16.
pub const MAX_WEIGHT: i32 = 327680;

/// Learning rate 0.015 in Q16.16 (truncated).
pub const GRAPH_LEARNING_RATE: i32 = 983;

/// Lags of the seven weighted edges (the eighth edge is unused).
pub open spec fn graph_edges() -> Seq<usize> {
    seq![1usize, 2, 3, 4, 8, 16, 32, 0]
}

/// Initial weights: 0, 0.05 four times, 0.1, 0.2, 0.5 (Q16.16, truncated).
pub open spec fn graph_initial_weights() -> Seq<i32> {
    seq![0i32, 3276, 3276, 3276, 3276, 6553, 13107, 32768]
}

/// The history byte at lag `lag` before the cursor.
pub open spec fn lagged(history: Seq<u8>, cursor: int, lag: int) -> int {
    history[(cursor + 64 - lag) % 64] as int
}

/// Weighted sum of the first `n` lagged inputs.
pub open spec fn graph_sum(w: Seq<i32>, history: Seq<u8>, cursor: int, n: int) -> int
    decreases n,
{
    if n <= 0 {
        0
    } else {
        graph_sum(w, history, cursor, n - 1) + w[n - 1] * lagged(history, cursor, graph_edges()[n - 1] as int)
    }
}

/// Clamp of an integer to `[lo, hi]`.
pub open spec fn clamp_int(x: int, lo: int, hi: int) -> int {
    if x < lo {
        lo
    } else if x > hi {
        hi
    } else {
        x
    }
}

/// The graph prediction: the weighted sum rounded back to an integer and
/// clamped to a byte.
pub open spec fn graph_prediction(w: Seq<i32>, history: Seq<u8>, cursor: int) -> int {
    clamp_int((graph_sum(w, history, cursor, 7) + 32768) / 65536, 0, 255)
}

/// Rust's integer division, truncating toward zero.
pub open spec fn trunc_div(a: int, b: int) -> int {
    if a >= 0 {
        a / b
    } else {
        -((-a) / b)
    }
}

/// Weight `i` after learning from error `err`: moved by
/// `lr * err * input / 255` and clamped to `[-5, 5]`.
pub open spec fn graph_learned_weight(w: Seq<i32>, history: Seq<u8>, cursor: int, err: int, i: int) -> i32 {
    if i < 7 {
        clamp_int(
            w[i] + trunc_div(983 * err * lagged(history, cursor, graph_edges()[i] as int), 255),
            -327680,
            327680,
        ) as i32
    } else {
        w[i]
    }
}

/// Graph predictor over seven lagged inputs with Q16.16 weights.
pub struct GraphPredictor {
    weights: [i32; 8],
    edges: [usize; 8],
    history: [u8; 64],
    cursor: usize,
    learning_rate: i32,
}

impl GraphPredictor {
    /// The Q16.16 weights.
    pub closed spec fn spec_weights(&self) -> Seq<i32> {
        self.weights@
    }

    /// The history ring.
    pub closed spec fn spec_history(&self) -> Seq<u8> {
        self.history@
    }

    /// The next write position in the ring.
    pub closed spec fn spec_cursor(&self) -> int {
        self.cursor as int
    }

    /// Consistent state: fixed lags and learning rate, cursor inside the
    /// ring, weights within `[-5, 5]`.
    pub closed spec fn graph_wf(&self) -> bool {
        &&& self.edges@ == graph_edges()
        &&& self.learning_rate == GRAPH_LEARNING_RATE
        &&& self.cursor < 64
        &&& forall|i: int| 0 <= i < 8 ==> -327680 <= #[trigger] self.weights@[i] <= 327680
    }

    /// A predictor with the initial weights and an all-zero history.
    pub fn new() -> (p: Self)
        ensures
            p.wf(),
            p.spec_weights() == graph_initial_weights(),
            p.spec_history() == Seq::new(64, |i: int| 0u8),
            p.spec_cursor() == 0,
    {
        let p = GraphPredictor {
            weights: [0, 3276, 3276, 3276, 3276, 6553, 13107, 32768],
            edges: [1, 2, 3, 4, 8, 16, 32, 0],
            history: [0u8; 64],
            cursor: 0,
            learning_rate: GRAPH_LEARNING_RATE,
        };
        proof {
            assert(p.weights@ =~= graph_initial_weights());
            assert(p.edges@ =~= graph_edges());
            assert(p.history@ =~= Seq::new(64, |i: int| 0u8));
        }
        p
    }

    /// Index of the history byte `lag` positions back.
    fn lag_index(&self, lag: usize) -> (idx: usize)
        requires
            self.cursor < 64,
            lag <= 64,
        ensures
            idx == (self.cursor + 64 - lag) % 64,
            idx < 64,
    {
        (self.cursor + 64 - lag) % 64
    }
}

/// Floor division by 2^16 via an arithmetic right shift.
pub proof fn lemma_shr16(x: i32)
    ensures
        (x >> 16u32) as int == (x as int) / 65536,
{
    let y = x >> 16u32;
    assert((y as int) * 65536 <= (x as int) && (x as int) < (y as int) * 65536 + 65536) by (bit_vector)
        requires
            y == x >> 16u32,
    ;
}

impl Predictor for GraphPredictor {
    open spec fn wf(&self) -> bool {
        self.graph_wf()
    }

    open spec fn has_room(&self) -> bool {
        true
    }

    /// The weighted sum of the seven lagged inputs, rounded and clamped.
    fn predict_next(&self) -> (b: u8)
        ensures
            b as int == graph_prediction(self.spec_weights(), self.spec_history(), self.spec_cursor()),
    {
        let mut sum: i32 = 0;
        let mut i: usize = 0;
        while i < 7
            invariant
                self.graph_wf(),
                i <= 7,
                sum as int == graph_sum(self.weights@, self.history@, self.cursor as int, i as int),
                -83558400 * (i as int) <= sum as int <= 83558400 * (i as int),
            decreases 7 - i,
        {
            let lag = self.edges[i];
            let idx = self.lag_index(lag);
            let input = self.history[idx] as i32;
            let w = self.weights[i];
            assert(0 <= idx < 64);
            assert(-327680 <= w <= 327680);
            assert(-83558400 <= (w as int) * (input as int) <= 83558400) by (nonlinear_arith)
                requires
                    -327680 <= w <= 327680,
                    0 <= input <= 255,
            ;
            let prod = w.wrapping_mul(input);
            assert(prod == w * input);
            sum = sum + prod;
            i = i + 1;
        }
        let rounded = sum + FIXED_ROUND;
        let shifted = rounded >> 16u32;
        proof {
            lemma_shr16(rounded);
        }
        if shifted < 0 {
            0
        } else if shifted > 255 {
            255
        } else {
            shifted as u8
        }
    }

    /// Learns from the prediction error on every weighted edge, then records
    /// `actual` in the ring.
    fn update(&mut self, actual: u8)
        ensures
            final(self).spec_weights() == Seq::new(
                8,
                |i: int|
                    graph_learned_weight(
                        old(self).spec_weights(),
                        old(self).spec_history(),
                        old(self).spec_cursor(),
                        actual - graph_prediction(old(self).spec_weights(), old(self).spec_history(), old(self).spec_cursor()),
                        i,
                    ),
            ),
            final(self).spec_history() == old(self).spec_history().update(old(self).spec_cursor(), actual),
            final(self).spec_cursor() == (old(self).spec_cursor() + 1) % 64,
    {
        let pred = self.predict_next() as i32;
        let err = actual as i32 - pred;
        let ghost w0 = self.weights@;
        let mut i: usize = 0;
        while i < 7
            invariant
                self.edges@ == graph_edges(),
                self.learning_rate == GRAPH_LEARNING_RATE,
                self.cursor < 64,
                self.history@ == old(self).history@,
                self.cursor == old(self).cursor,
                w0 == old(self).weights@,
                forall|j: int| 0 <= j < 8 ==> -327680 <= #[trigger] self.weights@[j] <= 327680,
                i <= 7,
                -255 <= err <= 255,
                err as int == actual - graph_prediction(w0, self.history@, self.cursor as int),
                forall|j: int|
                    0 <= j < 8 ==> #[trigger] self.weights@[j] == if j < i {
                        graph_learned_weight(w0, self.history@, self.cursor as int, err as int, j)
                    } else {
                        w0[j]
                    },
            decreases 7 - i,
        {
            let lag = self.edges[i];
            let idx = self.lag_index(lag);
            let input = self.history[idx] as i32;
            assert(-983 * 255 <= 983 * err <= 983 * 255);
            assert(-983 * 255 * 255 <= 983 * err * input <= 983 * 255 * 255) by (nonlinear_arith)
                requires
                    -983 * 255 <= 983 * err <= 983 * 255,
                    0 <= input <= 255,
            ;
            let numerator = self.learning_rate * err * input;
            let delta = if numerator >= 0 { numerator / 255 } else { -((-numerator) / 255) };
            let updated = self.weights[i] + delta;
            let clamped = if updated < -MAX_WEIGHT {
                -MAX_WEIGHT
            } else if updated > MAX_WEIGHT {
                MAX_WEIGHT
            } else {
                updated
            };
            self.weights[i] = clamped;
            i = i + 1;
        }
        self.history[self.cursor] = actual;
        self.cursor = (self.cursor + 1) % 64;
        proof {
            assert(self.weights@ =~= Seq::new(
                8,
                |j: int| graph_learned_weight(w0, old(self).history@, old(self).cursor as int, err as int, j),
            ));
        }
    }

    /// Restores the initial weights and clears the history.
    fn reset(&mut self)
        ensures
            final(self).spec_weights() == graph_initial_weights(),
            final(self).spec_history() == Seq::new(64, |i: int| 0u8),
            final(self).spec_cursor() == 0,
    {
        self.history = [0u8; 64];
        self.cursor = 0;
        self.weights = [0, 3276, 3276, 3276, 3276, 6553, 13107, 32768];
        self.learning_rate = GRAPH_LEARNING_RATE;
        proof {
            assert(self.weights@ =~= graph_initial_weights());
            assert(self.history@ =~= Seq::new(64, |i: int| 0u8));
        }
    }
}

impl Default for GraphPredictor {
    fn default() -> (p: Self)
        ensures
            p.wf(),
            p.spec_weights() == graph_initial_weights(),
            p.spec_cursor() == 0,
    {
        Self::new()
    }
}


// ---------------------------------------------------------------------------
// LZ-style match predictor
// ---------------------------------------------------------------------------

/// Size of the history ring (1 MiB, a power of two).
pub const LZ_BUFFER_SIZE: usize = 1048576;

/// Mask of a history-ring index.
pub const LZ_BUFFER_MASK: usize = 1048575;

/// Number of hash-table entries (2^20).
pub const LZ_HASH_SIZE: usize = 1048576;

/// Multiplier of the context hash (golden-ratio constant).
pub const LZ_HASH_MULTIPLIER: u32 = 0x9E37_79B9;

/// The history byte at absolute position `idx` (ring of 2^20 bytes).
pub open spec fn lz_get(h: Seq<u8>, idx: int) -> int {
    h[idx % 1048576] as int
}

/// The four bytes at `start` read as a little-endian 32-bit key.
pub open spec fn lz_key(h: Seq<u8>, start: int) -> int {
    lz_get(h, start) + 256 * lz_get(h, start + 1) + 65536 * lz_get(h, start + 2) + 16777216 * lz_get(h, start + 3)
}

/// Table slot of the four-byte context at `start`: the key times the
/// multiplier, wrapped to 32 bits, reduced to 20 bits.
pub open spec fn lz_hash(h: Seq<u8>, start: int) -> int {
    ((lz_key(h, start) * 0x9E37_79B9) % 0x1_0000_0000) % 1048576
}

/// Whether the four-byte contexts at `p1` and `p2` are equal.
pub open spec fn lz_ctx_matches(h: Seq<u8>, p1: int, p2: int) -> bool {
    &&& lz_get(h, p1) == lz_get(h, p2)
    &&& lz_get(h, p1 + 1) == lz_get(h, p2 + 1)
    &&& lz_get(h, p1 + 2) == lz_get(h, p2 + 2)
    &&& lz_get(h, p1 + 3) == lz_get(h, p2 + 3)
}

/// The match prediction: the byte that followed the last occurrence of the
/// current four-byte context, when the table remembers one that still
/// matches; otherwise the last byte (zero before four bytes are seen).
pub open spec fn lz_prediction(t: Seq<usize>, h: Seq<u8>, pos: int) -> int {
    if pos < 4 {
        0
    } else {
        let start = pos - 4;
        let m = t[lz_hash(h, start)] as int;
        if m > 0 && m + 4 < pos && lz_ctx_matches(h, m, start) {
            lz_get(h, m + 4)
        } else {
            lz_get(h, pos - 1)
        }
    }
}

/// Ring index of an absolute position.
proof fn lemma_ring_mask(idx: usize)
    ensures
        idx & 1048575usize == idx % 1048576,
{
    assert(idx & 1048575usize == idx % 1048576) by (bit_vector);
}

/// LZ-style predictor: a hash table maps four-byte contexts to the position
/// where they last ended, and the byte after that occurrence is predicted.
pub struct LzMatchPredictor {
    table: Vec<usize>,
    history: Vec<u8>,
    pos: usize,
    hash_mask: usize,
}

impl LzMatchPredictor {
    /// The context table.
    pub closed spec fn spec_table(&self) -> Seq<usize> {
        self.table@
    }

    /// The history ring.
    pub closed spec fn spec_history(&self) -> Seq<u8> {
        self.history@
    }

    /// Number of bytes observed since the last reset.
    pub closed spec fn spec_pos(&self) -> int {
        self.pos as int
    }

    /// Consistent state: both arrays of 2^20 entries, and every remembered
    /// position at least five bytes behind the current one.
    pub closed spec fn lz_wf(&self) -> bool {
        &&& self.table@.len() == LZ_HASH_SIZE
        &&& self.history@.len() == LZ_BUFFER_SIZE
        &&& self.hash_mask == LZ_HASH_SIZE - 1
        &&& forall|i: int| 0 <= i < self.table@.len() ==> #[trigger] self.table@[i] == 0 || self.table@[i] + 5 <= self.pos
    }

    /// An empty predictor: zero table, zero history.
    pub fn new() -> (p: Self)
        ensures
            p.wf(),
            p.spec_pos() == 0,
            p.spec_table() == Seq::new(LZ_HASH_SIZE as nat, |i: int| 0usize),
            p.spec_history() == Seq::new(LZ_BUFFER_SIZE as nat, |i: int| 0u8),
    {
        let table = vec![0usize; LZ_HASH_SIZE];
        let history = vec![0u8; LZ_BUFFER_SIZE];
        proof {
            assert(table@ =~= Seq::new(LZ_HASH_SIZE as nat, |i: int| 0usize));
            assert(history@ =~= Seq::new(LZ_BUFFER_SIZE as nat, |i: int| 0u8));
        }
        LzMatchPredictor { table, history, pos: 0, hash_mask: LZ_HASH_SIZE - 1 }
    }

    fn get(&self, idx: usize) -> (b: u8)
        requires
            self.history@.len() == LZ_BUFFER_SIZE,
        ensures
            b as int == lz_get(self.history@, idx as int),
    {
        proof {
            lemma_ring_mask(idx);
        }
        self.history[idx & LZ_BUFFER_MASK]
    }

    fn hash_ctx(&self, start: usize) -> (h: usize)
        requires
            self.lz_wf(),
            start + 3 <= usize::MAX,
        ensures
            h == (lz_key(self.history@, start as int) * 0x9E37_79B9) % 0x1_0000_0000,
    {
        let b0 = self.get(start) as u32;
        let b1 = self.get(start + 1) as u32;
        let b2 = self.get(start + 2) as u32;
        let b3 = self.get(start + 3) as u32;
        let key = b0 | (b1 << 8u32) | (b2 << 16u32) | (b3 << 24u32);
        assert(key == b0 + 256 * b1 + 65536 * b2 + 16777216 * b3) by (bit_vector)
            requires
                b0 < 256,
                b1 < 256,
                b2 < 256,
                b3 < 256,
                key == b0 | (b1 << 8u32) | (b2 << 16u32) | (b3 << 24u32),
        ;
        key.wrapping_mul(LZ_HASH_MULTIPLIER) as usize
    }

    fn ctx_matches(&self, pos1: usize, pos2: usize) -> (b: bool)
        requires
            self.history@.len() == LZ_BUFFER_SIZE,
            pos1 + 3 <= usize::MAX,
            pos2 + 3 <= usize::MAX,
        ensures
            b == lz_ctx_matches(self.history@, pos1 as int, pos2 as int),
    {
        self.get(pos1) == self.get(pos2) && self.get(pos1 + 1) == self.get(pos2 + 1) && self.get(pos1 + 2)
            == self.get(pos2 + 2) && self.get(pos1 + 3) == self.get(pos2 + 3)
    }
}

impl Predictor for LzMatchPredictor {
    open spec fn wf(&self) -> bool {
        self.lz_wf()
    }

    open spec fn has_room(&self) -> bool {
        self.spec_pos() < usize::MAX
    }

    /// The byte after the remembered occurrence of the current context, or
    /// the last byte.
    fn predict_next(&self) -> (b: u8)
        ensures
            b as int == lz_prediction(self.spec_table(), self.spec_history(), self.spec_pos()),
    {
        if self.pos < 4 {
            return 0;
        }
        let start = self.pos - 4;
        let mixed = self.hash_ctx(start);
        proof {
            lemma_ring_mask(mixed);
        }
        let h = mixed & self.hash_mask;
        let match_pos = self.table[h];
        if match_pos > 0 && match_pos + 4 < self.pos && self.ctx_matches(match_pos, start) {
            return self.get(match_pos + 4);
        }
        self.get(self.pos - 1)
    }

    /// Records `actual` in the ring and remembers where the context that
    /// ended just before it occurred.
    fn update(&mut self, actual: u8)
        ensures
            final(self).spec_pos() == old(self).spec_pos() + 1,
            final(self).spec_history() == old(self).spec_history().update(old(self).spec_pos() % 1048576, actual),
            final(self).spec_pos() > 4 ==> final(self).spec_table() == old(self).spec_table().update(
                lz_hash(final(self).spec_history(), final(self).spec_pos() - 5),
                (final(self).spec_pos() - 5) as usize,
            ),
            final(self).spec_pos() <= 4 ==> final(self).spec_table() == old(self).spec_table(),
    {
        proof {
            lemma_ring_mask(self.pos);
        }
        let slot = self.pos & LZ_BUFFER_MASK;
        self.history.set(slot, actual);
        self.pos = self.pos + 1;
        if self.pos > 4 {
            let start = self.pos - 5;
            let mixed = self.hash_ctx(start);
            proof {
                lemma_ring_mask(mixed);
            }
            let h = mixed & self.hash_mask;
            self.table.set(h, start);
        }
    }

    /// Zeroes the position, the table and the ring in place.
    fn reset(&mut self)
        ensures
            final(self).spec_pos() == 0,
            final(self).spec_table() == Seq::new(LZ_HASH_SIZE as nat, |i: int| 0usize),
            final(self).spec_history() == Seq::new(LZ_BUFFER_SIZE as nat, |i: int| 0u8),
    {
        self.pos = 0;
        let mut i: usize = 0;
        while i < self.table.len()
            invariant
                self.table@.len() == LZ_HASH_SIZE,
                self.history@.len() == LZ_BUFFER_SIZE,
                self.hash_mask == LZ_HASH_SIZE - 1,
                self.pos == 0,
                i <= LZ_HASH_SIZE,
                forall|k: int| 0 <= k < i ==> self.table@[k] == 0usize,
            decreases LZ_HASH_SIZE - i,
        {
            self.table.set(i, 0);
            i = i + 1;
        }
        let mut j: usize = 0;
        while j < self.history.len()
            invariant
                self.table@ == Seq::new(LZ_HASH_SIZE as nat, |i: int| 0usize),
                self.history@.len() == LZ_BUFFER_SIZE,
                self.hash_mask == LZ_HASH_SIZE - 1,
                self.pos == 0,
                j <= LZ_BUFFER_SIZE,
                forall|k: int| 0 <= k < j ==> self.history@[k] == 0u8,
            decreases LZ_BUFFER_SIZE - j,
        {
            proof {
                assert(self.table@ =~= Seq::new(LZ_HASH_SIZE as nat, |i: int| 0usize));
            }
            self.history.set(j, 0);
            j = j + 1;
        }
        proof {
            assert(self.table@ =~= Seq::new(LZ_HASH_SIZE as nat, |i: int| 0usize));
            assert(self.history@ =~= Seq::new(LZ_BUFFER_SIZE as nat, |i: int| 0u8));
        }
    }
}

impl Default for LzMatchPredictor {
    fn default() -> (p: Self)
        ensures
            p.wf(),
            p.spec_pos() == 0,
    {
        Self::new()
    }
}

// ---------------------------------------------------------------------------
// Zero predictor
// ---------------------------------------------------------------------------

/// Baseline predictor that always predicts zero.
pub struct ZeroPredictor;

impl ZeroPredictor {
    /// The zero predictor.
    pub fn new() -> (p: Self)
        ensures
            p.wf(),
    {
        ZeroPredictor
    }
}

impl Predictor for ZeroPredictor {
    open spec fn wf(&self) -> bool {
        true
    }

    open spec fn has_room(&self) -> bool {
        true
    }

    /// Always zero.
    fn predict_next(&self) -> (b: u8)
        ensures
            b == 0,
    {
        0
    }

    /// Nothing to learn.
    fn update(&mut self, actual: u8) {
    }

    /// Nothing to reset.
    fn reset(&mut self) {
    }
}

impl Default for ZeroPredictor {
    fn default() -> (p: Self) {
        Self::new()
    }
}

} // verus!
