//! Cancellation of the pairwise masks over a complete group: the wrapping
//! sum of every member's masked entry equals the wrapping sum of the
//! original entries.
use vstd::prelude::*;
use crate::secure_agg::{
    apply_mask, bytes_lt, lemma_bytes_lt_total, masked_value, pair_mask, x25519_public,
    x25519_shared,
};

verus! {

/// Wrapping (mod 2^32) sum of 32-bit values, left to right.
pub open spec fn wrapping_total(vals: Seq<i32>) -> i32
    decreases vals.len(),
{
    if vals.len() == 0 {
        0
    } else {
        wrapping_total(vals.drop_last()).wrapping_add(vals.last())
    }
}

/// The public keys of a group, member by member.
pub open spec fn group_publics(secrets: Seq<Seq<u8>>) -> Seq<Seq<u8>> {
    Seq::new(secrets.len(), |i: int| x25519_public(secrets[i]))
}

/// Entry `k` of every member's masked update: member `i` holds secret
/// `secrets[i]`, peers `peers[i]` and original entry `updates[i]`.
pub open spec fn group_masked(
    secrets: Seq<Seq<u8>>,
    peers: Seq<Seq<Seq<u8>>>,
    updates: Seq<i32>,
    n: nat,
    k: int,
) -> Seq<i32> {
    Seq::new(
        secrets.len(),
        |i: int| masked_value(secrets[i], x25519_public(secrets[i]), peers[i], n, k, updates[i]),
    )
}

/// A complete group: distinct public keys, every member's peers are
/// exactly the other members' public keys, each once, and every pair's two
/// X25519 agreements give the same secret.
pub open spec fn complete_group(secrets: Seq<Seq<u8>>, peers: Seq<Seq<Seq<u8>>>) -> bool {
    let publics = group_publics(secrets);
    &&& peers.len() == secrets.len()
    &&& forall|i: int, j: int|
        0 <= i < j < secrets.len() ==> #[trigger] publics[i] != #[trigger] publics[j]
    &&& forall|i: int| 0 <= i < secrets.len() ==> (#[trigger] peers[i]).no_duplicates()
    &&& forall|i: int, q: Seq<u8>|
        0 <= i < secrets.len() ==> (#[trigger] peers[i].contains(q) <==> exists|j: int|
            0 <= j < secrets.len() && j != i && q == #[trigger] publics[j])
    &&& forall|i: int, j: int|
        0 <= i < secrets.len() && 0 <= j < secrets.len() && i != j ==> #[trigger] x25519_shared(
            secrets[i],
            publics[j],
        ) == x25519_shared(secrets[j], publics[i])
}

spec fn modulus() -> int {
    0x1_0000_0000
}

spec fn congruent(a: int, b: int) -> bool {
    (a - b) % modulus() == 0
}

proof fn lemma_congruent_add(a: int, b: int, c: int, d: int)
    requires
        congruent(a, b),
        congruent(c, d),
    ensures
        congruent(a + c, b + d),
{
    let m = modulus();
    assert(((a - b) + (c - d)) % m == 0) by (nonlinear_arith)
        requires
            (a - b) % m == 0,
            (c - d) % m == 0,
            m == 0x1_0000_0000,
    ;
}

proof fn lemma_congruent_trans(a: int, b: int, c: int)
    requires
        congruent(a, b),
        congruent(b, c),
    ensures
        congruent(a, c),
{
    lemma_congruent_add(a, b, b, c);
    assert(congruent(a + b, b + c));
}

proof fn lemma_congruent_i32_eq(a: i32, b: i32)
    requires
        congruent(a as int, b as int),
    ensures
        a == b,
{
    let m = modulus();
    assert(a as int == b as int) by (nonlinear_arith)
        requires
            (a as int - b as int) % m == 0,
            m == 0x1_0000_0000,
            -0x8000_0000 <= (a as int) < 0x8000_0000,
            -0x8000_0000 <= (b as int) < 0x8000_0000,
    ;
}

proof fn lemma_wrapping_add_congruent(a: i32, b: i32)
    ensures
        congruent(a.wrapping_add(b) as int, a + b),
{
}

proof fn lemma_wrapping_sub_congruent(a: i32, b: i32)
    ensures
        congruent(a.wrapping_sub(b) as int, a - b),
{
}

/// One peer's contribution to an entry, as an integer: the pair's mask word
/// (read as a 32-bit pattern) added or subtracted.
spec fn signed_mask(secret: Seq<u8>, public: Seq<u8>, q: Seq<u8>, n: nat, k: int) -> int {
    let m = pair_mask(secret, q, n, k) as i32 as int;
    if bytes_lt(public, q) {
        m
    } else {
        -m
    }
}

/// Sum of the contributions of the peers `qs`.
spec fn peer_sum(secret: Seq<u8>, public: Seq<u8>, qs: Seq<Seq<u8>>, n: nat, k: int) -> int
    decreases qs.len(),
{
    if qs.len() == 0 {
        0
    } else {
        peer_sum(secret, public, qs.drop_last(), n, k) + signed_mask(
            secret,
            public,
            qs.last(),
            n,
            k,
        )
    }
}

/// Integer sum of 32-bit values.
spec fn value_sum(vals: Seq<i32>) -> int
    decreases vals.len(),
{
    if vals.len() == 0 {
        0
    } else {
        value_sum(vals.drop_last()) + vals.last()
    }
}

proof fn lemma_masked_congruent(
    secret: Seq<u8>,
    public: Seq<u8>,
    qs: Seq<Seq<u8>>,
    n: nat,
    k: int,
    v: i32,
)
    ensures
        congruent(
            masked_value(secret, public, qs, n, k, v) as int,
            v + peer_sum(secret, public, qs, n, k),
        ),
    decreases qs.len(),
{
    if qs.len() > 0 {
        let prev = masked_value(secret, public, qs.drop_last(), n, k, v);
        lemma_masked_congruent(secret, public, qs.drop_last(), n, k, v);
        let w = pair_mask(secret, qs.last(), n, k);
        let m = w as i32;
        let rest = peer_sum(secret, public, qs.drop_last(), n, k);
        if bytes_lt(public, qs.last()) {
            lemma_wrapping_add_congruent(prev, m);
            lemma_congruent_add(prev as int, v + rest, m as int, m as int);
            lemma_congruent_trans(prev.wrapping_add(m) as int, prev + m, v + rest + m);
        } else {
            lemma_wrapping_sub_congruent(prev, m);
            lemma_congruent_add(prev as int, v + rest, -m, -m);
            lemma_congruent_trans(prev.wrapping_sub(m) as int, prev - m, v + rest - m);
        }
    }
}

proof fn lemma_wrapping_total_congruent(vals: Seq<i32>)
    ensures
        congruent(wrapping_total(vals) as int, value_sum(vals)),
    decreases vals.len(),
{
    if vals.len() > 0 {
        let prev = wrapping_total(vals.drop_last());
        lemma_wrapping_total_congruent(vals.drop_last());
        lemma_wrapping_add_congruent(prev, vals.last());
        lemma_congruent_add(
            prev as int,
            value_sum(vals.drop_last()),
            vals.last() as int,
            vals.last() as int,
        );
        lemma_congruent_trans(
            prev.wrapping_add(vals.last()) as int,
            prev + vals.last(),
            value_sum(vals.drop_last()) + vals.last(),
        );
    }
}

proof fn lemma_peer_sum_remove(
    secret: Seq<u8>,
    public: Seq<u8>,
    qs: Seq<Seq<u8>>,
    idx: int,
    n: nat,
    k: int,
)
    requires
        0 <= idx < qs.len(),
    ensures
        peer_sum(secret, public, qs, n, k) == peer_sum(secret, public, qs.remove(idx), n, k)
            + signed_mask(secret, public, qs[idx], n, k),
    decreases qs.len(),
{
    if idx == qs.len() - 1 {
        assert(qs.remove(idx) =~= qs.drop_last());
    } else {
        lemma_peer_sum_remove(secret, public, qs.drop_last(), idx, n, k);
        assert(qs.remove(idx).drop_last() =~= qs.drop_last().remove(idx));
        assert(qs.remove(idx).last() == qs.last());
    }
}

proof fn lemma_peer_sum_permutation(
    secret: Seq<u8>,
    public: Seq<u8>,
    qs: Seq<Seq<u8>>,
    rs: Seq<Seq<u8>>,
    n: nat,
    k: int,
)
    requires
        qs.no_duplicates(),
        rs.no_duplicates(),
        forall|x: Seq<u8>| qs.contains(x) <==> rs.contains(x),
    ensures
        peer_sum(secret, public, qs, n, k) == peer_sum(secret, public, rs, n, k),
    decreases qs.len(),
{
    if qs.len() == 0 {
        if rs.len() > 0 {
            assert(rs.contains(rs[0]));
        }
    } else {
        let x = qs.last();
        assert(qs.contains(x));
        let idx = rs.index_of(x);
        let rs2 = rs.remove(idx);
        let qs2 = qs.drop_last();
        assert forall|y: Seq<u8>| qs2.contains(y) <==> rs2.contains(y) by {
            if qs2.contains(y) {
                let a = qs2.index_of(y);
                assert(qs[a] == y);
                assert(y != x);
                assert(rs.contains(y));
                let b = rs.index_of(y);
                assert(b != idx);
                if b < idx {
                    assert(rs2[b] == y);
                } else {
                    assert(rs2[b - 1] == y);
                }
            }
            if rs2.contains(y) {
                let b = rs2.index_of(y);
                let c = if b < idx { b } else { b + 1 };
                assert(rs[c] == y);
                assert(c != idx);
                assert(y != x);
                assert(qs.contains(y));
                let a = qs.index_of(y);
                assert(a != qs.len() - 1);
                assert(qs2[a] == y);
            }
        }
        assert(rs2.no_duplicates()) by {
            assert forall|a: int, b: int|
                0 <= a < rs2.len() && 0 <= b < rs2.len() && a != b implies rs2[a] != rs2[b] by {
                let a2 = if a < idx { a } else { a + 1 };
                let b2 = if b < idx { b } else { b + 1 };
                assert(rs2[a] == rs[a2]);
                assert(rs2[b] == rs[b2]);
            }
        }
        lemma_peer_sum_permutation(secret, public, qs2, rs2, n, k);
        lemma_peer_sum_remove(secret, public, rs, idx, n, k);
    }
}

proof fn lemma_congruent_symmetric(a: int, b: int)
    requires
        congruent(a, b),
    ensures
        congruent(b, a),
{
    let m = modulus();
    assert((b - a) % m == 0) by (nonlinear_arith)
        requires
            (a - b) % m == 0,
            m == 0x1_0000_0000,
    ;
}

/// Member `i`'s contribution from member `j`'s key.
spec fn entry(secrets: Seq<Seq<u8>>, n: nat, k: int, i: int, j: int) -> int {
    signed_mask(secrets[i], x25519_public(secrets[i]), x25519_public(secrets[j]), n, k)
}

/// Member `i`'s contributions from the first `cols` members' keys.
spec fn row(secrets: Seq<Seq<u8>>, n: nat, k: int, i: int, cols: int) -> int
    decreases cols,
{
    if cols <= 0 {
        0
    } else {
        row(secrets, n, k, i, cols - 1) + entry(secrets, n, k, i, cols - 1)
    }
}

/// The first `rows` members' contributions from member `j`'s key.
spec fn col(secrets: Seq<Seq<u8>>, n: nat, k: int, j: int, rows: int) -> int
    decreases rows,
{
    if rows <= 0 {
        0
    } else {
        col(secrets, n, k, j, rows - 1) + entry(secrets, n, k, rows - 1, j)
    }
}

spec fn rows_total(secrets: Seq<Seq<u8>>, n: nat, k: int, rows: int, cols: int) -> int
    decreases rows,
{
    if rows <= 0 {
        0
    } else {
        rows_total(secrets, n, k, rows - 1, cols) + row(secrets, n, k, rows - 1, cols)
    }
}

spec fn diagonal(secrets: Seq<Seq<u8>>, n: nat, k: int, r: int) -> int
    decreases r,
{
    if r <= 0 {
        0
    } else {
        diagonal(secrets, n, k, r - 1) + entry(secrets, n, k, r - 1, r - 1)
    }
}

/// The first `r` members' contributions from their own peers.
spec fn group_peer_total(
    secrets: Seq<Seq<u8>>,
    peers: Seq<Seq<Seq<u8>>>,
    n: nat,
    k: int,
    r: int,
) -> int
    decreases r,
{
    if r <= 0 {
        0
    } else {
        group_peer_total(secrets, peers, n, k, r - 1) + peer_sum(
            secrets[r - 1],
            x25519_public(secrets[r - 1]),
            peers[r - 1],
            n,
            k,
        )
    }
}

proof fn lemma_entry_antisymmetric(
    secrets: Seq<Seq<u8>>,
    peers: Seq<Seq<Seq<u8>>>,
    n: nat,
    k: int,
    i: int,
    j: int,
)
    requires
        complete_group(secrets, peers),
        0 <= i < secrets.len(),
        0 <= j < secrets.len(),
        i != j,
    ensures
        entry(secrets, n, k, i, j) == -entry(secrets, n, k, j, i),
{
    let publics = group_publics(secrets);
    let pi = x25519_public(secrets[i]);
    let pj = x25519_public(secrets[j]);
    assert(publics[i] == pi && publics[j] == pj);
    if i < j {
        assert(publics[i] != publics[j]);
    } else {
        assert(publics[j] != publics[i]);
    }
    lemma_bytes_lt_total(pi, pj);
    assert(x25519_shared(secrets[i], publics[j]) == x25519_shared(secrets[j], publics[i]));
    assert(pair_mask(secrets[i], pj, n, k) == pair_mask(secrets[j], pi, n, k));
}

proof fn lemma_row_is_peer_sum(secrets: Seq<Seq<u8>>, n: nat, k: int, i: int, cols: int)
    requires
        0 <= cols <= secrets.len(),
    ensures
        row(secrets, n, k, i, cols) == peer_sum(
            secrets[i],
            x25519_public(secrets[i]),
            group_publics(secrets).take(cols),
            n,
            k,
        ),
    decreases cols,
{
    if cols > 0 {
        lemma_row_is_peer_sum(secrets, n, k, i, cols - 1);
        let t = group_publics(secrets).take(cols);
        assert(t.drop_last() =~= group_publics(secrets).take(cols - 1));
        assert(t.last() == x25519_public(secrets[cols - 1]));
    } else {
        assert(group_publics(secrets).take(cols) =~= Seq::<Seq<u8>>::empty());
    }
}

proof fn lemma_rows_total_step(secrets: Seq<Seq<u8>>, n: nat, k: int, rows: int, cols: int)
    requires
        0 <= cols,
    ensures
        rows_total(secrets, n, k, rows, cols + 1) == rows_total(secrets, n, k, rows, cols) + col(
            secrets,
            n,
            k,
            cols,
            rows,
        ),
    decreases rows,
{
    if rows > 0 {
        lemma_rows_total_step(secrets, n, k, rows - 1, cols);
    }
}

proof fn lemma_col_row_cancel(
    secrets: Seq<Seq<u8>>,
    peers: Seq<Seq<Seq<u8>>>,
    n: nat,
    k: int,
    m: int,
    r: int,
)
    requires
        complete_group(secrets, peers),
        0 <= r <= m < secrets.len(),
    ensures
        col(secrets, n, k, m, r) + row(secrets, n, k, m, r) == 0,
    decreases r,
{
    if r > 0 {
        lemma_col_row_cancel(secrets, peers, n, k, m, r - 1);
        lemma_entry_antisymmetric(secrets, peers, n, k, r - 1, m);
    }
}

proof fn lemma_square_is_diagonal(
    secrets: Seq<Seq<u8>>,
    peers: Seq<Seq<Seq<u8>>>,
    n: nat,
    k: int,
    r: int,
)
    requires
        complete_group(secrets, peers),
        0 <= r <= secrets.len(),
    ensures
        rows_total(secrets, n, k, r, r) == diagonal(secrets, n, k, r),
    decreases r,
{
    if r > 0 {
        let m = r - 1;
        lemma_square_is_diagonal(secrets, peers, n, k, m);
        lemma_rows_total_step(secrets, n, k, m, m);
        lemma_col_row_cancel(secrets, peers, n, k, m, m);
    }
}

proof fn lemma_own_peers_sum(
    secrets: Seq<Seq<u8>>,
    peers: Seq<Seq<Seq<u8>>>,
    n: nat,
    k: int,
    i: int,
)
    requires
        complete_group(secrets, peers),
        0 <= i < secrets.len(),
    ensures
        peer_sum(secrets[i], x25519_public(secrets[i]), peers[i], n, k) == row(
            secrets,
            n,
            k,
            i,
            secrets.len() as int,
        ) - entry(secrets, n, k, i, i),
{
    let publics = group_publics(secrets);
    let len = secrets.len() as int;
    let others = publics.remove(i);
    let si = secrets[i];
    let pi = x25519_public(si);
    assert(publics.take(len) =~= publics);
    lemma_row_is_peer_sum(secrets, n, k, i, len);
    lemma_peer_sum_remove(si, pi, publics, i, n, k);
    assert(others.no_duplicates()) by {
        assert forall|a: int, b: int|
            0 <= a < others.len() && 0 <= b < others.len() && a != b implies others[a]
            != others[b] by {
            let a2 = if a < i { a } else { a + 1 };
            let b2 = if b < i { b } else { b + 1 };
            assert(others[a] == publics[a2]);
            assert(others[b] == publics[b2]);
            if a2 < b2 {
                assert(publics[a2] != publics[b2]);
            } else {
                assert(publics[b2] != publics[a2]);
            }
        }
    }
    assert forall|x: Seq<u8>| peers[i].contains(x) <==> others.contains(x) by {
        if peers[i].contains(x) {
            let j = choose|j: int| 0 <= j < len && j != i && x == #[trigger] publics[j];
            let c = if j < i { j } else { j - 1 };
            assert(others[c] == x);
        }
        if others.contains(x) {
            let c = others.index_of(x);
            let j = if c < i { c } else { c + 1 };
            assert(publics[j] == x);
            assert(j != i);
            assert(exists|j2: int| 0 <= j2 < len && j2 != i && x == #[trigger] publics[j2]);
        }
    }
    lemma_peer_sum_permutation(si, pi, peers[i], others, n, k);
}

proof fn lemma_group_peer_total(
    secrets: Seq<Seq<u8>>,
    peers: Seq<Seq<Seq<u8>>>,
    n: nat,
    k: int,
    r: int,
)
    requires
        complete_group(secrets, peers),
        0 <= r <= secrets.len(),
    ensures
        group_peer_total(secrets, peers, n, k, r) == rows_total(
            secrets,
            n,
            k,
            r,
            secrets.len() as int,
        ) - diagonal(secrets, n, k, r),
    decreases r,
{
    if r > 0 {
        lemma_group_peer_total(secrets, peers, n, k, r - 1);
        lemma_own_peers_sum(secrets, peers, n, k, r - 1);
    }
}

proof fn lemma_masked_prefix(
    secrets: Seq<Seq<u8>>,
    peers: Seq<Seq<Seq<u8>>>,
    updates: Seq<i32>,
    n: nat,
    k: int,
    r: int,
)
    requires
        updates.len() == secrets.len(),
        0 <= r <= secrets.len(),
    ensures
        congruent(
            value_sum(group_masked(secrets, peers, updates, n, k).take(r)),
            value_sum(updates.take(r)) + group_peer_total(secrets, peers, n, k, r),
        ),
    decreases r,
{
    let masked = group_masked(secrets, peers, updates, n, k);
    if r > 0 {
        lemma_masked_prefix(secrets, peers, updates, n, k, r - 1);
        assert(masked.take(r).drop_last() =~= masked.take(r - 1));
        assert(updates.take(r).drop_last() =~= updates.take(r - 1));
        let i = r - 1;
        lemma_masked_congruent(
            secrets[i],
            x25519_public(secrets[i]),
            peers[i],
            n,
            k,
            updates[i],
        );
        lemma_congruent_add(
            value_sum(masked.take(r - 1)),
            value_sum(updates.take(r - 1)) + group_peer_total(secrets, peers, n, k, r - 1),
            masked[i] as int,
            updates[i] + peer_sum(secrets[i], x25519_public(secrets[i]), peers[i], n, k),
        );
    } else {
        assert(masked.take(r) =~= Seq::<i32>::empty());
        assert(updates.take(r) =~= Seq::<i32>::empty());
    }
}

/// In a complete group, where every member holds the public key of every
/// other member, the wrapping sum over all members of a masked entry equals
/// the wrapping sum of the original entries: all pairwise masks cancel.
pub proof fn lemma_group_masks_cancel(
    secrets: Seq<Seq<u8>>,
    peers: Seq<Seq<Seq<u8>>>,
    updates: Seq<i32>,
    n: nat,
    k: int,
)
    requires
        complete_group(secrets, peers),
        updates.len() == secrets.len(),
    ensures
        wrapping_total(group_masked(secrets, peers, updates, n, k)) == wrapping_total(updates),
{
    let len = secrets.len() as int;
    let masked = group_masked(secrets, peers, updates, n, k);
    lemma_masked_prefix(secrets, peers, updates, n, k, len);
    assert(masked.take(len) =~= masked);
    assert(updates.take(len) =~= updates);
    lemma_group_peer_total(secrets, peers, n, k, len);
    lemma_square_is_diagonal(secrets, peers, n, k, len);
    lemma_wrapping_total_congruent(masked);
    lemma_wrapping_total_congruent(updates);
    lemma_congruent_trans(wrapping_total(masked) as int, value_sum(masked), value_sum(updates));
    lemma_congruent_symmetric(wrapping_total(updates) as int, value_sum(updates));
    lemma_congruent_trans(
        wrapping_total(masked) as int,
        value_sum(updates),
        wrapping_total(updates) as int,
    );
    lemma_congruent_i32_eq(wrapping_total(masked), wrapping_total(updates));
}

} // verus!
