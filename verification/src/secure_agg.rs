//! Secure aggregation by pairwise masking: every participant hides its
//! fixed-point update under masks drawn from ChaCha20 keystreams keyed by
//! X25519 agreements with its peers. The member with the lexicographically
//! smaller public key adds a pair's mask and the other subtracts it, so the
//! masks cancel in the wrapping (mod 2^32) sum over a complete group.
use vstd::prelude::*;
use rand_chacha::rand_core::{RngCore, SeedableRng};
use rand_chacha::ChaCha20Rng;
use x25519_dalek::{PublicKey, StaticSecret};

pub mod cancellation;

verus! {

/// The X25519 public key of a 32-byte secret key.
pub uninterp spec fn x25519_public(secret: Seq<u8>) -> Seq<u8>;

/// The X25519 shared secret of a 32-byte secret key and a peer's public key.
pub uninterp spec fn x25519_shared(secret: Seq<u8>, peer_public: Seq<u8>) -> Seq<u8>;

/// The first `len` bytes of the ChaCha20 keystream (stream 0, from the
/// start) keyed by a 32-byte seed.
pub uninterp spec fn chacha20_keystream(seed: Seq<u8>, len: nat) -> Seq<u8>;

/// Calls `PublicKey::from(&StaticSecret)` on `StaticSecret::from(secret)`
/// (a `StaticSecret` holds exactly the given bytes) and returns the key's
/// bytes: the X25519 public key of `secret`.
#[verifier::external_body]
fn x25519_public_key(secret: [u8; 32]) -> (pk: [u8; 32])
    ensures
        pk@ == x25519_public(secret@),
{
    PublicKey::from(&StaticSecret::from(secret)).to_bytes()
}

/// Calls `StaticSecret::diffie_hellman` for the secret `secret` against the
/// public key `PublicKey::from(peer_public)` and returns the shared
/// secret's bytes. As x25519-dalek documents, both sides of an exchange
/// obtain the same secret: for every secret key `other` whose public key is
/// `peer_public`, `other` agreed against the public key of `secret` gives
/// the same bytes.
#[verifier::external_body]
fn x25519_agree(secret: [u8; 32], peer_public: [u8; 32]) -> (shared: [u8; 32])
    ensures
        shared@ == x25519_shared(secret@, peer_public@),
        forall|other: Seq<u8>|
            other.len() == 32 && x25519_public(other) == peer_public@ ==> #[trigger] x25519_shared(
                other,
                x25519_public(secret@),
            ) == shared@,
{
    StaticSecret::from(secret).diffie_hellman(&PublicKey::from(peer_public)).to_bytes()
}

/// Calls `StaticSecret::random_from_rng` with the operating system's
/// generator `rand::rngs::OsRng` and returns the key's bytes. They come from
/// the operating system's entropy: nothing is stated of them.
#[verifier::external_body]
fn random_secret() -> (secret: [u8; 32]) {
    StaticSecret::random_from_rng(rand::rngs::OsRng).to_bytes()
}

/// Calls `ChaCha20Rng::from_seed(seed)` and then `RngCore::fill_bytes` on a
/// zeroed buffer of `len` bytes: the first `len` bytes of that generator's
/// output, which are the little-endian bytes of its successive `next_u32`
/// words.
#[verifier::external_body]
fn chacha20_fill(seed: [u8; 32], len: usize) -> (out: Vec<u8>)
    ensures
        out@.len() == len,
        out@ == chacha20_keystream(seed@, len as nat),
{
    let mut rng = ChaCha20Rng::from_seed(seed);
    let mut out = vec![0u8; len];
    rng.fill_bytes(&mut out);
    out
}

/// Lexicographic order of byte strings from position `i` on (a proper
/// prefix comes first), as `<` orders slices and arrays.
pub open spec fn bytes_lt_from(a: Seq<u8>, b: Seq<u8>, i: int) -> bool
    decreases b.len() - i,
{
    if i < 0 || i >= b.len() {
        false
    } else if i >= a.len() {
        true
    } else if a[i] != b[i] {
        a[i] < b[i]
    } else {
        bytes_lt_from(a, b, i + 1)
    }
}

/// `a` comes strictly before `b` in lexicographic order.
pub open spec fn bytes_lt(a: Seq<u8>, b: Seq<u8>) -> bool {
    bytes_lt_from(a, b, 0)
}

/// Of two distinct byte strings exactly one comes first.
pub proof fn lemma_bytes_lt_total(a: Seq<u8>, b: Seq<u8>)
    requires
        a != b,
    ensures
        bytes_lt(a, b) != bytes_lt(b, a),
{
    if a.len() == b.len() {
        assert(exists|j: int| 0 <= j < a.len() && a[j] != b[j]) by {
            if forall|j: int| 0 <= j < a.len() ==> a[j] == b[j] {
                assert(a =~= b);
            }
        }
    }
    lemma_bytes_lt_from_total(a, b, 0);
}

proof fn lemma_bytes_lt_from_total(a: Seq<u8>, b: Seq<u8>, i: int)
    requires
        0 <= i <= a.len(),
        i <= b.len(),
        a.len() != b.len() || exists|j: int| i <= j < a.len() && a[j] != b[j],
    ensures
        bytes_lt_from(a, b, i) != bytes_lt_from(b, a, i),
    decreases a.len() + b.len() - 2 * i,
{
    if i < a.len() && i < b.len() && a[i] == b[i] {
        if a.len() == b.len() {
            let j = choose|j: int| i <= j < a.len() && a[j] != b[j];
            assert(i + 1 <= j);
        }
        lemma_bytes_lt_from_total(a, b, i + 1);
    }
}

/// The little-endian 32-bit word at word index `k` of a byte string.
pub open spec fn le_word(s: Seq<u8>, k: int) -> u32 {
    (s[4 * k] as int + s[4 * k + 1] as int * 256 + s[4 * k + 2] as int * 65536 + s[4 * k + 3] as int
        * 16777216) as u32
}

/// The mask word at index `k` of the pair (`secret`, `peer`) for updates of
/// `n` entries: word `k` of the keystream keyed by their shared secret.
pub open spec fn pair_mask(secret: Seq<u8>, peer: Seq<u8>, n: nat, k: int) -> u32 {
    le_word(chacha20_keystream(x25519_shared(secret, peer), 4 * n), k)
}

/// One pair's mask applied to an entry: added (wrapping) by the member with
/// the smaller public key, subtracted by the other.
pub open spec fn apply_mask(v: i32, add: bool, w: u32) -> i32 {
    if add {
        v.wrapping_add(w as i32)
    } else {
        v.wrapping_sub(w as i32)
    }
}

/// Entry `k` (original value `v`) of an `n`-entry update masked by the
/// participant (`secret`, `public`) against each of `peers` in turn.
pub open spec fn masked_value(
    secret: Seq<u8>,
    public: Seq<u8>,
    peers: Seq<Seq<u8>>,
    n: nat,
    k: int,
    v: i32,
) -> i32
    decreases peers.len(),
{
    if peers.len() == 0 {
        v
    } else {
        apply_mask(
            masked_value(secret, public, peers.drop_last(), n, k, v),
            bytes_lt(public, peers.last()),
            pair_mask(secret, peers.last(), n, k),
        )
    }
}

/// Pairwise-masking participant: its key pair and the public keys of its
/// peers, each held once and never its own.
pub struct SecureAggregator {
    my_secret: [u8; 32],
    my_public_key: [u8; 32],
    peers: Vec<[u8; 32]>,
}

impl SecureAggregator {
    #[verifier::type_invariant]
    spec fn inv(&self) -> bool {
        &&& self.my_public_key@ == x25519_public(self.my_secret@)
        &&& forall|i: int| 0 <= i < self.peers@.len() ==> self.peers@[i]@ != self.my_public_key@
        &&& forall|i: int, j: int|
            0 <= i < j < self.peers@.len() ==> self.peers@[i]@ != self.peers@[j]@
    }

    /// The secret key's bytes.
    pub closed spec fn secret_key(&self) -> Seq<u8> {
        self.my_secret@
    }

    /// The public key's bytes.
    pub closed spec fn public_key(&self) -> Seq<u8> {
        self.my_public_key@
    }

    /// The peers' public keys, in the order they were added.
    pub closed spec fn peer_keys(&self) -> Seq<Seq<u8>> {
        self.peers@.map_values(|p: [u8; 32]| p@)
    }

    /// A participant with a fresh random secret key and no peers.
    pub fn new() -> (s: Self)
        ensures
            s.secret_key().len() == 32,
            s.public_key() == x25519_public(s.secret_key()),
            s.peer_keys().len() == 0,
    {
        Self::from_seed(random_secret())
    }

    /// A participant whose secret key is `seed`, with no peers.
    pub fn from_seed(seed: [u8; 32]) -> (s: Self)
        ensures
            s.secret_key() == seed@,
            s.public_key() == x25519_public(seed@),
            s.peer_keys().len() == 0,
    {
        let public = x25519_public_key(seed);
        let s = SecureAggregator { my_secret: seed, my_public_key: public, peers: Vec::new() };
        assert(s.peer_keys() =~= Seq::<Seq<u8>>::empty());
        s
    }

    /// The participant's public key.
    pub fn get_public_key(&self) -> (pk: [u8; 32])
        ensures
            pk@ == self.public_key(),
            pk@ == x25519_public(self.secret_key()),
    {
        proof {
            use_type_invariant(self);
        }
        self.my_public_key
    }

    /// Adds a peer's public key; the participant's own key and keys already
    /// present leave the peers unchanged.
    pub fn add_peer(&mut self, public_key_bytes: [u8; 32])
        ensures
            final(self).secret_key() == old(self).secret_key(),
            final(self).public_key() == old(self).public_key(),
            final(self).peer_keys() == (if public_key_bytes@ == old(self).public_key()
                || old(self).peer_keys().contains(public_key_bytes@) {
                old(self).peer_keys()
            } else {
                old(self).peer_keys().push(public_key_bytes@)
            }),
    {
        proof {
            use_type_invariant(&*self);
        }
        if key_eq(&public_key_bytes, &self.my_public_key) {
            return;
        }
        let mut i: usize = 0;
        let mut peers: Vec<[u8; 32]> = Vec::new();
        while i < self.peers.len()
            invariant
                0 <= i <= self.peers@.len(),
                public_key_bytes@ != self.my_public_key@,
                forall|j: int| 0 <= j < i ==> self.peers@[j]@ != public_key_bytes@,
                peers@ == self.peers@.subrange(0, i as int),
            decreases self.peers@.len() - i,
        {
            let p = self.peers[i];
            if key_eq(&public_key_bytes, &p) {
                assert(self.peer_keys()[i as int] == public_key_bytes@);
                return;
            }
            peers.push(p);
            i = i + 1;
        }
        assert(!self.peer_keys().contains(public_key_bytes@)) by {
            if self.peer_keys().contains(public_key_bytes@) {
                let j = choose|j: int|
                    0 <= j < self.peer_keys().len() && self.peer_keys()[j] == public_key_bytes@;
                assert(self.peers@[j]@ == public_key_bytes@);
            }
        }
        let ghost old_keys = self.peer_keys();
        peers.push(public_key_bytes);
        self.peers = peers;
        assert(self.peer_keys() =~= old_keys.push(public_key_bytes@));
    }

    /// For every peer in order: whether this participant adds (rather than
    /// subtracts) the pair's mask, and the pair's first `n` mask words.
    pub fn pair_mask_words(&self, n: usize) -> (r: Vec<(bool, Vec<u32>)>)
        requires
            n <= usize::MAX / 4,
        ensures
            r@.len() == self.peer_keys().len(),
            forall|j: int|
                #![trigger r@[j]]
                0 <= j < r@.len() ==> {
                    &&& r@[j].0 == bytes_lt(self.public_key(), self.peer_keys()[j])
                    &&& r@[j].1@.len() == n
                    &&& forall|k: int|
                        0 <= k < n ==> r@[j].1@[k] == pair_mask(
                            self.secret_key(),
                            self.peer_keys()[j],
                            n as nat,
                            k,
                        )
                },
    {
        let mut r: Vec<(bool, Vec<u32>)> = Vec::new();
        let mut j: usize = 0;
        while j < self.peers.len()
            invariant
                n <= usize::MAX / 4,
                j <= self.peers@.len(),
                r@.len() == j,
                forall|p: int|
                    #![trigger r@[p]]
                    0 <= p < j ==> {
                        &&& r@[p].0 == bytes_lt(self.public_key(), self.peer_keys()[p])
                        &&& r@[p].1@.len() == n
                        &&& forall|k: int|
                            0 <= k < n ==> r@[p].1@[k] == pair_mask(
                                self.secret_key(),
                                self.peer_keys()[p],
                                n as nat,
                                k,
                            )
                    },
            decreases self.peers@.len() - j,
        {
            let peer = self.peers[j];
            assert(self.peer_keys()[j as int] == peer@);
            let shared = x25519_agree(self.my_secret, peer);
            let stream = chacha20_fill(shared, 4 * n);
            let add = key_lt(&self.my_public_key, &peer);
            let mut words: Vec<u32> = Vec::new();
            let mut k: usize = 0;
            while k < n
                invariant
                    n <= usize::MAX / 4,
                    k <= n,
                    stream@ == chacha20_keystream(x25519_shared(self.my_secret@, peer@), 4 * n as nat),
                    stream@.len() == 4 * n,
                    words@.len() == k,
                    forall|t: int|
                        0 <= t < k ==> words@[t] == pair_mask(self.my_secret@, peer@, n as nat, t),
                decreases n - k,
            {
                words.push(word_at(&stream, k));
                k = k + 1;
            }
            r.push((add, words));
            j = j + 1;
        }
        r
    }

    /// Masks a Q16.16 update (entries as raw 32-bit patterns): entry `k`
    /// becomes its original value with each peer's mask word `k` added or
    /// subtracted, wrapping mod 2^32. Every pair's two agreements coincide,
    /// so a peer masks with the same words.
    pub fn mask_update_fixed(&self, update: &[i32]) -> (masked: Vec<i32>)
        requires
            update@.len() <= usize::MAX / 4,
        ensures
            masked@.len() == update@.len(),
            forall|k: int|
                0 <= k < update@.len() ==> masked@[k] == masked_value(
                    self.secret_key(),
                    self.public_key(),
                    self.peer_keys(),
                    update@.len() as nat,
                    k,
                    update@[k],
                ),
            forall|j: int, other: Seq<u8>|
                #![trigger x25519_shared(other, self.public_key()), self.peer_keys()[j]]
                0 <= j < self.peer_keys().len() && other.len() == 32 && x25519_public(other)
                    == self.peer_keys()[j] ==> x25519_shared(other, self.public_key())
                    == x25519_shared(self.secret_key(), self.peer_keys()[j]),
    {
        proof {
            use_type_invariant(self);
        }
        let n = update.len();
        let mut masked: Vec<i32> = Vec::new();
        let mut k: usize = 0;
        while k < n
            invariant
                n == update@.len(),
                0 <= k <= n,
                masked@ == update@.subrange(0, k as int),
            decreases n - k,
        {
            masked.push(update[k]);
            k = k + 1;
        }
        assert(masked@ =~= update@);
        let ghost secret = self.secret_key();
        let ghost public = self.public_key();
        let mut j: usize = 0;
        while j < self.peers.len()
            invariant
                n == update@.len(),
                n <= usize::MAX / 4,
                0 <= j <= self.peers@.len(),
                secret == self.my_secret@,
                public == self.my_public_key@,
                public == x25519_public(secret),
                masked@.len() == n,
                forall|i: int|
                    0 <= i < n ==> masked@[i] == masked_value(
                        secret,
                        public,
                        self.peer_keys().take(j as int),
                        n as nat,
                        i,
                        update@[i],
                    ),
                forall|p: int, other: Seq<u8>|
                    #![trigger x25519_shared(other, public), self.peer_keys()[p]]
                    0 <= p < j && other.len() == 32 && x25519_public(other) == self.peer_keys()[p]
                        ==> x25519_shared(other, public) == x25519_shared(
                        secret,
                        self.peer_keys()[p],
                    ),
            decreases self.peers@.len() - j,
        {
            let peer = self.peers[j];
            let ghost done = self.peer_keys().take(j as int);
            let ghost next = self.peer_keys().take(j as int + 1);
            assert(next.drop_last() =~= done);
            assert(next.last() == peer@);
            let shared = x25519_agree(self.my_secret, peer);
            let stream = chacha20_fill(shared, 4 * n);
            let add = key_lt(&self.my_public_key, &peer);
            let mut i: usize = 0;
            while i < n
                invariant
                    n == update@.len(),
                    n <= usize::MAX / 4,
                    0 <= i <= n,
                    stream@ == chacha20_keystream(x25519_shared(secret, peer@), 4 * n as nat),
                    stream@.len() == 4 * n,
                    add == bytes_lt(public, peer@),
                    masked@.len() == n,
                    forall|t: int|
                        0 <= t < i ==> masked@[t] == masked_value(
                            secret,
                            public,
                            next,
                            n as nat,
                            t,
                            update@[t],
                        ),
                    forall|t: int|
                        i <= t < n ==> masked@[t] == masked_value(
                            secret,
                            public,
                            done,
                            n as nat,
                            t,
                            update@[t],
                        ),
                    next.drop_last() == done,
                    next.last() == peer@,
                    next.len() > 0,
                decreases n - i,
            {
                let w = word_at(&stream, i);
                let old_v = masked[i];
                let new_v = if add {
                    old_v.wrapping_add(w as i32)
                } else {
                    old_v.wrapping_sub(w as i32)
                };
                masked.set(i, new_v);
                i = i + 1;
            }
            proof {
                assert forall|p: int, other: Seq<u8>|
                    #![trigger x25519_shared(other, public), self.peer_keys()[p]]
                    0 <= p < j + 1 && other.len() == 32 && x25519_public(other)
                        == self.peer_keys()[p] implies x25519_shared(other, public)
                    == x25519_shared(secret, self.peer_keys()[p]) by {
                    if p == j {
                        assert(self.peer_keys()[p] == peer@);
                    }
                }
            }
            j = j + 1;
        }
        assert(self.peer_keys().take(self.peers@.len() as int) =~= self.peer_keys());
        masked
    }
}

impl Default for SecureAggregator {
    fn default() -> (s: Self)
        ensures
            s.secret_key().len() == 32,
            s.public_key() == x25519_public(s.secret_key()),
            s.peer_keys().len() == 0,
    {
        Self::new()
    }
}

/// Word `k` of a keystream, little-endian.
fn word_at(s: &Vec<u8>, k: usize) -> (w: u32)
    requires
        4 * k + 3 < s.len(),
    ensures
        w == le_word(s@, k as int),
{
    let b0 = s[4 * k] as u32;
    let b1 = s[4 * k + 1] as u32;
    let b2 = s[4 * k + 2] as u32;
    let b3 = s[4 * k + 3] as u32;
    b0 + b1 * 256 + b2 * 65536 + b3 * 16777216
}

/// Byte-wise equality of two keys.
fn key_eq(a: &[u8; 32], b: &[u8; 32]) -> (r: bool)
    ensures
        r == (a@ == b@),
{
    let mut i: usize = 0;
    while i < 32
        invariant
            0 <= i <= 32,
            a@.len() == 32,
            b@.len() == 32,
            forall|j: int| 0 <= j < i ==> a@[j] == b@[j],
        decreases 32 - i,
    {
        if a[i] != b[i] {
            return false;
        }
        i = i + 1;
    }
    assert(a@ =~= b@);
    true
}

/// Lexicographic comparison of two keys.
fn key_lt(a: &[u8; 32], b: &[u8; 32]) -> (r: bool)
    ensures
        r == bytes_lt(a@, b@),
{
    let mut i: usize = 0;
    while i < 32
        invariant
            0 <= i <= 32,
            a@.len() == 32,
            b@.len() == 32,
            bytes_lt(a@, b@) == bytes_lt_from(a@, b@, i as int),
        decreases 32 - i,
    {
        if a[i] != b[i] {
            return a[i] < b[i];
        }
        i = i + 1;
    }
    false
}

/// Two participants that hold each other's public key, and no other, mask
/// entry `k` of their updates so that the wrapping sum of the two masked
/// entries is the wrapping sum of the originals: their masks cancel. The
/// pair's two X25519 agreements coincide (as `mask_update_fixed` states of
/// every pair) and their public keys differ.
pub proof fn lemma_pair_masks_cancel(
    secret_a: Seq<u8>,
    secret_b: Seq<u8>,
    n: nat,
    k: int,
    u: i32,
    v: i32,
)
    requires
        x25519_public(secret_a) != x25519_public(secret_b),
        x25519_shared(secret_a, x25519_public(secret_b)) == x25519_shared(
            secret_b,
            x25519_public(secret_a),
        ),
    ensures
        ({
            let pa = x25519_public(secret_a);
            let pb = x25519_public(secret_b);
            masked_value(secret_a, pa, seq![pb], n, k, u).wrapping_add(
                masked_value(secret_b, pb, seq![pa], n, k, v),
            ) == u.wrapping_add(v)
        }),
{
    let pa = x25519_public(secret_a);
    let pb = x25519_public(secret_b);
    lemma_bytes_lt_total(pa, pb);
    assert(seq![pb].drop_last() =~= Seq::<Seq<u8>>::empty());
    assert(seq![pa].drop_last() =~= Seq::<Seq<u8>>::empty());
    let w = pair_mask(secret_a, pb, n, k);
    assert(pair_mask(secret_b, pa, n, k) == w);
    let m = w as i32;
    let ma = masked_value(secret_a, pa, seq![pb], n, k, u);
    let mb = masked_value(secret_b, pb, seq![pa], n, k, v);
    assert(masked_value(secret_a, pa, seq![pb].drop_last(), n, k, u) == u);
    assert(masked_value(secret_b, pb, seq![pa].drop_last(), n, k, v) == v);
    assert(ma == apply_mask(u, bytes_lt(pa, pb), w));
    assert(mb == apply_mask(v, bytes_lt(pb, pa), w));
    if bytes_lt(pa, pb) {
        assert(ma == u.wrapping_add(m));
        assert(mb == v.wrapping_sub(m));
    } else {
        assert(ma == u.wrapping_sub(m));
        assert(mb == v.wrapping_add(m));
    }
}

} // verus!
