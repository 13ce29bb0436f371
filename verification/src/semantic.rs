//! Semantic identifiers for gene gossip: decentralized identifiers (DIDs)
//! derived from 32-byte peer keys, RDF provenance triples, and the hex
//! encoding that both rely on.
use vstd::prelude::*;
use vstd::string::StringSliceAdditionalSpecFns;

verus! {

/// `String::push` appends one character to the string.
pub assume_specification[ String::push ](s: &mut String, ch: char)
    ensures
        final(s)@ == old(s)@.push(ch),
;

/// ASCII code of the lower-case hex digit for a value below 16.
pub open spec fn hex_digit(n: u8) -> u8 {
    if n < 10 {
        (48 + n) as u8
    } else {
        (87 + n) as u8
    }
}

/// Lower-case hex encoding: two ASCII digits per byte, high nibble first.
pub open spec fn hex_encode(b: Seq<u8>) -> Seq<u8> {
    Seq::new(
        2 * b.len(),
        |i: int|
            if i % 2 == 0 {
                hex_digit(b[i / 2] >> 4u8)
            } else {
                hex_digit(b[i / 2] & 0x0fu8)
            },
    )
}

/// Characters of an ASCII byte sequence.
pub open spec fn ascii_chars(s: Seq<u8>) -> Seq<char> {
    s.map_values(|b: u8| b as char)
}

/// Value of a hex digit (either case), or `None` for any other byte.
pub open spec fn nibble_value(c: u8) -> Option<u8> {
    if 48 <= c <= 57 {
        Some((c - 48) as u8)
    } else if 97 <= c <= 102 {
        Some((c - 87) as u8)
    } else if 65 <= c <= 70 {
        Some((c - 55) as u8)
    } else {
        None
    }
}

/// Whether every byte of `s` is a hex digit.
pub open spec fn all_hex(s: Seq<u8>) -> bool {
    forall|i: int| 0 <= i < s.len() ==> (#[trigger] nibble_value(s[i])) is Some
}

/// The byte that a pair of hex digits stands for.
pub open spec fn hex_pair(s: Seq<u8>, k: int) -> u8 {
    (nibble_value(s[2 * k]).unwrap() * 16 + nibble_value(s[2 * k + 1]).unwrap()) as u8
}

/// Hex decoding: `None` for an odd length or a byte that is not a hex digit.
pub open spec fn hex_decode(s: Seq<u8>) -> Option<Seq<u8>> {
    if s.len() % 2 != 0 || !all_hex(s) {
        None
    } else {
        Some(Seq::new(s.len() / 2, |k: int| hex_pair(s, k)))
    }
}

/// The ASCII bytes of the DID method prefix `did:qres:`.
pub open spec fn did_prefix() -> Seq<u8> {
    seq![100u8, 105u8, 100u8, 58u8, 113u8, 114u8, 101u8, 115u8, 58u8]
}

/// The ASCII bytes of the DID of a public key: the prefix, then the key in hex.
pub open spec fn did_bytes(pubkey: Seq<u8>) -> Seq<u8> {
    did_prefix() + hex_encode(pubkey)
}

/// What parsing the UTF-8 bytes of a DID gives: the public key when the text
/// is the prefix followed by exactly 64 hex digits, `None` otherwise.
pub open spec fn did_parse(b: Seq<u8>) -> Option<Seq<u8>> {
    if b.len() == 73 && b.subrange(0, 9) == did_prefix() {
        hex_decode(b.subrange(9, 73))
    } else {
        None
    }
}

/// Value of one hex digit (`0-9`, `a-f`, `A-F`).
pub fn hex_nibble(c: u8) -> (r: Option<u8>)
    ensures
        r == nibble_value(c),
{
    if 48 <= c && c <= 57 {
        Some(c - 48)
    } else if 97 <= c && c <= 102 {
        Some(c - 87)
    } else if 65 <= c && c <= 70 {
        Some(c - 55)
    } else {
        None
    }
}

/// The lower-case hex digit of a value below 16, as a character.
fn hex_char(n: u8) -> (c: char)
    requires
        n < 16,
    ensures
        c == hex_digit(n) as char,
{
    let d: u8 = if n < 10 { 48 + n } else { 87 + n };
    d as char
}

/// Appends the lower-case hex encoding of `bytes` to `s`.
fn push_hex(s: &mut String, bytes: &[u8])
    ensures
        final(s)@ == old(s)@ + ascii_chars(hex_encode(bytes@)),
{
    let mut i: usize = 0;
    while i < bytes.len()
        invariant
            i <= bytes@.len(),
            s@ == old(s)@ + ascii_chars(hex_encode(bytes@.subrange(0, i as int))),
        decreases bytes@.len() - i,
    {
        let b = bytes[i];
        let hi = b >> 4u8;
        let lo = b & 0x0fu8;
        assert(hi < 16 && lo < 16) by (bit_vector)
            requires
                hi == b >> 4u8,
                lo == b & 0x0fu8,
        ;
        let ghost before = s@;
        s.push(hex_char(hi));
        s.push(hex_char(lo));
        proof {
            let p = bytes@.subrange(0, i as int);
            let q = bytes@.subrange(0, i + 1);
            assert(hex_encode(q) =~= hex_encode(p) + seq![hex_digit(hi), hex_digit(lo)]) by {
                assert forall|k: int| 0 <= k < 2 * p.len() implies hex_encode(q)[k] == hex_encode(p)[k] by {
                    assert(q[k / 2] == p[k / 2]);
                }
                assert(q[i as int] == b);
            }
            assert(ascii_chars(hex_encode(q)) =~= ascii_chars(hex_encode(p)) + seq![
                hex_digit(hi) as char,
                hex_digit(lo) as char,
            ]);
        }
        i = i + 1;
    }
    proof {
        assert(bytes@.subrange(0, i as int) =~= bytes@);
    }
}

/// Lower-case hex encoding of `bytes`.
pub fn bytes_to_hex(bytes: &[u8]) -> (s: String)
    ensures
        s@ == ascii_chars(hex_encode(bytes@)),
{
    let mut s = String::new();
    push_hex(&mut s, bytes);
    proof {
        assert(s@ =~= ascii_chars(hex_encode(bytes@)));
    }
    s
}

/// Hex decoding of raw bytes.
fn hex_decode_bytes(h: &[u8]) -> (r: Option<Vec<u8>>)
    ensures
        match r {
            Some(v) => hex_decode(h@) == Some(v@),
            None => hex_decode(h@) is None,
        },
{
    if h.len() % 2 != 0 {
        return None;
    }
    let mut out: Vec<u8> = Vec::new();
    let mut i: usize = 0;
    while i < h.len()
        invariant
            h@.len() % 2 == 0,
            i % 2 == 0,
            i <= h@.len(),
            out@.len() == i / 2,
            forall|j: int| 0 <= j < i ==> (#[trigger] nibble_value(h@[j])) is Some,
            forall|k: int| 0 <= k < i / 2 ==> #[trigger] out@[k] == hex_pair(h@, k),
        decreases h@.len() - i,
    {
        let hi = match hex_nibble(h[i]) {
            Some(v) => v,
            None => {
                proof {
                    assert(!all_hex(h@));
                }
                return None;
            },
        };
        let lo = match hex_nibble(h[i + 1]) {
            Some(v) => v,
            None => {
                proof {
                    assert(!all_hex(h@));
                }
                return None;
            },
        };
        assert(hi < 16 && lo < 16);
        let byte = (hi << 4u8) | lo;
        assert(byte == hi * 16 + lo) by (bit_vector)
            requires
                hi < 16,
                lo < 16,
                byte == (hi << 4u8) | lo,
        ;
        proof {
            assert(2 * (i as int / 2) == i);
        }
        out.push(byte);
        i = i + 2;
    }
    proof {
        assert(all_hex(h@));
        assert(out@ =~= Seq::new(h@.len() / 2, |k: int| hex_pair(h@, k)));
    }
    Some(out)
}

/// Hex decoding of a string: `None` for an odd length or a non-hex digit.
pub fn hex_to_bytes(hex: &str) -> (r: Option<Vec<u8>>)
    ensures
        match r {
            Some(v) => hex_decode(hex.spec_bytes()) == Some(v@),
            None => hex_decode(hex.spec_bytes()) is None,
        },
{
    hex_decode_bytes(hex.as_bytes())
}

/// Hex decoding into exactly 32 bytes: `None` unless the text decodes to
/// 32 bytes.
pub fn hex_to_bytes32(hex: &str) -> (r: Option<[u8; 32]>)
    ensures
        match r {
            Some(a) => hex_decode(hex.spec_bytes()) == Some(a@),
            None => !(hex_decode(hex.spec_bytes()) matches Some(v) && v.len() == 32),
        },
{
    let bytes = match hex_to_bytes(hex) {
        Some(b) => b,
        None => return None,
    };
    if bytes.len() != 32 {
        return None;
    }
    let mut arr = [0u8; 32];
    let mut i: usize = 0;
    while i < 32
        invariant
            bytes@.len() == 32,
            i <= 32,
            forall|k: int| 0 <= k < i ==> arr@[k] == bytes@[k],
        decreases 32 - i,
    {
        arr[i] = bytes[i];
        i = i + 1;
    }
    proof {
        assert(arr@ =~= bytes@);
    }
    Some(arr)
}

/// A decentralized identifier `did:qres:<hex key>` of a swarm node.
#[derive(Clone, Debug, PartialEq, Eq)]
pub struct NodeDid {
    /// Full DID text.
    pub id: String,
    /// Raw 32-byte public key.
    pub pubkey: [u8; 32],
}

impl NodeDid {
    /// The DID of a 32-byte public key.
    pub fn from_pubkey(pubkey: &[u8; 32]) -> (d: Self)
        ensures
            d.id@ == ascii_chars(did_bytes(pubkey@)),
            d.pubkey == *pubkey,
    {
        let mut id = String::new();
        id.push('d');
        id.push('i');
        id.push('d');
        id.push(':');
        id.push('q');
        id.push('r');
        id.push('e');
        id.push('s');
        id.push(':');
        proof {
            assert(id@ =~= ascii_chars(did_prefix()));
        }
        push_hex(&mut id, pubkey);
        proof {
            assert(ascii_chars(did_prefix()) + ascii_chars(hex_encode(pubkey@)) =~= ascii_chars(
                did_bytes(pubkey@),
            ));
        }
        NodeDid { id, pubkey: *pubkey }
    }

    /// Parses a DID: `Some` exactly when the text is `did:qres:` followed by
    /// 64 hex digits, with the decoded key and the text itself.
    pub fn parse(did: &str) -> (r: Option<Self>)
        ensures
            match r {
                Some(d) => did_parse(did.spec_bytes()) == Some(d.pubkey@) && d.id@ == did@,
                None => did_parse(did.spec_bytes()) is None,
            },
    {
        let b = did.as_bytes();
        if b.len() != 73 {
            return None;
        }
        if !(b[0] == 100 && b[1] == 105 && b[2] == 100 && b[3] == 58 && b[4] == 113 && b[5] == 114
            && b[6] == 101 && b[7] == 115 && b[8] == 58) {
            proof {
                let p = b@.subrange(0, 9);
                if p == did_prefix() {
                    assert(p[0] == b@[0] && p[1] == b@[1] && p[2] == b@[2] && p[3] == b@[3]);
                    assert(p[4] == b@[4] && p[5] == b@[5] && p[6] == b@[6] && p[7] == b@[7]);
                    assert(p[8] == b@[8]);
                }
            }
            return None;
        }
        proof {
            assert(b@.subrange(0, 9) =~= did_prefix());
        }
        let rest = &b[9..73];
        let decoded = match hex_decode_bytes(rest) {
            Some(v) => v,
            None => return None,
        };
        let mut pubkey = [0u8; 32];
        let mut i: usize = 0;
        while i < 32
            invariant
                decoded@.len() == 32,
                i <= 32,
                forall|k: int| 0 <= k < i ==> pubkey@[k] == decoded@[k],
            decreases 32 - i,
        {
            pubkey[i] = decoded[i];
            i = i + 1;
        }
        proof {
            assert(pubkey@ =~= decoded@);
        }
        Some(NodeDid { id: did.to_owned(), pubkey })
    }
}

/// Hex decoding inverts hex encoding.
pub proof fn lemma_hex_roundtrip(b: Seq<u8>)
    ensures
        hex_decode(hex_encode(b)) == Some(b),
{
    let h = hex_encode(b);
    assert(h.len() % 2 == 0);
    assert forall|i: int| 0 <= i < h.len() implies (#[trigger] nibble_value(h[i])) is Some by {
        let x = b[i / 2];
        let hi = x >> 4u8;
        let lo = x & 0x0fu8;
        assert(hi < 16 && lo < 16) by (bit_vector)
            requires
                hi == x >> 4u8,
                lo == x & 0x0fu8,
        ;
    }
    assert forall|k: int| 0 <= k < b.len() implies #[trigger] hex_pair(h, k) == b[k] by {
        let x = b[k];
        let hi = x >> 4u8;
        let lo = x & 0x0fu8;
        assert(hi < 16 && lo < 16 && hi * 16 + lo == x) by (bit_vector)
            requires
                hi == x >> 4u8,
                lo == x & 0x0fu8,
        ;
        assert(h[2 * k] == hex_digit(hi));
        assert(h[2 * k + 1] == hex_digit(lo));
    }
    assert(Seq::new(h.len() / 2, |k: int| hex_pair(h, k)) =~= b);
}

/// Parsing the DID of a public key gives the key back.
pub proof fn lemma_did_roundtrip(pubkey: Seq<u8>)
    requires
        pubkey.len() == 32,
    ensures
        did_parse(did_bytes(pubkey)) == Some(pubkey),
{
    let d = did_bytes(pubkey);
    assert(d.subrange(0, 9) =~= did_prefix());
    assert(d.subrange(9, 73) =~= hex_encode(pubkey));
    lemma_hex_roundtrip(pubkey);
}

/// The UTF-8 bytes of the characters of an ASCII byte sequence are the
/// sequence itself.
pub proof fn lemma_ascii_utf8(s: Seq<u8>)
    requires
        forall|i: int| 0 <= i < s.len() ==> #[trigger] s[i] < 128,
    ensures
        vstd::utf8::encode_utf8(ascii_chars(s)) == s,
{
    let c = ascii_chars(s);
    assert(vstd::utf8::is_ascii_chars(c));
    vstd::utf8::is_ascii_chars_encode_utf8(c);
    assert forall|i: int| 0 <= i < s.len() implies #[trigger] vstd::utf8::encode_utf8(c)[i] == s[i] by {
        assert(c[i] as u8 == vstd::utf8::encode_utf8(c)[i]);
    }
    assert(vstd::utf8::encode_utf8(c) =~= s);
}

/// The DID text of a key is ASCII, so its UTF-8 bytes are `did_bytes`, and
/// parsing the text built by `from_pubkey` gives the key back.
pub proof fn lemma_did_text_roundtrip(pubkey: Seq<u8>)
    requires
        pubkey.len() == 32,
    ensures
        did_parse(vstd::utf8::encode_utf8(ascii_chars(did_bytes(pubkey)))) == Some(pubkey),
{
    let d = did_bytes(pubkey);
    assert forall|i: int| 0 <= i < d.len() implies #[trigger] d[i] < 128 by {
        if i >= 9 {
            let x = pubkey[(i - 9) / 2];
            assert(x >> 4u8 < 16 && x & 0x0fu8 < 16) by (bit_vector);
        }
    }
    lemma_ascii_utf8(d);
    lemma_did_roundtrip(pubkey);
}

/// A subject-predicate-object triple describing gene provenance.
#[derive(Clone, Debug, PartialEq)]
pub struct RdfTriple {
    pub subject: String,
    pub predicate: String,
    pub object: String,
}

impl RdfTriple {
    /// A triple holding copies of the three texts.
    pub fn new(subject: &str, predicate: &str, object: &str) -> (t: Self)
        ensures
            t.subject@ == subject@,
            t.predicate@ == predicate@,
            t.object@ == object@,
    {
        RdfTriple { subject: subject.to_owned(), predicate: predicate.to_owned(), object: object.to_owned() }
    }
}

/// Regime at the time a gene is exported.
#[derive(Clone, Copy, Debug, PartialEq, Eq)]
pub enum Regime {
    Calm,
    PreStorm,
    Storm,
}

/// Name of a regime.
pub open spec fn regime_name(r: Regime) -> Seq<char> {
    match r {
        Regime::Calm => seq!['C', 'a', 'l', 'm'],
        Regime::PreStorm => seq!['P', 'r', 'e', 'S', 't', 'o', 'r', 'm'],
        Regime::Storm => seq!['S', 't', 'o', 'r', 'm'],
    }
}

impl Regime {
    /// The regime's name.
    pub fn as_str(&self) -> (s: &'static str)
        ensures
            s@ == regime_name(*self),
    {
        match self {
            Regime::Calm => {
                proof {
                    reveal_strlit("Calm");
                }
                "Calm"
            },
            Regime::PreStorm => {
                proof {
                    reveal_strlit("PreStorm");
                }
                "PreStorm"
            },
            Regime::Storm => {
                proof {
                    reveal_strlit("Storm");
                }
                "Storm"
            },
        }
    }
}

/// Sensor modality associated with a gene.
#[derive(Clone, Debug, PartialEq, Eq)]
pub enum Modality {
    Temperature,
    AirQuality,
    Vibration,
    Power,
    Custom(String),
}

/// Name of a modality; a custom modality is named by its own text.
pub open spec fn modality_name(m: Modality) -> Seq<char> {
    match m {
        Modality::Temperature => seq!['t', 'e', 'm', 'p', 'e', 'r', 'a', 't', 'u', 'r', 'e'],
        Modality::AirQuality => seq!['a', 'i', 'r', '-', 'q', 'u', 'a', 'l', 'i', 't', 'y'],
        Modality::Vibration => seq!['v', 'i', 'b', 'r', 'a', 't', 'i', 'o', 'n'],
        Modality::Power => seq!['p', 'o', 'w', 'e', 'r'],
        Modality::Custom(s) => s@,
    }
}

impl Modality {
    /// The modality's name.
    pub fn as_str(&self) -> (s: &str)
        ensures
            s@ == modality_name(*self),
    {
        match self {
            Modality::Temperature => {
                proof {
                    reveal_strlit("temperature");
                }
                "temperature"
            },
            Modality::AirQuality => {
                proof {
                    reveal_strlit("air-quality");
                }
                "air-quality"
            },
            Modality::Vibration => {
                proof {
                    reveal_strlit("vibration");
                }
                "vibration"
            },
            Modality::Power => {
                proof {
                    reveal_strlit("power");
                }
                "power"
            },
            Modality::Custom(s) => s.as_str(),
        }
    }
}

} // verus!
