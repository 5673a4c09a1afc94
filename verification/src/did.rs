//! Decentralized identifiers of KwaaiNet nodes and passkeys.
//!
//! A node's DID is `did:peer:` followed by the base58 form of its libp2p
//! peer id; a passkey's DID is `did:key:z` followed by the base58 form of
//! its compressed P-256 public key behind the P-256 multicodec prefix.

use vstd::prelude::*;

use crate::fmt::push_lit;
use crate::text::{chars_of, string_of};

verus! {

/// The Bitcoin base58 alphabet.
pub open spec fn base58_alphabet() -> Seq<char> {
    "123456789ABCDEFGHJKLMNPQRSTUVWXYZabcdefghijkmnopqrstuvwxyz"@
}

/// The bytes read as one big-endian number.
pub open spec fn be_value(b: Seq<u8>) -> nat
    decreases b.len(),
{
    if b.len() == 0 {
        0
    } else {
        be_value(b.drop_last()) * 256 + b.last() as nat
    }
}

/// The base58 digits of `n`, most significant first, none for zero.
pub open spec fn base58_digits(n: nat) -> Seq<char>
    decreases n,
{
    if n == 0 {
        Seq::empty()
    } else {
        base58_digits(n / 58).push(base58_alphabet()[(n % 58) as int])
    }
}

/// How many zero bytes `b` starts with.
pub open spec fn leading_zero_bytes(b: Seq<u8>) -> nat
    decreases b.len(),
{
    if b.len() > 0 && b[0] == 0 {
        1 + leading_zero_bytes(b.drop_first())
    } else {
        0
    }
}

/// Base58 (Bitcoin alphabet): a `1` for each leading zero byte, then the
/// digits of the bytes' big-endian value.
pub open spec fn base58_spec(b: Seq<u8>) -> Seq<char> {
    Seq::new(leading_zero_bytes(b), |i: int| '1') + base58_digits(be_value(b))
}

/// `bs58::encode(bytes).into_string()`: the base58 form of the bytes in the
/// Bitcoin alphabet, as the crate's `encode_into` computes it (repeated
/// division of the big-endian value by 58, then one `1` per leading zero
/// byte).
#[verifier::external_body]
fn base58_encode(bytes: &[u8]) -> (r: String)
    ensures
        r@ == base58_spec(bytes@),
{
    bs58::encode(bytes).into_string()
}

/// The base58 form of a byte string.
pub fn to_base58(bytes: &Vec<u8>) -> (r: String)
    ensures
        r@ == base58_spec(bytes@),
{
    base58_encode(bytes.as_slice())
}

/// The DID of a node with the peer-id bytes `peer_id`.
pub open spec fn peer_did_spec(peer_id: Seq<u8>) -> Seq<char> {
    "did:peer:"@ + base58_spec(peer_id)
}

/// `did:peer:<base58 peer id>` for a node whose peer id has the bytes
/// `peer_id`.
pub fn peer_id_to_did(peer_id: &Vec<u8>) -> (r: String)
    ensures
        r@ == peer_did_spec(peer_id@),
{
    let mut s = chars_of("did:peer:");
    let b = to_base58(peer_id);
    let t = chars_of(b.as_str());
    crate::fmt::push_all(&mut s, &t);
    string_of(&s)
}

/// The bytes of the peer id that libp2p parses out of the text `s`
/// (`<PeerId as FromStr>::from_str`, then `PeerId::to_bytes`), or `None`
/// where it refuses the text.
pub uninterp spec fn peer_id_parse(s: Seq<char>) -> Option<Seq<u8>>;

/// An optional byte string taken by its bytes.
pub open spec fn opt_bytes_view(o: Option<Vec<u8>>) -> Option<Seq<u8>> {
    match o {
        Some(v) => Some(v@),
        None => None,
    }
}

/// `s.parse::<libp2p::PeerId>()` (base58 decoding, then reading the bytes
/// as an identity or SHA-256 multihash), the parsed id given by its bytes.
/// The result is named, not stated: which texts libp2p accepts is its own.
#[verifier::external_body]
pub(crate) fn parse_peer_id(s: &str) -> (r: Option<Vec<u8>>)
    ensures
        opt_bytes_view(r) == peer_id_parse(s@),
{
    match s.parse::<libp2p::PeerId>() {
        Ok(p) => Some(p.to_bytes()),
        Err(_) => None,
    }
}

/// The peer id (by its bytes) that a `did:peer:` DID names, if it is one.
pub open spec fn did_peer_spec(did: Seq<char>) -> Option<Seq<u8>> {
    if crate::parse::has_prefix(did, "did:peer:"@) {
        peer_id_parse(did.skip(9))
    } else {
        None
    }
}

/// The peer id (by its bytes) named by a `did:peer:` DID: `None` where the
/// DID has another method or its base58 part is no peer id.
pub fn did_to_peer_id(did: &str) -> (r: Option<Vec<u8>>)
    ensures
        opt_bytes_view(r) == did_peer_spec(did@),
{
    proof {
        reveal_strlit("did:peer:");
    }
    let c = chars_of(did);
    if !crate::parse::starts_with_lit(&c, "did:peer:") {
        return None;
    }
    let rest = crate::parse::sub_chars(&c, 9, c.len());
    assert(rest@ =~= did@.skip(9));
    let t = string_of(&rest);
    parse_peer_id(t.as_str())
}

/// Whether the DID names the peer whose id has the bytes `peer_id`.
pub fn did_matches_peer(did: &str, peer_id: &Vec<u8>) -> (r: bool)
    ensures
        r == (did_peer_spec(did@) == Some(peer_id@)),
{
    match did_to_peer_id(did) {
        Some(p) => crate::rebalancer::bytes_eq(&p, peer_id),
        None => false,
    }
}

/// The peer id (by its bytes) of a bootstrap multiaddr
/// (`…/p2p/<peer id>`), as the DHT store and find loops read it before
/// calling the peer: `None` where the address has no `/p2p/` part or its
/// peer id does not parse, and the peer is skipped.
pub fn bootstrap_peer_id(addr: &str) -> (r: Option<Vec<u8>>)
    ensures
        opt_bytes_view(r) == match crate::parse::p2p_peer_part(addr@) {
            Some(t) => peer_id_parse(t),
            None => None,
        },
{
    match crate::parse::p2p_peer_id_text(addr) {
        Some(t) => parse_peer_id(t.as_str()),
        None => None,
    }
}

/// The verification method of a node's primary key: its DID with `#key-1`.
pub fn verification_method(peer_id: &Vec<u8>) -> (r: String)
    ensures
        r@ == peer_did_spec(peer_id@) + "#key-1"@,
{
    let d = peer_id_to_did(peer_id);
    let mut s = chars_of(d.as_str());
    push_lit(&mut s, "#key-1");
    string_of(&s)
}

/// The protobuf header of an Ed25519 public key: key type 1, then 32 bytes
/// of data.
pub open spec fn ed25519_header_at(b: Seq<u8>, i: int) -> bool {
    b[i] == 0x08 && b[i + 1] == 0x01 && b[i + 2] == 0x12 && b[i + 3] == 0x20
}

/// The first position below `n` where an Ed25519 key header starts.
pub open spec fn first_ed25519_header(b: Seq<u8>, n: nat) -> Option<int>
    decreases n,
{
    if n == 0 {
        None
    } else {
        match first_ed25519_header(b, (n - 1) as nat) {
            Some(i) => Some(i),
            None => if ed25519_header_at(b, n - 1) {
                Some(n - 1)
            } else {
                None
            },
        }
    }
}

/// The 32 bytes after the first Ed25519 key header that starts before
/// position `len - 35`.
pub open spec fn ed25519_key_spec(b: Seq<u8>) -> Option<Seq<u8>> {
    let n: nat = if b.len() > 35 {
        (b.len() - 35) as nat
    } else {
        0
    };
    match first_ed25519_header(b, n) {
        Some(i) => Some(b.subrange(i + 4, i + 36)),
        None => None,
    }
}

/// A header found below `m` is the first one below any `n >= m` too.
proof fn lemma_first_header_stable(b: Seq<u8>, m: nat, n: nat)
    requires
        m <= n,
        first_ed25519_header(b, m) is Some,
    ensures
        first_ed25519_header(b, n) == first_ed25519_header(b, m),
    decreases n - m,
{
    if m < n {
        lemma_first_header_stable(b, m, (n - 1) as nat);
    }
}

/// The bytes `b[from..to]`.
fn sub_bytes(b: &Vec<u8>, from: usize, to: usize) -> (r: Vec<u8>)
    requires
        from <= to <= b.len(),
    ensures
        r@ == b@.subrange(from as int, to as int),
{
    let mut r: Vec<u8> = Vec::new();
    let mut k: usize = from;
    while k < to
        invariant
            from <= k <= to,
            to <= b.len(),
            r@ =~= b@.subrange(from as int, k as int),
        decreases to - k,
    {
        r.push(b[k]);
        k = k + 1;
    }
    r
}

/// Extract the raw 32-byte Ed25519 public key from the bytes of a libp2p
/// peer id: the identity multihash of the protobuf-encoded key, where the
/// key follows the header `08 01 12 20`.  `None` for peer ids that do not
/// hold an Ed25519 key.
pub fn extract_ed25519_bytes(peer_id: &Vec<u8>) -> (r: Option<Vec<u8>>)
    ensures
        match r {
            Some(k) => ed25519_key_spec(peer_id@) == Some(k@) && k@.len() == 32,
            None => ed25519_key_spec(peer_id@) is None,
        },
{
    let n: usize = if peer_id.len() > 35 { peer_id.len() - 35 } else { 0 };
    let mut i: usize = 0;
    while i < n
        invariant
            i <= n,
            n == if peer_id.len() > 35 { peer_id.len() - 35 } else { 0 },
            first_ed25519_header(peer_id@, i as nat) is None,
        decreases n - i,
    {
        if peer_id[i] == 0x08 && peer_id[i + 1] == 0x01 && peer_id[i + 2] == 0x12 && peer_id[i + 3] == 0x20 {
            proof {
                assert(first_ed25519_header(peer_id@, (i + 1) as nat) == Some(i as int));
                lemma_first_header_stable(peer_id@, (i + 1) as nat, n as nat);
            }
            let key = sub_bytes(peer_id, i + 4, i + 36);
            assert(first_ed25519_header(peer_id@, n as nat) == Some(i as int));
            assert(ed25519_key_spec(peer_id@) == Some(peer_id@.subrange(i + 4, i + 36)));
            return Some(key);
        }
        i = i + 1;
    }
    None
}

/// The P-256 multicodec prefix (`0x1200` as a varint).
pub open spec fn p256_multicodec() -> Seq<u8> {
    seq![0x80u8, 0x24u8]
}

/// Why a public key does not give a `did:key`.
#[derive(Debug, PartialEq, Eq)]
pub enum DidKeyError {
    /// Fewer than 65 bytes; the length is given.
    TooShort(usize),
    /// The 65th byte from the end is not `0x04`; the byte is given.
    NotUncompressed(u8),
}

impl DidKeyError {
    /// The error's text.
    pub fn message(&self) -> (r: String)
        ensures
            r@ == match self {
                DidKeyError::TooShort(n) => "SPKI too short: expected ≥65 bytes, got "@
                    + crate::fmt::dec_spec(*n as nat),
                DidKeyError::NotUncompressed(b) => "Expected uncompressed point prefix 0x04, got 0x"@
                    + hex2_spec(*b),
            },
    {
        match self {
            DidKeyError::TooShort(n) => {
                let mut s = chars_of("SPKI too short: expected ≥65 bytes, got ");
                crate::fmt::push_dec(&mut s, *n as u64);
                string_of(&s)
            },
            DidKeyError::NotUncompressed(b) => {
                let mut s = chars_of("Expected uncompressed point prefix 0x04, got 0x");
                s.push(hex_digit(*b / 16));
                s.push(hex_digit(*b % 16));
                string_of(&s)
            },
        }
    }
}

/// A lowercase hexadecimal digit.
pub open spec fn hex_digit_spec(d: nat) -> char {
    if d < 10 {
        ((d + 48) as u32) as char
    } else {
        ((d + 87) as u32) as char
    }
}

/// A byte as two lowercase hexadecimal digits.
pub open spec fn hex2_spec(b: u8) -> Seq<char> {
    seq![hex_digit_spec((b / 16) as nat), hex_digit_spec((b % 16) as nat)]
}

/// Executable form of [`hex_digit_spec`].
fn hex_digit(d: u8) -> (c: char)
    requires
        d < 16,
    ensures
        c == hex_digit_spec(d as nat),
{
    if d < 10 {
        crate::parse::char_from_ascii((d + 48) as u32)
    } else {
        crate::parse::char_from_ascii((d + 87) as u32)
    }
}

/// The compressed key bytes behind the multicodec prefix: `02` or `03` by
/// the parity of `y`, then `x`.
pub open spec fn p256_multikey_spec(spki: Seq<u8>) -> Seq<u8> {
    let u = spki.skip(spki.len() - 65);
    let prefix: u8 = if u[64] % 2 == 0 {
        0x02
    } else {
        0x03
    };
    p256_multicodec() + seq![prefix] + u.subrange(1, 33)
}

/// The `did:key` of a P-256 public key in SubjectPublicKeyInfo form.
pub open spec fn p256_did_spec(spki: Seq<u8>) -> Result<Seq<char>, DidKeyError> {
    if spki.len() < 65 {
        Err(DidKeyError::TooShort(spki.len() as usize))
    } else if spki[spki.len() - 65] != 0x04 {
        Err(DidKeyError::NotUncompressed(spki[spki.len() - 65]))
    } else {
        Ok("did:key:z"@ + base58_spec(p256_multikey_spec(spki)))
    }
}

/// Derive a `did:key:` DID from a P-256 public key in DER/SPKI form: the
/// last 65 bytes are the uncompressed point `04 || x || y`; the point is
/// compressed to `02`/`03 || x`, the P-256 multicodec prefix is put before
/// it, and the result is written in base58 after `did:key:z`.
pub fn p256_spki_to_did(spki_bytes: &Vec<u8>) -> (r: Result<String, DidKeyError>)
    ensures
        match p256_did_spec(spki_bytes@) {
            Ok(d) => r matches Ok(s) && s@ == d,
            Err(e) => r == Err::<String, DidKeyError>(e),
        },
{
    let n = spki_bytes.len();
    if n < 65 {
        return Err(DidKeyError::TooShort(n));
    }
    let start = n - 65;
    if spki_bytes[start] != 0x04 {
        return Err(DidKeyError::NotUncompressed(spki_bytes[start]));
    }
    let y_lsb = spki_bytes[start + 64];
    let prefix: u8 = if y_lsb % 2 == 0 { 0x02 } else { 0x03 };
    let mut multikey: Vec<u8> = Vec::new();
    multikey.push(0x80);
    multikey.push(0x24);
    multikey.push(prefix);
    let mut k: usize = start + 1;
    while k < start + 33
        invariant
            start + 1 <= k <= start + 33,
            start + 65 == spki_bytes.len(),
            multikey@ =~= seq![0x80u8, 0x24u8, prefix] + spki_bytes@.subrange(start + 1, k as int),
        decreases start + 33 - k,
    {
        multikey.push(spki_bytes[k]);
        k = k + 1;
    }
    proof {
        let u = spki_bytes@.skip(start as int);
        assert(u.subrange(1, 33) =~= spki_bytes@.subrange(start + 1, start + 33));
        assert(u[64] == y_lsb);
        assert(multikey@ =~= p256_multikey_spec(spki_bytes@));
    }
    let b = to_base58(&multikey);
    let mut s = chars_of("did:key:z");
    let t = chars_of(b.as_str());
    crate::fmt::push_all(&mut s, &t);
    Ok(string_of(&s))
}

} // verus!
