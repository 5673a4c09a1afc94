//! Hivemind DHT keys: a raw key is packed as a MessagePack string and
//! hashed with SHA-1, so `DHTID = SHA1(msgpack(raw_key))`.  Block servers
//! announce themselves under `"{prefix}.{block}"`.

use sha1::Digest;
use vstd::prelude::*;

use crate::fmt::{dec_spec, lemma_dec_len_bound, lemma_dec_spec_reads_back, pow10, push_dec, push_lit};
use crate::text::{chars_of, string_of};

verus! {

/// The SHA-1 digest of `data`.
pub uninterp spec fn sha1_digest(data: Seq<u8>) -> Seq<u8>;

/// SHA-1 of `data` through the `sha1` crate
/// (`Sha1::new().chain_update(data).finalize()`).  The contract names the
/// digest and states only its length, 20 bytes (the core's output size).
#[verifier::external_body]
fn sha1(data: &[u8]) -> (r: Vec<u8>)
    ensures
        r@ == sha1_digest(data@),
        r@.len() == 20,
{
    sha1::Sha1::new().chain_update(data).finalize().to_vec()
}

/// The bytes of `n` in big-endian order, `k` bytes wide.
pub open spec fn be_bytes(n: nat, k: nat) -> Seq<u8>
    decreases k,
{
    if k == 0 {
        Seq::empty()
    } else {
        be_bytes(n / 256, (k - 1) as nat).push((n % 256) as u8)
    }
}

/// The MessagePack encoding of a string whose UTF-8 bytes are `b`: a
/// fixstr marker `0xa0 | len` below 32 bytes, else `str8`, `str16` or
/// `str32` with a big-endian length, then the bytes.
pub open spec fn msgpack_str_spec(b: Seq<u8>) -> Seq<u8> {
    let n = b.len();
    let header = if n < 32 {
        seq![(0xa0 + n) as u8]
    } else if n < 256 {
        seq![0xd9u8, n as u8]
    } else if n < 65536 {
        seq![0xdau8] + be_bytes(n, 2)
    } else {
        seq![0xdbu8] + be_bytes(n, 4)
    };
    header + b
}

/// `rmp_serde::to_vec` of a string: MessagePack's string encoding of its
/// UTF-8 bytes, written into a `Vec`, which cannot fail (rmp's
/// `write_str_len` and `write_str`).  Lengths from 2^32 on are left out:
/// rmp would cut them to 32 bits.
#[verifier::external_body]
fn msgpack_str(s: &str) -> (r: Option<Vec<u8>>)
    requires
        vstd::utf8::encode_utf8(s@).len() < 0x1_0000_0000,
    ensures
        r is Some,
        r->0@ == msgpack_str_spec(vstd::utf8::encode_utf8(s@)),
{
    rmp_serde::to_vec(s).ok()
}

/// A text packed as a MessagePack string, the form of DHT subkeys
/// (`rmp_serde::to_vec` of the text).
pub fn packed_text(s: &str) -> (r: Vec<u8>)
    requires
        vstd::utf8::encode_utf8(s@).len() < 0x1_0000_0000,
    ensures
        r@ == msgpack_str_spec(vstd::utf8::encode_utf8(s@)),
{
    match msgpack_str(s) {
        Some(packed) => packed,
        None => Vec::new(),
    }
}

/// The DHT id of a raw key.
pub open spec fn dht_id_spec(raw: Seq<char>) -> Seq<u8> {
    sha1_digest(msgpack_str_spec(vstd::utf8::encode_utf8(raw)))
}

/// `SHA1(msgpack(raw_key))`: Hivemind's `DHTID.generate()`.
pub fn dht_id(raw_key: &str) -> (r: Vec<u8>)
    requires
        vstd::utf8::encode_utf8(raw_key@).len() < 0x1_0000_0000,
    ensures
        r@ == dht_id_spec(raw_key@),
        r@.len() == 20,
{
    match msgpack_str(raw_key) {
        Some(packed) => sha1(packed.as_slice()),
        None => Vec::new(),
    }
}

/// The DHT id of a peer: the SHA-1 of its peer-id bytes.
pub fn peer_dht_id(peer_id: &Vec<u8>) -> (r: Vec<u8>)
    ensures
        r@ == sha1_digest(peer_id@),
        r@.len() == 20,
{
    sha1(peer_id.as_slice())
}

/// The raw key under which block servers of a model announce block `block`.
pub open spec fn block_key_spec(prefix: Seq<char>, block: nat) -> Seq<char> {
    prefix + "."@ + dec_spec(block)
}

/// `"{prefix}.{block}"`.
pub fn block_key(prefix: &str, block: u64) -> (r: String)
    ensures
        r@ == block_key_spec(prefix@, block as nat),
{
    let mut s = chars_of(prefix);
    push_lit(&mut s, ".");
    push_dec(&mut s, block);
    string_of(&s)
}

/// The DHT id of block `block` of the model with DHT prefix `prefix`.
pub fn block_dht_id(prefix: &str, block: u64) -> (r: Vec<u8>)
    requires
        vstd::utf8::encode_utf8(prefix@).len() + 32 < 0x1_0000_0000,
    ensures
        r@ == dht_id_spec(block_key_spec(prefix@, block as nat)),
        r@.len() == 20,
{
    let key = block_key(prefix, block);
    proof {
        lemma_block_key_bytes(prefix@, block as nat);
    }
    dht_id(key.as_str())
}

/// A block key is at most 32 bytes longer than its prefix.
proof fn lemma_block_key_bytes(prefix: Seq<char>, block: nat)
    requires
        block < 0x1_0000_0000_0000_0000,
    ensures
        vstd::utf8::encode_utf8(block_key_spec(prefix, block)).len() <= vstd::utf8::encode_utf8(
            prefix,
        ).len() + 32,
{
    reveal_strlit(".");
    assert(pow10(20) == 100000000000000000000) by {
        reveal_with_fuel(pow10, 21);
    }
    lemma_dec_len_bound(block, 20);
    lemma_dec_spec_reads_back(block);
    let d = dec_spec(block);
    let tail = "."@ + d;
    assert(block_key_spec(prefix, block) =~= prefix + tail);
    lemma_encode_utf8_concat(prefix, tail);
    assert(vstd::utf8::is_ascii_chars(tail)) by {
        assert forall|i: int| 0 <= i < tail.len() implies '\0' <= #[trigger] tail[i] <= '\u{7f}' by {
            if i > 0 {
                assert(tail[i] == d[i - 1]);
                assert(crate::parse::is_digit(d[i - 1]));
            }
        }
    }
    vstd::utf8::is_ascii_chars_encode_utf8(tail);
}

/// UTF-8 encodes a concatenation piece by piece.
proof fn lemma_encode_utf8_concat(a: Seq<char>, b: Seq<char>)
    ensures
        vstd::utf8::encode_utf8(a + b) == vstd::utf8::encode_utf8(a) + vstd::utf8::encode_utf8(b),
    decreases a.len(),
{
    if a.len() == 0 {
        assert(a + b =~= b);
        assert(vstd::utf8::encode_utf8(a) =~= Seq::<u8>::empty());
        assert(vstd::utf8::encode_utf8(a + b) =~= vstd::utf8::encode_utf8(a) + vstd::utf8::encode_utf8(b));
    } else {
        lemma_encode_utf8_concat(a.drop_first(), b);
        assert((a + b).drop_first() =~= a.drop_first() + b);
        assert((a + b)[0] == a[0]);
        assert(vstd::utf8::encode_utf8(a + b) =~= vstd::utf8::encode_utf8(a) + vstd::utf8::encode_utf8(b));
    }
}

/// Different blocks of one model have different keys.
pub proof fn law_block_keys_distinct(prefix: Seq<char>, a: nat, b: nat)
    requires
        a != b,
    ensures
        block_key_spec(prefix, a) != block_key_spec(prefix, b),
{
    lemma_dec_spec_reads_back(a);
    lemma_dec_spec_reads_back(b);
    if block_key_spec(prefix, a) == block_key_spec(prefix, b) {
        let n = prefix.len() + "."@.len();
        assert(block_key_spec(prefix, a).skip(n as int) =~= dec_spec(a));
        assert(block_key_spec(prefix, b).skip(n as int) =~= dec_spec(b));
    }
}

} // verus!
