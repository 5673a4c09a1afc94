//! Unsigned LEB128 varints, as the p2p daemon frames its messages: seven
//! bits per byte, least significant group first, the high bit set on every
//! byte but the last; at most ten bytes for a `u64`.  A frame is the varint
//! length of the payload followed by the payload.

use vstd::prelude::*;

verus! {

/// `128^k`.
pub open spec fn pow128(k: nat) -> nat
    decreases k,
{
    if k == 0 {
        1
    } else {
        128 * pow128((k - 1) as nat)
    }
}

/// The varint encoding of `n`.
pub open spec fn varint_spec(n: nat) -> Seq<u8>
    decreases n,
{
    if n < 128 {
        seq![n as u8]
    } else {
        seq![(n % 128 + 128) as u8] + varint_spec(n / 128)
    }
}

/// The value of the seven-bit groups of `s`, least significant first.
pub open spec fn groups_value(s: Seq<u8>) -> nat
    decreases s.len(),
{
    if s.len() == 0 {
        0
    } else {
        groups_value(s.drop_last()) + (s.last() % 128) as nat * pow128((s.len() - 1) as nat)
    }
}

/// The position of the first byte without the continuation bit.
pub open spec fn first_final_byte(s: Seq<u8>) -> Option<int>
    decreases s.len(),
{
    if s.len() == 0 {
        None
    } else {
        match first_final_byte(s.drop_last()) {
            Some(i) => Some(i),
            None => if s.last() < 128 {
                Some(s.len() - 1)
            } else {
                None
            },
        }
    }
}

/// Why bytes do not start with a varint.
#[derive(Debug, PartialEq, Eq, Structural)]
pub enum VarintError {
    /// The bytes end before the varint does.
    Insufficient,
    /// Ten bytes pass without a final byte.
    Overflow,
    /// The final byte of a longer varint is zero: a shorter encoding exists.
    NotMinimal,
}

/// The `u64` at the start of `b` and the number of bytes it takes.  Only
/// the first ten bytes are looked at; the value is taken modulo `2^64`.
pub open spec fn varint_decode_spec(b: Seq<u8>) -> Result<(nat, nat), VarintError> {
    let head = if b.len() < 10 {
        b
    } else {
        b.take(10)
    };
    match first_final_byte(head) {
        None => if b.len() >= 10 {
            Err(VarintError::Overflow)
        } else {
            Err(VarintError::Insufficient)
        },
        Some(i) => if b[i] == 0 && i > 0 {
            Err(VarintError::NotMinimal)
        } else {
            Ok((groups_value(b.take(i + 1)) % 0x1_0000_0000_0000_0000, (i + 1) as nat))
        },
    }
}

/// Encodes `n` as a varint.
pub fn encode_u64(n: u64) -> (r: Vec<u8>)
    ensures
        r@ == varint_spec(n as nat),
        1 <= r@.len() <= 10,
{
    let mut out: Vec<u8> = Vec::new();
    let mut m: u64 = n;
    proof {
        lemma_varint_len(n as nat);
        lemma_pow128_facts();
    }
    while m >= 128
        invariant
            out@ + varint_spec(m as nat) == varint_spec(n as nat),
        decreases m,
    {
        let b: u8 = (m % 128 + 128) as u8;
        proof {
            assert(varint_spec(m as nat) == seq![b] + varint_spec((m / 128) as nat));
            assert(out@.push(b) + varint_spec((m / 128) as nat) =~= out@ + varint_spec(m as nat));
        }
        out.push(b);
        m = m / 128;
    }
    let last: u8 = m as u8;
    assert(varint_spec(m as nat) == seq![last]);
    out.push(last);
    assert(out@ =~= varint_spec(n as nat));
    out
}

/// Encodings are one to ten bytes long for a `u64`.
pub proof fn lemma_varint_len(n: nat)
    ensures
        varint_spec(n).len() >= 1,
        n < pow128(9) * 2 ==> varint_spec(n).len() <= 10,
        forall|k: nat| n < #[trigger] pow128(k) && k >= 1 ==> varint_spec(n).len() <= k,
    decreases n,
{
    if n >= 128 {
        lemma_varint_len(n / 128);
        assert forall|k: nat| n < #[trigger] pow128(k) && k >= 1 implies varint_spec(n).len() <= k by {
            if k == 1 {
                assert(pow128(1) == 128 * pow128(0));
            } else {
                assert(pow128(k) == 128 * pow128((k - 1) as nat));
                assert(n / 128 < pow128((k - 1) as nat));
            }
        }
        if n < pow128(9) * 2 {
            lemma_pow128_facts();
            assert(n < pow128(10));
        }
    } else {
        assert forall|k: nat| n < #[trigger] pow128(k) && k >= 1 implies varint_spec(n).len() <= k by {}
    }
}

/// The powers of 128 that bound a `u64`.
pub proof fn lemma_pow128_facts()
    ensures
        pow128(9) == 0x8000_0000_0000_0000,
        pow128(10) == 0x8000_0000_0000_0000 * 128,
{
    reveal_with_fuel(pow128, 11);
}

/// Reads the varint at the start of `b`: its value and the number of bytes
/// it takes, or why there is none.
pub fn decode_u64(b: &Vec<u8>) -> (r: Result<(u64, usize), VarintError>)
    ensures
        match r {
            Ok((v, k)) => varint_decode_spec(b@) == Ok::<(nat, nat), VarintError>((v as nat, k as nat)),
            Err(e) => varint_decode_spec(b@) == Err::<(nat, nat), VarintError>(e),
        },
{
    let n: usize = if b.len() < 10 { b.len() } else { 10 };
    let ghost head = if b@.len() < 10 { b@ } else { b@.take(10) };
    assert(head.len() == n);
    let mut acc: u128 = 0;
    let mut p: u128 = 1;
    let mut i: usize = 0;
    proof {
        lemma_pow128_facts();
    }
    while i < n
        invariant
            n <= b.len(),
            n <= 10,
            head.len() == n,
            head == (if b@.len() < 10 { b@ } else { b@.take(10) }),
            forall|k: int| 0 <= k < n ==> head[k] == b@[k],
            i <= n,
            first_final_byte(head.take(i as int)) is None,
            acc as nat == groups_value(b@.take(i as int)),
            p as nat == pow128(i as nat),
            pow128(9) == 0x8000_0000_0000_0000,
            acc < p,
        decreases n - i,
    {
        let byte = b[i];
        proof {
            assert(b@.take(i + 1).drop_last() =~= b@.take(i as int));
            assert(head.take(i + 1).drop_last() =~= head.take(i as int));
            assert(p * 128 == pow128((i + 1) as nat));
            lemma_pow128_le(i as nat, 9);
        }
        let g: u128 = (byte % 128) as u128;
        assert(g * p <= 127 * p) by (nonlinear_arith)
            requires
                g <= 127,
        ;
        acc = acc + g * p;
        if byte < 128 {
            proof {
                lemma_first_final_byte_at(head, i as int);
                assert(b@.take(i + 1) == b@.take((i + 1) as int));
            }
            if byte == 0 && i > 0 {
                return Err(VarintError::NotMinimal);
            }
            let v: u64 = (acc % 0x1_0000_0000_0000_0000u128) as u64;
            return Ok((v, i + 1));
        }
        p = p * 128;
        i = i + 1;
    }
    assert(head.take(n as int) =~= head);
    if b.len() >= 10 {
        Err(VarintError::Overflow)
    } else {
        Err(VarintError::Insufficient)
    }
}

/// Powers of 128 grow with the exponent.
pub proof fn lemma_pow128_le(a: nat, b: nat)
    requires
        a <= b,
    ensures
        pow128(a) <= pow128(b),
        pow128(a) >= 1,
    decreases b,
{
    if a < b {
        lemma_pow128_le(a, (b - 1) as nat);
    } else if a > 0 {
        lemma_pow128_le((a - 1) as nat, (a - 1) as nat);
    }
}

/// A final byte at `i`, with no final byte before it, is the first one.
pub proof fn lemma_first_final_byte_at(s: Seq<u8>, i: int)
    requires
        0 <= i < s.len(),
        s[i] < 128,
        first_final_byte(s.take(i)) is None,
    ensures
        first_final_byte(s) == Some(i),
    decreases s.len(),
{
    if i < s.len() - 1 {
        assert(s.drop_last().take(i) =~= s.take(i));
        lemma_first_final_byte_at(s.drop_last(), i);
    } else {
        assert(s.drop_last() =~= s.take(i));
    }
}

/// Decoding the encoding of a `u64`, whatever follows it, gives back the
/// number and the length of its encoding.
pub proof fn law_varint_roundtrip(n: u64, rest: Seq<u8>)
    ensures
        varint_decode_spec(varint_spec(n as nat) + rest) == Ok::<(nat, nat), VarintError>(
            (n as nat, varint_spec(n as nat).len()),
        ),
{
    let e = varint_spec(n as nat);
    lemma_pow128_facts();
    lemma_varint_len(n as nat);
    lemma_varint_shape(n as nat);
    let b = e + rest;
    let head = if b.len() < 10 {
        b
    } else {
        b.take(10)
    };
    let i = e.len() - 1;
    assert forall|k: int| 0 <= k < e.len() implies head[k] == e[k] && b[k] == e[k] by {}
    assert(head.take(i) =~= e.take(i));
    lemma_first_final_byte_none(e, i);
    lemma_first_final_byte_at(head, i);
    assert(b.take(i + 1) =~= e);
}

/// The shape of an encoding: continuation bits on all bytes but the last,
/// a final byte that is zero only for the one-byte encoding of zero, and
/// the groups adding up to the number.
pub proof fn lemma_varint_shape(n: nat)
    ensures
        forall|k: int| 0 <= k < varint_spec(n).len() - 1 ==> varint_spec(n)[k] >= 128,
        varint_spec(n).last() < 128,
        varint_spec(n).len() > 1 ==> varint_spec(n).last() != 0,
        groups_value(varint_spec(n)) == n,
    decreases n,
{
    if n < 128 {
        let e = varint_spec(n);
        assert(e.drop_last() =~= Seq::<u8>::empty());
        assert(pow128(0) == 1);
        assert(groups_value(e) == groups_value(e.drop_last()) + (e.last() % 128) as nat * pow128(0));
    } else {
        lemma_varint_shape(n / 128);
        lemma_varint_len(n / 128);
        let t = varint_spec(n / 128);
        let e = varint_spec(n);
        assert(e == seq![(n % 128 + 128) as u8] + t);
        assert forall|k: int| 0 <= k < e.len() - 1 implies e[k] >= 128 by {
            if k > 0 {
                assert(e[k] == t[k - 1]);
            }
        }
        assert(e.last() == t.last());
        if t.len() == 1 {
            assert(t == seq![(n / 128) as u8]);
        }
        let b: u8 = (n % 128 + 128) as u8;
        assert(b % 128 == n % 128);
        lemma_groups_value_cons(b, t);
    }
}

/// The value of a group followed by more groups.
pub proof fn lemma_groups_value_cons(b: u8, t: Seq<u8>)
    ensures
        groups_value(seq![b] + t) == (b % 128) as nat + 128 * groups_value(t),
    decreases t.len(),
{
    if t.len() == 0 {
        assert((seq![b] + t) =~= seq![b]);
        assert(seq![b].drop_last() =~= Seq::<u8>::empty());
        assert(groups_value(Seq::<u8>::empty()) == 0);
        assert(pow128(0) == 1);
        assert(groups_value(seq![b]) == groups_value(seq![b].drop_last()) + (b % 128) as nat * pow128(0));
        assert(groups_value(t) == 0);
    } else {
        lemma_groups_value_cons(b, t.drop_last());
        let s = seq![b] + t;
        assert(s.drop_last() =~= seq![b] + t.drop_last());
        assert(s.last() == t.last());
        assert(s.len() - 1 == t.len());
        let x: nat = (t.last() % 128) as nat;
        let q: nat = pow128((t.len() - 1) as nat);
        let big: nat = pow128(t.len());
        assert(big == 128 * q);
        assert(x * big == 128 * (x * q)) by (nonlinear_arith)
            requires
                big == 128 * q,
        ;
        assert(groups_value(t) == groups_value(t.drop_last()) + x * q);
        assert(groups_value(s) == groups_value(s.drop_last()) + x * big);
        assert(groups_value(s.drop_last()) == (b % 128) as nat + 128 * groups_value(t.drop_last()));
    }
}

/// No final byte before position `i` of an encoding.
proof fn lemma_first_final_byte_none(e: Seq<u8>, i: int)
    requires
        0 <= i <= e.len(),
        forall|k: int| 0 <= k < i ==> e[k] >= 128,
    ensures
        first_final_byte(e.take(i)) is None,
    decreases i,
{
    if i > 0 {
        assert(e.take(i).drop_last() =~= e.take(i - 1));
        lemma_first_final_byte_none(e, i - 1);
    }
}

/// Largest payload a frame may announce: 10 MiB.
pub const MAX_FRAME_LEN: u64 = 10485760;

/// A frame: the varint length of `payload`, then `payload`.
pub fn frame(payload: &Vec<u8>) -> (r: Vec<u8>)
    ensures
        r@ == varint_spec(payload@.len()) + payload@,
{
    let mut out = encode_u64(payload.len() as u64);
    let ghost head = out@;
    let mut i: usize = 0;
    while i < payload.len()
        invariant
            i <= payload.len(),
            out@ == head + payload@.take(i as int),
        decreases payload.len() - i,
    {
        out.push(payload[i]);
        i = i + 1;
        assert(out@ =~= head + payload@.take(i as int));
    }
    assert(payload@.take(payload@.len() as int) =~= payload@);
    out
}

/// Why a frame's length prefix is refused.
#[derive(Debug, PartialEq, Eq, Structural)]
pub enum FrameError {
    /// The prefix is not a varint.
    BadLength(VarintError),
    /// The announced payload is over [`MAX_FRAME_LEN`] bytes.
    TooLarge(u64),
}

/// The payload length a frame announces: its varint prefix, refused when it
/// is not a varint or announces more than 10 MiB.
pub fn frame_length(prefix: &Vec<u8>) -> (r: Result<u64, FrameError>)
    ensures
        match varint_decode_spec(prefix@) {
            Err(e) => r == Err::<u64, FrameError>(FrameError::BadLength(e)),
            Ok((v, _)) => if v > MAX_FRAME_LEN {
                r == Err::<u64, FrameError>(FrameError::TooLarge(v as u64))
            } else {
                r == Ok::<u64, FrameError>(v as u64)
            },
        },
{
    match decode_u64(prefix) {
        Err(e) => Err(FrameError::BadLength(e)),
        Ok((v, _)) => if v > MAX_FRAME_LEN {
            Err(FrameError::TooLarge(v))
        } else {
            Ok(v)
        },
    }
}

/// A frame of a payload of at most 10 MiB announces the payload's length,
/// and the payload follows the prefix.
pub proof fn law_frame_roundtrip(payload: Seq<u8>)
    requires
        payload.len() <= MAX_FRAME_LEN,
    ensures
        varint_decode_spec(varint_spec(payload.len()) + payload) == Ok::<(nat, nat), VarintError>(
            (payload.len(), varint_spec(payload.len()).len()),
        ),
        (varint_spec(payload.len()) + payload).skip(varint_spec(payload.len()).len() as int)
            == payload,
{
    law_varint_roundtrip(payload.len() as u64, payload);
    assert((varint_spec(payload.len()) + payload).skip(varint_spec(payload.len()).len() as int)
        =~= payload);
}

} // verus!
