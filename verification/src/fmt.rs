//! Decimal formatting of integers, and the exact decimal rendering of the
//! byte-size quotients that the console prints with one or no decimals.

use vstd::prelude::*;

use crate::parse::{all_digits, char_from_ascii, decimal_value, digit_value, is_digit};

verus! {

/// The character of a decimal digit value.
pub open spec fn digit_char(d: nat) -> char {
    ((d + 48) as u32) as char
}

/// The decimal digits of `n`, most significant first, without leading zeros.
pub open spec fn dec_spec(n: nat) -> Seq<char>
    decreases n,
{
    if n < 10 {
        seq![digit_char(n)]
    } else {
        dec_spec(n / 10).push(digit_char(n % 10))
    }
}

/// The digit character of `d` stands for `d`.
pub proof fn lemma_digit_char_value(d: nat)
    requires
        d < 10,
    ensures
        digit_value(digit_char(d)) == d,
        is_digit(digit_char(d)),
{
    let u: u32 = (d + 48) as u32;
    assert(u as int == d + 48);
    assert((u as char) as int == u as int);
}

/// Reading back the decimal digits of `n` gives `n`: they are one or more
/// digits whose decimal value is `n`.
pub proof fn lemma_dec_spec_reads_back(n: nat)
    ensures
        dec_spec(n).len() > 0,
        all_digits(dec_spec(n)),
        decimal_value(dec_spec(n)) == n,
    decreases n,
{
    if n < 10 {
        let s = dec_spec(n);
        assert(s.drop_last() =~= Seq::<char>::empty());
        lemma_digit_char_value(n);
        assert(decimal_value(s.drop_last()) == 0);
        assert(decimal_value(s) == 10 * decimal_value(s.drop_last()) + digit_value(s.last()));
    } else {
        lemma_dec_spec_reads_back(n / 10);
        lemma_digit_char_value(n % 10);
        let s = dec_spec(n);
        assert(s.drop_last() =~= dec_spec(n / 10));
        assert(s.last() == digit_char(n % 10));
        assert(decimal_value(s) == 10 * decimal_value(s.drop_last()) + digit_value(s.last()));
        assert forall|i: int| 0 <= i < s.len() implies is_digit(#[trigger] s[i]) by {
            if i < s.len() - 1 {
                assert(s[i] == dec_spec(n / 10)[i]);
            }
        }
    }
}

/// Fewer than `10^k` means at most `k` digits.
pub proof fn lemma_dec_len_bound(n: nat, k: nat)
    requires
        k >= 1,
        n < pow10(k),
    ensures
        dec_spec(n).len() <= k,
    decreases k,
{
    if n >= 10 {
        assert(k >= 2) by {
            if k == 1 {
                assert(pow10(1) == 10 * pow10(0));
            }
        }
        assert(pow10(k) == 10 * pow10((k - 1) as nat));
        lemma_dec_len_bound(n / 10, (k - 1) as nat);
    }
}

/// `10^k`.
pub open spec fn pow10(k: nat) -> nat
    decreases k,
{
    if k == 0 {
        1
    } else {
        10 * pow10((k - 1) as nat)
    }
}

/// The character of one decimal digit.
pub fn digit_to_char(d: u64) -> (c: char)
    requires
        d < 10,
    ensures
        c == digit_char(d as nat),
{
    char_from_ascii((d + 48) as u32)
}

/// The decimal digits of `n`.
pub fn dec_chars(n: u64) -> (r: Vec<char>)
    ensures
        r@ == dec_spec(n as nat),
    decreases n,
{
    if n < 10 {
        let mut r: Vec<char> = Vec::new();
        r.push(digit_to_char(n));
        assert(r@ =~= seq![digit_char(n as nat)]);
        r
    } else {
        let mut r = dec_chars(n / 10);
        r.push(digit_to_char(n % 10));
        r
    }
}

/// `n` in decimal, as a `String`.
pub fn dec_string(n: u64) -> (r: String)
    ensures
        r@ == dec_spec(n as nat),
{
    crate::text::string_of(&dec_chars(n))
}

/// Appends the decimal digits of `n` to `s`.
pub fn push_dec(s: &mut Vec<char>, n: u64)
    ensures
        final(s)@ == old(s)@ + dec_spec(n as nat),
{
    let d = dec_chars(n);
    let mut i: usize = 0;
    let ghost start = s@;
    while i < d.len()
        invariant
            i <= d.len(),
            s@ == start + d@.subrange(0, i as int),
        decreases d.len() - i,
    {
        s.push(d[i]);
        i = i + 1;
        assert(s@ =~= start + d@.subrange(0, i as int));
    }
    assert(d@.subrange(0, d@.len() as int) =~= d@);
}

/// Appends the characters of the literal `lit` to `s`.
pub fn push_lit(s: &mut Vec<char>, lit: &str)
    ensures
        final(s)@ == old(s)@ + lit@,
{
    let d = crate::text::chars_of(lit);
    let mut i: usize = 0;
    let ghost start = s@;
    while i < d.len()
        invariant
            i <= d.len(),
            s@ == start + d@.subrange(0, i as int),
        decreases d.len() - i,
    {
        s.push(d[i]);
        i = i + 1;
        assert(s@ =~= start + d@.subrange(0, i as int));
    }
    assert(d@.subrange(0, d@.len() as int) =~= d@);
}

/// Appends the characters of `t` to `s`.
pub fn push_all(s: &mut Vec<char>, t: &Vec<char>)
    ensures
        final(s)@ == old(s)@ + t@,
{
    let mut i: usize = 0;
    let ghost start = s@;
    while i < t.len()
        invariant
            i <= t.len(),
            s@ == start + t@.subrange(0, i as int),
        decreases t.len() - i,
    {
        s.push(t[i]);
        i = i + 1;
        assert(s@ =~= start + t@.subrange(0, i as int));
    }
    assert(t@.subrange(0, t@.len() as int) =~= t@);
}

/// `2^k`.
pub open spec fn pow2(k: nat) -> nat
    decreases k,
{
    if k == 0 {
        1
    } else {
        2 * pow2((k - 1) as nat)
    }
}

/// `a / d` rounded to the nearest integer, ties to the even neighbour.
pub open spec fn div_round_even(a: nat, d: nat) -> nat
    recommends
        d > 0,
{
    let q = a / d;
    let r = a % d;
    if 2 * r > d || (2 * r == d && q % 2 == 1) {
        q + 1
    } else {
        q
    }
}

/// How many low bits of `n` fall outside a 53-bit significand.
pub open spec fn excess_bits(n: nat) -> nat
    decreases n,
{
    if n < pow2(53) {
        0
    } else {
        proof {
            lemma_pow2_pos(53);
        }
        1 + excess_bits(n / 2)
    }
}

/// The integer `n` rounded to the nearest value a double can hold
/// (53 significant bits, ties to even): the value of `n as f64`.
pub open spec fn as_double(n: nat) -> nat {
    let k = excess_bits(n);
    div_round_even(n, pow2(k)) * pow2(k)
}

pub proof fn lemma_pow2_pos(k: nat)
    ensures
        pow2(k) >= 1,
    decreases k,
{
    if k > 0 {
        lemma_pow2_pos((k - 1) as nat);
    }
}

proof fn lemma_div_div(n: nat, k: nat)
    ensures
        n / pow2(k) / 2 == n / pow2(k + 1),
{
    lemma_pow2_pos(k);
    assert(pow2(k + 1) == 2 * pow2(k));
    let p = pow2(k);
    assert(n / p / 2 == n / (p * 2)) by {
        vstd::arithmetic::div_mod::lemma_div_denominator(n as int, p as int, 2);
    }
}

/// The value of `n as f64`, computed without floating point.
pub fn u64_as_double(n: u64) -> (r: u128)
    ensures
        r as nat == as_double(n as nat),
        r <= 0x2_0000_0000_0000_0000u128,
{
    let ghost mut k: nat = 0;
    let mut p: u128 = 1;
    let mut m: u64 = n;
    assert(pow2(53) == 0x20_0000_0000_0000) by {
        reveal_with_fuel(pow2, 54);
    }
    assert(pow2(0) == 1);
    assert(n as nat / 1 == n as nat);
    while m >= 0x20_0000_0000_0000u64
        invariant
            p as nat == pow2(k),
            m as nat == n as nat / pow2(k),
            excess_bits(n as nat) == k + excess_bits(m as nat),
            m as nat * p as nat <= n as nat,
            pow2(53) == 0x20_0000_0000_0000,
            p >= 1,
            k == 0 ==> p == 1,
            k > 0 ==> m >= 0x10_0000_0000_0000,
        decreases m,
    {
        proof {
            lemma_div_div(n as nat, k);
            assert(p as nat <= n as nat) by (nonlinear_arith)
                requires
                    m as nat * p as nat <= n as nat,
                    m >= 1,
            ;
            assert((m as nat / 2) * (2 * p as nat) <= n as nat) by (nonlinear_arith)
                requires
                    m as nat * p as nat <= n as nat,
            ;
        }
        m = m / 2;
        p = p * 2;
        proof {
            k = k + 1;
        }
    }
    let q: u128 = m as u128;
    let rem: u128 = (n as u128) % p;
    proof {
        lemma_pow2_pos(k);
        assert(excess_bits(m as nat) == 0);
        assert(q as nat == n as nat / p as nat);
        vstd::arithmetic::div_mod::lemma_fundamental_div_mod(n as int, p as int);
        assert(p <= 0x1000) by (nonlinear_arith)
            requires
                m as nat * p as nat <= n as nat,
                n < 0x1_0000_0000_0000_0000,
                p == 1 || m >= 0x10_0000_0000_0000,
        {
        }
    }
    let up = 2 * rem > p || (2 * rem == p && q % 2 == 1);
    let q2: u128 = if up { q + 1 } else { q };
    proof {
        assert(q2 as nat == div_round_even(n as nat, p as nat));
        assert(q2 <= 0x20_0000_0000_0000);
        assert(q2 as nat * p as nat <= 0x2_0000_0000_0000_0000) by (nonlinear_arith)
            requires
                q2 <= 0x20_0000_0000_0000,
                p <= 0x1000,
        {
        }
    }
    q2 * p
}

} // verus!
