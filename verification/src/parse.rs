//! Text parsing shared by the configuration and version code: unsigned
//! decimal numbers, booleans, splitting on a separator and whitespace trimming.

use vstd::prelude::*;

use crate::text::{chars_of, string_of};

verus! {

/// `c` is an ASCII decimal digit.
pub open spec fn is_digit(c: char) -> bool {
    '0' <= c && c <= '9'
}

/// The numeric value of a decimal digit character.
pub open spec fn digit_value(c: char) -> int {
    (c as int) - ('0' as int)
}

/// Every character of `s` is a decimal digit.
pub open spec fn all_digits(s: Seq<char>) -> bool {
    forall|i: int| 0 <= i < s.len() ==> is_digit(#[trigger] s[i])
}

/// The value of a run of decimal digits, most significant first.
pub open spec fn decimal_value(s: Seq<char>) -> int
    decreases s.len(),
{
    if s.len() == 0 {
        0
    } else {
        10 * decimal_value(s.drop_last()) + digit_value(s.last())
    }
}

/// The text that follows an optional leading `+`.
pub open spec fn unsigned_body(s: Seq<char>) -> Seq<char> {
    if s.len() > 0 && s[0] == '+' {
        s.drop_first()
    } else {
        s
    }
}

/// The value of `s` read as an unsigned decimal number no greater than `max`:
/// an optional `+`, then one or more digits.  `None` for anything else,
/// including values above `max`.
pub open spec fn parse_unsigned_spec(s: Seq<char>, max: int) -> Option<int> {
    let body = unsigned_body(s);
    if body.len() > 0 && all_digits(body) && decimal_value(body) <= max {
        Some(decimal_value(body))
    } else {
        None
    }
}

/// Longer digit prefixes never have smaller values.
pub proof fn lemma_decimal_prefix_monotone(s: Seq<char>, i: int, j: int)
    requires
        0 <= i <= j <= s.len(),
        all_digits(s),
    ensures
        decimal_value(s.subrange(0, i)) <= decimal_value(s.subrange(0, j)),
    decreases j - i,
{
    if i < j {
        lemma_decimal_prefix_monotone(s, i, j - 1);
        assert(s.subrange(0, j).drop_last() =~= s.subrange(0, j - 1));
        assert(is_digit(s[j - 1]));
        assert(decimal_value(s.subrange(0, j)) == 10 * decimal_value(s.subrange(0, j - 1))
            + digit_value(s[j - 1]));
        lemma_decimal_nonneg(s.subrange(0, j - 1));
    }
}

/// Digit strings have non-negative values.
pub proof fn lemma_decimal_nonneg(s: Seq<char>)
    requires
        all_digits(s),
    ensures
        decimal_value(s) >= 0,
    decreases s.len(),
{
    if s.len() > 0 {
        assert(all_digits(s.drop_last())) by {
            assert forall|k: int| 0 <= k < s.drop_last().len() implies is_digit(
                #[trigger] s.drop_last()[k],
            ) by {
                assert(s.drop_last()[k] == s[k]);
            }
        }
        lemma_decimal_nonneg(s.drop_last());
        assert(is_digit(s[s.len() - 1]));
    }
}

/// Reads `s` as an unsigned decimal number that must not exceed `max`,
/// accepting exactly what `str::parse` accepts for Rust's unsigned integers.
pub fn parse_unsigned(s: &Vec<char>, max: u64) -> (r: Option<u64>)
    ensures
        match r {
            Some(v) => parse_unsigned_spec(s@, max as int) == Some(v as int),
            None => parse_unsigned_spec(s@, max as int) is None,
        },
{
    let ghost body = unsigned_body(s@);
    let start: usize = if s.len() > 0 && s[0] == '+' { 1 } else { 0 };
    assert(body =~= s@.subrange(start as int, s@.len() as int));
    if start >= s.len() {
        return None;
    }
    let mut acc: u64 = 0;
    let mut i: usize = start;
    while i < s.len()
        invariant
            start <= i <= s.len(),
            start < s.len(),
            body == unsigned_body(s@),
            body =~= s@.subrange(start as int, s@.len() as int),
            all_digits(body.subrange(0, i - start)),
            acc as int == decimal_value(body.subrange(0, i - start)),
            acc <= max,
        decreases s.len() - i,
    {
        let c = s[i];
        let ghost k: int = i - start;
        assert(body[k] == c);
        if !('0' <= c && c <= '9') {
            assert(!is_digit(body[k]));
            assert(!all_digits(body));
            return None;
        }
        let d: u64 = ((c as u32) - ('0' as u32)) as u64;
        assert(body.subrange(0, k + 1).drop_last() =~= body.subrange(0, k));
        assert(all_digits(body.subrange(0, k + 1))) by {
            assert forall|m: int| 0 <= m < k + 1 implies is_digit(
                #[trigger] body.subrange(0, k + 1)[m],
            ) by {
                if m < k {
                    assert(body.subrange(0, k + 1)[m] == body.subrange(0, k)[m]);
                }
            }
        }
        let next: u128 = (acc as u128) * 10 + (d as u128);
        assert(decimal_value(body.subrange(0, k + 1)) == next as int);
        if next > max as u128 {
            // The value of this prefix already exceeds `max`; later digits only grow it.
            proof {
                if all_digits(body) {
                    lemma_decimal_prefix_monotone(body, k + 1, body.len() as int);
                    assert(body.subrange(0, body.len() as int) =~= body);
                }
            }
            return None;
        }
        acc = next as u64;
        i = i + 1;
    }
    assert(body.subrange(0, s.len() - start) =~= body);
    Some(acc)
}

/// Lowercases ASCII letters and leaves every other character alone.
pub open spec fn ascii_lower_char(c: char) -> char {
    if 'A' <= c && c <= 'Z' {
        ((c as u32) + 32) as char
    } else {
        c
    }
}

/// `s` with its ASCII letters lowercased.
pub open spec fn ascii_lower(s: Seq<char>) -> Seq<char> {
    s.map_values(|c: char| ascii_lower_char(c))
}

/// Executable form of [`ascii_lower_char`].
pub fn lower_char(c: char) -> (r: char)
    ensures
        r == ascii_lower_char(c),
{
    if 'A' <= c && c <= 'Z' {
        let u: u32 = (c as u32) + 32;
        assert(0x61 <= u <= 0x7a);
        char_from_ascii(u)
    } else {
        c
    }
}

/// The character with the given ASCII code.
pub fn char_from_ascii(u: u32) -> (c: char)
    requires
        u < 128,
    ensures
        c == u as char,
        c as u32 == u,
{
    let b: u8 = u as u8;
    let c = b as char;
    assert(c as u32 == u);
    c
}

/// Executable form of [`ascii_lower`].
pub fn lower_all(s: &Vec<char>) -> (r: Vec<char>)
    ensures
        r@ == ascii_lower(s@),
{
    let mut r: Vec<char> = Vec::new();
    let mut i: usize = 0;
    while i < s.len()
        invariant
            i <= s.len(),
            r@ =~= ascii_lower(s@.subrange(0, i as int)),
        decreases s.len() - i,
    {
        let c = lower_char(s[i]);
        r.push(c);
        i = i + 1;
        assert(r@ =~= ascii_lower(s@.subrange(0, i as int)));
    }
    assert(s@.subrange(0, s@.len() as int) =~= s@);
    r
}

/// Two character sequences are equal.
pub fn chars_eq(a: &Vec<char>, b: &Vec<char>) -> (r: bool)
    ensures
        r == (a@ == b@),
{
    if a.len() != b.len() {
        return false;
    }
    let mut i: usize = 0;
    while i < a.len()
        invariant
            a.len() == b.len(),
            i <= a.len(),
            forall|k: int| 0 <= k < i ==> a@[k] == b@[k],
        decreases a.len() - i,
    {
        if a[i] != b[i] {
            return false;
        }
        i = i + 1;
    }
    assert(a@ =~= b@);
    true
}

/// `s` equals the literal `lit`.
pub fn eq_lit(s: &Vec<char>, lit: &str) -> (r: bool)
    ensures
        r == (s@ == lit@),
{
    let l = chars_of(lit);
    chars_eq(s, &l)
}

/// The boolean spelled by `s`: `true`, `1` and `yes` are true; `false`, `0`
/// and `no` are false; letters may be in any case.
pub open spec fn parse_bool_spec(s: Seq<char>) -> Option<bool> {
    let l = ascii_lower(s);
    if l == "true"@ || l == "1"@ || l == "yes"@ {
        Some(true)
    } else if l == "false"@ || l == "0"@ || l == "no"@ {
        Some(false)
    } else {
        None
    }
}

/// Reads a boolean the way the configuration accepts one.
pub fn parse_bool(s: &str) -> (r: Option<bool>)
    ensures
        r == parse_bool_spec(s@),
{
    let l = lower_all(&chars_of(s));
    if eq_lit(&l, "true") || eq_lit(&l, "1") || eq_lit(&l, "yes") {
        Some(true)
    } else if eq_lit(&l, "false") || eq_lit(&l, "0") || eq_lit(&l, "no") {
        Some(false)
    } else {
        None
    }
}

/// The pieces of `s` between occurrences of `sep`, as `str::split` yields
/// them: one more piece than there are separators, empty pieces included.
pub open spec fn split_spec(s: Seq<char>, sep: char) -> Seq<Seq<char>>
    decreases s.len(),
{
    if s.len() == 0 {
        seq![Seq::<char>::empty()]
    } else {
        let p = split_spec(s.drop_last(), sep);
        if s.last() == sep {
            p.push(Seq::<char>::empty())
        } else {
            p.update(p.len() - 1, p.last().push(s.last()))
        }
    }
}

/// A split always has at least one piece.
pub proof fn lemma_split_nonempty(s: Seq<char>, sep: char)
    ensures
        split_spec(s, sep).len() >= 1,
    decreases s.len(),
{
    if s.len() > 0 {
        lemma_split_nonempty(s.drop_last(), sep);
    }
}

/// Executable form of [`split_spec`].
pub fn split_chars(s: &Vec<char>, sep: char) -> (r: Vec<Vec<char>>)
    ensures
        r@.len() == split_spec(s@, sep).len(),
        forall|k: int| 0 <= k < r@.len() ==> #[trigger] r@[k]@ == split_spec(s@, sep)[k],
{
    let mut pieces: Vec<Vec<char>> = Vec::new();
    let mut cur: Vec<char> = Vec::new();
    let mut i: usize = 0;
    assert(s@.subrange(0, 0) =~= Seq::<char>::empty());
    while i < s.len()
        invariant
            i <= s.len(),
            split_spec(s@.subrange(0, i as int), sep).len() == pieces@.len() + 1,
            forall|k: int|
                0 <= k < pieces@.len() ==> #[trigger] pieces@[k]@ == split_spec(
                    s@.subrange(0, i as int),
                    sep,
                )[k],
            cur@ == split_spec(s@.subrange(0, i as int), sep).last(),
        decreases s.len() - i,
    {
        let ghost prev = split_spec(s@.subrange(0, i as int), sep);
        let c = s[i];
        assert(s@.subrange(0, i + 1).drop_last() =~= s@.subrange(0, i as int));
        if c == sep {
            let done = cur;
            pieces.push(done);
            cur = Vec::new();
            i = i + 1;
            assert(cur@ =~= Seq::<char>::empty());
        } else {
            cur.push(c);
            i = i + 1;
        }
        proof {
            let now = split_spec(s@.subrange(0, i as int), sep);
            assert forall|k: int| 0 <= k < pieces@.len() implies #[trigger] pieces@[k]@ == now[k] by {
                if k < pieces@.len() - 1 || c != sep {
                    assert(pieces@[k]@ == prev[k]);
                }
            }
        }
    }
    assert(s@.subrange(0, s@.len() as int) =~= s@);
    let ghost fin = split_spec(s@, sep);
    pieces.push(cur);
    assert forall|k: int| 0 <= k < pieces@.len() implies #[trigger] pieces@[k]@ == fin[k] by {}
    pieces
}

/// Rust's `char::is_whitespace`: the Unicode `White_Space` characters.
pub open spec fn is_ws(c: char) -> bool {
    let u = c as u32;
    (0x09 <= u && u <= 0x0d) || u == 0x20 || u == 0x85 || u == 0xa0 || u == 0x1680 || (0x2000
        <= u && u <= 0x200a) || u == 0x2028 || u == 0x2029 || u == 0x202f || u == 0x205f || u
        == 0x3000
}

/// Executable form of [`is_ws`].
pub fn is_ws_exec(c: char) -> (r: bool)
    ensures
        r == is_ws(c),
{
    let u = c as u32;
    (0x09 <= u && u <= 0x0d) || u == 0x20 || u == 0x85 || u == 0xa0 || u == 0x1680 || (0x2000
        <= u && u <= 0x200a) || u == 0x2028 || u == 0x2029 || u == 0x202f || u == 0x205f || u
        == 0x3000
}

/// `s` with leading whitespace removed.
pub open spec fn trim_start_spec(s: Seq<char>) -> Seq<char>
    decreases s.len(),
{
    if s.len() > 0 && is_ws(s[0]) {
        trim_start_spec(s.drop_first())
    } else {
        s
    }
}

/// `s` with trailing whitespace removed.
pub open spec fn trim_end_spec(s: Seq<char>) -> Seq<char>
    decreases s.len(),
{
    if s.len() > 0 && is_ws(s.last()) {
        trim_end_spec(s.drop_last())
    } else {
        s
    }
}

/// `s` with whitespace removed at both ends, as `str::trim` does.
pub open spec fn trim_spec(s: Seq<char>) -> Seq<char> {
    trim_end_spec(trim_start_spec(s))
}

/// Dropping leading whitespace one character at a time.
proof fn lemma_trim_start_step(s: Seq<char>, i: int)
    requires
        0 <= i < s.len(),
        is_ws(s[i]),
    ensures
        trim_start_spec(s.subrange(i, s.len() as int)) == trim_start_spec(
            s.subrange(i + 1, s.len() as int),
        ),
{
    let t = s.subrange(i, s.len() as int);
    assert(t[0] == s[i]);
    assert(t.drop_first() =~= s.subrange(i + 1, s.len() as int));
}

/// Dropping trailing whitespace one character at a time.
proof fn lemma_trim_end_step(s: Seq<char>, i: int, j: int)
    requires
        0 <= i < j <= s.len(),
        is_ws(s[j - 1]),
    ensures
        trim_end_spec(s.subrange(i, j)) == trim_end_spec(s.subrange(i, j - 1)),
{
    let t = s.subrange(i, j);
    assert(t.last() == s[j - 1]);
    assert(t.drop_last() =~= s.subrange(i, j - 1));
}

/// Index of the first non-whitespace character (or the length).
fn first_non_ws(s: &Vec<char>) -> (i: usize)
    ensures
        i <= s.len(),
        trim_start_spec(s@) == s@.subrange(i as int, s@.len() as int),
{
    let n = s.len();
    let mut i: usize = 0;
    assert(s@.subrange(0, n as int) =~= s@);
    while i < n && is_ws_exec(s[i])
        invariant
            n == s.len(),
            i <= n,
            trim_start_spec(s@) == trim_start_spec(s@.subrange(i as int, n as int)),
        decreases n - i,
    {
        proof {
            lemma_trim_start_step(s@, i as int);
        }
        i = i + 1;
    }
    proof {
        let t = s@.subrange(i as int, n as int);
        if t.len() > 0 {
            assert(t[0] == s@[i as int]);
        }
    }
    i
}

/// Executable form of [`trim_spec`].
pub fn trim_chars(s: &Vec<char>) -> (r: Vec<char>)
    ensures
        r@ == trim_spec(s@),
{
    let n = s.len();
    let i = first_non_ws(s);
    let mut j: usize = n;
    while j > i && is_ws_exec(s[j - 1])
        invariant
            i <= j <= n,
            n == s.len(),
            trim_end_spec(s@.subrange(i as int, n as int)) == trim_end_spec(
                s@.subrange(i as int, j as int),
            ),
        decreases j,
    {
        proof {
            lemma_trim_end_step(s@, i as int, j as int);
        }
        j = j - 1;
    }
    proof {
        let t = s@.subrange(i as int, j as int);
        if t.len() > 0 {
            assert(t.last() == s@[j - 1]);
        }
    }
    sub_chars(s, i, j)
}

/// `s` with surrounding whitespace removed, as a `String`.
pub fn trim_string(s: &str) -> (r: String)
    ensures
        r@ == trim_spec(s@),
{
    string_of(&trim_chars(&chars_of(s)))
}

/// `s` has `p` as a prefix.
pub open spec fn has_prefix(s: Seq<char>, p: Seq<char>) -> bool {
    p.len() <= s.len() && s.subrange(0, p.len() as int) == p
}

/// `s` has `p` as a suffix.
pub open spec fn has_suffix(s: Seq<char>, p: Seq<char>) -> bool {
    p.len() <= s.len() && s.subrange(s.len() - p.len(), s.len() as int) == p
}

/// Executable form of [`has_prefix`].
pub fn starts_with(s: &Vec<char>, p: &Vec<char>) -> (r: bool)
    ensures
        r == has_prefix(s@, p@),
{
    if p.len() > s.len() {
        return false;
    }
    let mut i: usize = 0;
    while i < p.len()
        invariant
            p.len() <= s.len(),
            i <= p.len(),
            forall|k: int| 0 <= k < i ==> s@[k] == p@[k],
        decreases p.len() - i,
    {
        if s[i] != p[i] {
            assert(s@.subrange(0, p.len() as int)[i as int] != p@[i as int]);
            return false;
        }
        i = i + 1;
    }
    assert(s@.subrange(0, p.len() as int) =~= p@);
    true
}

/// Executable form of [`has_suffix`].
pub fn ends_with(s: &Vec<char>, p: &Vec<char>) -> (r: bool)
    ensures
        r == has_suffix(s@, p@),
{
    if p.len() > s.len() {
        return false;
    }
    let off = s.len() - p.len();
    let mut i: usize = 0;
    while i < p.len()
        invariant
            p.len() <= s.len(),
            off == s.len() - p.len(),
            i <= p.len(),
            forall|k: int| 0 <= k < i ==> s@[off + k] == p@[k],
        decreases p.len() - i,
    {
        if s[off + i] != p[i] {
            assert(s@.subrange(off as int, s.len() as int)[i as int] != p@[i as int]);
            return false;
        }
        i = i + 1;
    }
    assert(s@.subrange(off as int, s.len() as int) =~= p@);
    true
}

/// `s` has the literal `lit` as a prefix.
pub fn starts_with_lit(s: &Vec<char>, lit: &str) -> (r: bool)
    ensures
        r == has_prefix(s@, lit@),
{
    starts_with(s, &chars_of(lit))
}

/// `s` has the literal `lit` as a suffix.
pub fn ends_with_lit(s: &Vec<char>, lit: &str) -> (r: bool)
    ensures
        r == has_suffix(s@, lit@),
{
    ends_with(s, &chars_of(lit))
}

/// The characters `s[from..to]`.
pub fn sub_chars(s: &Vec<char>, from: usize, to: usize) -> (r: Vec<char>)
    requires
        from <= to <= s.len(),
    ensures
        r@ == s@.subrange(from as int, to as int),
{
    let mut r: Vec<char> = Vec::new();
    let mut k: usize = from;
    while k < to
        invariant
            from <= k <= to,
            to <= s.len(),
            r@ =~= s@.subrange(from as int, k as int),
        decreases to - k,
    {
        r.push(s[k]);
        k = k + 1;
    }
    r
}

/// `a` followed by `b`.
pub fn concat_chars(a: &Vec<char>, b: &Vec<char>) -> (r: Vec<char>)
    ensures
        r@ == a@ + b@,
{
    let mut r: Vec<char> = a.clone();
    assert(r@ == a@);
    let mut k: usize = 0;
    while k < b.len()
        invariant
            k <= b.len(),
            r@ =~= a@ + b@.subrange(0, k as int),
        decreases b.len() - k,
    {
        r.push(b[k]);
        k = k + 1;
    }
    assert(b@.subrange(0, b@.len() as int) =~= b@);
    r
}

/// `p` occurs in `s` as a contiguous run.
pub open spec fn has_infix(s: Seq<char>, p: Seq<char>) -> bool {
    exists|i: int| 0 <= i && i + p.len() <= s.len() && #[trigger] s.subrange(i, i + p.len()) == p
}

/// Executable form of [`has_infix`] for a literal pattern.
pub fn contains_lit(s: &Vec<char>, lit: &str) -> (r: bool)
    ensures
        r == has_infix(s@, lit@),
{
    let p = chars_of(lit);
    if p.len() > s.len() {
        return false;
    }
    let last = s.len() - p.len();
    let mut i: usize = 0;
    loop
        invariant
            p@ == lit@,
            p.len() <= s.len(),
            last == s.len() - p.len(),
            i <= last,
            forall|k: int| 0 <= k < i ==> #[trigger] s@.subrange(k, k + p.len()) != p@,
        decreases last - i,
    {
        let piece = sub_chars(s, i, i + p.len());
        if chars_eq(&piece, &p) {
            return true;
        }
        if i == last {
            proof {
                if has_infix(s@, lit@) {
                    let k = choose|k: int|
                        0 <= k && k + lit@.len() <= s@.len() && #[trigger] s@.subrange(k, k + lit@.len()) == lit@;
                    assert(k <= i);
                    if k < i {
                        assert(s@.subrange(k, k + p.len()) != p@);
                    }
                }
            }
            return false;
        }
        i = i + 1;
    }
}

/// The position of the first occurrence of the literal `lit` in `s`.
pub fn find_lit(s: &Vec<char>, lit: &str) -> (r: Option<usize>)
    ensures
        match r {
            Some(i) => {
                &&& i + lit@.len() <= s@.len()
                &&& s@.subrange(i as int, i + lit@.len()) == lit@
                &&& forall|k: int| 0 <= k < i ==> #[trigger] s@.subrange(k, k + lit@.len()) != lit@
            },
            None => !has_infix(s@, lit@),
        },
{
    let p = chars_of(lit);
    if p.len() > s.len() {
        return None;
    }
    let last = s.len() - p.len();
    let mut i: usize = 0;
    loop
        invariant
            p@ == lit@,
            p.len() <= s.len(),
            last == s.len() - p.len(),
            i <= last,
            forall|k: int| 0 <= k < i ==> #[trigger] s@.subrange(k, k + p.len()) != p@,
        decreases last - i,
    {
        let piece = sub_chars(s, i, i + p.len());
        if chars_eq(&piece, &p) {
            return Some(i);
        }
        if i == last {
            proof {
                if has_infix(s@, lit@) {
                    let k = choose|k: int|
                        0 <= k && k + lit@.len() <= s@.len() && #[trigger] s@.subrange(k, k + lit@.len()) == lit@;
                    assert(k <= i);
                    if k < i {
                        assert(s@.subrange(k, k + p.len()) != p@);
                    }
                }
            }
            return None;
        }
        i = i + 1;
    }
}

/// The text between the first and the second occurrence of `/p2p/` in a
/// bootstrap multiaddr (to its end when there is no second one), as
/// `addr.split("/p2p/").nth(1)` yields it: the peer id.
pub open spec fn p2p_peer_part(addr: Seq<char>) -> Option<Seq<char>> {
    let pat = "/p2p/"@;
    if has_infix(addr, pat) {
        let i = choose|i: int|
            0 <= i && i + pat.len() <= addr.len() && #[trigger] addr.subrange(i, i + pat.len()) == pat
                && forall|k: int| 0 <= k < i ==> #[trigger] addr.subrange(k, k + pat.len()) != pat;
        let rest = addr.skip(i + pat.len());
        if has_infix(rest, pat) {
            let j = choose|j: int|
                0 <= j && j + pat.len() <= rest.len() && #[trigger] rest.subrange(j, j + pat.len()) == pat
                    && forall|k: int| 0 <= k < j ==> #[trigger] rest.subrange(k, k + pat.len()) != pat;
            Some(rest.take(j))
        } else {
            Some(rest)
        }
    } else {
        None
    }
}

/// A first occurrence is the one `choose` picks.
proof fn lemma_first_occurrence_unique(s: Seq<char>, p: Seq<char>, i: int)
    requires
        0 <= i && i + p.len() <= s.len(),
        s.subrange(i, i + p.len()) == p,
        forall|k: int| 0 <= k < i ==> #[trigger] s.subrange(k, k + p.len()) != p,
    ensures
        (choose|j: int|
            0 <= j && j + p.len() <= s.len() && #[trigger] s.subrange(j, j + p.len()) == p
                && forall|k: int| 0 <= k < j ==> #[trigger] s.subrange(k, k + p.len()) != p) == i,
{
    let j = choose|j: int|
        0 <= j && j + p.len() <= s.len() && #[trigger] s.subrange(j, j + p.len()) == p
            && forall|k: int| 0 <= k < j ==> #[trigger] s.subrange(k, k + p.len()) != p;
    assert(0 <= i && i + p.len() <= s.len() && s.subrange(i, i + p.len()) == p && forall|k: int|
        0 <= k < i ==> #[trigger] s.subrange(k, k + p.len()) != p);
    if j < i {
        assert(s.subrange(j, j + p.len()) != p);
    } else if j > i {
        assert(s.subrange(i, i + p.len()) != p);
    }
}

/// The peer id part of a bootstrap multiaddr (`…/p2p/<peer id>`).
pub fn p2p_peer_id_text(addr: &str) -> (r: Option<String>)
    ensures
        match r {
            Some(t) => p2p_peer_part(addr@) == Some(t@),
            None => p2p_peer_part(addr@) is None,
        },
{
    let a = chars_of(addr);
    let pat = chars_of("/p2p/");
    let plen = pat.len();
    let first = find_lit(&a, "/p2p/");
    match first {
        None => None,
        Some(i) => {
            let n = a.len();
            assert(i + plen <= n);
            proof {
                lemma_first_occurrence_unique(a@, "/p2p/"@, i as int);
            }
            let rest = sub_chars(&a, i + plen, a.len());
            assert(rest@ =~= a@.skip(i + plen));
            match find_lit(&rest, "/p2p/") {
                None => Some(string_of(&rest)),
                Some(j) => {
                    proof {
                        lemma_first_occurrence_unique(rest@, "/p2p/"@, j as int);
                    }
                    let piece = sub_chars(&rest, 0, j);
                    assert(piece@ =~= rest@.take(j as int));
                    Some(string_of(&piece))
                },
            }
        },
    }
}

} // verus!
