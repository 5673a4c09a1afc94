//! Console formatting: box headers, separators, uptimes and byte sizes.

use vstd::prelude::*;

use crate::fmt::{
    as_double, dec_spec, div_round_even, pow2, push_all, push_dec, push_lit, u64_as_double,
};
use crate::text::{chars_of, string_of};

verus! {

/// Width of the console boxes, in columns.
pub const WIDTH: usize = 69;

/// Columns a character takes on the console: one for ASCII, two otherwise.
pub open spec fn char_width(c: char) -> nat {
    if (c as u32) < 128 {
        1
    } else {
        2
    }
}

/// Columns a string takes on the console.
pub open spec fn width_spec(s: Seq<char>) -> nat
    decreases s.len(),
{
    if s.len() == 0 {
        0
    } else {
        width_spec(s.drop_last()) + char_width(s.last())
    }
}

proof fn lemma_width_bound(s: Seq<char>)
    ensures
        width_spec(s) <= 2 * s.len(),
    decreases s.len(),
{
    if s.len() > 0 {
        lemma_width_bound(s.drop_last());
    }
}

/// The display width of `s`: ASCII characters count one column, all others two.
pub fn display_width(s: &str) -> (r: usize)
    requires
        2 * s@.len() <= usize::MAX,
    ensures
        r as nat == width_spec(s@),
{
    let v = chars_of(s);
    let mut w: usize = 0;
    let mut i: usize = 0;
    while i < v.len()
        invariant
            i <= v.len(),
            v@ == s@,
            2 * s@.len() <= usize::MAX,
            w as nat == width_spec(v@.subrange(0, i as int)),
        decreases v.len() - i,
    {
        proof {
            assert(v@.subrange(0, i + 1).drop_last() =~= v@.subrange(0, i as int));
            lemma_width_bound(v@.subrange(0, i + 1));
        }
        let c = v[i];
        if (c as u32) < 128 {
            w = w + 1;
        } else {
            w = w + 2;
        }
        i = i + 1;
    }
    assert(v@.subrange(0, v@.len() as int) =~= v@);
    w
}

/// `n` copies of `c`.
pub open spec fn repeat_spec(c: char, n: nat) -> Seq<char> {
    Seq::new(n, |i: int| c)
}

/// Appends `n` copies of `c`.
pub fn push_repeat(s: &mut Vec<char>, c: char, n: usize)
    ensures
        final(s)@ == old(s)@ + repeat_spec(c, n as nat),
{
    let ghost start = s@;
    let mut i: usize = 0;
    while i < n
        invariant
            i <= n,
            s@ =~= start + repeat_spec(c, i as nat),
        decreases n - i,
    {
        s.push(c);
        i = i + 1;
    }
}

/// Blank columns to the left and right of a centred box title of width `w`.
pub open spec fn title_padding(w: nat) -> (nat, nat) {
    let pad: nat = if w <= WIDTH { ((WIDTH - w) / 2) as nat } else { 0 };
    let right: nat = if pad + w <= WIDTH { (WIDTH - (pad + w)) as nat } else { 0 };
    (pad, right)
}

/// The three lines of a box header around `title`.
pub open spec fn box_header_spec(title: Seq<char>) -> Seq<Seq<char>> {
    let (pad, right) = title_padding(width_spec(title));
    seq![
        seq!['╭'] + repeat_spec('─', WIDTH as nat) + seq!['╮'],
        seq!['│'] + repeat_spec(' ', pad) + title + repeat_spec(' ', right) + seq!['│'],
        seq!['╰'] + repeat_spec('─', WIDTH as nat) + seq!['╯'],
    ]
}

/// The framed lines printed as a box header: a rule, the title centred in
/// the box width, and a closing rule.
pub fn box_header_lines(title: &str) -> (r: Vec<String>)
    requires
        2 * title@.len() <= usize::MAX,
    ensures
        r@.len() == 3,
        forall|k: int| 0 <= k < 3 ==> #[trigger] r@[k]@ == box_header_spec(title@)[k],
{
    let w = display_width(title);
    let pad: usize = if w <= WIDTH { (WIDTH - w) / 2 } else { 0 };
    let right: usize = if w <= WIDTH - pad { WIDTH - (pad + w) } else { 0 };
    let mut top: Vec<char> = Vec::new();
    top.push('╭');
    push_repeat(&mut top, '─', WIDTH);
    top.push('╮');
    let mut mid: Vec<char> = Vec::new();
    mid.push('│');
    push_repeat(&mut mid, ' ', pad);
    push_all(&mut mid, &chars_of(title));
    push_repeat(&mut mid, ' ', right);
    mid.push('│');
    let mut bot: Vec<char> = Vec::new();
    bot.push('╰');
    push_repeat(&mut bot, '─', WIDTH);
    bot.push('╯');
    let mut r: Vec<String> = Vec::new();
    r.push(string_of(&top));
    r.push(string_of(&mid));
    r.push(string_of(&bot));
    proof {
        let spec = box_header_spec(title@);
        assert(top@ =~= spec[0]);
        assert(mid@ =~= spec[1]);
        assert(bot@ =~= spec[2]);
    }
    r
}

/// A horizontal rule the width of the boxes.
pub fn separator_line() -> (r: String)
    ensures
        r@ == repeat_spec('─', WIDTH as nat),
{
    let mut s: Vec<char> = Vec::new();
    push_repeat(&mut s, '─', WIDTH);
    assert(s@ =~= repeat_spec('─', WIDTH as nat));
    string_of(&s)
}

/// `n` followed by a unit letter and a space, or nothing when `n` is zero.
pub open spec fn uptime_part(n: nat, unit: char) -> Seq<char> {
    if n > 0 {
        dec_spec(n).push(unit).push(' ')
    } else {
        Seq::empty()
    }
}

/// Seconds as `Nd Nh Nm Ns`, leaving out the days, hours or minutes that
/// are zero (seconds are always shown).
pub open spec fn uptime_spec(secs: nat) -> Seq<char> {
    let days = secs / 86400;
    let hours = (secs % 86400) / 3600;
    let mins = (secs % 3600) / 60;
    let s = secs % 60;
    uptime_part(days, 'd') + uptime_part(hours, 'h') + uptime_part(mins, 'm') + dec_spec(s).push(
        's',
    )
}

/// An uptime's parts are a true split of the seconds: fewer than 24 hours,
/// 60 minutes and 60 seconds, adding back up to the whole; and the text
/// always ends with the seconds.
pub proof fn law_uptime_parts(secs: nat)
    ensures
        (secs % 86400) / 3600 < 24,
        (secs % 3600) / 60 < 60,
        secs % 60 < 60,
        (secs / 86400) * 86400 + ((secs % 86400) / 3600) * 3600 + ((secs % 3600) / 60) * 60 + secs
            % 60 == secs,
        ({
            let t = uptime_spec(secs);
            let tail = dec_spec(secs % 60).push('s');
            t.len() >= tail.len() && t.subrange(t.len() - tail.len(), t.len() as int) == tail
        }),
{
    assert((secs % 86400) / 3600 < 24) by (nonlinear_arith);
    assert((secs % 3600) / 60 < 60) by (nonlinear_arith);
    assert((secs / 86400) * 86400 + ((secs % 86400) / 3600) * 3600 + ((secs % 3600) / 60) * 60
        + secs % 60 == secs) by (nonlinear_arith);
    let head = uptime_part(secs / 86400, 'd') + uptime_part((secs % 86400) / 3600, 'h')
        + uptime_part((secs % 3600) / 60, 'm');
    let tail = dec_spec(secs % 60).push('s');
    assert(uptime_spec(secs) == head + tail);
    assert((head + tail).subrange(head.len() as int, (head + tail).len() as int) =~= tail);
}

/// The uptime text shows each of days, hours and minutes, as the number and
/// its unit letter followed by a space, exactly when that part of the split
/// of the seconds is not zero, in that order, and always ends with the
/// seconds: `125` reads `2m 5s`, `3600` reads `1h 0s`.
pub proof fn law_uptime_text(secs: nat)
    ensures
        uptime_spec(secs) == (if secs / 86400 > 0 {
            dec_spec(secs / 86400) + "d "@
        } else {
            Seq::empty()
        }) + (if (secs % 86400) / 3600 > 0 {
            dec_spec((secs % 86400) / 3600) + "h "@
        } else {
            Seq::empty()
        }) + (if (secs % 3600) / 60 > 0 {
            dec_spec((secs % 3600) / 60) + "m "@
        } else {
            Seq::empty()
        }) + dec_spec(secs % 60) + "s"@,
{
    reveal_strlit("d ");
    reveal_strlit("h ");
    reveal_strlit("m ");
    reveal_strlit("s");
    assert(dec_spec(secs / 86400).push('d').push(' ') =~= dec_spec(secs / 86400) + "d "@);
    assert(dec_spec((secs % 86400) / 3600).push('h').push(' ') =~= dec_spec((secs % 86400) / 3600)
        + "h "@);
    assert(dec_spec((secs % 3600) / 60).push('m').push(' ') =~= dec_spec((secs % 3600) / 60)
        + "m "@);
    assert(dec_spec(secs % 60).push('s') =~= dec_spec(secs % 60) + "s"@);
    let d = if secs / 86400 > 0 {
        dec_spec(secs / 86400) + "d "@
    } else {
        Seq::empty()
    };
    let h = if (secs % 86400) / 3600 > 0 {
        dec_spec((secs % 86400) / 3600) + "h "@
    } else {
        Seq::empty()
    };
    let m = if (secs % 3600) / 60 > 0 {
        dec_spec((secs % 3600) / 60) + "m "@
    } else {
        Seq::empty()
    };
    assert(uptime_spec(secs) =~= d + h + m + (dec_spec(secs % 60) + "s"@));
}

/// Format seconds into a human-readable uptime string.
pub fn format_uptime(secs: u64) -> (r: String)
    ensures
        r@ == uptime_spec(secs as nat),
        r@ == (if secs / 86400 > 0 {
            dec_spec((secs / 86400) as nat) + "d "@
        } else {
            Seq::empty()
        }) + (if (secs % 86400) / 3600 > 0 {
            dec_spec(((secs % 86400) / 3600) as nat) + "h "@
        } else {
            Seq::empty()
        }) + (if (secs % 3600) / 60 > 0 {
            dec_spec(((secs % 3600) / 60) as nat) + "m "@
        } else {
            Seq::empty()
        }) + dec_spec((secs % 60) as nat) + "s"@,
{
    proof {
        law_uptime_text(secs as nat);
    }
    let days = secs / 86400;
    let hours = (secs % 86400) / 3600;
    let mins = (secs % 3600) / 60;
    let s = secs % 60;
    let mut out: Vec<char> = Vec::new();
    if days > 0 {
        push_dec(&mut out, days);
        out.push('d');
        out.push(' ');
    }
    let ghost a = out@;
    if hours > 0 {
        push_dec(&mut out, hours);
        out.push('h');
        out.push(' ');
    }
    let ghost b = out@;
    if mins > 0 {
        push_dec(&mut out, mins);
        out.push('m');
        out.push(' ');
    }
    let ghost c = out@;
    push_dec(&mut out, s);
    out.push('s');
    proof {
        assert(a =~= uptime_part(days as nat, 'd'));
        assert(b =~= a + uptime_part(hours as nat, 'h'));
        assert(c =~= b + uptime_part(mins as nat, 'm'));
        assert(out@ =~= uptime_spec(secs as nat));
    }
    string_of(&out)
}

/// `t` tenths written with one decimal, e.g. `12` as `1.2`.
pub open spec fn tenths_spec(t: nat) -> Seq<char> {
    dec_spec(t / 10) + seq!['.'] + dec_spec(t % 10)
}

/// `n` written with exactly one decimal: the tenths of `as_double(n) / 2^k`,
/// rounded to nearest with ties to even, as Rust prints `{:.1}`.
pub open spec fn one_decimal_spec(n: nat, k: nat) -> Seq<char> {
    tenths_spec(div_round_even(as_double(n) * 10, pow2(k)))
}

/// `n / 2^k` rounded to nearest with ties to even, as Rust prints `{:.0}`.
pub open spec fn no_decimal_spec(n: nat, k: nat) -> Seq<char> {
    dec_spec(div_round_even(as_double(n), pow2(k)))
}

proof fn lemma_pow2_values()
    ensures
        pow2(10) == 1024,
        pow2(20) == 1_048_576,
        pow2(30) == 1_073_741_824,
{
    reveal_with_fuel(pow2, 31);
}

/// `x / p` rounded to nearest, ties to even.
fn div_round_even_exec(x: u128, p: u128) -> (r: u128)
    requires
        p >= 2,
    ensures
        r as nat == div_round_even(x as nat, p as nat),
        r <= x / p + 1,
{
    let q = x / p;
    let rem = x % p;
    assert(q < u128::MAX) by (nonlinear_arith)
        requires
            q == x / p,
            p >= 2,
    {
    }
    if rem > p - rem || (rem == p - rem && q % 2 == 1) {
        q + 1
    } else {
        q
    }
}

/// Appends `t` tenths with one decimal.
fn push_tenths(s: &mut Vec<char>, t: u64)
    ensures
        final(s)@ == old(s)@ + tenths_spec(t as nat),
{
    let ghost start = s@;
    push_dec(s, t / 10);
    s.push('.');
    push_dec(s, t % 10);
    assert(s@ =~= start + tenths_spec(t as nat));
}

/// The tenths of `as_double(n) / 2^k`, rounded as `{:.1}` rounds.
fn tenths_of(n: u64, p: u128) -> (t: u64)
    requires
        p == 1_073_741_824 || p == 1_048_576 || p == 1024,
    ensures
        t as nat == div_round_even(as_double(n as nat) * 10, p as nat),
{
    let d = u64_as_double(n);
    let x: u128 = d * 10;
    let t = div_round_even_exec(x, p);
    assert(t <= 0x2_0000_0000_0000_0000u128 * 10 / 1024 + 1);
    assert(t < 0x1_0000_0000_0000_0000u128) by (nonlinear_arith)
        requires
            t <= x / p + 1,
            x <= 0x2_0000_0000_0000_0000u128 * 10,
            p >= 1024,
    {
    }
    t as u64
}

/// Format bytes into a human-readable size string (`1.5 GB`, `12.0 KB`, `512 B`).
pub fn format_bytes(bytes: u64) -> (r: String)
    ensures
        r@ == (if bytes >= 1_073_741_824 {
            one_decimal_spec(bytes as nat, 30) + " GB"@
        } else if bytes >= 1_048_576 {
            one_decimal_spec(bytes as nat, 20) + " MB"@
        } else if bytes >= 1024 {
            one_decimal_spec(bytes as nat, 10) + " KB"@
        } else {
            dec_spec(bytes as nat) + " B"@
        }),
{
    proof {
        lemma_pow2_values();
    }
    let mut out: Vec<char> = Vec::new();
    if bytes >= 1_073_741_824 {
        let t = tenths_of(bytes, 1_073_741_824);
        push_tenths(&mut out, t);
        push_lit(&mut out, " GB");
    } else if bytes >= 1_048_576 {
        let t = tenths_of(bytes, 1_048_576);
        push_tenths(&mut out, t);
        push_lit(&mut out, " MB");
    } else if bytes >= 1024 {
        let t = tenths_of(bytes, 1024);
        push_tenths(&mut out, t);
        push_lit(&mut out, " KB");
    } else {
        push_dec(&mut out, bytes);
        push_lit(&mut out, " B");
    }
    string_of(&out)
}

/// The rounded quotient `as_double(n) / p`, as `{:.0}` rounds.
fn whole_of(n: u64, p: u128) -> (t: u64)
    requires
        p == 1_073_741_824 || p == 1_048_576 || p == 1024,
    ensures
        t as nat == div_round_even(as_double(n as nat), p as nat),
{
    let d = u64_as_double(n);
    let t = div_round_even_exec(d, p);
    assert(t < 0x1_0000_0000_0000_0000u128) by (nonlinear_arith)
        requires
            t <= d / p + 1,
            d <= 0x2_0000_0000_0000_0000u128,
            p >= 1024,
    {
    }
    t as u64
}

/// The download progress size format: gigabytes with one decimal, megabytes
/// and kilobytes with none.
pub fn fmt_bytes(bytes: u64) -> (r: String)
    ensures
        r@ == (if bytes >= 1_073_741_824 {
            one_decimal_spec(bytes as nat, 30) + " GB"@
        } else if bytes >= 1_048_576 {
            no_decimal_spec(bytes as nat, 20) + " MB"@
        } else if bytes >= 1024 {
            no_decimal_spec(bytes as nat, 10) + " KB"@
        } else {
            dec_spec(bytes as nat) + " B"@
        }),
{
    proof {
        lemma_pow2_values();
    }
    let mut out: Vec<char> = Vec::new();
    if bytes >= 1_073_741_824 {
        let t = tenths_of(bytes, 1_073_741_824);
        push_tenths(&mut out, t);
        push_lit(&mut out, " GB");
    } else if bytes >= 1_048_576 {
        let t = whole_of(bytes, 1_048_576);
        push_dec(&mut out, t);
        push_lit(&mut out, " MB");
    } else if bytes >= 1024 {
        let t = whole_of(bytes, 1024);
        push_dec(&mut out, t);
        push_lit(&mut out, " KB");
    } else {
        push_dec(&mut out, bytes);
        push_lit(&mut out, " B");
    }
    string_of(&out)
}

} // verus!
