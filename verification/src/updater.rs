//! Update checks against the project's latest release: version comparison,
//! the one-day cache of the last answer, and what a release tag means for
//! this build.

use vstd::prelude::*;

use crate::config::opt_view;
use crate::parse::{parse_unsigned, parse_unsigned_spec, split_chars, split_spec};
use crate::text::{chars_of, string_of};

verus! {

/// The version of this build.
pub fn current_version() -> (r: String)
    ensures
        r@ == "0.4.0"@,
{
    String::from_str("0.4.0")
}

/// The numbers of the `.`-separated pieces that read as a `u32`, in order;
/// the other pieces are skipped.
pub open spec fn version_numbers(pieces: Seq<Seq<char>>) -> Seq<int>
    decreases pieces.len(),
{
    if pieces.len() == 0 {
        Seq::empty()
    } else {
        let prev = version_numbers(pieces.drop_last());
        match parse_unsigned_spec(pieces.last(), u32::MAX as int) {
            Some(n) => prev.push(n),
            None => prev,
        }
    }
}

/// The `i`-th number of a version, 0 when it has fewer.
pub open spec fn part_or_zero(nums: Seq<int>, i: int) -> int {
    if i < nums.len() {
        nums[i]
    } else {
        0
    }
}

/// A version read as `(major, minor, patch)`.
pub open spec fn version_triple(v: Seq<char>) -> (int, int, int) {
    let nums = version_numbers(split_spec(v, '.'));
    (part_or_zero(nums, 0), part_or_zero(nums, 1), part_or_zero(nums, 2))
}

/// `a` comes after `b` in lexicographic order.
pub open spec fn triple_gt(a: (int, int, int), b: (int, int, int)) -> bool {
    a.0 > b.0 || (a.0 == b.0 && (a.1 > b.1 || (a.1 == b.1 && a.2 > b.2)))
}

/// `latest` is a strictly greater version than `current`.
pub open spec fn is_newer_spec(latest: Seq<char>, current: Seq<char>) -> bool {
    triple_gt(version_triple(latest), version_triple(current))
}

/// The first three numbers of a version, 0 for those it lacks.
fn version_parts(s: &str) -> (r: (u32, u32, u32))
    ensures
        (r.0 as int, r.1 as int, r.2 as int) == version_triple(s@),
{
    let pieces = split_chars(&chars_of(s), '.');
    let ghost sp = split_spec(s@, '.');
    let mut nums: Vec<u32> = Vec::new();
    let mut i: usize = 0;
    while i < pieces.len()
        invariant
            i <= pieces.len(),
            sp == split_spec(s@, '.'),
            pieces@.len() == sp.len(),
            forall|k: int| 0 <= k < pieces@.len() ==> #[trigger] pieces@[k]@ == sp[k],
            nums@.len() == version_numbers(sp.take(i as int)).len(),
            forall|k: int|
                0 <= k < nums@.len() ==> #[trigger] nums@[k] as int == version_numbers(
                    sp.take(i as int),
                )[k],
        decreases pieces.len() - i,
    {
        proof {
            assert(sp.take(i + 1).drop_last() =~= sp.take(i as int));
            assert(sp.take(i + 1).last() == sp[i as int]);
        }
        match parse_unsigned(&pieces[i], 0xffff_ffffu64) {
            Some(n) => {
                nums.push(n as u32);
            },
            None => {},
        }
        i = i + 1;
    }
    assert(sp.take(sp.len() as int) =~= sp);
    let a = if nums.len() > 0 { nums[0] } else { 0 };
    let b = if nums.len() > 1 { nums[1] } else { 0 };
    let c = if nums.len() > 2 { nums[2] } else { 0 };
    (a, b, c)
}

/// Returns true if `latest` is strictly greater than `current`: each is
/// read as `(major, minor, patch)` from its `.`-separated pieces that are
/// `u32` numbers, missing parts counting as 0, and the triples are compared
/// in lexicographic order.
pub fn is_newer(latest: &str, current: &str) -> (r: bool)
    ensures
        r == is_newer_spec(latest@, current@),
        ({
            let x = version_triple(latest@);
            let y = version_triple(current@);
            &&& x.0 != y.0 ==> (r <==> x.0 > y.0)
            &&& x.0 == y.0 && x.1 != y.1 ==> (r <==> x.1 > y.1)
            &&& x.0 == y.0 && x.1 == y.1 ==> (r <==> x.2 > y.2)
        }),
{
    proof {
        law_is_newer_by_parts(latest@, current@);
    }
    let a = version_parts(latest);
    let b = version_parts(current);
    a.0 > b.0 || (a.0 == b.0 && (a.1 > b.1 || (a.1 == b.1 && a.2 > b.2)))
}

/// A piece without `sep` splits into itself.
proof fn lemma_split_single(s: Seq<char>, sep: char)
    requires
        !s.contains(sep),
    ensures
        split_spec(s, sep) == seq![s],
    decreases s.len(),
{
    if s.len() > 0 {
        assert(!s.drop_last().contains(sep)) by {
            if s.drop_last().contains(sep) {
                let k = choose|k: int| 0 <= k < s.drop_last().len() && s.drop_last()[k] == sep;
                assert(s[k] == sep);
            }
        }
        lemma_split_single(s.drop_last(), sep);
        assert(s.last() != sep) by {
            assert(s[s.len() - 1] == s.last());
        }
        assert(s.drop_last().push(s.last()) =~= s);
        assert(seq![s.drop_last()].update(0, s.drop_last().push(s.last())) =~= seq![s]);
    } else {
        assert(s =~= Seq::<char>::empty());
    }
}

/// Splitting `a`, a separator, then a piece `b` without one gives the
/// pieces of `a` followed by `b`.
proof fn lemma_split_append(a: Seq<char>, b: Seq<char>, sep: char)
    requires
        !b.contains(sep),
    ensures
        split_spec(a + seq![sep] + b, sep) == split_spec(a, sep).push(b),
    decreases b.len(),
{
    let s = a + seq![sep] + b;
    if b.len() == 0 {
        assert(s =~= a.push(sep));
        assert(s.drop_last() =~= a);
        assert(b =~= Seq::<char>::empty());
        assert(s.last() == sep);
    } else {
        assert(!b.drop_last().contains(sep)) by {
            if b.drop_last().contains(sep) {
                let k = choose|k: int| 0 <= k < b.drop_last().len() && b.drop_last()[k] == sep;
                assert(b[k] == sep);
            }
        }
        lemma_split_append(a, b.drop_last(), sep);
        assert(s.drop_last() =~= a + seq![sep] + b.drop_last());
        assert(s.last() == b.last());
        assert(b.last() != sep) by {
            assert(b[b.len() - 1] == b.last());
        }
        assert(b.drop_last().push(b.last()) =~= b);
        let p = split_spec(a, sep).push(b.drop_last());
        assert(p.update(p.len() - 1, p.last().push(s.last())) =~= split_spec(a, sep).push(b));
    }
}

/// A version `major.minor.patch` whose three pieces are numbers reads as
/// those three numbers.
pub proof fn law_version_triple_reads_parts(
    x: Seq<char>,
    y: Seq<char>,
    z: Seq<char>,
    major: int,
    minor: int,
    patch: int,
)
    requires
        !x.contains('.'),
        !y.contains('.'),
        !z.contains('.'),
        parse_unsigned_spec(x, u32::MAX as int) == Some(major),
        parse_unsigned_spec(y, u32::MAX as int) == Some(minor),
        parse_unsigned_spec(z, u32::MAX as int) == Some(patch),
    ensures
        version_triple(x + seq!['.'] + y + seq!['.'] + z) == (major, minor, patch),
{
    lemma_split_single(x, '.');
    lemma_split_append(x, y, '.');
    lemma_split_append(x + seq!['.'] + y, z, '.');
    let pieces = split_spec(x + seq!['.'] + y + seq!['.'] + z, '.');
    assert(pieces =~= seq![x, y, z]);
    reveal_with_fuel(version_numbers, 4);
    assert(pieces.drop_last() =~= seq![x, y]);
    assert(pieces.drop_last().drop_last() =~= seq![x]);
    assert(pieces.drop_last().drop_last().drop_last() =~= Seq::<Seq<char>>::empty());
    assert(version_numbers(pieces) =~= seq![major, minor, patch]);
}

/// Versions are compared part by part: the major numbers decide when they
/// differ, then the minor numbers, then the patch numbers; versions whose
/// three numbers agree are not newer than each other.
pub proof fn law_is_newer_by_parts(latest: Seq<char>, current: Seq<char>)
    ensures
        ({
            let x = version_triple(latest);
            let y = version_triple(current);
            &&& x.0 != y.0 ==> (is_newer_spec(latest, current) <==> x.0 > y.0)
            &&& x.0 == y.0 && x.1 != y.1 ==> (is_newer_spec(latest, current) <==> x.1 > y.1)
            &&& x.0 == y.0 && x.1 == y.1 ==> (is_newer_spec(latest, current) <==> x.2 > y.2)
        }),
{
}

/// No version is newer than itself.
pub proof fn law_is_newer_irreflexive(v: Seq<char>)
    ensures
        !is_newer_spec(v, v),
{
}

/// Of two versions, at most one is newer than the other.
pub proof fn law_is_newer_asymmetric(a: Seq<char>, b: Seq<char>)
    ensures
        !(is_newer_spec(a, b) && is_newer_spec(b, a)),
{
}

/// Newer than a newer version is newer.
pub proof fn law_is_newer_transitive(a: Seq<char>, b: Seq<char>, c: Seq<char>)
    requires
        is_newer_spec(a, b),
        is_newer_spec(b, c),
    ensures
        is_newer_spec(a, c),
{
}

/// `s` without its leading `v`s.
pub open spec fn trim_leading_v(s: Seq<char>) -> Seq<char>
    decreases s.len(),
{
    if s.len() > 0 && s[0] == 'v' {
        trim_leading_v(s.drop_first())
    } else {
        s
    }
}

/// A release tag as a version: the tag without its leading `v`s.
pub fn version_of_tag(tag_name: &str) -> (r: String)
    ensures
        r@ == trim_leading_v(tag_name@),
{
    let t = chars_of(tag_name);
    let mut i: usize = 0;
    assert(t@.skip(0) =~= t@);
    while i < t.len() && t[i] == 'v'
        invariant
            i <= t.len(),
            t@ == tag_name@,
            trim_leading_v(t@.skip(i as int)) == trim_leading_v(tag_name@),
        decreases t.len() - i,
    {
        assert(t@.skip(i as int).drop_first() =~= t@.skip(i + 1));
        i = i + 1;
    }
    let mut out: Vec<char> = Vec::new();
    let mut k: usize = i;
    while k < t.len()
        invariant
            i <= k <= t.len(),
            out@ =~= t@.subrange(i as int, k as int),
        decreases t.len() - k,
    {
        out.push(t[k]);
        k = k + 1;
    }
    assert(out@ =~= t@.skip(i as int));
    string_of(&out)
}

/// A newer release than the running build.
#[derive(Debug)]
pub struct UpdateInfo {
    pub version: String,
    pub name: Option<String>,
    pub url: Option<String>,
    pub body: Option<String>,
}

/// The last answer of an update check, with the time it was made.
#[derive(Debug)]
pub struct CacheEntry {
    /// Seconds since the Unix epoch.
    pub checked_at: u64,
    pub update_info: Option<UpdateInfo>,
}

/// Seconds for which a cached answer stands.
pub const CACHE_VALIDITY_SECS: u64 = 86400;

/// A cached answer is fresh for one day after it was made (a time in the
/// future counts as just made).
pub open spec fn cache_fresh_spec(now: u64, checked_at: u64) -> bool {
    if now >= checked_at {
        now - checked_at < CACHE_VALIDITY_SECS
    } else {
        true
    }
}

/// Executable form of [`cache_fresh_spec`].
pub fn cache_is_fresh(now: u64, checked_at: u64) -> (r: bool)
    ensures
        r == cache_fresh_spec(now, checked_at),
{
    now.saturating_sub(checked_at) < CACHE_VALIDITY_SECS
}

/// Checks for updates of the running build.
pub struct UpdateChecker {
    pub current_version: String,
}

impl UpdateChecker {
    /// A checker for this build's version.
    pub fn new() -> (r: Self)
        ensures
            r.current_version@ == "0.4.0"@,
    {
        UpdateChecker { current_version: current_version() }
    }

    /// The answer a check takes from the cache, if it takes one: only when
    /// not forced, with a cache entry and a clock reading at hand, and the
    /// entry made less than a day before `now`.
    pub fn cached_answer(&self, force: bool, cache: Option<CacheEntry>, now: Option<u64>) -> (r:
        Option<Option<UpdateInfo>>)
        ensures
            r is Some <==> (!force && cache is Some && now is Some && cache_fresh_spec(
                now->0,
                cache->0.checked_at,
            )),
            r is Some ==> r->0 == cache->0.update_info,
    {
        if force {
            return None;
        }
        match (cache, now) {
            (Some(entry), Some(t)) => {
                if cache_is_fresh(t, entry.checked_at) {
                    Some(entry.update_info)
                } else {
                    None
                }
            },
            _ => None,
        }
    }

    /// What the latest release means for this build: an update when its
    /// tag, without leading `v`s, is a newer version than ours.
    pub fn update_from_release(
        &self,
        tag_name: &str,
        name: Option<String>,
        html_url: Option<String>,
        body: Option<String>,
    ) -> (r: Option<UpdateInfo>)
        ensures
            r is Some <==> is_newer_spec(trim_leading_v(tag_name@), self.current_version@),
            r matches Some(u) ==> {
                &&& u.version@ == trim_leading_v(tag_name@)
                &&& opt_view(u.name) == opt_view(name)
                &&& opt_view(u.url) == opt_view(html_url)
                &&& opt_view(u.body) == opt_view(body)
            },
    {
        let latest = version_of_tag(tag_name);
        if is_newer(latest.as_str(), self.current_version.as_str()) {
            Some(UpdateInfo { version: latest, name, url: html_url, body })
        } else {
            None
        }
    }
}

} // verus!
