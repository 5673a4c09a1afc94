//! What the network-map crawler asks the DHT for: the model prefixes it
//! scans, the keys of each, and the block coverage it reports.

use vstd::prelude::*;

use crate::config::strings_view;
use crate::dht::{block_key_spec, dht_id, dht_id_spec};
use crate::parse::has_prefix;
use crate::text::chars_of;

verus! {

/// Blocks scanned per model prefix (missing keys come back empty).
pub const SCAN_BLOCKS: u64 = 80;

/// The model prefixes always scanned.
pub open spec fn fallback_prefixes() -> Seq<Seq<char>> {
    seq![
        "Llama-3-1-8B-Instruct"@,
        "Llama-2-70b-chat-hf"@,
        "Meta-Llama-3-1-8B-Instruct"@,
        "bloom"@,
    ]
}

/// `base` followed by the prefixes of `extra` it lacks, each once, in order.
pub open spec fn merge_prefixes(base: Seq<Seq<char>>, extra: Seq<Seq<char>>) -> Seq<Seq<char>>
    decreases extra.len(),
{
    if extra.len() == 0 {
        base
    } else {
        let p = merge_prefixes(base, extra.drop_last());
        if p.contains(extra.last()) {
            p
        } else {
            p.push(extra.last())
        }
    }
}

/// The prefixes one crawl scans: the fallback ones, those found in the
/// model registry that are new, and the VPK node registry.
pub open spec fn crawl_prefixes_spec(extra: Seq<Seq<char>>) -> Seq<Seq<char>> {
    merge_prefixes(fallback_prefixes(), extra).push("_kwaai.vpk.nodes"@)
}

/// Whether `list` holds `s`.
fn holds(list: &Vec<String>, s: &String) -> (r: bool)
    ensures
        r == strings_view(list@).contains(s@),
{
    let mut i: usize = 0;
    while i < list.len()
        invariant
            i <= list.len(),
            forall|k: int| 0 <= k < i ==> list@[k]@ != s@,
        decreases list.len() - i,
    {
        if list[i] == *s {
            assert(strings_view(list@)[i as int] == s@);
            return true;
        }
        i = i + 1;
    }
    proof {
        if strings_view(list@).contains(s@) {
            let k = choose|k: int| 0 <= k < strings_view(list@).len() && strings_view(list@)[k] == s@;
            assert(list@[k]@ == s@);
        }
    }
    false
}

/// Appends a literal.
fn push_str_lit(v: &mut Vec<String>, lit: &str)
    ensures
        strings_view(final(v)@) == strings_view(old(v)@).push(lit@),
{
    let ghost before = v@;
    v.push(String::from_str(lit));
    assert(strings_view(v@) =~= strings_view(before).push(lit@));
}

/// The prefixes one crawl scans, given those found in the model registry.
pub fn crawl_prefixes(extra: &Vec<String>) -> (r: Vec<String>)
    ensures
        strings_view(r@) == crawl_prefixes_spec(strings_view(extra@)),
{
    let mut v: Vec<String> = Vec::new();
    push_str_lit(&mut v, "Llama-3-1-8B-Instruct");
    push_str_lit(&mut v, "Llama-2-70b-chat-hf");
    push_str_lit(&mut v, "Meta-Llama-3-1-8B-Instruct");
    push_str_lit(&mut v, "bloom");
    assert(strings_view(v@) =~= fallback_prefixes());
    let ghost ev = strings_view(extra@);
    let mut i: usize = 0;
    while i < extra.len()
        invariant
            i <= extra.len(),
            ev == strings_view(extra@),
            strings_view(v@) == merge_prefixes(fallback_prefixes(), ev.take(i as int)),
        decreases extra.len() - i,
    {
        assert(ev.take(i + 1).drop_last() =~= ev.take(i as int));
        assert(ev.take(i + 1).last() == extra@[i as int]@);
        if !holds(&v, &extra[i]) {
            let ghost before = v@;
            v.push(extra[i].clone());
            assert(strings_view(v@) =~= strings_view(before).push(extra@[i as int]@));
        }
        i = i + 1;
    }
    assert(ev.take(ev.len() as int) =~= ev);
    push_str_lit(&mut v, "_kwaai.vpk.nodes");
    v
}

/// The DHT keys scanned for a prefix: a registry prefix (starting with
/// `_kwaai`) is one key; a model prefix has one key per block `0..80`.
pub open spec fn crawl_keys_spec(prefix: Seq<char>) -> Seq<Seq<u8>> {
    if has_prefix(prefix, "_kwaai"@) {
        seq![dht_id_spec(prefix)]
    } else {
        Seq::new(SCAN_BLOCKS as nat, |b: int| dht_id_spec(block_key_spec(prefix, b as nat)))
    }
}

/// The DHT keys scanned for `prefix`.
pub fn crawl_keys(prefix: &str) -> (r: Vec<Vec<u8>>)
    requires
        vstd::utf8::encode_utf8(prefix@).len() + 32 < 0x1_0000_0000,
    ensures
        r@.len() == crawl_keys_spec(prefix@).len(),
        forall|k: int| 0 <= k < r@.len() ==> #[trigger] r@[k]@ == crawl_keys_spec(prefix@)[k],
{
    let mut keys: Vec<Vec<u8>> = Vec::new();
    if crate::parse::starts_with_lit(&chars_of(prefix), "_kwaai") {
        keys.push(dht_id(prefix));
        return keys;
    }
    let mut b: u64 = 0;
    while b < SCAN_BLOCKS
        invariant
            b <= SCAN_BLOCKS,
            !has_prefix(prefix@, "_kwaai"@),
            vstd::utf8::encode_utf8(prefix@).len() + 32 < 0x1_0000_0000,
            keys@.len() == b,
            forall|k: int| 0 <= k < b ==> #[trigger] keys@[k]@ == dht_id_spec(block_key_spec(prefix@, k as nat)),
        decreases SCAN_BLOCKS - b,
    {
        keys.push(crate::dht::block_dht_id(prefix, b));
        b = b + 1;
    }
    keys
}

/// Block `b` is served by one of the nodes with the given
/// `(start_block, end_block)` ranges: a node serves the half-open range
/// `[start_block, end_block)`, cut to the model's `total` blocks.
pub open spec fn map_marks(ranges: Seq<(usize, usize)>, total: nat, b: int) -> bool {
    exists|i: int|
        0 <= i < ranges.len() && #[trigger] ranges[i].0 <= b && b < ranges[i].1 && b < total
}

/// The number of blocks of a `total_blocks`-block model that the nodes with
/// the given `(start_block, end_block)` ranges serve, each node serving
/// `[start_block, end_block)`: the map's coverage figure.
pub fn covered_block_count(ranges: &Vec<(usize, usize)>, total_blocks: usize) -> (r: usize)
    ensures
        r <= total_blocks,
        r as nat == crate::shard::count_true(
            Seq::new(total_blocks as nat, |b: int| map_marks(ranges@, total_blocks as nat, b)),
        ),
{
    let len = total_blocks;
    let mut covered: Vec<bool> = Vec::new();
    let mut b: usize = 0;
    while b < len
        invariant
            b <= len,
            covered@.len() == b,
            forall|k: int| 0 <= k < b ==> !#[trigger] covered@[k],
        decreases len - b,
    {
        covered.push(false);
        b = b + 1;
    }
    let mut i: usize = 0;
    while i < ranges.len()
        invariant
            i <= ranges.len(),
            len == total_blocks,
            covered@.len() == len,
            forall|k: int|
                0 <= k < len ==> (#[trigger] covered@[k] <==> map_marks(
                    ranges@.take(i as int),
                    total_blocks as nat,
                    k,
                )),
        decreases ranges.len() - i,
    {
        let (s, e0) = ranges[i];
        let e = if e0 < len { e0 } else { len };
        let mut j: usize = s;
        while j < e
            invariant
                s <= j,
                j <= e || j == s,
                e <= len,
                e <= e0,
                e == e0 || e == len,
                covered@.len() == len,
                forall|k: int|
                    0 <= k < len ==> (#[trigger] covered@[k] <==> (map_marks(
                        ranges@.take(i as int),
                        total_blocks as nat,
                        k,
                    ) || (s <= k < j))),
            decreases e - j,
        {
            covered.set(j, true);
            j = j + 1;
        }
        proof {
            let pre = ranges@.take(i as int);
            let nxt = ranges@.take(i + 1);
            assert forall|k: int| 0 <= k < len implies (#[trigger] covered@[k] <==> map_marks(
                nxt,
                total_blocks as nat,
                k,
            )) by {
                if map_marks(pre, total_blocks as nat, k) {
                    let w = choose|w: int|
                        0 <= w < pre.len() && #[trigger] pre[w].0 <= k && k < pre[w].1 && k < total_blocks;
                    assert(nxt[w] == pre[w]);
                }
                if map_marks(nxt, total_blocks as nat, k) {
                    let w = choose|w: int|
                        0 <= w < nxt.len() && #[trigger] nxt[w].0 <= k && k < nxt[w].1 && k < total_blocks;
                    if w < i {
                        assert(pre[w] == nxt[w]);
                    }
                }
                if s <= k < j {
                    assert(nxt[i as int] == ranges@[i as int]);
                }
            }
        }
        i = i + 1;
    }
    assert(ranges@.take(ranges@.len() as int) =~= ranges@);
    let n = crate::shard::count_claimed(&covered);
    assert(covered@ =~= Seq::new(len as nat, |b: int| map_marks(ranges@, total_blocks as nat, b)));
    n
}

} // verus!
