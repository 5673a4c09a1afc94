//! Block placement: which range of transformer blocks a node should serve,
//! decided from the coverage that the other block servers provide.
//!
//! Coverage counts, per block, the *other* servers whose range
//! `[start_block, end_block)` contains the block; entries of our own peer are
//! ignored, so stale records of our old range never count.

use vstd::prelude::*;

verus! {

/// One block server discovered on the DHT.
#[derive(Debug)]
pub struct BlockServerEntry {
    /// The server's peer id (its multihash bytes).
    pub peer_id: Vec<u8>,
    pub start_block: usize,
    pub end_block: usize,
    pub public_name: String,
}

/// `e` is another server's record covering block `b`.
pub open spec fn covers(e: BlockServerEntry, our: Seq<u8>, b: int) -> bool {
    e.peer_id@ != our && e.start_block <= b < e.end_block
}

/// How many other servers in `chain` cover block `b`.
pub open spec fn cover_count(chain: Seq<BlockServerEntry>, our: Seq<u8>, b: int) -> nat
    decreases chain.len(),
{
    if chain.len() == 0 {
        0
    } else {
        cover_count(chain.drop_last(), our, b) + if covers(chain.last(), our, b) {
            1nat
        } else {
            0nat
        }
    }
}

/// Per-block coverage of blocks `0..total`.
pub open spec fn coverage_spec(chain: Seq<BlockServerEntry>, our: Seq<u8>, total: nat) -> Seq<
    nat,
> {
    Seq::new(total, |b: int| cover_count(chain, our, b))
}

/// Every other server's record, clamped to `0..total`, is an ordered range
/// (a record whose clamped start lies after its clamped end cannot be
/// counted).
pub open spec fn chain_ranges_ordered(chain: Seq<BlockServerEntry>, our: Seq<u8>, total: nat) -> bool {
    forall|i: int|
        0 <= i < chain.len() && #[trigger] chain[i].peer_id@ != our ==> min_nat(
            chain[i].start_block as nat,
            total,
        ) <= min_nat(chain[i].end_block as nat, total)
}

/// The smaller of two naturals.
pub open spec fn min_nat(a: nat, b: nat) -> nat {
    if a <= b {
        a
    } else {
        b
    }
}

/// The first block in `0..n` with no coverage.
pub open spec fn first_zero(cov: Seq<nat>, n: nat) -> Option<nat>
    decreases n,
{
    if n == 0 {
        None
    } else {
        match first_zero(cov, (n - 1) as nat) {
            Some(g) => Some(g),
            None => if cov[n - 1] == 0 {
                Some((n - 1) as nat)
            } else {
                None
            },
        }
    }
}

/// The least coverage among blocks `lo..hi` (`lo < hi`).
pub open spec fn min_in(cov: Seq<nat>, lo: nat, hi: nat) -> nat
    decreases hi,
{
    if hi <= lo + 1 {
        cov[lo as int]
    } else {
        min_nat(min_in(cov, lo, (hi - 1) as nat), cov[hi - 1])
    }
}

/// Total coverage of the `t` blocks starting at `i`.
pub open spec fn window_sum(cov: Seq<nat>, i: nat, t: nat) -> nat
    decreases t,
{
    if t == 0 {
        0
    } else {
        window_sum(cov, i, (t - 1) as nat) + cov[i + t - 1]
    }
}

/// The first of the windows `0..k` (each `t` blocks long) whose total
/// coverage is least.
pub open spec fn best_window(cov: Seq<nat>, t: nat, k: nat) -> nat
    decreases k,
{
    if k <= 1 {
        0
    } else {
        let b = best_window(cov, t, (k - 1) as nat);
        if window_sum(cov, (k - 1) as nat, t) < window_sum(cov, b, t) {
            (k - 1) as nat
        } else {
            b
        }
    }
}

/// Whether and where a node serving `[our_start, our_end)` should move:
/// only when the other servers cover each of our blocks at least
/// `min_redundancy` times, and only to the first uncovered block, taking up
/// to `target_blocks` blocks from there.
pub open spec fn rebalance_spec(
    chain: Seq<BlockServerEntry>,
    our: Seq<u8>,
    our_start: nat,
    our_end: nat,
    total: nat,
    target: nat,
    min_redundancy: nat,
) -> Option<(nat, nat)> {
    if total == 0 || our_start >= our_end {
        None
    } else {
        let cov = coverage_spec(chain, our, total);
        let lo = min_nat(our_start, total);
        let hi = min_nat(our_end, total);
        let ours = if lo < hi {
            min_in(cov, lo, hi)
        } else {
            0
        };
        if ours < min_redundancy {
            None
        } else {
            match first_zero(cov, total) {
                None => None,
                Some(g) => Some((g, min_nat(g + target, total))),
            }
        }
    }
}

/// The block range a new or moving node should serve: the first uncovered
/// block when there is one, otherwise the least-covered window of
/// `min(target, total)` blocks.
pub open spec fn pick_gap_spec(chain: Seq<BlockServerEntry>, our: Seq<u8>, total: nat, target: nat) -> (
    nat,
    nat,
) {
    if total == 0 {
        (0, 0)
    } else {
        let t = min_nat(target, total);
        let cov = coverage_spec(chain, our, total);
        let start = if min_in(cov, 0, total) == 0 {
            match first_zero(cov, total) {
                Some(g) => g,
                None => 0,
            }
        } else {
            best_window(cov, t, (total - t + 1) as nat)
        };
        (start, min_nat(start + t, total))
    }
}

/// Two byte strings are equal.
pub fn bytes_eq(a: &Vec<u8>, b: &Vec<u8>) -> (r: bool)
    ensures
        r == (a@ == b@),
{
    if a.len() != b.len() {
        return false;
    }
    let mut i: usize = 0;
    while i < a.len()
        invariant
            a.len() == b.len(),
            i <= a.len(),
            forall|k: int| 0 <= k < i ==> a@[k] == b@[k],
        decreases a.len() - i,
    {
        if a[i] != b[i] {
            return false;
        }
        i = i + 1;
    }
    assert(a@ =~= b@);
    true
}

/// Per-block count of other servers covering each of the blocks `0..total`.
pub fn coverage(chain: &Vec<BlockServerEntry>, our: &Vec<u8>, total: usize) -> (r: Vec<usize>)
    requires
        chain_ranges_ordered(chain@, our@, total as nat),
    ensures
        r@.len() == total,
        forall|b: int| 0 <= b < total ==> #[trigger] r@[b] as nat == cover_count(chain@, our@, b),
{
    let mut cov: Vec<usize> = Vec::new();
    let mut b: usize = 0;
    while b < total
        invariant
            b <= total,
            cov@.len() == b,
            forall|k: int| 0 <= k < b ==> #[trigger] cov@[k] == 0,
        decreases total - b,
    {
        cov.push(0);
        b = b + 1;
    }
    let mut i: usize = 0;
    while i < chain.len()
        invariant
            i <= chain.len(),
            cov@.len() == total,
            chain_ranges_ordered(chain@, our@, total as nat),
            forall|k: int|
                0 <= k < total ==> #[trigger] cov@[k] as nat == cover_count(
                    chain@.subrange(0, i as int),
                    our@,
                    k,
                ),
            forall|k: int| 0 <= k < total ==> #[trigger] cov@[k] <= i,
        decreases chain.len() - i,
    {
        let e = &chain[i];
        let ghost prefix = chain@.subrange(0, i + 1);
        proof {
            assert(prefix.drop_last() =~= chain@.subrange(0, i as int));
            assert(prefix.last() == chain@[i as int]);
        }
        if !bytes_eq(&e.peer_id, our) {
            let s = if e.start_block < total { e.start_block } else { total };
            let t = if e.end_block < total { e.end_block } else { total };
            assert(s <= t);
            let mut j: usize = s;
            while j < t
                invariant
                    s <= j <= t,
                    t <= total,
                    cov@.len() == total,
                    i < chain.len(),
                    e == chain@[i as int],
                    e.peer_id@ != our@,
                    s == min_nat(e.start_block as nat, total as nat),
                    t == min_nat(e.end_block as nat, total as nat),
                    prefix == chain@.subrange(0, i + 1),
                    prefix.drop_last() == chain@.subrange(0, i as int),
                    prefix.last() == chain@[i as int],
                    forall|k: int|
                        0 <= k < total ==> #[trigger] cov@[k] as nat == cover_count(
                            chain@.subrange(0, i as int),
                            our@,
                            k,
                        ) + if s <= k < j {
                            1nat
                        } else {
                            0nat
                        },
                    forall|k: int| 0 <= k < total ==> #[trigger] cov@[k] <= i + 1,
                    forall|k: int| 0 <= k < total && !(s <= k < j) ==> #[trigger] cov@[k] <= i,
                decreases t - j,
            {
                let c = cov[j];
                cov.set(j, c + 1);
                j = j + 1;
            }
            proof {
                assert forall|k: int| 0 <= k < total implies #[trigger] cov@[k] as nat
                    == cover_count(prefix, our@, k) by {
                    assert(covers(chain@[i as int], our@, k) == (s <= k < t));
                }
            }
        } else {
            proof {
                assert forall|k: int| 0 <= k < total implies #[trigger] cov@[k] as nat
                    == cover_count(prefix, our@, k) by {
                    assert(!covers(chain@[i as int], our@, k));
                }
            }
        }
        i = i + 1;
    }
    assert(chain@.subrange(0, chain@.len() as int) =~= chain@);
    cov
}

/// The view of a coverage vector as naturals.
pub open spec fn nat_seq(v: Seq<usize>) -> Seq<nat> {
    v.map_values(|x: usize| x as nat)
}

/// The first block in `0..n` with no coverage.
fn find_first_zero(cov: &Vec<usize>, n: usize) -> (r: Option<usize>)
    requires
        n <= cov.len(),
    ensures
        match r {
            Some(g) => first_zero(nat_seq(cov@), n as nat) == Some(g as nat),
            None => first_zero(nat_seq(cov@), n as nat) is None,
        },
{
    let mut i: usize = 0;
    while i < n
        invariant
            i <= n,
            n <= cov.len(),
            first_zero(nat_seq(cov@), i as nat) is None,
        decreases n - i,
    {
        if cov[i] == 0 {
            proof {
                assert(nat_seq(cov@)[i as int] == 0);
                lemma_first_zero_stable(nat_seq(cov@), (i + 1) as nat, n as nat, i as nat);
            }
            return Some(i);
        }
        i = i + 1;
    }
    None
}

/// Once a first zero is found, longer prefixes have the same first zero.
proof fn lemma_first_zero_stable(cov: Seq<nat>, m: nat, n: nat, g: nat)
    requires
        m <= n,
        first_zero(cov, m) == Some(g),
    ensures
        first_zero(cov, n) == Some(g),
    decreases n - m,
{
    if m < n {
        lemma_first_zero_stable(cov, m, (n - 1) as nat, g);
    }
}

/// The least coverage among blocks `lo..hi`.
fn range_min(cov: &Vec<usize>, lo: usize, hi: usize) -> (r: usize)
    requires
        lo < hi <= cov.len(),
    ensures
        r as nat == min_in(nat_seq(cov@), lo as nat, hi as nat),
{
    let mut m: usize = cov[lo];
    let mut i: usize = lo + 1;
    while i < hi
        invariant
            lo < i <= hi,
            hi <= cov.len(),
            m as nat == min_in(nat_seq(cov@), lo as nat, i as nat),
        decreases hi - i,
    {
        if cov[i] < m {
            m = cov[i];
        }
        i = i + 1;
    }
    m
}

/// Total coverage of the `t` blocks starting at `i`.
fn window_total(cov: &Vec<usize>, i: usize, t: usize) -> (r: u128)
    requires
        i + t <= cov.len(),
    ensures
        r as nat == window_sum(nat_seq(cov@), i as nat, t as nat),
{
    let mut acc: u128 = 0;
    let mut j: usize = 0;
    while j < t
        invariant
            j <= t,
            i + t <= cov.len(),
            acc as nat == window_sum(nat_seq(cov@), i as nat, j as nat),
            acc <= j * 0xffff_ffff_ffff_ffffu128,
        decreases t - j,
    {
        assert(cov[(i + j) as int] <= 0xffff_ffff_ffff_ffffu128);
        acc = acc + cov[i + j] as u128;
        j = j + 1;
    }
    acc
}

/// The first least-covered window among the `k` windows of `t` blocks.
fn best_window_exec(cov: &Vec<usize>, t: usize, k: usize) -> (r: usize)
    requires
        k >= 1,
        k - 1 + t <= cov.len(),
    ensures
        r as nat == best_window(nat_seq(cov@), t as nat, k as nat),
        r < k,
{
    let mut best: usize = 0;
    let mut best_sum: u128 = window_total(cov, 0, t);
    let mut i: usize = 1;
    while i < k
        invariant
            1 <= i <= k,
            k - 1 + t <= cov.len(),
            best < i,
            best as nat == best_window(nat_seq(cov@), t as nat, i as nat),
            best_sum as nat == window_sum(nat_seq(cov@), best as nat, t as nat),
        decreases k - i,
    {
        let s = window_total(cov, i, t);
        if s < best_sum {
            best = i;
            best_sum = s;
        }
        i = i + 1;
    }
    best
}


/// Decide whether this node should move its blocks to fill a gap.
///
/// Returns `Some((new_start, new_end))` when every block of our current
/// range is covered by at least `min_redundancy` other servers and some
/// block of the model is uncovered; the new range starts at the first
/// uncovered block and takes up to `target_blocks` blocks.  Returns `None`
/// when the node should keep its range.
pub fn check_rebalance(
    chain: &Vec<BlockServerEntry>,
    our_peer_id: &Vec<u8>,
    our_start: usize,
    our_end: usize,
    total_blocks: usize,
    target_blocks: usize,
    min_redundancy: usize,
) -> (r: Option<(usize, usize)>)
    requires
        chain_ranges_ordered(chain@, our_peer_id@, total_blocks as nat),
    ensures
        match r {
            Some((s, e)) => rebalance_spec(
                chain@,
                our_peer_id@,
                our_start as nat,
                our_end as nat,
                total_blocks as nat,
                target_blocks as nat,
                min_redundancy as nat,
            ) == Some((s as nat, e as nat)),
            None => rebalance_spec(
                chain@,
                our_peer_id@,
                our_start as nat,
                our_end as nat,
                total_blocks as nat,
                target_blocks as nat,
                min_redundancy as nat,
            ) is None,
        },
        forall|g: nat|
            total_blocks > 0 && our_start < our_end && (our_start < total_blocks || min_redundancy == 0)
                && (forall|b: int|
                our_start <= b < our_end && b < total_blocks ==> cover_count(chain@, our_peer_id@, b)
                    >= min_redundancy) && g < total_blocks && #[trigger] cover_count(
                chain@,
                our_peer_id@,
                g as int,
            ) == 0 && (forall|b: int| 0 <= b < g ==> cover_count(chain@, our_peer_id@, b) > 0)
                ==> r == Some(
                (g as usize, if g + target_blocks <= total_blocks {
                    (g + target_blocks) as usize
                } else {
                    total_blocks
                }),
            ),
{
    proof {
        assert forall|g: nat|
            total_blocks > 0 && our_start < our_end && (our_start < total_blocks || min_redundancy
                == 0) && (forall|b: int|
                our_start <= b < our_end && b < total_blocks ==> cover_count(chain@, our_peer_id@, b)
                    >= min_redundancy) && g < total_blocks && #[trigger] cover_count(
                chain@,
                our_peer_id@,
                g as int,
            ) == 0 && (forall|b: int| 0 <= b < g ==> cover_count(chain@, our_peer_id@, b)
                > 0) implies rebalance_spec(
            chain@,
            our_peer_id@,
            our_start as nat,
            our_end as nat,
            total_blocks as nat,
            target_blocks as nat,
            min_redundancy as nat,
        ) == Some(
            (g, if g + target_blocks <= total_blocks {
                (g + target_blocks) as nat
            } else {
                total_blocks as nat
            }),
        ) by {
            law_rebalance_fills_first_gap(
                chain@,
                our_peer_id@,
                our_start as nat,
                our_end as nat,
                total_blocks as nat,
                target_blocks as nat,
                min_redundancy as nat,
                g,
            );
        }
    }
    if total_blocks == 0 || our_start >= our_end {
        return None;
    }
    let cov = coverage(chain, our_peer_id, total_blocks);
    let ghost cs = coverage_spec(chain@, our_peer_id@, total_blocks as nat);
    assert(nat_seq(cov@) =~= cs);
    let lo = if our_start < total_blocks { our_start } else { total_blocks };
    let hi = if our_end < total_blocks { our_end } else { total_blocks };
    let ours = if lo < hi { range_min(&cov, lo, hi) } else { 0 };
    if ours < min_redundancy {
        return None;
    }
    match find_first_zero(&cov, total_blocks) {
        None => None,
        Some(g) => {
            proof {
                lemma_first_zero_bound(cs, total_blocks as nat);
            }
            let e = if target_blocks < total_blocks - g { g + target_blocks } else { total_blocks };
            Some((g, e))
        },
    }
}

/// Choose the block range a new or rebalancing node should serve: the first
/// block no other server covers, or, when every block is covered, the first
/// least-covered window of `min(target_blocks, total_blocks)` blocks.
/// Always returns an ordered range inside `0..total_blocks`.
pub fn pick_gap_from_chain(
    chain: &Vec<BlockServerEntry>,
    our_peer_id: &Vec<u8>,
    total_blocks: usize,
    target_blocks: usize,
) -> (r: (usize, usize))
    requires
        chain_ranges_ordered(chain@, our_peer_id@, total_blocks as nat),
        total_blocks < usize::MAX,
    ensures
        (r.0 as nat, r.1 as nat) == pick_gap_spec(
            chain@,
            our_peer_id@,
            total_blocks as nat,
            target_blocks as nat,
        ),
{
    if total_blocks == 0 {
        return (0, 0);
    }
    let target = if target_blocks < total_blocks { target_blocks } else { total_blocks };
    let cov = coverage(chain, our_peer_id, total_blocks);
    let ghost cs = coverage_spec(chain@, our_peer_id@, total_blocks as nat);
    assert(nat_seq(cov@) =~= cs);
    let min_cov = range_min(&cov, 0, total_blocks);
    let start = if min_cov == 0 {
        match find_first_zero(&cov, total_blocks) {
            Some(g) => g,
            None => 0,
        }
    } else {
        best_window_exec(&cov, target, total_blocks - target + 1)
    };
    proof {
        if min_cov == 0 {
            lemma_first_zero_bound(cs, total_blocks as nat);
        }
    }
    let end = if target < total_blocks - start { start + target } else { total_blocks };
    (start, end)
}

/// A first zero lies inside the range searched.
proof fn lemma_first_zero_bound(cov: Seq<nat>, n: nat)
    ensures
        first_zero(cov, n) matches Some(g) ==> g < n,
    decreases n,
{
    if n > 0 {
        lemma_first_zero_bound(cov, (n - 1) as nat);
    }
}


/// Some record of `chain` (ours included) claims block `b`.
pub open spec fn claimed(chain: Seq<BlockServerEntry>, b: int) -> bool {
    exists|i: int| 0 <= i < chain.len() && #[trigger] chain[i].start_block <= b < chain[i].end_block
}

/// Every record's range, clamped above to `total`, is ordered.
pub open spec fn ranges_clamp_ordered(chain: Seq<BlockServerEntry>, total: nat) -> bool {
    forall|i: int|
        0 <= i < chain.len() ==> #[trigger] chain[i].start_block <= min_nat(
            chain[i].end_block as nat,
            total,
        )
}

/// Per block of `0..total_blocks`, whether some record claims it.
pub fn claimed_map(chain: &Vec<BlockServerEntry>, total_blocks: usize) -> (r: Vec<bool>)
    requires
        ranges_clamp_ordered(chain@, total_blocks as nat),
    ensures
        r@.len() == total_blocks,
        forall|b: int| 0 <= b < total_blocks ==> (#[trigger] r@[b] <==> claimed(chain@, b)),
{
    let mut covered: Vec<bool> = Vec::new();
    let mut b: usize = 0;
    while b < total_blocks
        invariant
            b <= total_blocks,
            covered@.len() == b,
            forall|k: int| 0 <= k < b ==> !#[trigger] covered@[k],
        decreases total_blocks - b,
    {
        covered.push(false);
        b = b + 1;
    }
    let mut i: usize = 0;
    while i < chain.len()
        invariant
            i <= chain.len(),
            covered@.len() == total_blocks,
            ranges_clamp_ordered(chain@, total_blocks as nat),
            forall|k: int|
                0 <= k < total_blocks ==> (#[trigger] covered@[k] <==> claimed(
                    chain@.subrange(0, i as int),
                    k,
                )),
        decreases chain.len() - i,
    {
        let s = chain[i].start_block;
        let e = if chain[i].end_block < total_blocks { chain[i].end_block } else { total_blocks };
        assert(s <= e);
        let mut j: usize = s;
        while j < e
            invariant
                s <= j <= e,
                e <= total_blocks,
                covered@.len() == total_blocks,
                forall|k: int|
                    0 <= k < total_blocks ==> (#[trigger] covered@[k] <==> (claimed(
                        chain@.subrange(0, i as int),
                        k,
                    ) || (s <= k < j))),
            decreases e - j,
        {
            covered.set(j, true);
            j = j + 1;
        }
        proof {
            let pre = chain@.subrange(0, i as int);
            let nxt = chain@.subrange(0, i + 1);
            assert forall|k: int| 0 <= k < total_blocks implies (#[trigger] covered@[k] <==> claimed(
                nxt,
                k,
            )) by {
                if claimed(pre, k) {
                    let w = choose|w: int| 0 <= w < pre.len() && #[trigger] pre[w].start_block <= k
                        < pre[w].end_block;
                    assert(nxt[w] == pre[w]);
                }
                if claimed(nxt, k) {
                    let w = choose|w: int| 0 <= w < nxt.len() && #[trigger] nxt[w].start_block <= k
                        < nxt[w].end_block;
                    if w < i {
                        assert(pre[w] == nxt[w]);
                    }
                }
                if s <= k < e {
                    assert(nxt[i as int] == chain@[i as int]);
                }
            }
        }
        i = i + 1;
    }
    assert(chain@.subrange(0, chain@.len() as int) =~= chain@);
    covered
}

/// Whether the records of `chain`, taken together, claim every block in
/// `0..total_blocks`.
pub fn coverage_check(chain: &Vec<BlockServerEntry>, total_blocks: usize) -> (r: bool)
    requires
        ranges_clamp_ordered(chain@, total_blocks as nat),
    ensures
        r == forall|b: int| 0 <= b < total_blocks ==> claimed(chain@, b),
{
    let covered = claimed_map(chain, total_blocks);
    let mut k: usize = 0;
    while k < total_blocks
        invariant
            k <= total_blocks,
            covered@.len() == total_blocks,
            forall|m: int| 0 <= m < total_blocks ==> (#[trigger] covered@[m] <==> claimed(chain@, m)),
            forall|m: int| 0 <= m < k ==> claimed(chain@, m),
        decreases total_blocks - k,
    {
        if !covered[k] {
            return false;
        }
        k = k + 1;
    }
    true
}

/// The least number of other servers on any block of `0..total_blocks`
/// (zero for an empty model): above zero exactly when a joining node comes
/// in as a redundant server.
pub fn min_other_coverage(chain: &Vec<BlockServerEntry>, our_peer_id: &Vec<u8>, total_blocks: usize) -> (r: usize)
    requires
        chain_ranges_ordered(chain@, our_peer_id@, total_blocks as nat),
    ensures
        total_blocks == 0 ==> r == 0,
        total_blocks > 0 ==> r as nat == min_in(
            coverage_spec(chain@, our_peer_id@, total_blocks as nat),
            0,
            total_blocks as nat,
        ),
{
    if total_blocks == 0 {
        return 0;
    }
    let cov = coverage(chain, our_peer_id, total_blocks);
    assert(nat_seq(cov@) =~= coverage_spec(chain@, our_peer_id@, total_blocks as nat));
    range_min(&cov, 0, total_blocks)
}

/// What `first_zero` finds: the least uncovered block below `n`, or, when it
/// finds none, that every block below `n` is covered.
pub proof fn lemma_first_zero(cov: Seq<nat>, n: nat)
    requires
        n <= cov.len(),
    ensures
        first_zero(cov, n) matches Some(g) ==> g < n && cov[g as int] == 0 && forall|b: int|
            0 <= b < g ==> cov[b] != 0,
        first_zero(cov, n) is None ==> forall|b: int| 0 <= b < n ==> cov[b] != 0,
    decreases n,
{
    if n > 0 {
        lemma_first_zero(cov, (n - 1) as nat);
    }
}

/// `min_in` is a lower bound of the blocks `lo..hi`, and one of them attains it.
pub proof fn lemma_min_in(cov: Seq<nat>, lo: nat, hi: nat)
    requires
        lo < hi <= cov.len(),
    ensures
        forall|b: int| lo <= b < hi ==> min_in(cov, lo, hi) <= cov[b],
        exists|b: int| lo <= b < hi && min_in(cov, lo, hi) == cov[b],
    decreases hi,
{
    if hi > lo + 1 {
        lemma_min_in(cov, lo, (hi - 1) as nat);
        let w = choose|b: int| lo <= b < hi - 1 && min_in(cov, lo, (hi - 1) as nat) == cov[b];
        if min_in(cov, lo, hi) == cov[hi - 1] {
            assert(lo <= hi - 1 < hi && min_in(cov, lo, hi) == cov[hi - 1]);
        } else {
            assert(lo <= w < hi && min_in(cov, lo, hi) == cov[w]);
        }
    } else {
        assert(lo <= lo < hi && min_in(cov, lo, hi) == cov[lo as int]);
    }
}

/// `best_window` is the first of the windows `0..k` with the least total.
pub proof fn lemma_best_window(cov: Seq<nat>, t: nat, k: nat)
    requires
        k >= 1,
    ensures
        best_window(cov, t, k) < k,
        forall|j: nat| j < k ==> window_sum(cov, best_window(cov, t, k), t) <= #[trigger] window_sum(cov, j, t),
        forall|j: nat| j < best_window(cov, t, k) ==> window_sum(cov, best_window(cov, t, k), t) < #[trigger] window_sum(cov, j, t),
    decreases k,
{
    if k > 1 {
        lemma_best_window(cov, t, (k - 1) as nat);
    }
}

/// Records of our own peer add no coverage.
pub proof fn lemma_cover_count_ignores_self(
    chain: Seq<BlockServerEntry>,
    e: BlockServerEntry,
    our: Seq<u8>,
    b: int,
)
    requires
        e.peer_id@ == our,
    ensures
        cover_count(chain.push(e), our, b) == cover_count(chain, our, b),
{
    assert(chain.push(e).drop_last() =~= chain);
}

/// A stale record of our own peer never changes the decision: appending one
/// to the chain leaves both the rebalance decision and the chosen gap as
/// they were.
pub proof fn law_own_records_ignored(
    chain: Seq<BlockServerEntry>,
    e: BlockServerEntry,
    our: Seq<u8>,
    our_start: nat,
    our_end: nat,
    total: nat,
    target: nat,
    min_redundancy: nat,
)
    requires
        e.peer_id@ == our,
    ensures
        coverage_spec(chain.push(e), our, total) == coverage_spec(chain, our, total),
        rebalance_spec(chain.push(e), our, our_start, our_end, total, target, min_redundancy)
            == rebalance_spec(chain, our, our_start, our_end, total, target, min_redundancy),
        pick_gap_spec(chain.push(e), our, total, target) == pick_gap_spec(chain, our, total, target),
{
    assert forall|b: int| 0 <= b < total implies #[trigger] coverage_spec(chain.push(e), our, total)[b]
        == coverage_spec(chain, our, total)[b] by {
        lemma_cover_count_ignores_self(chain, e, our, b);
    }
    assert(coverage_spec(chain.push(e), our, total) =~= coverage_spec(chain, our, total));
}

/// A move is proposed only onto the first uncovered block, only when every
/// block of our current range is served by at least `min_redundancy` other
/// servers, and the new range stays inside the model and spans at most
/// `target` blocks.  No move is proposed when there is no gap, or when some
/// block of our range (inside the model) has fewer than `min_redundancy`
/// other servers.
pub proof fn law_rebalance_moves_to_first_gap(
    chain: Seq<BlockServerEntry>,
    our: Seq<u8>,
    our_start: nat,
    our_end: nat,
    total: nat,
    target: nat,
    min_redundancy: nat,
)
    ensures
        rebalance_spec(chain, our, our_start, our_end, total, target, min_redundancy) matches Some(
            (s, e),
        ) ==> {
            &&& s <= e <= total
            &&& s < total
            &&& e == min_nat(s + target, total)
            &&& cover_count(chain, our, s as int) == 0
            &&& forall|b: int| 0 <= b < s ==> cover_count(chain, our, b) > 0
            &&& forall|b: int|
                our_start <= b < our_end && b < total ==> cover_count(chain, our, b)
                    >= min_redundancy
        },
        (forall|b: int| 0 <= b < total ==> cover_count(chain, our, b) > 0) ==> rebalance_spec(
            chain,
            our,
            our_start,
            our_end,
            total,
            target,
            min_redundancy,
        ) is None,
        (exists|b: int|
            our_start <= b < our_end && b < total && cover_count(chain, our, b) < min_redundancy)
            ==> rebalance_spec(chain, our, our_start, our_end, total, target, min_redundancy) is None,
{
    if total > 0 && our_start < our_end {
        let cov = coverage_spec(chain, our, total);
        assert forall|b: int| 0 <= b < total implies cov[b] == cover_count(chain, our, b) by {}
        lemma_first_zero(cov, total);
        let lo = min_nat(our_start, total);
        let hi = min_nat(our_end, total);
        if lo < hi {
            lemma_min_in(cov, lo, hi);
            assert forall|b: int|
                our_start <= b < our_end && b < total && cover_count(chain, our, b)
                    < min_redundancy implies min_in(cov, lo, hi) < min_redundancy by {
                assert(min_in(cov, lo, hi) <= cov[b]);
            }
            if min_in(cov, lo, hi) >= min_redundancy {
                assert forall|b: int| our_start <= b < our_end && b < total implies cover_count(
                    chain,
                    our,
                    b,
                ) >= min_redundancy by {
                    assert(min_in(cov, lo, hi) <= cov[b]);
                }
            }
        }
        match first_zero(cov, total) {
            Some(g) => {
                assert(cov[g as int] == 0);
                assert forall|b: int| 0 <= b < g implies cover_count(chain, our, b) > 0 by {
                    assert(cov[b] != 0);
                }
            },
            None => {},
        }
    }
}

/// A node stays put when there is nothing to decide on (no blocks, or an
/// empty range of its own), and when its range lies wholly past the model
/// while some redundancy is asked for (no other server can be shown to
/// cover it).
pub proof fn law_rebalance_stays(
    chain: Seq<BlockServerEntry>,
    our: Seq<u8>,
    our_start: nat,
    our_end: nat,
    total: nat,
    target: nat,
    min_redundancy: nat,
)
    ensures
        total == 0 || our_start >= our_end ==> rebalance_spec(
            chain,
            our,
            our_start,
            our_end,
            total,
            target,
            min_redundancy,
        ) is None,
        our_start >= total && min_redundancy > 0 ==> rebalance_spec(
            chain,
            our,
            our_start,
            our_end,
            total,
            target,
            min_redundancy,
        ) is None,
{
}

/// A node moves to the first gap whenever it safely can: when the model has
/// blocks, our range is not empty, every block of our range inside the
/// model is covered by at least `min_redundancy` other servers (and our
/// range reaches into the model, unless no redundancy is asked for), and
/// block `g` is the first block no other server covers, the answer is to
/// serve `[g, min(g + target, total))`, wherever `g` lies.
pub proof fn law_rebalance_fills_first_gap(
    chain: Seq<BlockServerEntry>,
    our: Seq<u8>,
    our_start: nat,
    our_end: nat,
    total: nat,
    target: nat,
    min_redundancy: nat,
    g: nat,
)
    requires
        total > 0,
        our_start < our_end,
        our_start < total || min_redundancy == 0,
        forall|b: int| our_start <= b < our_end && b < total ==> cover_count(chain, our, b) >= min_redundancy,
        g < total,
        cover_count(chain, our, g as int) == 0,
        forall|b: int| 0 <= b < g ==> cover_count(chain, our, b) > 0,
    ensures
        rebalance_spec(chain, our, our_start, our_end, total, target, min_redundancy) == Some(
            (g, if g + target <= total { g + target } else { total }),
        ),
{
    let cov = coverage_spec(chain, our, total);
    assert forall|b: int| 0 <= b < total implies cov[b] == cover_count(chain, our, b) by {}
    lemma_first_zero(cov, total);
    assert(cov[g as int] == 0);
    match first_zero(cov, total) {
        Some(h) => {
            if h < g {
                assert(cov[h as int] != 0);
            } else if h > g {
                assert(cov[g as int] != 0);
            }
        },
        None => {
            assert(cov[g as int] != 0);
        },
    }
    let lo = min_nat(our_start, total);
    let hi = min_nat(our_end, total);
    if lo < hi {
        lemma_min_in(cov, lo, hi);
        let w = choose|b: int| lo <= b < hi && min_in(cov, lo, hi) == cov[b];
        assert(cover_count(chain, our, w) >= min_redundancy);
    }
}

/// The range chosen for a joining node is always ordered and inside the
/// model.  When some block is uncovered it starts at the first such block;
/// otherwise it is a window of `min(target, total)` blocks whose total
/// coverage is no more than that of any other such window, and strictly less
/// than that of every window starting earlier.
pub proof fn law_pick_gap_choice(chain: Seq<BlockServerEntry>, our: Seq<u8>, total: nat, target: nat)
    ensures
        pick_gap_spec(chain, our, total, target).0 <= pick_gap_spec(chain, our, total, target).1
            <= total,
        total > 0 ==> pick_gap_spec(chain, our, total, target).0 < total || target == 0,
        total == 0 ==> pick_gap_spec(chain, our, total, target) == (0nat, 0nat),
        total > 0 ==> pick_gap_spec(chain, our, total, target).1 == min_nat(
            pick_gap_spec(chain, our, total, target).0 + min_nat(target, total),
            total,
        ),
        ({
            let (s, e) = pick_gap_spec(chain, our, total, target);
            let cov = coverage_spec(chain, our, total);
            let t = min_nat(target, total);
            total > 0 ==> if exists|b: int| 0 <= b < total && cover_count(chain, our, b) == 0 {
                &&& cover_count(chain, our, s as int) == 0
                &&& forall|b: int| 0 <= b < s ==> cover_count(chain, our, b) > 0
            } else {
                &&& e == s + t
                &&& s + t <= total
                &&& forall|j: nat|
                    j + t <= total ==> window_sum(cov, s, t) <= #[trigger] window_sum(cov, j, t)
                &&& forall|j: nat| j < s ==> window_sum(cov, s, t) < #[trigger] window_sum(cov, j, t)
            }
        }),
{
    if total > 0 {
        let cov = coverage_spec(chain, our, total);
        let t = min_nat(target, total);
        lemma_first_zero(cov, total);
        lemma_min_in(cov, 0, total);
        assert forall|b: int| 0 <= b < total implies cov[b] == cover_count(chain, our, b) by {}
        let k = (total - t + 1) as nat;
        lemma_best_window(cov, t, k);
        if exists|b: int| 0 <= b < total && cover_count(chain, our, b) == 0 {
            let w = choose|b: int| 0 <= b < total && cover_count(chain, our, b) == 0;
            assert(cov[w] == 0);
            assert(min_in(cov, 0, total) <= cov[w]);
            let g = first_zero(cov, total)->Some_0;
            assert forall|b: int| 0 <= b < g implies cover_count(chain, our, b) > 0 by {
                assert(cov[b] != 0);
            }
        } else {
            let w = choose|b: int| 0 <= b < total && min_in(cov, 0, total) == cov[b];
            assert(cov[w] != 0);
            assert forall|j: nat| j + t <= total implies window_sum(
                cov,
                best_window(cov, t, k),
                t,
            ) <= #[trigger] window_sum(cov, j, t) by {
                assert(j < k);
            }
        }
    }
}

} // verus!
