//! Decisions of the distributed-inference commands: which block range a
//! shard server takes, which servers a request is routed through, and how
//! the discovered chain is filtered and summarised.

use vstd::prelude::*;

use crate::cli::ShardServeArgs;
use crate::parse::{contains_lit, has_infix};
use crate::rebalancer::BlockServerEntry;
use crate::text::{chars_of, string_of};

verus! {

/// How a shard server chooses its blocks.
#[derive(Debug, PartialEq, Eq)]
pub enum ServeRange {
    /// Ask the DHT for the first gap and take `target` blocks from there.
    AutoGap { target: usize },
    /// Serve `[start, end)`; `save` when the stored start or block count
    /// must change to match.
    Fixed { start: usize, end: usize, save: bool },
}

/// Whether `shard serve` looks for a gap itself: unless `--no-auto`, when
/// `--auto` is given or no `--start-block` is.
pub open spec fn uses_auto_gap(args: ShardServeArgs) -> bool {
    !args.no_auto && (args.auto || args.start_block is None)
}

/// The block range `shard serve` takes for its options, the stored start
/// block and block count, and the model's block count `total`.  A fixed
/// range starts at `--start-block` (else the stored start) and takes
/// `--blocks` (else the stored count) blocks, cut at `total`.
pub fn plan_serve_range(args: &ShardServeArgs, cfg_start: u32, cfg_blocks: u32, total: usize) -> (r:
    ServeRange)
    requires
        !uses_auto_gap(*args) ==> (match args.start_block {
            Some(s) => s,
            None => cfg_start,
        }) <= total,
    ensures
        ({
            let target: int = match args.blocks {
                Some(b) => b as int,
                None => cfg_blocks as int,
            };
            let s: int = match args.start_block {
                Some(x) => x as int,
                None => cfg_start as int,
            };
            let e: int = if s + target <= total {
                s + target
            } else {
                total as int
            };
            if uses_auto_gap(*args) {
                r == ServeRange::AutoGap { target: target as usize }
            } else {
                r == ServeRange::Fixed {
                    start: s as usize,
                    end: e as usize,
                    save: s != cfg_start || e - s != cfg_blocks,
                }
            }
        }),
{
    let target: usize = match args.blocks {
        Some(b) => b as usize,
        None => cfg_blocks as usize,
    };
    if !args.no_auto && (args.auto || args.start_block.is_none()) {
        return ServeRange::AutoGap { target };
    }
    let s32: u32 = match args.start_block {
        Some(x) => x,
        None => cfg_start,
    };
    let s = s32 as usize;
    let e: usize = if target <= total - s { s + target } else { total };
    let blocks = e - s;
    let save = s32 != cfg_start || blocks != cfg_blocks as usize;
    ServeRange::Fixed { start: s, end: e, save }
}

/// Whether a node serving `[start, end)` of a `total`-block model holds the
/// first block (and so the embeddings) and the last one (the head).
pub fn serves_model_ends(start: usize, end: usize, total: usize) -> (r: (bool, bool))
    ensures
        r.0 == (start == 0),
        r.1 == (end >= total),
{
    (start == 0, end >= total)
}

/// Seconds a rebalancer waits before its first check: the last byte of the
/// node's peer id modulo 60 (0 without a peer id), so that nodes with the
/// same interval do not all check at once.
pub fn rebalance_jitter_secs(peer_id: &Vec<u8>) -> (r: u64)
    ensures
        r == if peer_id@.len() == 0 {
            0
        } else {
            (peer_id@.last() % 60) as u64
        },
        r < 60,
{
    if peer_id.len() == 0 {
        0
    } else {
        (peer_id[peer_id.len() - 1] % 60) as u64
    }
}

/// Seconds between rebalance checks: the configured interval, at least 10.
pub fn rebalance_tick_secs(interval_secs: u64) -> (r: u64)
    ensures
        r == if interval_secs < 10 {
            10
        } else {
            interval_secs
        },
{
    if interval_secs < 10 {
        10
    } else {
        interval_secs
    }
}

/// The positions of the first `n` servers whose public name contains
/// `filter`, in chain order.
pub open spec fn name_matches(chain: Seq<BlockServerEntry>, filter: Seq<char>, n: nat) -> Seq<usize>
    decreases n,
{
    if n == 0 {
        Seq::empty()
    } else {
        let prev = name_matches(chain, filter, (n - 1) as nat);
        if has_infix(chain[n - 1].public_name@, filter) {
            prev.push((n - 1) as usize)
        } else {
            prev
        }
    }
}

/// The positions of the servers whose public name contains `filter`, in
/// chain order (`--name-filter`).
pub fn filter_chain_by_name(chain: &Vec<BlockServerEntry>, filter: &str) -> (r: Vec<usize>)
    ensures
        r@ == name_matches(chain@, filter@, chain@.len()),
{
    let mut r: Vec<usize> = Vec::new();
    let mut i: usize = 0;
    while i < chain.len()
        invariant
            i <= chain.len(),
            r@ == name_matches(chain@, filter@, i as nat),
        decreases chain.len() - i,
    {
        let name = chars_of(chain[i].public_name.as_str());
        if contains_lit(&name, filter) {
            r.push(i);
        }
        i = i + 1;
    }
    r
}

/// Server `a` is tried before server `b`: it reaches further, or as far and
/// comes first in the chain.
pub open spec fn tried_before(chain: Seq<BlockServerEntry>, a: int, b: int) -> bool {
    chain[a].end_block > chain[b].end_block || (chain[a].end_block == chain[b].end_block && a < b)
}

/// Server `i` serves block `pos`.
pub open spec fn serves_block(chain: Seq<BlockServerEntry>, i: int, pos: int) -> bool {
    chain[i].start_block <= pos < chain[i].end_block
}

/// The servers to try for block `pos`, in order: every server whose range
/// holds the block, the one reaching furthest first, ties in chain order.
pub fn candidates_at(chain: &Vec<BlockServerEntry>, pos: usize) -> (r: Vec<usize>)
    ensures
        forall|k: int| 0 <= k < r@.len() ==> (r@[k] as int) < chain@.len() && serves_block(
            chain@,
            r@[k] as int,
            pos as int,
        ),
        forall|i: int|
            0 <= i < chain@.len() && serves_block(chain@, i, pos as int) ==> r@.contains(i as usize),
        forall|k: int, m: int| 0 <= k < m < r@.len() ==> tried_before(chain@, r@[k] as int, r@[m] as int),
{
    let mut r: Vec<usize> = Vec::new();
    let mut i: usize = 0;
    while i < chain.len()
        invariant
            i <= chain.len(),
            forall|k: int| 0 <= k < r@.len() ==> (r@[k] as int) < i && serves_block(
                chain@,
                r@[k] as int,
                pos as int,
            ),
            forall|j: int| 0 <= j < i && serves_block(chain@, j, pos as int) ==> r@.contains(j as usize),
            forall|k: int, m: int| 0 <= k < m < r@.len() ==> tried_before(chain@, r@[k] as int, r@[m] as int),
        decreases chain.len() - i,
    {
        if chain[i].start_block <= pos && pos < chain[i].end_block {
            // Insert `i` after every candidate that reaches at least as far.
            let end_i = chain[i].end_block;
            let mut at: usize = 0;
            while at < r.len() && chain[r[at]].end_block >= end_i
                invariant
                    at <= r.len(),
                    forall|k: int| 0 <= k < r@.len() ==> (r@[k] as int) < i,
                    forall|k: int| 0 <= k < at ==> chain@[r@[k] as int].end_block >= end_i,
                    forall|k: int| 0 <= k < r@.len() ==> (r@[k] as int) < chain@.len(),
                decreases r.len() - at,
            {
                at = at + 1;
            }
            let ghost before = r@;
            r.insert(at, i);
            proof {
                assert(r@ =~= before.subrange(0, at as int).push(i) + before.subrange(at as int, before.len() as int));
                assert forall|k: int, m: int| 0 <= k < m < r@.len() implies tried_before(chain@, r@[k] as int, r@[m] as int) by {
                    if m < at {
                        assert(r@[k] == before[k] && r@[m] == before[m]);
                    } else if m == at {
                        assert(r@[k] == before[k]);
                    } else if k == at {
                        assert(r@[m] == before[m - 1]);
                        if m - 1 >= at && (at as int) < before.len() {
                            // the first candidate left behind reaches less far
                            assert(!(chain@[before[at as int] as int].end_block >= end_i) || at == before.len());
                            assert(tried_before(chain@, before[at as int] as int, before[m - 1] as int) || m - 1 == at);
                        }
                    } else if k < at {
                        assert(r@[k] == before[k] && r@[m] == before[m - 1]);
                    } else {
                        assert(r@[k] == before[k - 1] && r@[m] == before[m - 1]);
                    }
                }
                assert forall|j: int| 0 <= j <= i && serves_block(chain@, j, pos as int) implies r@.contains(j as usize) by {
                    if j == i {
                        assert(r@[at as int] == i);
                    } else {
                        let k = choose|k: int| 0 <= k < before.len() && before[k] == j as usize;
                        if k < at {
                            assert(r@[k] == before[k]);
                        } else {
                            assert(r@[k + 1] == before[k]);
                        }
                    }
                }
                assert forall|k: int| 0 <= k < r@.len() implies (r@[k] as int) < i + 1 && serves_block(
                    chain@,
                    r@[k] as int,
                    pos as int,
                ) by {
                    if k < at {
                        assert(r@[k] == before[k]);
                    } else if k > at {
                        assert(r@[k] == before[k - 1]);
                    }
                }
            }
        }
        i = i + 1;
    }
    r
}

/// The first 16 characters of a base58 peer id, with `…` when it is
/// longer.
pub fn peer_short(b58: &str) -> (r: String)
    ensures
        r@ == if b58@.len() > 16 {
            b58@.take(16).push('…')
        } else {
            b58@
        },
{
    let c = chars_of(b58);
    if c.len() > 16 {
        let mut t = crate::parse::sub_chars(&c, 0, 16);
        t.push('…');
        string_of(&t)
    } else {
        string_of(&c)
    }
}

/// How many blocks are claimed.
pub open spec fn count_true(v: Seq<bool>) -> nat
    decreases v.len(),
{
    if v.len() == 0 {
        0
    } else {
        count_true(v.drop_last()) + if v.last() {
            1nat
        } else {
            0nat
        }
    }
}

/// The number of `true` entries.
pub fn count_claimed(v: &Vec<bool>) -> (r: usize)
    ensures
        r as nat == count_true(v@),
        r <= v@.len(),
{
    let mut n: usize = 0;
    let mut i: usize = 0;
    while i < v.len()
        invariant
            i <= v.len(),
            n as nat == count_true(v@.take(i as int)),
            n <= i,
        decreases v.len() - i,
    {
        assert(v@.take(i + 1).drop_last() =~= v@.take(i as int));
        if v[i] {
            n = n + 1;
        }
        i = i + 1;
    }
    assert(v@.take(v@.len() as int) =~= v@);
    n
}

/// The coverage bar: `█` for a claimed block, `░` for a gap.
pub fn coverage_bar(v: &Vec<bool>) -> (r: String)
    ensures
        r@ == v@.map_values(|c: bool| if c { '█' } else { '░' }),
{
    let mut s: Vec<char> = Vec::new();
    let mut i: usize = 0;
    while i < v.len()
        invariant
            i <= v.len(),
            s@ =~= v@.take(i as int).map_values(|c: bool| if c { '█' } else { '░' }),
        decreases v.len() - i,
    {
        s.push(if v[i] { '█' } else { '░' });
        i = i + 1;
    }
    assert(v@.take(v@.len() as int) =~= v@);
    string_of(&s)
}

/// Whether generation stops after producing `next_id`: at the end-of-text
/// token, or once `max_tokens` tokens were generated.
pub fn generation_done(next_id: u32, eos_id: u32, generated: usize, max_tokens: usize) -> (r: bool)
    ensures
        r == (next_id == eos_id || generated >= max_tokens),
{
    next_id == eos_id || generated >= max_tokens
}

/// Where a forward pass through the chain stands: the next block to run,
/// the servers to try for it (from `candidates_at`), how many of them have
/// failed, and whether some server has answered.
pub struct ForwardState {
    pub pos: usize,
    pub candidates: Vec<usize>,
    pub tried: usize,
    pub answered: bool,
}

/// What the forward pass does next.
#[derive(Debug, PartialEq, Eq)]
pub enum ForwardAction {
    /// Send the activations to this server of the chain.
    Call(usize),
    /// Every block has run; the last answer is the result.
    Finished,
    /// There were no blocks to run, so there is no answer.
    EmptyChain,
    /// No server covers this block.
    Gap(usize),
    /// Every server covering block `pos` failed.
    AllFailed { count: usize, pos: usize },
}

/// The candidates of a state are those `candidates_at` gives for its block.
pub open spec fn candidates_for(chain: Seq<BlockServerEntry>, pos: int, r: Seq<usize>) -> bool {
    &&& forall|k: int| 0 <= k < r.len() ==> (r[k] as int) < chain.len() && serves_block(chain, r[k] as int, pos)
    &&& forall|i: int| 0 <= i < chain.len() && serves_block(chain, i, pos) ==> r.contains(i as usize)
    &&& forall|k: int, m: int| 0 <= k < m < r.len() ==> tried_before(chain, r[k] as int, r[m] as int)
}

/// A pass state is sound for `chain` and `total` blocks: no more servers
/// were tried than there are candidates, every candidate is a server of
/// the chain, and the candidates are those of the current block (none once
/// the pass is past the last block).
pub open spec fn pass_sound(chain: Seq<BlockServerEntry>, total: int, s: ForwardState) -> bool {
    &&& s.tried <= s.candidates@.len()
    &&& forall|k: int| 0 <= k < s.candidates@.len() ==> (s.candidates@[k] as int) < chain.len()
    &&& s.pos < total ==> candidates_for(chain, s.pos as int, s.candidates@)
    &&& s.pos >= total ==> s.candidates@.len() == 0
}

/// One step moves a pass forward: to a later block, or to the next server
/// for the same block.
pub open spec fn pass_advanced(before: ForwardState, after: ForwardState) -> bool {
    ||| after.pos > before.pos
    ||| (after.pos == before.pos && after.candidates@ == before.candidates@ && after.tried
        > before.tried)
}

/// The start of a pass over `total_blocks` blocks: block 0 and its servers.
pub fn forward_start(chain: &Vec<BlockServerEntry>, total_blocks: usize) -> (r: ForwardState)
    ensures
        r.pos == 0,
        r.tried == 0,
        !r.answered,
        total_blocks > 0 ==> candidates_for(chain@, 0, r.candidates@),
        total_blocks == 0 ==> r.candidates@.len() == 0,
        pass_sound(chain@, total_blocks as int, r),
{
    let candidates = if total_blocks > 0 {
        candidates_at(chain, 0)
    } else {
        Vec::new()
    };
    ForwardState { pos: 0, candidates, tried: 0, answered: false }
}

/// The next step of a pass: done once the position passes the last block
/// (with an answer, or none when there were no blocks), else the next
/// untried server for the block, a gap when none covers it, or the failure
/// of all of them.
pub fn forward_action(state: &ForwardState, total_blocks: usize) -> (r: ForwardAction)
    ensures
        r == if state.pos >= total_blocks {
            if state.answered {
                ForwardAction::Finished
            } else {
                ForwardAction::EmptyChain
            }
        } else if state.candidates@.len() == 0 {
            ForwardAction::Gap(state.pos)
        } else if state.tried < state.candidates@.len() {
            ForwardAction::Call(state.candidates@[state.tried as int])
        } else {
            ForwardAction::AllFailed { count: state.candidates@.len() as usize, pos: state.pos }
        },
{
    if state.pos >= total_blocks {
        if state.answered {
            ForwardAction::Finished
        } else {
            ForwardAction::EmptyChain
        }
    } else if state.candidates.len() == 0 {
        ForwardAction::Gap(state.pos)
    } else if state.tried < state.candidates.len() {
        ForwardAction::Call(state.candidates[state.tried])
    } else {
        ForwardAction::AllFailed { count: state.candidates.len(), pos: state.pos }
    }
}

/// The state after the server called answered (`ok`) or failed: an answer
/// moves the pass to the end of that server's range, with the servers of
/// the new block if any remain; a failure moves on to the next candidate.
pub fn forward_event(
    chain: &Vec<BlockServerEntry>,
    state: ForwardState,
    total_blocks: usize,
    ok: bool,
) -> (r: ForwardState)
    requires
        state.tried < state.candidates@.len(),
        forall|k: int| 0 <= k < state.candidates@.len() ==> (state.candidates@[k] as int) < chain@.len(),
    ensures
        ok ==> {
            let c = state.candidates@[state.tried as int] as int;
            &&& r.pos == chain@[c].end_block
            &&& r.tried == 0
            &&& r.answered
            &&& r.pos < total_blocks ==> candidates_for(chain@, r.pos as int, r.candidates@)
            &&& r.pos >= total_blocks ==> r.candidates@.len() == 0
        },
        !ok ==> r.pos == state.pos && r.candidates@ == state.candidates@ && r.tried == state.tried + 1
            && r.answered == state.answered,
        ok && candidates_for(chain@, state.pos as int, state.candidates@) ==> r.pos > state.pos,
        pass_sound(chain@, total_blocks as int, state) ==> pass_sound(chain@, total_blocks as int, r)
            && pass_advanced(state, r),
{
    if ok {
        let c = state.candidates[state.tried];
        let pos = chain[c].end_block;
        let candidates = if pos < total_blocks {
            candidates_at(chain, pos)
        } else {
            Vec::new()
        };
        ForwardState { pos, candidates, tried: 0, answered: true }
    } else {
        let n = state.candidates.len();
        assert(state.tried < n);
        ForwardState { tried: state.tried + 1, ..state }
    }
}

/// Along a pass whose every step advances (as `forward_event` does from a
/// sound state), a later state is at a later block, or at the same block
/// with the same candidates and more of them tried: no block is visited
/// twice, and at one block no server is asked twice, so the pass ends.
pub proof fn law_pass_moves_forward(states: Seq<ForwardState>)
    requires
        forall|i: int| 0 <= i < states.len() - 1 ==> #[trigger] pass_advanced(states[i], states[i + 1]),
    ensures
        forall|i: int, j: int|
            0 <= i < j < states.len() ==> #[trigger] pass_advanced(states[i], states[j]),
{
    assert forall|i: int, j: int| 0 <= i < j < states.len() implies #[trigger] pass_advanced(
        states[i],
        states[j],
    ) by {
        lemma_pass_advanced_chain(states, i, j);
    }
}

/// Advancing is transitive along a pass.
proof fn lemma_pass_advanced_chain(states: Seq<ForwardState>, i: int, j: int)
    requires
        forall|k: int| 0 <= k < states.len() - 1 ==> #[trigger] pass_advanced(states[k], states[k + 1]),
        0 <= i < j < states.len(),
    ensures
        pass_advanced(states[i], states[j]),
    decreases j - i,
{
    assert(pass_advanced(states[j - 1], states[j - 1 + 1]));
    if i < j - 1 {
        lemma_pass_advanced_chain(states, i, j - 1);
    }
}

} // verus!
