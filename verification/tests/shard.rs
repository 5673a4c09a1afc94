use kwaainet::shard::{forward_action, forward_event, forward_start, ForwardAction};
use kwaainet::cli::ShardServeArgs;
use kwaainet::rebalancer::BlockServerEntry;
use kwaainet::shard::{
    candidates_at, count_claimed, coverage_bar, filter_chain_by_name, generation_done, peer_short,
    plan_serve_range, rebalance_jitter_secs, rebalance_tick_secs, serves_model_ends, ServeRange,
};
use kwaainet::rebalancer::claimed_map;

fn args(start: Option<u32>, blocks: Option<u32>, auto: bool, no_auto: bool) -> ShardServeArgs {
    ShardServeArgs {
        model_path: None,
        start_block: start,
        blocks,
        no_gpu: false,
        auto,
        no_auto,
        auto_rebalance: false,
    }
}

fn entry(start: usize, end: usize, name: &str) -> BlockServerEntry {
    BlockServerEntry { peer_id: vec![start as u8], start_block: start, end_block: end, public_name: name.to_string() }
}

#[test]
fn serve_range_plans() {
    assert_eq!(plan_serve_range(&args(None, None, false, false), 0, 8, 32), ServeRange::AutoGap { target: 8 });
    assert_eq!(plan_serve_range(&args(Some(4), Some(6), true, false), 0, 8, 32), ServeRange::AutoGap { target: 6 });
    assert_eq!(
        plan_serve_range(&args(Some(28), None, false, false), 0, 8, 32),
        ServeRange::Fixed { start: 28, end: 32, save: true }
    );
    assert_eq!(
        plan_serve_range(&args(None, None, false, true), 4, 8, 32),
        ServeRange::Fixed { start: 4, end: 12, save: false }
    );
    assert_eq!(serves_model_ends(0, 8, 32), (true, false));
    assert_eq!(serves_model_ends(24, 32, 32), (false, true));
}

#[test]
fn rebalance_timing() {
    assert_eq!(rebalance_jitter_secs(&vec![1, 2, 125]), 5);
    assert_eq!(rebalance_jitter_secs(&vec![]), 0);
    assert_eq!(rebalance_tick_secs(3), 10);
    assert_eq!(rebalance_tick_secs(300), 300);
}

#[test]
fn widest_candidate_first() {
    let chain = vec![entry(0, 8, "a"), entry(0, 16, "b"), entry(4, 16, "c"), entry(8, 32, "d")];
    assert_eq!(candidates_at(&chain, 4), vec![1, 2, 0]);
    assert_eq!(candidates_at(&chain, 8), vec![3, 1, 2]);
    assert_eq!(candidates_at(&chain, 40), Vec::<usize>::new());
}

#[test]
fn name_filter_and_summaries() {
    let chain = vec![entry(0, 8, "node-v0.2.3"), entry(8, 16, "other"), entry(16, 32, "x-v0.2.3")];
    assert_eq!(filter_chain_by_name(&chain, "v0.2.3"), vec![0, 2]);
    assert_eq!(filter_chain_by_name(&chain, ""), vec![0, 1, 2]);
    let two = vec![entry(0, 8, "node-v0.2.3"), entry(8, 16, "other")];
    let map = claimed_map(&two, 20);
    assert_eq!(count_claimed(&map), 16);
    assert_eq!(coverage_bar(&vec![true, false, true]), "█░█");
    assert_eq!(peer_short("12D3KooWabcdefghijklmnop"), "12D3KooWabcdefgh…");
    assert_eq!(peer_short("short"), "short");
    assert!(generation_done(2, 2, 1, 100));
    assert!(generation_done(5, 2, 100, 100));
    assert!(!generation_done(5, 2, 99, 100));
}

#[test]
fn forward_pass_walks_the_chain() {
    let e = |s: usize, t: usize| kwaainet::rebalancer::BlockServerEntry {
        peer_id: vec![],
        start_block: s,
        end_block: t,
        public_name: String::new(),
    };
    let chain = vec![e(0, 16), e(0, 8), e(16, 32)];
    let st = forward_start(&chain, 32);
    assert_eq!(forward_action(&st, 32), ForwardAction::Call(0));
    let st = forward_event(&chain, st, 32, false);
    assert_eq!(forward_action(&st, 32), ForwardAction::Call(1));
    let st = forward_event(&chain, st, 32, true);
    assert_eq!(st.pos, 8);
    assert_eq!(forward_action(&st, 32), ForwardAction::Call(0));
    let st = forward_event(&chain, st, 32, true);
    assert_eq!(forward_action(&st, 32), ForwardAction::Call(2));
    assert_eq!(st.pos, 16);
    let st = forward_start(&chain, 32);
    let st = forward_event(&chain, st, 32, true);
    let st = forward_event(&chain, st, 32, true);
    assert_eq!(forward_action(&st, 32), ForwardAction::Finished);
    assert_eq!(forward_action(&forward_start(&chain, 0), 0), ForwardAction::EmptyChain);
    let gap = vec![e(0, 8)];
    let st = forward_event(&gap, forward_start(&gap, 16), 16, true);
    assert_eq!(forward_action(&st, 16), ForwardAction::Gap(8));
    let st = forward_event(&gap, forward_start(&gap, 16), 16, false);
    assert_eq!(forward_action(&st, 16), ForwardAction::AllFailed { count: 1, pos: 0 });
}
