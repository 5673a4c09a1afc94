use kwaainet::rebalancer::{check_rebalance, pick_gap_from_chain, BlockServerEntry};

/// A deterministic peer id for a small integer seed: `fake_peer(n)` always
/// returns the same bytes, and `fake_peer(a) != fake_peer(b)` for `a != b`.
fn fake_peer(n: u8) -> Vec<u8> {
    let mut id = vec![0x00, 0x24, 0x08, 0x01, 0x12, 0x20];
    id.extend(std::iter::repeat(n).take(32));
    id
}

fn make_entry(peer: Vec<u8>, start: usize, end: usize) -> BlockServerEntry {
    BlockServerEntry {
        peer_id: peer,
        start_block: start,
        end_block: end,
        public_name: format!("node-{}", start),
    }
}

/// Single node — no other coverage; moving would create a gap.
#[test]
fn no_rebalance_when_alone() {
    let our_peer = fake_peer(1);
    let chain = vec![make_entry(our_peer.clone(), 0, 8)];
    let result = check_rebalance(&chain, &our_peer, 0, 8, 32, 8, 2);
    assert_eq!(result, None, "Should not rebalance when alone");
}

/// All blocks covered ≥ min_redundancy by other nodes — but no gaps exist.
#[test]
fn no_rebalance_when_full_coverage() {
    let our_peer = fake_peer(1);
    let peer_b = fake_peer(2);
    let peer_c = fake_peer(3);
    let chain = vec![
        make_entry(our_peer.clone(), 0, 8),
        make_entry(peer_b.clone(), 0, 32),
        make_entry(peer_c.clone(), 0, 32),
    ];
    let result = check_rebalance(&chain, &our_peer, 0, 8, 32, 8, 2);
    assert_eq!(result, None, "No gap → no rebalance");
}

/// Our range is covered ≥ 2× by others, and there is a gap at block 8.
#[test]
fn rebalance_when_gap_and_redundant() {
    let our_peer = fake_peer(1);
    let peer_b = fake_peer(2);
    let peer_c = fake_peer(3);
    let chain = vec![
        make_entry(our_peer.clone(), 0, 8),
        make_entry(peer_b.clone(), 0, 8),
        make_entry(peer_c.clone(), 0, 8),
    ];
    let result = check_rebalance(&chain, &our_peer, 0, 8, 32, 8, 2);
    assert_eq!(result, Some((8, 16)), "Should move to fill gap at 8");
}

/// Gap exists but we are the sole coverage of our range — must not move.
#[test]
fn no_rebalance_when_gap_but_not_redundant() {
    let our_peer = fake_peer(1);
    let peer_b = fake_peer(2);
    let chain = vec![
        make_entry(our_peer.clone(), 0, 8),
        make_entry(peer_b.clone(), 8, 32),
    ];
    let result = check_rebalance(&chain, &our_peer, 0, 8, 32, 8, 2);
    assert_eq!(result, None, "Only coverage of our range — must not move");
}

/// Multiple gaps — rebalancer picks the lowest (first uncovered) block.
#[test]
fn rebalance_picks_lowest_gap() {
    let our_peer = fake_peer(1);
    let peer_b = fake_peer(2);
    let peer_c = fake_peer(3);
    let chain = vec![
        make_entry(our_peer.clone(), 0, 8),
        make_entry(peer_b.clone(), 0, 8),
        make_entry(peer_b.clone(), 16, 24),
        make_entry(peer_c.clone(), 0, 8),
        make_entry(peer_c.clone(), 16, 24),
    ];
    let result = check_rebalance(&chain, &our_peer, 0, 8, 32, 8, 2);
    assert_eq!(result, Some((8, 16)), "Should pick the lowest gap first");
}

/// Empty chain — first gap is at block 0.
#[test]
fn gap_from_chain_never_panics_on_empty_chain() {
    let our_peer = fake_peer(1);
    let result = pick_gap_from_chain(&vec![], &our_peer, 32, 8);
    assert_eq!(result, (0, 8), "Empty chain → start at block 0");
}

/// Chain covers [0,16); gap starts at 16.
#[test]
fn gap_from_chain_finds_genuine_gap() {
    let our_peer = fake_peer(1);
    let peer_b = fake_peer(2);
    let chain = vec![make_entry(peer_b.clone(), 0, 16)];
    let result = pick_gap_from_chain(&chain, &our_peer, 32, 8);
    assert_eq!(result, (16, 24), "Should pick the first uncovered block");
}

/// Network fully covered — join the least-covered window.
#[test]
fn gap_from_chain_joins_least_covered_when_full() {
    let our_peer = fake_peer(1);
    let peer_b = fake_peer(2);
    let peer_c = fake_peer(3);
    // Coverage: [0,8)=2, [8,16)=1, [16,32)=2.
    let chain = vec![
        make_entry(peer_b.clone(), 0, 32),
        make_entry(peer_c.clone(), 0, 8),
        make_entry(peer_c.clone(), 16, 32),
    ];
    let result = pick_gap_from_chain(&chain, &our_peer, 32, 8);
    assert_eq!(result, (8, 16), "Should join least-covered window");
}

/// Our stale DHT entry must not count as coverage when choosing a gap.
#[test]
fn gap_from_chain_excludes_self() {
    let our_peer = fake_peer(1);
    let chain = vec![make_entry(our_peer.clone(), 0, 32)];
    let result = pick_gap_from_chain(&chain, &our_peer, 32, 8);
    assert_eq!(result, (0, 8), "Stale self entry must not count as coverage");
}

// ── Further checks of the placement logic ────────────────────────────────────

use kwaainet::rebalancer::{coverage_check, min_other_coverage};

#[test]
fn rebalance_range_is_cut_at_model_end() {
    let our_peer = fake_peer(1);
    let chain = vec![
        make_entry(our_peer.clone(), 0, 4),
        make_entry(fake_peer(2), 0, 30),
    ];
    // Gap at 30; target 8 is cut to the model's 32 blocks.
    assert_eq!(check_rebalance(&chain, &our_peer, 0, 4, 32, 8, 1), Some((30, 32)));
    // Our range outside the model and redundancy 0: still moves to the gap.
    assert_eq!(check_rebalance(&chain, &our_peer, 40, 50, 32, 8, 0), Some((30, 32)));
    assert_eq!(check_rebalance(&chain, &our_peer, 40, 50, 32, 8, 1), None);
    assert_eq!(check_rebalance(&chain, &our_peer, 4, 4, 32, 8, 0), None);
    assert_eq!(check_rebalance(&chain, &our_peer, 0, 4, 0, 8, 0), None);
}

#[test]
fn own_stale_records_never_change_the_choice() {
    let our_peer = fake_peer(1);
    let base = vec![
        make_entry(fake_peer(2), 0, 16),
        make_entry(fake_peer(3), 0, 8),
    ];
    let with_self = vec![
        make_entry(fake_peer(2), 0, 16),
        make_entry(fake_peer(3), 0, 8),
        make_entry(our_peer.clone(), 0, 32),
    ];
    assert_eq!(
        pick_gap_from_chain(&base, &our_peer, 32, 8),
        pick_gap_from_chain(&with_self, &our_peer, 32, 8)
    );
    assert_eq!(
        check_rebalance(&base, &our_peer, 0, 8, 32, 8, 1),
        check_rebalance(&with_self, &our_peer, 0, 8, 32, 8, 1)
    );
}

#[test]
fn least_covered_window_first_on_ties() {
    let our_peer = fake_peer(1);
    // Every block covered once: all windows tie, the first wins.
    let chain = vec![make_entry(fake_peer(2), 0, 32)];
    assert_eq!(pick_gap_from_chain(&chain, &our_peer, 32, 8), (0, 8));
    // Target larger than the model takes the whole model.
    assert_eq!(pick_gap_from_chain(&chain, &our_peer, 32, 100), (0, 32));
    assert_eq!(pick_gap_from_chain(&chain, &our_peer, 0, 8), (0, 0));
}

#[test]
fn coverage_check_counts_every_record() {
    let our_peer = fake_peer(1);
    let chain = vec![
        make_entry(our_peer.clone(), 0, 16),
        make_entry(fake_peer(2), 16, 40),
    ];
    assert!(coverage_check(&chain, 32));
    let first_only = vec![make_entry(our_peer.clone(), 0, 16)];
    assert!(!coverage_check(&first_only, 32));
    assert!(coverage_check(&vec![], 0));
}

#[test]
fn min_other_coverage_excludes_self() {
    let our_peer = fake_peer(1);
    let chain = vec![
        make_entry(our_peer.clone(), 0, 32),
        make_entry(fake_peer(2), 0, 32),
        make_entry(fake_peer(3), 0, 16),
    ];
    assert_eq!(min_other_coverage(&chain, &our_peer, 32), 1);
    assert_eq!(min_other_coverage(&chain, &fake_peer(9), 32), 2);
    assert_eq!(min_other_coverage(&chain, &our_peer, 0), 0);
}
