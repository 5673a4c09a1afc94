use kwaainet::crawler::{covered_block_count, crawl_keys, crawl_prefixes};
use kwaainet::dht::{block_dht_id, dht_id};

#[test]
fn prefixes_merge_without_repeats() {
    let extra = vec!["bloom".to_string(), "New".to_string(), "New".to_string()];
    assert_eq!(
        crawl_prefixes(&extra),
        vec![
            "Llama-3-1-8B-Instruct",
            "Llama-2-70b-chat-hf",
            "Meta-Llama-3-1-8B-Instruct",
            "bloom",
            "New",
            "_kwaai.vpk.nodes",
        ]
    );
}

#[test]
fn keys_per_prefix() {
    let k = crawl_keys("_kwaai.vpk.nodes");
    assert_eq!(k, vec![dht_id("_kwaai.vpk.nodes")]);
    let k = crawl_keys("bloom");
    assert_eq!(k.len(), 80);
    assert_eq!(k[0], block_dht_id("bloom", 0));
    assert_eq!(k[79], block_dht_id("bloom", 79));
}

#[test]
fn map_coverage_counts_half_open_ranges() {
    assert_eq!(covered_block_count(&vec![(0, 8)], 32), 8);
    assert_eq!(covered_block_count(&vec![(0, 40)], 32), 32);
    assert_eq!(covered_block_count(&vec![(0, 8), (4, 10)], 32), 10);
    assert_eq!(covered_block_count(&vec![(0, 8), (8, 16)], 32), 16);
    assert_eq!(covered_block_count(&vec![(0, 1)], 2), 1);
    assert_eq!(covered_block_count(&vec![(5, 5), (9, 3)], 32), 0);
    assert_eq!(covered_block_count(&vec![], 32), 0);
    assert_eq!(covered_block_count(&vec![(0, 5)], 0), 0);
}
