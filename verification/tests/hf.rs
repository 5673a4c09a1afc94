use kwaainet::hf::best_snapshot;
use kwaainet::hf::{files_to_fetch, not_cached_message, require_files, snapshot_dir};
use kwaainet::hf::is_tensor_needed;

// Serving blocks [8, 16), middle of the model — no embed, no norm/head.
#[test]
fn middle_node_selects_only_its_layers() {
    assert!(is_tensor_needed(
        "model.layers.8.self_attn.q_proj.weight",
        8,
        16,
        false,
        false
    ));
    assert!(is_tensor_needed(
        "model.layers.15.mlp.gate_proj.weight",
        8,
        16,
        false,
        false
    ));
    assert!(!is_tensor_needed(
        "model.layers.7.self_attn.q_proj.weight",
        8,
        16,
        false,
        false
    ));
    assert!(!is_tensor_needed(
        "model.layers.16.self_attn.q_proj.weight",
        8,
        16,
        false,
        false
    ));
    assert!(!is_tensor_needed(
        "model.embed_tokens.weight",
        8,
        16,
        false,
        false
    ));
    assert!(!is_tensor_needed("model.norm.weight", 8, 16, false, false));
    assert!(!is_tensor_needed("lm_head.weight", 8, 16, false, false));
}

// First node — needs embed_tokens.
#[test]
fn first_node_includes_embed_tokens() {
    assert!(is_tensor_needed(
        "model.embed_tokens.weight",
        0,
        8,
        true,
        false
    ));
    assert!(!is_tensor_needed("model.norm.weight", 0, 8, true, false));
    assert!(!is_tensor_needed("lm_head.weight", 0, 8, true, false));
}

// Last node — needs norm and lm_head.
#[test]
fn last_node_includes_norm_and_head() {
    assert!(is_tensor_needed("model.norm.weight", 24, 32, false, true));
    assert!(is_tensor_needed("lm_head.weight", 24, 32, false, true));
    assert!(!is_tensor_needed(
        "model.embed_tokens.weight",
        24,
        32,
        false,
        true
    ));
}

// Single-node (first + last) — needs everything.
#[test]
fn single_node_includes_all_special_tensors() {
    assert!(is_tensor_needed(
        "model.embed_tokens.weight",
        0,
        32,
        true,
        true
    ));
    assert!(is_tensor_needed("model.norm.weight", 0, 32, true, true));
    assert!(is_tensor_needed("lm_head.weight", 0, 32, true, true));
    assert!(is_tensor_needed(
        "model.layers.0.self_attn.q_proj.weight",
        0,
        32,
        true,
        true
    ));
    assert!(is_tensor_needed(
        "model.layers.31.mlp.up_proj.weight",
        0,
        32,
        true,
        true
    ));
}

// Layer index parsing edge cases.
#[test]
fn layer_index_parsing() {
    // Double-digit layer numbers
    assert!(is_tensor_needed(
        "model.layers.10.self_attn.k_proj.weight",
        10,
        20,
        false,
        false
    ));
    assert!(!is_tensor_needed(
        "model.layers.10.self_attn.k_proj.weight",
        11,
        20,
        false,
        false
    ));
    // Malformed — not selected
    assert!(!is_tensor_needed(
        "model.layers.weight",
        0,
        32,
        false,
        false
    ));
    assert!(!is_tensor_needed("model.layers.", 0, 32, false, false));
}

// ── Further checks of the model-file selection ───────────────────────────────

use kwaainet::hf::{
    files_for_blocks, files_to_download, hf_cache_dir_name, index_needed_files, most_complete,
    needed_weight_files, should_download, IndexNeeds,
};

#[test]
fn layer_tensor_needed_exactly_in_range() {
    for n in 0..40usize {
        let name = format!("model.layers.{}.mlp.down_proj.weight", n);
        assert_eq!(is_tensor_needed(&name, 8, 16, true, true), (8..16).contains(&n));
    }
}

#[test]
fn layer_index_with_plus_sign_and_overflow() {
    // `usize` parsing accepts a leading '+', rejects values past usize::MAX.
    assert!(is_tensor_needed("model.layers.+9.x", 8, 16, false, false));
    assert!(!is_tensor_needed(
        "model.layers.99999999999999999999999.x",
        0,
        usize::MAX,
        true,
        true
    ));
    assert!(!is_tensor_needed("model.layers.-1.x", 0, 32, true, true));
}

#[test]
fn other_tensors_go_to_first_or_last_node() {
    assert!(is_tensor_needed("rope_freqs", 0, 8, true, false));
    assert!(is_tensor_needed("rope_freqs", 24, 32, false, true));
    assert!(!is_tensor_needed("rope_freqs", 8, 16, false, false));
}

#[test]
fn should_download_metadata_and_safetensors() {
    assert!(should_download("config.json"));
    assert!(should_download("Tokenizer.JSON"));
    assert!(should_download("model-00001-of-00004.safetensors"));
    assert!(should_download("MODEL.SAFETENSORS"));
    assert!(!should_download("pytorch_model.bin"));
    assert!(!should_download("README.md"));
}

fn strings(v: &[&str]) -> Vec<String> {
    v.iter().map(|s| s.to_string()).collect()
}

#[test]
fn full_download_keeps_repo_order() {
    let files = strings(&[
        "README.md",
        "config.json",
        "model-1.safetensors",
        "pytorch_model.bin",
        "tokenizer.model",
    ]);
    assert_eq!(
        files_to_download(&files),
        strings(&["config.json", "model-1.safetensors", "tokenizer.model"])
    );
}

#[test]
fn block_download_takes_selected_weights_or_all() {
    let files = strings(&[
        "config.json",
        "model-1.safetensors",
        "model-2.safetensors",
        "notes.txt",
    ]);
    let selected = strings(&["model-2.safetensors"]);
    assert_eq!(
        files_for_blocks(&files, &selected),
        strings(&["config.json", "model-2.safetensors"])
    );
    assert_eq!(
        files_for_blocks(&files, &vec![]),
        strings(&["config.json", "model-1.safetensors", "model-2.safetensors"])
    );
}

#[test]
fn needed_weight_files_dedup_in_first_order() {
    let entries = vec![
        ("model.layers.9.a".to_string(), Some("w2".to_string())),
        ("model.layers.8.a".to_string(), Some("w1".to_string())),
        ("model.layers.8.b".to_string(), Some("w2".to_string())),
        ("model.layers.3.a".to_string(), Some("w0".to_string())),
        ("model.layers.10.a".to_string(), None),
        ("lm_head.weight".to_string(), Some("w9".to_string())),
    ];
    assert_eq!(needed_weight_files(&entries, 8, 16, false, false), strings(&["w2", "w1"]));
    assert_eq!(
        needed_weight_files(&entries, 8, 16, false, true),
        strings(&["w2", "w1", "w9"])
    );
}

#[test]
fn index_text_outcomes() {
    let text = r#"{"metadata":{},"weight_map":{"model.layers.0.x":"a.safetensors","model.layers.1.x":"b.safetensors","model.norm.weight":"b.safetensors"}}"#;
    match index_needed_files(text, 0, 1, false, false) {
        IndexNeeds::Files(v) => assert_eq!(v, strings(&["a.safetensors"])),
        other => panic!("unexpected {:?}", other),
    }
    match index_needed_files(text, 1, 2, false, true) {
        IndexNeeds::Files(v) => assert_eq!(v, strings(&["b.safetensors"])),
        other => panic!("unexpected {:?}", other),
    }
    assert!(matches!(index_needed_files("not json", 0, 1, true, true), IndexNeeds::Unreadable));
    assert!(matches!(index_needed_files("{}", 0, 1, true, true), IndexNeeds::NoWeightMap));
}

#[test]
fn cache_dir_name_replaces_slashes() {
    assert_eq!(
        hf_cache_dir_name("unsloth/Llama-3.1-8B-Instruct"),
        "models--unsloth--Llama-3.1-8B-Instruct"
    );
    assert_eq!(hf_cache_dir_name("plain"), "models--plain");
}

#[test]
fn most_complete_is_first_maximum() {
    assert_eq!(most_complete(&vec![]), None);
    assert_eq!(most_complete(&vec![2, 4, 4, 1]), Some(1));
    assert_eq!(most_complete(&vec![0]), Some(0));
}

#[test]
fn model_reference_source() {
    assert!(kwaainet::hf::is_hf_model("unsloth/Llama-3-8B"));
    assert!(!kwaainet::hf::is_hf_model("qwen3:0.6b"));
    assert!(!kwaainet::hf::is_hf_model("hf.co/org/model:tag"));
    assert!(kwaainet::hf::is_hf_model("hf.com/org"));
}

#[test]
fn download_decisions() {
    assert_eq!(
        snapshot_dir("/c/hub", "unsloth/Llama-3-8B", "abc123"),
        "/c/hub/models--unsloth--Llama-3-8B/snapshots/abc123"
    );
    assert!(require_files(&vec!["config.json".to_string()], "m", 0, 8).is_ok());
    assert_eq!(
        require_files(&vec![], "org/m", 8, 16),
        Err("No files selected for model 'org/m' blocks [8, 16). This model may not be in SafeTensors format."
            .to_string())
    );
    let files = vec!["a".to_string(), "b".to_string(), "c".to_string()];
    assert_eq!(files_to_fetch(&files, &vec![true, false, false]), vec![1, 2]);
    assert_eq!(
        not_cached_message("o/m", &vec!["/r1".to_string(), "/r2".to_string()]),
        "Model 'o/m' not found in local cache.\nSearched:\n  • /r1\n  • /r2\nTo download: kwaainet shard download o/m"
    );
}

#[test]
fn weight_files_fall_back_to_none_without_weight_map() {

    assert!(kwaainet::hf::weight_files_for(IndexNeeds::Unreadable).is_empty());
    assert!(kwaainet::hf::weight_files_for(IndexNeeds::NoWeightMap).is_empty());
    assert_eq!(
        kwaainet::hf::weight_files_for(IndexNeeds::Files(vec!["a.safetensors".to_string()])),
        vec!["a.safetensors".to_string()]
    );
}

#[test]
fn best_snapshot_prefers_shards_then_newest() {

    assert_eq!(best_snapshot(&vec![], &vec![]), None);
    assert_eq!(best_snapshot(&vec![2, 4, 4], &vec![Some(9), Some(1), Some(5)]), Some(2));
    assert_eq!(best_snapshot(&vec![3, 3], &vec![None, Some(0)]), Some(1));
    assert_eq!(best_snapshot(&vec![3, 3], &vec![Some(7), Some(7)]), Some(0));
}
