use kwaainet::config::{DefaultEnv, KwaaiNetConfig};

fn base_config() -> KwaaiNetConfig {
    KwaaiNetConfig::default_from(&DefaultEnv {
        model: None,
        blocks: None,
        port: None,
        log_level: None,
        user: None,
        os: "linux".to_string(),
        arch: "x86_64".to_string(),
    })
}

fn cfg(start: u32, blocks: u32, total_hint: &str) -> KwaaiNetConfig {
    let mut c = base_config();
    c.model = total_hint.to_string(); // name heuristic drives model_total_blocks()
    c.start_block = start;
    c.blocks = blocks;
    c
}

fn setup_config() -> KwaaiNetConfig {
    base_config()
}

#[test]
fn effective_end_block_no_clamp() {
    // 0 + 8 = 8 < 32 — no clamping needed
    let c = cfg(0, 8, "unsloth/Llama-3-8B");
    assert_eq!(c.effective_end_block(None), 8);
}

#[test]
fn effective_end_block_clamps_to_model_total() {
    // 8 + 32 = 40, but model has 32 blocks → clamped to 32
    let c = cfg(8, 32, "unsloth/Llama-3-8B");
    assert_eq!(c.effective_end_block(None), 32);
}

#[test]
fn effective_end_block_exact_fit() {
    // 0 + 32 = 32 == total — no clamping
    let c = cfg(0, 32, "unsloth/Llama-3-8B");
    assert_eq!(c.effective_end_block(None), 32);
}

#[test]
fn effective_end_block_70b_model() {
    // 70B has 80 blocks; 72 + 32 = 104 → clamped to 80
    let c = cfg(72, 32, "meta/Llama-2-70B");
    assert_eq!(c.effective_end_block(None), 80);
}

#[test]
fn set_key_initial_peers_comma_separated() {
    let mut c = setup_config();
    c.set_key(
        "initial_peers",
        "/ip6/fd00::a/tcp/8080/p2p/QmA, /ip6/fd00::b/tcp/8080/p2p/QmB",
    )
    .unwrap();
    assert_eq!(
        c.initial_peers,
        vec![
            "/ip6/fd00::a/tcp/8080/p2p/QmA",
            "/ip6/fd00::b/tcp/8080/p2p/QmB",
        ]
    );
}

#[test]
fn set_key_initial_peers_empty_clears() {
    let mut c = setup_config();
    c.set_key("initial_peers", "").unwrap();
    assert!(c.initial_peers.is_empty());
}

#[test]
fn set_key_initial_peers_single() {
    let mut c = setup_config();
    c.set_key("initial_peers", "/ip6/fd00::a/tcp/8080/p2p/QmA")
        .unwrap();
    assert_eq!(c.initial_peers, vec!["/ip6/fd00::a/tcp/8080/p2p/QmA"]);
}

#[test]
fn set_key_string_values() {
    let mut c = setup_config();

    c.set_key("model", "meta/Llama-3-70B").unwrap();
    assert_eq!(c.model, "meta/Llama-3-70B");

    c.set_key("log_level", "debug").unwrap();
    assert_eq!(c.log_level, "debug");

    c.set_key("public_name", "my-node").unwrap();
    assert_eq!(c.public_name.as_deref(), Some("my-node"));

    c.set_key("public_ip", "1.2.3.4").unwrap();
    assert_eq!(c.public_ip.as_deref(), Some("1.2.3.4"));

    c.set_key("announce_addr", "/ip4/1.2.3.4/tcp/8080").unwrap();
    assert_eq!(
        c.announce_addr.as_deref(),
        Some("/ip4/1.2.3.4/tcp/8080")
    );
}

#[test]
fn set_key_numeric_values() {
    let mut c = setup_config();

    c.set_key("blocks", "16").unwrap();
    assert_eq!(c.blocks, 16);

    c.set_key("port", "9090").unwrap();
    assert_eq!(c.port, 9090);

    c.set_key("start_block", "4").unwrap();
    assert_eq!(c.start_block, 4);

    c.set_key("rebalance_interval_secs", "120").unwrap();
    assert_eq!(c.rebalance_interval_secs, 120);

    c.set_key("rebalance_min_redundancy", "3").unwrap();
    assert_eq!(c.rebalance_min_redundancy, 3);
}

#[test]
fn set_key_boolean_values() {
    let mut c = setup_config();

    // Test all true representations
    for val in ["true", "1", "yes"] {
        c.set_key("use_gpu", val).unwrap();
        assert!(c.use_gpu, "use_gpu should be true for '{val}'");
    }
    // Test all false representations
    for val in ["false", "0", "no"] {
        c.set_key("use_gpu", val).unwrap();
        assert!(!c.use_gpu, "use_gpu should be false for '{val}'");
    }
    // Verify other bool keys accept the same values
    c.set_key("no_relay", "true").unwrap();
    assert!(c.no_relay);
    c.set_key("no_relay", "false").unwrap();
    assert!(!c.no_relay);

    c.set_key("auto_rebalance", "yes").unwrap();
    assert!(c.auto_rebalance);
    c.set_key("auto_rebalance", "no").unwrap();
    assert!(!c.auto_rebalance);
}

#[test]
fn set_key_numeric_rejects_non_numeric() {
    let mut c = setup_config();
    for key in [
        "blocks",
        "port",
        "start_block",
        "rebalance_interval_secs",
        "rebalance_min_redundancy",
    ] {
        assert!(
            c.set_key(key, "not-a-number").is_err(),
            "{key} should reject non-numeric"
        );
    }
}

#[test]
fn set_key_boolean_rejects_invalid() {
    let mut c = setup_config();
    for key in ["use_gpu", "no_relay", "auto_rebalance"] {
        assert!(
            c.set_key(key, "maybe").is_err(),
            "{key} should reject 'maybe'"
        );
    }
}

#[test]
fn set_key_unknown_key_fails() {
    let mut c = setup_config();
    let err = c.set_key("nonexistent", "value").unwrap_err();
    assert!(err.message().contains("Unknown config key"));
}

// ── Further checks of the configuration logic ────────────────────────────────

use kwaainet::config::{dht_prefix_fallback, join_path, kwaainet_dir_in, ConfigError};

#[test]
fn dht_prefix_derived_or_canonical() {
    let mut c = base_config();
    c.model = "org/Model-Name.1B".to_string();
    assert_eq!(c.effective_dht_prefix(), "Model-Name-1B");
    c.model_dht_prefix = Some("Canonical".to_string());
    assert_eq!(c.effective_dht_prefix(), "Canonical");
    let derived = cfg(0, 1, "a/b/c.d.e").effective_dht_prefix();
    assert_eq!(derived, "c-d-e");
    assert!(!derived.contains('/') && !derived.contains('.'));
}

#[test]
fn blocks_from_name_heuristic() {
    assert_eq!(cfg(0, 1, "meta/Llama-2-13b").blocks_from_name(), 40);
    assert_eq!(cfg(0, 1, "x/MODEL-70B").blocks_from_name(), 80);
    assert_eq!(cfg(0, 1, "x/Llama-3-8B").blocks_from_name(), 32);
}

#[test]
fn model_total_blocks_prefers_config_json() {
    let c = cfg(0, 8, "meta/Llama-2-70B");
    assert_eq!(c.model_total_blocks(Some(r#"{"num_hidden_layers": 40}"#)), 40);
    assert_eq!(c.model_total_blocks(Some("garbage")), 80);
    assert_eq!(c.model_total_blocks(Some(r#"{"hidden_size": 4096}"#)), 80);
    assert_eq!(c.effective_end_block(Some(r#"{"num_hidden_layers": 4}"#)), 4);
}

#[test]
fn normalize_clears_map_fields_for_hf_paths() {
    let mut c = base_config();
    c.model = "org/model".to_string();
    c.model_dht_prefix = Some("p".to_string());
    c.model_repository = Some("r".to_string());
    c.normalize_after_load();
    assert!(c.model_dht_prefix.is_none() && c.model_repository.is_none());
    let mut d = base_config();
    d.model = "llama3.1:8b".to_string();
    d.model_dht_prefix = Some("p".to_string());
    d.normalize_after_load();
    assert_eq!(d.model_dht_prefix.as_deref(), Some("p"));
}

#[test]
fn run_prefix_follows_cli_model() {
    let mut c = base_config();
    c.model = "org/A.1".to_string();
    c.model_dht_prefix = Some("Canon".to_string());
    assert_eq!(c.run_dht_prefix(None), "Canon");
    assert_eq!(c.run_dht_prefix(Some("org/A.1")), "Canon");
    assert_eq!(c.run_dht_prefix(Some("x/B.2")), "B-2");
    assert_eq!(dht_prefix_fallback("unsloth/Llama-3.1-8B-Instruct"), "unsloth-Llama-3-1-8B-Instruct");
}

#[test]
fn set_key_error_variants_and_texts() {
    let mut c = setup_config();
    let before = c.blocks;
    match c.set_key("blocks", "-1") {
        Err(ConfigError::InvalidNumber { key }) => assert_eq!(key, "blocks"),
        other => panic!("unexpected {:?}", other),
    }
    assert_eq!(c.blocks, before);
    match c.set_key("use_gpu", "maybe") {
        Err(e @ ConfigError::InvalidBool { .. }) => assert!(e.message().contains("maybe")),
        other => panic!("unexpected {:?}", other),
    }
    assert!(c.set_key("port", "70000").is_err());
    assert!(c.set_key("port", "+8081").is_ok());
    assert_eq!(c.port, 8081);
}

#[test]
fn vpk_enable_and_disable() {
    let mut c = base_config();
    let err = c.enable_vpk("alice".to_string(), None, 7000).unwrap_err();
    assert_eq!(err.message(), "Invalid mode 'alice'. Must be: bob, eve, or both");
    assert!(!c.vpk_enabled);
    c.enable_vpk("eve".to_string(), Some("http://x".to_string()), 7000).unwrap();
    assert!(c.vpk_enabled);
    assert_eq!(c.vpk_mode.as_deref(), Some("eve"));
    assert_eq!(c.vpk_local_port, Some(7000));
    c.disable_vpk();
    assert!(!c.vpk_enabled && c.vpk_mode.is_none() && c.vpk_endpoint.is_none() && c.vpk_local_port.is_none());
}

#[test]
fn paths_join_like_pathbuf() {
    assert_eq!(join_path("/home/a", "x"), "/home/a/x");
    assert_eq!(join_path("/home/a/", "x"), "/home/a/x");
    assert_eq!(join_path("", "x"), "x");
    assert_eq!(kwaainet_dir_in("/home/a"), "/home/a/.kwaainet");
}

#[test]
fn default_config_reads_environment_values() {
    let c = KwaaiNetConfig::default_from(&DefaultEnv {
        model: Some("m".to_string()),
        blocks: Some("12".to_string()),
        port: Some("notaport".to_string()),
        log_level: None,
        user: Some("bob".to_string()),
        os: "linux".to_string(),
        arch: "aarch64".to_string(),
    });
    assert_eq!(c.model, "m");
    assert_eq!(c.blocks, 12);
    assert_eq!(c.port, 8080);
    assert_eq!(c.log_level, "info");
    assert_eq!(c.public_name.as_deref(), Some("bob-linux-aarch64"));
}

#[test]
fn loading_settles_on_file_or_first_run_config() {
    let env = DefaultEnv {
        model: None,
        blocks: Some("4".to_string()),
        port: None,
        log_level: None,
        user: Some("ann".to_string()),
        os: "linux".to_string(),
        arch: "x86_64".to_string(),
    };
    let (fresh, write) = kwaainet::config::settle_loaded(None, &env);
    assert!(write);
    assert_eq!(fresh.model, "unsloth/Llama-3.1-8B-Instruct");
    assert_eq!(fresh.blocks, 4);
    assert_eq!(fresh.port, 8080);
    assert_eq!(fresh.public_name.as_deref(), Some("ann-linux-x86_64"));

    let mut stored = base_config();
    stored.model = "org/model".to_string();
    stored.model_dht_prefix = Some("old-prefix".to_string());
    stored.model_repository = Some("old/repo".to_string());
    stored.port = 9000;
    let (loaded, write) = kwaainet::config::settle_loaded(Some(stored), &env);
    assert!(!write);
    assert_eq!(loaded.model, "org/model");
    assert_eq!(loaded.model_dht_prefix, None);
    assert_eq!(loaded.model_repository, None);
    assert_eq!(loaded.port, 9000);

    let mut plain = base_config();
    plain.model = "llama-3-8b".to_string();
    plain.model_dht_prefix = Some("kept".to_string());
    let (loaded, _) = kwaainet::config::settle_loaded(Some(plain), &env);
    assert_eq!(loaded.model_dht_prefix.as_deref(), Some("kept"));
}
