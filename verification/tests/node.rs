use kwaainet::node::find_free_port;
use kwaainet::config::{DefaultEnv, KwaaiNetConfig};
use kwaainet::node::{announce_addr, announced_name, bootstrap_peers_for, host_addr, using_relay};

fn base() -> KwaaiNetConfig {
    KwaaiNetConfig::default_from(&DefaultEnv {
        model: None,
        blocks: None,
        port: None,
        log_level: None,
        user: Some("u".to_string()),
        os: "linux".to_string(),
        arch: "x86_64".to_string(),
    })
}

#[test]
fn announced_names_carry_the_version() {
    assert_eq!(announced_name(&Some("alice".to_string())), "alice/v0.4.0");
    assert_eq!(announced_name(&None), "kwaainet-node/v0.4.0");
}

#[test]
fn addresses_and_relay() {
    assert_eq!(host_addr(8080), "/ip4/0.0.0.0/tcp/8080");
    assert_eq!(announce_addr(&Some("1.2.3.4".to_string()), 9000).as_deref(), Some("/ip4/1.2.3.4/tcp/9000"));
    assert_eq!(announce_addr(&None, 9000), None);
    assert!(using_relay(&None, false));
    assert!(!using_relay(&None, true));
    assert!(!using_relay(&Some("1.2.3.4".to_string()), false));
}

#[test]
fn bootstrap_peers_default_when_unset() {
    let d = vec!["d1".to_string()];
    assert_eq!(bootstrap_peers_for(&vec![], &d), d);
    assert_eq!(bootstrap_peers_for(&vec!["c".to_string()], &d), vec!["c".to_string()]);
}

#[test]
fn repository_prefix_and_range() {
    let mut c = base();
    c.model = "unsloth/Llama-3.1-8B-Instruct".to_string();
    assert_eq!(c.announce_repository(), "https://huggingface.co/unsloth/Llama-3.1-8B-Instruct");
    assert_eq!(c.announce_prefix(), "unsloth-Llama-3-1-8B-Instruct");
    c.model = "Llama-2-7b".to_string();
    assert_eq!(c.announce_repository(), "https://huggingface.co/meta-llama/Llama-2-7b");
    c.model_repository = Some("https://x".to_string());
    c.model_dht_prefix = Some("P".to_string());
    assert_eq!(c.announce_repository(), "https://x");
    assert_eq!(c.announce_prefix(), "P");
    c.start_block = 8;
    c.blocks = 8;
    assert_eq!(c.announced_range(), (8, 16));
    assert_eq!(c.vpk_port(), 7432);
}

#[test]
fn node_daemon_settings() {
    let mut c = base();
    c.port = 9000;
    c.public_ip = Some("5.6.7.8".to_string());
    c.no_relay = true;
    let b = c.node_daemon_builder(vec!["p".to_string()], "/id.key".to_string(), None);
    assert!(b.dht && !b.relay && b.auto_relay && b.auto_nat && b.nat_portmap && !b.metrics);
    assert_eq!(b.host_addrs, vec!["/ip4/0.0.0.0/tcp/9000"]);
    assert_eq!(b.announce_addrs, vec!["/ip4/5.6.7.8/tcp/9000"]);
    assert_eq!(b.bootstrap_peers, vec!["p"]);
    assert_eq!(b.identity_key_path.as_deref(), Some("/id.key"));
    assert!(b.binary_path.is_none());
}

#[test]
fn free_port_is_first_free_probe() {
    let mut probe = vec![false; 101];
    assert_eq!(find_free_port(8080, &probe), None);
    probe[3] = true;
    probe[7] = true;
    assert_eq!(find_free_port(8080, &probe), Some(8083));
    probe[0] = true;
    assert_eq!(find_free_port(8080, &probe), Some(8080));
}
