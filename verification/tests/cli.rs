use kwaainet::cli::confirms;
use kwaainet::cli::StartArgs;
use kwaainet::config::{DefaultEnv, KwaaiNetConfig};

#[test]
fn start_options_override_config() {
    let mut c = KwaaiNetConfig::default_from(&DefaultEnv {
        model: None,
        blocks: None,
        port: None,
        log_level: None,
        user: None,
        os: "linux".to_string(),
        arch: "x86_64".to_string(),
    });
    let model_before = c.model.clone();
    c.apply_start_args(StartArgs {
        model: None,
        blocks: Some(4),
        port: None,
        no_gpu: true,
        public_name: Some("n".to_string()),
        public_ip: None,
        announce_addr: Some("/ip4/1.1.1.1/tcp/1".to_string()),
        no_relay: false,
        daemon: true,
        concurrent: false,
        shard: false,
    });
    assert_eq!(c.model, model_before);
    assert_eq!(c.blocks, 4);
    assert_eq!(c.port, 8080);
    assert!(!c.use_gpu);
    assert_eq!(c.public_name.as_deref(), Some("n"));
    assert!(c.public_ip.is_none());
    assert_eq!(c.announce_addr.as_deref(), Some("/ip4/1.1.1.1/tcp/1"));
    assert!(!c.no_relay);
}

#[test]
fn uninstall_prompt_answers() {
    assert!(confirms("y\n"));
    assert!(confirms("  YES "));
    assert!(!confirms("no"));
    assert!(!confirms(""));
    assert!(!confirms("yess"));
}
