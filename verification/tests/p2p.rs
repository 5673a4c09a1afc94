use kwaainet::p2p::{daemon_endpoint, unix_socket_path, DaemonAddrError, DaemonBuilder, DaemonEndpoint};

#[test]
fn test_daemon_builder() {
    let builder = DaemonBuilder::new()
        .dht(true)
        .relay(true)
        .bootstrap_peer("/ip4/127.0.0.1/tcp/8000/p2p/QmTest".to_string());

    assert!(builder.dht);
    assert!(builder.relay);
    assert_eq!(builder.bootstrap_peers.len(), 1);
}

#[test]
fn launch_arguments_follow_settings() {
    let b = DaemonBuilder::new()
        .dht(true)
        .auto_relay(true)
        .nat_portmap(true)
        .host_addrs(vec!["/ip4/0.0.0.0/tcp/8080".to_string(), "/ip6/::/tcp/8080".to_string()])
        .metrics(true)
        .metrics_addr("127.0.0.1:8888".to_string())
        .bootstrap_peers(vec!["a".to_string(), "b".to_string()])
        .with_identity_key("/k".to_string());
    let l = b.launch();
    assert_eq!(l.listen_addr, "/unix//tmp/kwaai-p2pd.sock");
    assert!(l.binary_path.is_none());
    assert_eq!(
        l.args,
        vec![
            "-listen",
            "/unix//tmp/kwaai-p2pd.sock",
            "-dht",
            "-autoRelay",
            "-natPortMap",
            "-hostAddrs",
            "/ip4/0.0.0.0/tcp/8080,/ip6/::/tcp/8080",
            "-metrics",
            "-metricsAddr",
            "127.0.0.1:8888",
            "-bootstrapPeers",
            "a",
            "-bootstrapPeers",
            "b",
            "-id",
            "/k",
        ]
    );
}

#[test]
fn metrics_address_needs_metrics() {
    let l = DaemonBuilder::new()
        .with_listen_addr("/ip4/127.0.0.1/tcp/5005".to_string())
        .metrics_addr("x".to_string())
        .relay(true)
        .auto_nat(true)
        .announce_addrs(vec!["/ip4/1.2.3.4/tcp/1".to_string()])
        .with_binary_path("/bin/p2pd".to_string())
        .launch();
    assert_eq!(
        l.args,
        vec![
            "-listen",
            "/ip4/127.0.0.1/tcp/5005",
            "-relay",
            "-autonat",
            "-announceAddrs",
            "/ip4/1.2.3.4/tcp/1",
        ]
    );
    assert_eq!(l.binary_path.as_deref(), Some("/bin/p2pd"));
}

#[test]
fn control_addresses() {
    assert_eq!(
        daemon_endpoint("/ip4/127.0.0.1/tcp/5005"),
        Ok(DaemonEndpoint::Tcp("127.0.0.1:5005".to_string()))
    );
    assert_eq!(
        daemon_endpoint("/ip6/::1/tcp/9/p2p/x"),
        Ok(DaemonEndpoint::Tcp("::1:9".to_string()))
    );
    assert_eq!(
        daemon_endpoint("/unix//tmp/p2pd.sock"),
        Ok(DaemonEndpoint::Unix("/tmp/p2pd.sock".to_string()))
    );
    let e = daemon_endpoint("/ip4/127.0.0.1/udp/5005").unwrap_err();
    assert_eq!(e, DaemonAddrError::InvalidMultiaddr("/ip4/127.0.0.1/udp/5005".to_string()));
    assert_eq!(e.message(), "Invalid multiaddr: /ip4/127.0.0.1/udp/5005");
    assert!(matches!(daemon_endpoint("/ip4/1.2.3.4"), Err(DaemonAddrError::InvalidMultiaddr(_))));
    let u = daemon_endpoint("/dns/x").unwrap_err();
    assert_eq!(u.message(), "Unsupported multiaddr format: /dns/x");
    assert_eq!(unix_socket_path("/unix//tmp/a.sock").as_deref(), Some("/tmp/a.sock"));
    assert_eq!(unix_socket_path("/ip4/1.2.3.4/tcp/1"), None);
}

#[test]
fn address_lists_are_set_not_appended() {
    let b = DaemonBuilder::new()
        .host_addrs(vec!["/ip4/0.0.0.0/tcp/1".to_string(), "/ip4/0.0.0.0/tcp/2".to_string()])
        .host_addrs(vec!["/ip4/0.0.0.0/tcp/3".to_string()])
        .announce_addrs(vec!["/ip4/1.1.1.1/tcp/1".to_string()])
        .announce_addrs(vec!["/ip4/2.2.2.2/tcp/2".to_string()]);
    assert_eq!(b.host_addrs, vec!["/ip4/0.0.0.0/tcp/3"]);
    assert_eq!(b.announce_addrs, vec!["/ip4/2.2.2.2/tcp/2"]);
}
