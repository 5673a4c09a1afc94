use kwaainet::parse::{p2p_peer_id_text, parse_bool};

#[test]
fn bootstrap_peer_ids() {
    assert_eq!(
        p2p_peer_id_text("/ip4/1.2.3.4/tcp/31337/p2p/QmPeer").as_deref(),
        Some("QmPeer")
    );
    assert_eq!(
        p2p_peer_id_text("/ip4/1.2.3.4/tcp/1/p2p/QmA/p2p-circuit/p2p/QmB").as_deref(),
        Some("QmA/p2p-circuit")
    );
    assert_eq!(p2p_peer_id_text("/ip4/1.2.3.4/tcp/1/p2p/A/p2p/B").as_deref(), Some("A"));
    assert_eq!(p2p_peer_id_text("/ip4/1.2.3.4/tcp/1"), None);
    assert_eq!(p2p_peer_id_text("/p2p/").as_deref(), Some(""));
}

#[test]
fn booleans_any_case() {
    assert_eq!(parse_bool("YES"), Some(true));
    assert_eq!(parse_bool("0"), Some(false));
    assert_eq!(parse_bool("on"), None);
}

use kwaainet::setup::{archive_member, build_target_triple, release_archive_url};

#[test]
fn release_targets() {
    assert_eq!(build_target_triple("linux", "x86_64"), Some("x86_64-unknown-linux-gnu"));
    assert_eq!(build_target_triple("macos", "aarch64"), Some("aarch64-apple-darwin"));
    assert_eq!(build_target_triple("windows", "x86_64"), Some("x86_64-pc-windows-msvc"));
    assert_eq!(build_target_triple("freebsd", "x86_64"), None);
    assert_eq!(
        release_archive_url("x86_64-unknown-linux-gnu", false),
        "https://github.com/Kwaai-AI-Lab/KwaaiNet/releases/latest/download/kwaainet-x86_64-unknown-linux-gnu.tar.xz"
    );
    assert_eq!(archive_member("t", "p2pd"), "kwaainet-t/p2pd");
}
