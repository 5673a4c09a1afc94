use kwaainet::did::{extract_ed25519_bytes, p256_spki_to_did, peer_id_to_did, to_base58, verification_method, DidKeyError};

fn sample_peer() -> Vec<u8> {
    let mut pid = vec![0x00, 0x24, 0x08, 0x01, 0x12, 0x20];
    pid.extend(1u8..=32);
    pid
}

#[test]
fn base58_known_vectors() {
    assert_eq!(to_base58(&b"hello world".to_vec()), "StV1DL6CwTryKyV");
    assert_eq!(to_base58(&vec![0, 0, 1]), "112");
    assert_eq!(to_base58(&vec![]), "");
    assert_eq!(to_base58(&vec![0x61]), "2g");
}

#[test]
fn peer_dids() {
    let did = peer_id_to_did(&sample_peer());
    assert_eq!(did, "did:peer:12D3KooW9tJMax94Lrqw7Y5Qw36viGQAS2gTEPQ5Wg1vTk7xPfQs");
    assert_eq!(verification_method(&sample_peer()), format!("{}#key-1", did));
}

#[test]
fn ed25519_key_extraction() {
    let key = extract_ed25519_bytes(&sample_peer()).expect("ed25519 peer id");
    assert_eq!(key, (1u8..=32).collect::<Vec<u8>>());
    assert_eq!(extract_ed25519_bytes(&vec![0x12, 0x20, 1, 2, 3]), None);
    let mut short = sample_peer();
    short.pop();
    assert_eq!(extract_ed25519_bytes(&short), None);
}

#[test]
fn p256_did_key() {
    let mut spki = vec![0x30u8; 26];
    spki.push(0x04);
    spki.extend(1u8..=32);
    spki.extend(33u8..=64);
    assert_eq!(
        p256_spki_to_did(&spki).unwrap(),
        "did:key:zDnaeQVuEURtDUXbSTyTUdJpYzELcVW3bTUyvU2rzNRQWuQEb"
    );
    let e = p256_spki_to_did(&vec![0u8; 10]).unwrap_err();
    assert_eq!(e, DidKeyError::TooShort(10));
    assert_eq!(e.message(), "SPKI too short: expected ≥65 bytes, got 10");
    let e = p256_spki_to_did(&vec![0x05u8; 65]).unwrap_err();
    assert_eq!(e, DidKeyError::NotUncompressed(0x05));
    assert_eq!(e.message(), "Expected uncompressed point prefix 0x04, got 0x05");
    let mut odd = spki.clone();
    *odd.last_mut().unwrap() = 65;
    assert!(p256_spki_to_did(&odd).unwrap().starts_with("did:key:z"));
    assert_ne!(p256_spki_to_did(&odd).unwrap(), p256_spki_to_did(&spki).unwrap());
}

use kwaainet::did::{did_matches_peer, did_to_peer_id};

#[test]
fn roundtrip_peer_id_did() {
    let keypair = libp2p::identity::Keypair::generate_ed25519();
    let peer_id = keypair.public().to_peer_id();
    let did = peer_id_to_did(&peer_id.to_bytes());
    assert!(did.starts_with("did:peer:"));
    let recovered = did_to_peer_id(&did).expect("should round-trip");
    assert_eq!(libp2p::PeerId::from_bytes(&recovered).unwrap(), peer_id);
}

#[test]
fn did_matches_peer_positive() {
    let keypair = libp2p::identity::Keypair::generate_ed25519();
    let peer_id = keypair.public().to_peer_id();
    let did = peer_id_to_did(&peer_id.to_bytes());
    assert!(did_matches_peer(&did, &peer_id.to_bytes()));
}

#[test]
fn extract_ed25519_roundtrip() {
    let keypair = libp2p::identity::Keypair::generate_ed25519();
    let peer_id = keypair.public().to_peer_id();
    let key_bytes = extract_ed25519_bytes(&peer_id.to_bytes()).expect("should extract Ed25519 bytes");
    assert_eq!(key_bytes.len(), 32);
}

#[test]
fn did_parsing_refuses_other_methods_and_bad_ids() {
    let did = peer_id_to_did(&sample_peer());
    assert_eq!(did_to_peer_id(&did), Some(sample_peer()));
    assert!(did_matches_peer(&did, &sample_peer()));
    let mut other = sample_peer();
    other[10] = 99;
    assert!(!did_matches_peer(&did, &other));
    assert_eq!(did_to_peer_id("did:key:z6Mk"), None);
    assert_eq!(did_to_peer_id("did:peer:0OIl"), None);
    assert_eq!(did_to_peer_id("did:peer:2g"), None);
}

#[test]
fn bootstrap_address_peer_ids() {
    let peer = libp2p::identity::Keypair::generate_ed25519().public().to_peer_id();
    let addr = format!("/ip4/1.2.3.4/tcp/8000/p2p/{}", peer.to_base58());
    assert_eq!(kwaainet::did::bootstrap_peer_id(&addr), Some(peer.to_bytes()));
    assert_eq!(kwaainet::did::bootstrap_peer_id("/ip4/1.2.3.4/tcp/8000"), None);
    assert_eq!(kwaainet::did::bootstrap_peer_id("/ip4/1.2.3.4/tcp/8000/p2p/notapeer0"), None);
}
