use kwaainet::dht::{block_dht_id, block_key, dht_id, peer_dht_id};

#[test]
fn dht_ids_hash_the_msgpack_key() {
    assert_eq!(hex::encode(dht_id("_petals.models")), "0a63ed21831f3f7d24f07949cea69a94476b4faf");
    assert_eq!(hex::encode(dht_id("_kwaai.vpk.nodes")), "50ec7a4dbc12f7484b1fa44d9296de7d4180331b");
    assert_eq!(
        hex::encode(block_dht_id("Llama-3-1-8B-Instruct", 0)),
        "821ccf962f07b3a728a8b3b8e1c6a5391fb6db37"
    );
    assert_eq!(block_dht_id("p", 7), dht_id("p.7"));
}

#[test]
fn block_keys_are_prefix_dot_number() {
    assert_eq!(block_key("Llama", 0), "Llama.0");
    assert_eq!(block_key("Llama", 79), "Llama.79");
    assert_ne!(block_key("a", 1), block_key("a", 11));
}

#[test]
fn peer_dht_id_is_sha1_of_peer_bytes() {
    let mut pid = vec![0x00, 0x24, 0x08, 0x01, 0x12, 0x20];
    pid.extend(1u8..=32);
    assert_eq!(hex::encode(peer_dht_id(&pid)), "1d396ca9508a5df6051aeed28ab397295849ed84");
    assert_eq!(peer_dht_id(&vec![]).len(), 20);
}
