use kwaainet::announce::{announce_block_keys, ModelInfo, ServerInfo, VpkInfo};
use kwaainet::dht::{block_dht_id, packed_text};
use kwaainet::msgpack::Number;
use kwaainet::rebalancer::BlockServerEntry;
use kwaainet::records::{
    add_dictionary_servers, add_vpk_node, decode_node_record, decode_server_info, decode_vpk_map,
    dict_subkeys, dictionary_nodes, dictionary_servers, insert_first, parse_vpk_dictionary,
    parse_vpk_regular, regular_server_entry, chain_order, discover_servers, ServerInfoFields,
};

fn packed(v: &rmpv::Value) -> Vec<u8> {
    let mut buf = Vec::new();
    rmpv::encode::write_value(&mut buf, v).unwrap();
    buf
}

fn packed_str(s: &str) -> Vec<u8> {
    packed(&rmpv::Value::from(s))
}

fn dictionary(entries: Vec<rmpv::Value>) -> Vec<u8> {
    let inner = rmpv::Value::Array(vec![
        rmpv::Value::F64(100.0),
        rmpv::Value::F64(50.0),
        rmpv::Value::Array(entries),
    ]);
    packed(&rmpv::Value::Ext(80, packed(&inner)))
}

fn server(start: i32, end: i32, name: &str, peer: &str) -> ServerInfo {
    ServerInfo::new(start, end, name, false, 12.5f64.to_bits(), vec![], None, peer.to_string())
}

fn vpk_info(mode: &str, endpoint: &str) -> VpkInfo {
    VpkInfo {
        mode: mode.to_string(),
        endpoint: endpoint.to_string(),
        capacity_gb_bits: 64.0f64.to_bits(),
        tenant_count: 3,
        vpk_version: "0.2.1".to_string(),
    }
}

#[test]
fn server_record_reads_back() {
    let bytes = server(8, 16, "node-a", "12D3KooWAbc").to_msgpack();
    let f = decode_server_info(&bytes).expect("record");
    assert_eq!(f.start_block, 8);
    assert_eq!(f.end_block, 16);
    assert_eq!(f.public_name, "node-a");
    assert_eq!(f.peer_id, "12D3KooWAbc");
}

#[test]
fn server_record_has_hivemind_shape() {
    let bytes = server(0, 4, "n", "p").to_msgpack();
    let outer = rmpv::decode::read_value(&mut &bytes[..]).unwrap();
    let (tag, inner) = outer.as_ext().unwrap();
    assert_eq!(tag, 64);
    let payload = rmpv::decode::read_value(&mut &inner[..]).unwrap();
    let arr = payload.as_array().unwrap();
    assert_eq!(arr.len(), 3);
    assert_eq!(arr[0].as_i64(), Some(2));
    assert_eq!(arr[1].as_f64(), Some(12.5));
    let keys: Vec<&str> = arr[2].as_map().unwrap().iter().map(|(k, _)| k.as_str().unwrap()).collect();
    assert_eq!(
        keys,
        vec![
            "start_block",
            "end_block",
            "public_name",
            "version",
            "torch_dtype",
            "using_relay",
            "cache_tokens_left",
            "adapters",
            "next_pings",
            "peer_id"
        ]
    );
}

#[test]
fn map_reads_node_as_announced() {
    let mut info = server(24, 32, "edge", "12D3KooWXyz");
    info.trust_attestations = vec!["{}".to_string(), "{}".to_string(), "{}".to_string()];
    info.vpk_info = Some(vpk_info("eve", "http://e"));
    let bytes = info.to_msgpack();
    let n = decode_node_record(&bytes, "unknown:x".to_string()).expect("node");
    assert_eq!(n.peer_id, "12D3KooWXyz");
    assert_eq!(n.trust_tier, "Verified");
    assert_eq!((n.start_block, n.end_block), (24, 32));
    assert_eq!(n.throughput, Number::Double(12.5f64.to_bits()));
    assert_eq!(n.public_name, "edge");
    assert_eq!(n.version, "kwaai-0.4.0");
    assert!(n.vpk);
}

#[test]
fn map_names_peerless_node_by_stand_in() {
    let bytes = server(0, 8, "old", "").to_msgpack();
    let n = decode_node_record(&bytes, "unknown:abc".to_string()).expect("node");
    assert_eq!(n.peer_id, "unknown:abc");
    assert_eq!(n.trust_tier, "Unknown");
    assert!(!n.vpk);
}

#[test]
fn wrong_envelope_is_not_a_server_record() {
    let inner = packed(&rmpv::Value::Array(vec![]));
    assert!(decode_server_info(&packed(&rmpv::Value::Ext(65, inner))).is_none());
    assert!(decode_server_info(&[0xc1]).is_none());
    let short = packed(&rmpv::Value::Array(vec![rmpv::Value::from(2), rmpv::Value::F64(1.0)]));
    assert!(decode_server_info(&packed(&rmpv::Value::Ext(64, short))).is_none());
}

#[test]
fn missing_block_range_is_not_a_server_record() {
    let fields = rmpv::Value::Map(vec![(rmpv::Value::from("start_block"), rmpv::Value::from(3))]);
    let inner = packed(&rmpv::Value::Array(vec![rmpv::Value::from(2), rmpv::Value::F64(1.0), fields]));
    assert!(decode_server_info(&packed(&rmpv::Value::Ext(64, inner))).is_none());
}

#[test]
fn dictionary_servers_read_string_and_packed_subkeys() {
    let a = server(0, 8, "a", "").to_msgpack();
    let b = server(8, 16, "b", "").to_msgpack();
    let bytes = dictionary(vec![
        rmpv::Value::Array(vec![
            rmpv::Value::Binary(packed_str("peerA")),
            rmpv::Value::Binary(a),
            rmpv::Value::F64(1.0),
        ]),
        rmpv::Value::Array(vec![rmpv::Value::from("peerB"), rmpv::Value::Binary(b.clone())]),
        rmpv::Value::Array(vec![rmpv::Value::from(""), rmpv::Value::Binary(b.clone())]),
        rmpv::Value::Array(vec![rmpv::Value::from("peerC"), rmpv::Value::from("not bytes")]),
        rmpv::Value::Array(vec![rmpv::Value::from("peerD")]),
    ]);
    let items = dictionary_servers(&bytes);
    let got: Vec<(String, usize, usize)> =
        items.iter().map(|(k, f)| (k.clone(), f.start_block, f.end_block)).collect();
    assert_eq!(got, vec![("peerA".to_string(), 0, 8), ("peerB".to_string(), 8, 16)]);
    assert!(dictionary_servers(&server(0, 1, "x", "").to_msgpack()).is_empty());
}

#[test]
fn dictionary_keeps_first_record_of_a_peer() {
    let items = vec![
        ("p1".to_string(), fields(0, 8, "first")),
        ("p2".to_string(), fields(8, 16, "bad id")),
        ("p1".to_string(), fields(16, 24, "second")),
    ];
    let peers = vec![Some(vec![1u8]), None, Some(vec![1u8])];
    let mut servers: Vec<(String, BlockServerEntry)> = Vec::new();
    add_dictionary_servers(&mut servers, items, peers);
    assert_eq!(servers.len(), 1);
    assert_eq!(servers[0].0, "p1");
    assert_eq!(servers[0].1.public_name, "first");
    assert_eq!(servers[0].1.peer_id, vec![1u8]);
}

fn fields(start: usize, end: usize, name: &str) -> ServerInfoFields {
    ServerInfoFields { start_block: start, end_block: end, public_name: name.to_string(), peer_id: String::new() }
}

#[test]
fn regular_entry_keys_by_peer_or_legacy_name() {
    let (key, e) = regular_server_entry(fields(8, 16, "old-node"), None, vec![9, 9]);
    assert_eq!(key, "legacy:old-node:8");
    assert_eq!(e.peer_id, vec![9, 9]);
    let (key, e) = regular_server_entry(fields(8, 16, "n"), Some(vec![0, 0, 1]), vec![9]);
    assert_eq!(key, "112");
    assert_eq!(e.peer_id, vec![0, 0, 1]);
    assert_eq!((e.start_block, e.end_block), (8, 16));
}

#[test]
fn insert_first_keeps_existing_key() {
    let mut v: Vec<(String, u32)> = Vec::new();
    insert_first(&mut v, "a".to_string(), 1);
    insert_first(&mut v, "b".to_string(), 2);
    insert_first(&mut v, "a".to_string(), 3);
    assert_eq!(v, vec![("a".to_string(), 1), ("b".to_string(), 2)]);
}

#[test]
fn model_prefixes_from_registry_subkeys() {
    let bytes = dictionary(vec![
        rmpv::Value::Array(vec![rmpv::Value::from("Llama-3-8B-hf"), rmpv::Value::Binary(vec![])]),
        rmpv::Value::Array(vec![rmpv::Value::Binary(packed_str("Mixtral-8x7B"))]),
        rmpv::Value::Array(vec![rmpv::Value::from("")]),
        rmpv::Value::Array(vec![]),
        rmpv::Value::Array(vec![rmpv::Value::from(7)]),
    ]);
    assert_eq!(
        dict_subkeys(&bytes),
        Some(vec!["Llama-3-8B-hf".to_string(), "Mixtral-8x7B".to_string()])
    );
    let spoiled = dictionary(vec![
        rmpv::Value::Array(vec![rmpv::Value::from("a")]),
        rmpv::Value::from("not an entry"),
    ]);
    assert_eq!(dict_subkeys(&spoiled), None);
    assert_eq!(dict_subkeys(&[0x90]), None);
}

#[test]
fn dictionary_nodes_take_subkey_as_peer() {
    let rec = server(0, 16, "n", "12D3KooWInner").to_msgpack();
    let bytes = dictionary(vec![rmpv::Value::Array(vec![
        rmpv::Value::Binary(packed_str("12D3KooWOuter")),
        rmpv::Value::Binary(rec),
    ])]);
    let nodes = dictionary_nodes(&bytes);
    assert_eq!(nodes.len(), 1);
    assert_eq!(nodes[0].0, "12D3KooWOuter");
    assert_eq!(nodes[0].1.peer_id, "12D3KooWOuter");
    assert_eq!((nodes[0].1.start_block, nodes[0].1.end_block), (0, 16));
}

#[test]
fn vpk_advertisement_reads_back() {
    let bytes = vpk_info("both", "https://vpk.example").to_msgpack_bytes();
    let n = decode_vpk_map(&bytes, "peerX".to_string()).expect("advertisement");
    assert_eq!(n.peer_id, "peerX");
    assert_eq!(n.mode, "both");
    assert_eq!(n.endpoint, "https://vpk.example");
    assert_eq!(n.capacity_gb, Number::Double(64.0f64.to_bits()));
    assert_eq!(n.tenant_count, 3);
    assert_eq!(n.vpk_version, "0.2.1");
    let r = parse_vpk_regular(&bytes).expect("regular");
    assert_eq!(r.peer_id, "unknown");
}

#[test]
fn vpk_map_without_mode_or_endpoint_is_none() {
    let m = rmpv::Value::Map(vec![(rmpv::Value::from("capacity_gb"), rmpv::Value::F64(1.0))]);
    assert!(decode_vpk_map(&packed(&m), "p".to_string()).is_none());
    assert!(decode_vpk_map(&packed(&rmpv::Value::from(1)), "p".to_string()).is_none());
}

#[test]
fn vpk_map_defaults_and_truncates() {
    let m = rmpv::Value::Map(vec![
        (rmpv::Value::from("mode"), rmpv::Value::from("eve")),
        (rmpv::Value::from("tenant_count"), rmpv::Value::from(0x1_0000_0005u64)),
        (rmpv::Value::from("capacity_gb"), rmpv::Value::from(7)),
    ]);
    let n = decode_vpk_map(&packed(&m), "p".to_string()).expect("advertisement");
    assert_eq!(n.endpoint, "unknown");
    assert_eq!(n.vpk_version, "unknown");
    assert_eq!(n.tenant_count, 5);
    assert_eq!(n.capacity_gb, Number::Unsigned(7));
}

#[test]
fn vpk_dictionary_keeps_first_advertisement_per_peer() {
    let a = vpk_info("bob", "http://a").to_msgpack_bytes();
    let b = vpk_info("eve", "http://b").to_msgpack_bytes();
    let bytes = dictionary(vec![
        rmpv::Value::Array(vec![rmpv::Value::from("p1"), rmpv::Value::Binary(a.clone())]),
        rmpv::Value::Array(vec![rmpv::Value::from("p1"), rmpv::Value::Binary(b.clone())]),
        rmpv::Value::Array(vec![rmpv::Value::Binary(packed_str("p2")), rmpv::Value::Binary(b.clone())]),
        rmpv::Value::Array(vec![rmpv::Value::from("p3"), rmpv::Value::Binary(b)]),
    ]);
    let mut out = Vec::new();
    add_vpk_node(&mut out, decode_vpk_map(&a, "p3".to_string()).unwrap());
    parse_vpk_dictionary(&bytes, &mut out);
    let got: Vec<(String, String)> = out.iter().map(|n| (n.peer_id.clone(), n.mode.clone())).collect();
    assert_eq!(got, vec![("p3".to_string(), "bob".to_string()), ("p1".to_string(), "bob".to_string())]);
}

#[test]
fn model_registry_entry_bytes() {
    let m = ModelInfo { num_blocks: 32, repository: "https://huggingface.co/unsloth/Llama-3-8B".to_string() };
    let expected = packed(&rmpv::Value::Map(vec![
        (rmpv::Value::from("repository"), rmpv::Value::from("https://huggingface.co/unsloth/Llama-3-8B")),
        (rmpv::Value::from("num_blocks"), rmpv::Value::from(32)),
    ]));
    assert_eq!(m.to_msgpack(), expected);
}

#[test]
fn chain_orders_by_start_block_stably() {
    let e = |s: usize, n: &str| BlockServerEntry {
        peer_id: vec![],
        start_block: s,
        end_block: s + 8,
        public_name: n.to_string(),
    };
    let servers = vec![
        ("a".to_string(), e(16, "a")),
        ("b".to_string(), e(0, "b")),
        ("c".to_string(), e(16, "c")),
        ("d".to_string(), e(8, "d")),
    ];
    assert_eq!(chain_order(&servers), vec![1, 3, 0, 2]);
    assert!(chain_order(&Vec::new()).is_empty());
}

#[test]
fn block_keys_cover_the_served_range() {
    let keys = announce_block_keys("Llama-3-8B-hf", 4, 7);
    assert_eq!(keys.len(), 3);
    assert_eq!(keys[0], block_dht_id("Llama-3-8B-hf", 4));
    assert_eq!(keys[2], block_dht_id("Llama-3-8B-hf", 6));
    assert!(announce_block_keys("p", 5, 5).is_empty());
    assert!(announce_block_keys("p", 6, 2).is_empty());
}

#[test]
fn subkeys_are_packed_strings() {
    assert_eq!(packed_text("abc"), vec![0xa3, b'a', b'b', b'c']);
    assert_eq!(packed_text("peerA"), packed_str("peerA"));
}

#[test]
fn discovery_keeps_first_record_per_peer_and_orders_chain() {
    let a = server(8, 16, "a", "112").to_msgpack();
    let old = server(0, 8, "old", "").to_msgpack();
    let dup = dictionary(vec![rmpv::Value::Array(vec![
        rmpv::Value::from("112"),
        rmpv::Value::Binary(server(16, 24, "dup", "").to_msgpack()),
    ])]);
    let unparsed = dictionary(vec![rmpv::Value::Array(vec![
        rmpv::Value::from("zz"),
        rmpv::Value::Binary(server(24, 32, "z", "").to_msgpack()),
    ])]);
    let answers = vec![(1, a), (1, old), (2, dup), (2, unparsed), (3, vec![1u8]), (1, vec![])];
    let parsed = vec![("112".to_string(), vec![0u8, 0, 1])];
    let (servers, order) = discover_servers(&answers, &parsed, &vec![7u8]);
    let keys: Vec<&str> = servers.iter().map(|(k, _)| k.as_str()).collect();
    assert_eq!(keys, vec!["112", "legacy:old:0"]);
    assert_eq!(servers[0].1.public_name, "a");
    assert_eq!(servers[0].1.peer_id, vec![0, 0, 1]);
    assert_eq!(servers[1].1.peer_id, vec![7]);
    assert_eq!(order, vec![1, 0]);
}

#[test]
fn regular_answer_keys_by_parsed_peer_or_legacy_name() {
    let peer = libp2p::identity::Keypair::generate_ed25519().public().to_peer_id();
    let b58 = peer.to_base58();
    let bytes = server(4, 12, "node-b", &b58).to_msgpack();
    let (key, entry) = kwaainet::records::decode_server_info_regular(&bytes, vec![9]).expect("server record");
    assert_eq!(key, b58);
    assert_eq!(entry.peer_id, peer.to_bytes());
    assert_eq!((entry.start_block, entry.end_block), (4, 12));
    assert_eq!(entry.public_name, "node-b");

    let legacy = server(3, 5, "old", "").to_msgpack();
    let (key, entry) = kwaainet::records::decode_server_info_regular(&legacy, vec![9]).expect("server record");
    assert_eq!(key, "legacy:old:3");
    assert_eq!(entry.peer_id, vec![9]);

    assert!(kwaainet::records::decode_server_info_regular(&packed_str("x"), vec![9]).is_none());
}
