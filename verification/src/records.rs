//! Reading the DHT records that block servers and VPK nodes publish.
//!
//! A single value (a "regular" answer) is `Ext(64, [state, throughput,
//! {fields}])` for a block server, or a plain map for a VPK node.  A
//! dictionary answer is `Ext(80, [expiry, created, [[subkey, value,
//! expiry], ...]])`, where each subkey names a peer and each value is a
//! record of its own, as bytes.

use vstd::prelude::*;

use crate::credential::{tier_from_vc_count, tier_spec};
use crate::did::{base58_spec, to_base58};
use crate::fmt::{dec_spec, push_all, push_dec, push_lit};
use crate::msgpack::{
    elems_model, field, int_field, key_index, key_index_from, lemma_array_model,
    lemma_pairs_model, msgpack_decoding, opt_model, pairs_model, read_msgpack, text_field, text_in,
    text_of, text_or_empty, text_value, MsgModel, MsgValue, int_in,
};
use crate::rebalancer::BlockServerEntry;
use crate::text::{chars_of, string_of};

verus! {

// ── Envelopes ─────────────────────────────────────────────────────────────

/// The payload of a record `Ext(tag, inner)`: `inner` read again.
pub open spec fn ext_payload_spec(bytes: Seq<u8>, tag: i8) -> Option<MsgModel> {
    match msgpack_decoding(bytes) {
        Some(MsgModel::Ext(t, inner)) => if t == tag {
            msgpack_decoding(inner)
        } else {
            None
        },
        _ => None,
    }
}

/// Reads the payload of a record `Ext(tag, inner)`.
pub fn ext_payload(bytes: &[u8], tag: i8) -> (r: Option<MsgValue>)
    ensures
        opt_model(r) == ext_payload_spec(bytes@, tag),
{
    match read_msgpack(bytes) {
        Some(MsgValue::Ext(t, inner)) => if t == tag {
            read_msgpack(inner.as_slice())
        } else {
            None
        },
        _ => None,
    }
}

/// The entries of a dictionary record, `Ext(80, [_, _, entries, ..])`.
pub open spec fn dictionary_entries_spec(bytes: Seq<u8>) -> Option<Seq<MsgModel>> {
    match ext_payload_spec(bytes, 80) {
        Some(MsgModel::Array(a)) => if a.len() >= 3 {
            match a[2] {
                MsgModel::Array(e) => Some(e),
                _ => None,
            }
        } else {
            None
        },
        _ => None,
    }
}

/// Reads the entries of a dictionary record.
pub fn dictionary_entries(bytes: &[u8]) -> (r: Option<Vec<MsgValue>>)
    ensures
        match r {
            Some(e) => dictionary_entries_spec(bytes@) == Some(elems_model(e)),
            None => dictionary_entries_spec(bytes@) is None,
        },
{
    let mut a = match ext_payload(bytes, 80) {
        Some(MsgValue::Array(a)) => a,
        _ => return None,
    };
    proof {
        lemma_array_model(a);
    }
    if a.len() < 3 {
        return None;
    }
    let ghost whole = a;
    assert(elems_model(whole)[2] == whole[2]@);
    let third = a.swap_remove(2);
    match third {
        MsgValue::Array(e) => {
            proof {
                lemma_array_model(e);
            }
            Some(e)
        },
        _ => None,
    }
}

/// The text of a dictionary subkey: a string, or binary bytes holding a
/// MessagePack string; a string that is not UTF-8 reads as empty text.
pub open spec fn subkey_text_spec(k: MsgModel) -> Option<Seq<char>> {
    match k {
        MsgModel::Str(_) => Some(text_or_empty(k)),
        MsgModel::Binary(b) => match msgpack_decoding(b) {
            Some(MsgModel::Str(s)) => Some(text_or_empty(MsgModel::Str(s))),
            _ => None,
        },
        _ => None,
    }
}

/// Reads the text of a dictionary subkey.
pub fn subkey_text(k: &MsgValue) -> (r: Option<String>)
    ensures
        match r {
            Some(t) => subkey_text_spec(k@) == Some(t@),
            None => subkey_text_spec(k@) is None,
        },
{
    match k {
        MsgValue::Str(_) => match text_value(k) {
            Some(t) => Some(t),
            None => Some(String::new()),
        },
        MsgValue::Binary(b) => match read_msgpack(b.as_slice()) {
            Some(inner) => match inner {
                MsgValue::Str(_) => match text_value(&inner) {
                    Some(t) => Some(t),
                    None => Some(String::new()),
                },
                _ => None,
            },
            None => None,
        },
        _ => None,
    }
}

// ── Block servers ─────────────────────────────────────────────────────────

/// What a block server's record states of it.
pub struct ServerInfoFields {
    pub start_block: usize,
    pub end_block: usize,
    pub public_name: String,
    /// The base58 peer id; empty for servers older than the field.
    pub peer_id: String,
}

impl View for ServerInfoFields {
    type V = (int, int, Seq<char>, Seq<char>);

    open spec fn view(&self) -> (int, int, Seq<char>, Seq<char>) {
        (self.start_block as int, self.end_block as int, self.public_name@, self.peer_id@)
    }
}

/// The fields of a server record `Ext(64, [state, throughput, {fields}])`:
/// the integers `start_block` and `end_block`, which must be there, taken
/// as `usize`, and the texts `public_name` and `peer_id`, empty where
/// absent.
pub open spec fn server_info_spec(bytes: Seq<u8>) -> Option<(int, int, Seq<char>, Seq<char>)> {
    match ext_payload_spec(bytes, 64) {
        Some(MsgModel::Array(a)) => if a.len() >= 3 {
            match a[2] {
                MsgModel::Pairs(m) => match (int_field(m, "start_block"@), int_field(m, "end_block"@)) {
                    (Some(s), Some(e)) => Some(
                        (
                            (s as usize) as int,
                            (e as usize) as int,
                            text_field(m, "public_name"@),
                            text_field(m, "peer_id"@),
                        ),
                    ),
                    _ => None,
                },
                _ => None,
            }
        } else {
            None
        },
        _ => None,
    }
}

/// Reads a block server's record.
pub fn decode_server_info(bytes: &[u8]) -> (r: Option<ServerInfoFields>)
    ensures
        match r {
            Some(f) => server_info_spec(bytes@) == Some(f@),
            None => server_info_spec(bytes@) is None,
        },
{
    let a = match ext_payload(bytes, 64) {
        Some(MsgValue::Array(a)) => a,
        _ => return None,
    };
    proof {
        lemma_array_model(a);
    }
    if a.len() < 3 {
        return None;
    }
    assert(elems_model(a)[2] == a[2]@);
    let m = match &a[2] {
        MsgValue::Pairs(m) => m,
        _ => return None,
    };
    proof {
        lemma_pairs_model(*m);
    }
    let start = match int_in(m, "start_block") {
        Some(s) => s,
        None => return None,
    };
    let end = match int_in(m, "end_block") {
        Some(e) => e,
        None => return None,
    };
    let public_name = text_in(m, "public_name");
    let peer_id = text_in(m, "peer_id");
    Some(ServerInfoFields { start_block: start as usize, end_block: end as usize, public_name, peer_id })
}

/// The `(peer id, fields)` that one dictionary entry gives: an array of at
/// least two, whose subkey reads as non-empty text and whose value is
/// binary bytes holding a server record.
pub open spec fn server_item_spec(entry: MsgModel) -> Option<(Seq<char>, (int, int, Seq<char>, Seq<char>))> {
    match entry {
        MsgModel::Array(arr) => if arr.len() >= 2 {
            match (subkey_text_spec(arr[0]), arr[1]) {
                (Some(peer), MsgModel::Binary(v)) => if peer.len() == 0 {
                    None
                } else {
                    match server_info_spec(v) {
                        Some(f) => Some((peer, f)),
                        None => None,
                    }
                },
                _ => None,
            }
        } else {
            None
        },
        _ => None,
    }
}

/// The items of the entries, in order, skipping those that give none.
pub open spec fn server_items(entries: Seq<MsgModel>) -> Seq<(Seq<char>, (int, int, Seq<char>, Seq<char>))>
    decreases entries.len(),
{
    if entries.len() == 0 {
        Seq::empty()
    } else {
        let rest = server_items(entries.drop_last());
        match server_item_spec(entries.last()) {
            Some(x) => rest.push(x),
            None => rest,
        }
    }
}

/// The server items of a dictionary record; none where it is not one.
pub open spec fn dictionary_servers_spec(bytes: Seq<u8>) -> Seq<(Seq<char>, (int, int, Seq<char>, Seq<char>))> {
    match dictionary_entries_spec(bytes) {
        Some(e) => server_items(e),
        None => Seq::empty(),
    }
}

/// The views of `(peer id, fields)` items.
pub open spec fn server_items_view(v: Seq<(String, ServerInfoFields)>) -> Seq<(Seq<char>, (int, int, Seq<char>, Seq<char>))> {
    Seq::new(v.len(), |i: int| (v[i].0@, v[i].1@))
}

/// Reads one dictionary entry as a server item.
pub fn server_item(entry: &MsgValue) -> (r: Option<(String, ServerInfoFields)>)
    ensures
        match r {
            Some(x) => server_item_spec(entry@) == Some((x.0@, x.1@)),
            None => server_item_spec(entry@) is None,
        },
{
    let arr = match entry {
        MsgValue::Array(arr) => arr,
        _ => return None,
    };
    proof {
        lemma_array_model(*arr);
    }
    if arr.len() < 2 {
        return None;
    }
    assert(elems_model(*arr)[0] == arr[0]@);
    assert(elems_model(*arr)[1] == arr[1]@);
    let peer = match subkey_text(&arr[0]) {
        Some(p) => p,
        None => return None,
    };
    let value = match &arr[1] {
        MsgValue::Binary(v) => v,
        _ => return None,
    };
    if peer.as_str().is_empty() {
        return None;
    }
    match decode_server_info(value.as_slice()) {
        Some(f) => Some((peer, f)),
        None => None,
    }
}

/// The server items of a dictionary record (`decode_server_info_dictionary`
/// up to the peer-id check, which the caller makes).
pub fn dictionary_servers(bytes: &[u8]) -> (r: Vec<(String, ServerInfoFields)>)
    ensures
        server_items_view(r@) == dictionary_servers_spec(bytes@),
{
    let mut out: Vec<(String, ServerInfoFields)> = Vec::new();
    let entries = match dictionary_entries(bytes) {
        Some(e) => e,
        None => {
            assert(server_items_view(out@) =~= Seq::empty());
            return out;
        },
    };
    let ghost es = elems_model(entries);
    let mut i: usize = 0;
    while i < entries.len()
        invariant
            i <= entries.len(),
            es == elems_model(entries),
            dictionary_entries_spec(bytes@) == Some(es),
            server_items_view(out@) == server_items(es.take(i as int)),
        decreases entries.len() - i,
    {
        assert(es.take(i as int + 1).drop_last() =~= es.take(i as int));
        assert(es.take(i as int + 1).last() == entries[i as int]@);
        match server_item(&entries[i]) {
            Some(x) => {
                let ghost before = out@;
                let ghost xv = (x.0@, x.1@);
                out.push(x);
                assert(server_items_view(out@) =~= server_items_view(before).push(xv));
            },
            None => {},
        }
        i = i + 1;
    }
    assert(es.take(entries.len() as int) =~= es);
    out
}

/// Adds `(key, value)` unless an item with the same key is already there,
/// as `HashMap::entry(key).or_insert(value)` does.
pub fn insert_first<T>(out: &mut Vec<(String, T)>, key: String, value: T)
    ensures
        (exists|i: int| 0 <= i < old(out)@.len() && #[trigger] old(out)@[i].0@ == key@)
            ==> final(out)@ == old(out)@,
        (forall|i: int| 0 <= i < old(out)@.len() ==> #[trigger] old(out)@[i].0@ != key@)
            ==> final(out)@ == old(out)@.push((key, value)),
{
    let mut i: usize = 0;
    while i < out.len()
        invariant
            i <= out.len(),
            out@ == old(out)@,
            forall|j: int| 0 <= j < i ==> #[trigger] out@[j].0@ != key@,
        decreases out.len() - i,
    {
        if out[i].0 == key {
            return;
        }
        i = i + 1;
    }
    out.push((key, value));
}

/// The key and record of a single-value answer from a block server: keyed
/// by its peer id where `peer` (the parsed peer id's bytes) is given, else
/// by `legacy:{public_name}:{start_block}` with the stand-in peer.
pub fn regular_server_entry(fields: ServerInfoFields, peer: Option<Vec<u8>>, stand_in: Vec<u8>) -> (r: (
    String,
    BlockServerEntry,
))
    ensures
        r.0@ == match peer {
            Some(p) => base58_spec(p@),
            None => "legacy:"@ + fields.public_name@ + ":"@ + dec_spec(fields.start_block as nat),
        },
        r.1.peer_id@ == match peer {
            Some(p) => p@,
            None => stand_in@,
        },
        r.1.start_block == fields.start_block,
        r.1.end_block == fields.end_block,
        r.1.public_name@ == fields.public_name@,
{
    let (key, peer_id) = match peer {
        Some(p) => (to_base58(&p), p),
        None => {
            let mut k: Vec<char> = Vec::new();
            push_lit(&mut k, "legacy:");
            let name = chars_of(fields.public_name.as_str());
            push_all(&mut k, &name);
            push_lit(&mut k, ":");
            push_dec(&mut k, fields.start_block as u64);
            (string_of(&k), stand_in)
        },
    };
    (
        key,
        BlockServerEntry {
            peer_id,
            start_block: fields.start_block,
            end_block: fields.end_block,
            public_name: fields.public_name,
        },
    )
}

/// The view of a block server's record.
pub open spec fn entry_view(e: BlockServerEntry) -> (Seq<u8>, int, int, Seq<char>) {
    (e.peer_id@, e.start_block as int, e.end_block as int, e.public_name@)
}

/// The views of keyed block-server records.
pub open spec fn servers_view(v: Seq<(String, BlockServerEntry)>) -> Seq<(Seq<char>, (Seq<u8>, int, int, Seq<char>))> {
    Seq::new(v.len(), |i: int| (v[i].0@, entry_view(v[i].1)))
}

/// `s` with `(key, v)` added unless `key` is there already.
pub open spec fn insert_first_spec<V>(s: Seq<(Seq<char>, V)>, key: Seq<char>, v: V) -> Seq<(Seq<char>, V)> {
    if exists|i: int| 0 <= i < s.len() && #[trigger] s[i].0 == key {
        s
    } else {
        s.push((key, v))
    }
}

/// The records after adding the server items whose peer id parsed
/// (`peers[i]` is `Some`), in order, the first record of a peer kept.
pub open spec fn add_servers_spec(
    base: Seq<(Seq<char>, (Seq<u8>, int, int, Seq<char>))>,
    items: Seq<(Seq<char>, (int, int, Seq<char>, Seq<char>))>,
    peers: Seq<Option<Seq<u8>>>,
) -> Seq<(Seq<char>, (Seq<u8>, int, int, Seq<char>))>
    decreases items.len(),
{
    if items.len() == 0 {
        base
    } else {
        let rest = add_servers_spec(base, items.drop_last(), peers.drop_last());
        let (key, f) = items.last();
        match peers[items.len() - 1] {
            Some(p) => insert_first_spec(rest, key, (p, f.0, f.1, f.2)),
            None => rest,
        }
    }
}

/// The views of parsed peer ids.
pub open spec fn peers_view(v: Seq<Option<Vec<u8>>>) -> Seq<Option<Seq<u8>>> {
    Seq::new(
        v.len(),
        |i: int|
            match v[i] {
                Some(p) => Some(p@),
                None => None,
            },
    )
}

/// Adds one keyed record unless its key is there already.
pub fn insert_server(servers: &mut Vec<(String, BlockServerEntry)>, key: String, entry: BlockServerEntry)
    ensures
        servers_view(final(servers)@) == insert_first_spec(servers_view(old(servers)@), key@, entry_view(entry)),
{
    let ghost before = servers@;
    let ghost k = key@;
    let ghost ev = entry_view(entry);
    insert_first(servers, key, entry);
    proof {
        let sv = servers_view(before);
        if exists|i: int| 0 <= i < sv.len() && #[trigger] sv[i].0 == k {
            let i = choose|i: int| 0 <= i < sv.len() && #[trigger] sv[i].0 == k;
            assert(before[i].0@ == k);
        } else {
            assert forall|i: int| 0 <= i < before.len() implies #[trigger] before[i].0@ != k by {
                assert(sv[i].0 == before[i].0@);
            }
            assert(servers_view(servers@) =~= sv.push((k, ev)));
        }
    }
}

/// Adds the server items of a dictionary answer to `servers`, keyed by
/// peer id, the first record of a peer kept: `peers[i]` holds the bytes of
/// item `i`'s peer id where that parses, and an item whose id does not
/// parse is left out.
pub fn add_dictionary_servers(
    servers: &mut Vec<(String, BlockServerEntry)>,
    items: Vec<(String, ServerInfoFields)>,
    peers: Vec<Option<Vec<u8>>>,
)
    requires
        items.len() == peers.len(),
    ensures
        servers_view(final(servers)@) == add_servers_spec(
            servers_view(old(servers)@),
            server_items_view(items@),
            peers_view(peers@),
        ),
{
    let ghost base = servers_view(servers@);
    let ghost all_items = items@;
    let ghost all_peers = peers@;
    let mut items = items;
    let mut peers = peers;
    let mut i: usize = 0;
    while items.len() > 0
        invariant
            all_items.len() == all_peers.len(),
            all_items.len() <= usize::MAX,
            i <= all_items.len(),
            items@ == all_items.skip(i as int),
            peers@ == all_peers.skip(i as int),
            servers_view(servers@) == add_servers_spec(
                base,
                server_items_view(all_items.take(i as int)),
                peers_view(all_peers.take(i as int)),
            ),
        decreases items.len(),
    {
        let (key, f) = items.remove(0);
        let p = peers.remove(0);
        let ghost iv = server_items_view(all_items.take(i as int + 1));
        let ghost pv = peers_view(all_peers.take(i as int + 1));
        assert(iv.drop_last() =~= server_items_view(all_items.take(i as int)));
        assert(pv.drop_last() =~= peers_view(all_peers.take(i as int)));
        assert(all_items[i as int] == (key, f));
        assert(iv.last() == (key@, f@));
        match p {
            Some(bytes) => {
                assert(pv[i as int] == Some(bytes@));
                let entry = BlockServerEntry {
                    peer_id: bytes,
                    start_block: f.start_block,
                    end_block: f.end_block,
                    public_name: f.public_name,
                };
                insert_server(servers, key, entry);
            },
            None => {
                assert(pv[i as int] is None);
            },
        }
        i = i + 1;
    }
    assert(all_items.take(i as int) =~= all_items);
    assert(all_peers.take(i as int) =~= all_peers);
}

/// Record `a` comes before record `b` in the chain: it starts earlier, or
/// at the same block and was found first.
pub open spec fn starts_before(servers: Seq<(String, BlockServerEntry)>, a: int, b: int) -> bool {
    servers[a].1.start_block < servers[b].1.start_block || (servers[a].1.start_block
        == servers[b].1.start_block && a < b)
}

/// The order of the chain that block-server records form: every record
/// once, by the block it starts at, records starting at the same block in
/// the order they were found.
pub fn chain_order(servers: &Vec<(String, BlockServerEntry)>) -> (r: Vec<usize>)
    ensures
        r@.len() == servers@.len(),
        forall|k: int| 0 <= k < r@.len() ==> (r@[k] as int) < servers@.len(),
        forall|i: usize| (i as int) < servers@.len() ==> #[trigger] r@.contains(i),
        forall|k: int, m: int| 0 <= k < m < r@.len() ==> starts_before(servers@, r@[k] as int, r@[m] as int),
{
    let mut r: Vec<usize> = Vec::new();
    let mut i: usize = 0;
    while i < servers.len()
        invariant
            i <= servers.len(),
            r@.len() == i,
            forall|k: int| 0 <= k < r@.len() ==> (r@[k] as int) < i,
            forall|j: usize| j < i ==> #[trigger] r@.contains(j),
            forall|k: int, m: int| 0 <= k < m < r@.len() ==> starts_before(servers@, r@[k] as int, r@[m] as int),
        decreases servers.len() - i,
    {
        // Insert `i` after every record that starts at or before it.
        let start_i = servers[i].1.start_block;
        let mut at: usize = 0;
        while at < r.len() && servers[r[at]].1.start_block <= start_i
            invariant
                at <= r.len(),
                i < servers.len(),
                start_i == servers@[i as int].1.start_block,
                forall|k: int| 0 <= k < r@.len() ==> (r@[k] as int) < i,
                forall|k: int| 0 <= k < at ==> servers@[r@[k] as int].1.start_block <= start_i,
            decreases r.len() - at,
        {
            at = at + 1;
        }
        let ghost before = r@;
        r.insert(at, i);
        proof {
            assert(r@ =~= before.subrange(0, at as int).push(i) + before.subrange(at as int, before.len() as int));
            assert forall|k: int, m: int| 0 <= k < m < r@.len() implies starts_before(
                servers@,
                r@[k] as int,
                r@[m] as int,
            ) by {
                if m < at {
                    assert(r@[k] == before[k] && r@[m] == before[m]);
                } else if m == at {
                    assert(r@[k] == before[k]);
                } else if k == at {
                    assert(r@[m] == before[m - 1]);
                    if m - 1 > at {
                        assert(starts_before(servers@, before[at as int] as int, before[m - 1] as int));
                    }
                } else if k < at {
                    assert(r@[k] == before[k] && r@[m] == before[m - 1]);
                } else {
                    assert(r@[k] == before[k - 1] && r@[m] == before[m - 1]);
                }
            }
            assert forall|j: usize| j <= i implies #[trigger] r@.contains(j) by {
                if j == i {
                    assert(r@[at as int] == i);
                } else {
                    assert(before.contains(j));
                    let k = choose|k: int| 0 <= k < before.len() && before[k] == j;
                    if k < at {
                        assert(r@[k] == before[k]);
                    } else {
                        assert(r@[k + 1] == before[k]);
                    }
                }
            }
            assert forall|k: int| 0 <= k < r@.len() implies (r@[k] as int) < i + 1 by {
                if k < at {
                    assert(r@[k] == before[k]);
                } else if k > at {
                    assert(r@[k] == before[k - 1]);
                }
            }
        }
        i = i + 1;
    }
    r
}

// ── Discovering the chain ─────────────────────────────────────────────────

/// The texts and bytes of the peer ids that parse.
pub open spec fn parsed_view(v: Seq<(String, Vec<u8>)>) -> Seq<(Seq<char>, Seq<u8>)> {
    Seq::new(v.len(), |i: int| (v[i].0@, v[i].1@))
}

/// The bytes of the first parsed peer id at or after `i` whose text is `id`.
pub open spec fn lookup_from(parsed: Seq<(Seq<char>, Seq<u8>)>, id: Seq<char>, i: int) -> Option<Seq<u8>>
    decreases parsed.len() - i,
{
    if i < 0 || i >= parsed.len() {
        None
    } else if parsed[i].0 == id {
        Some(parsed[i].1)
    } else {
        lookup_from(parsed, id, i + 1)
    }
}

/// The bytes of the peer id `id`, where it parses.
pub open spec fn lookup_peer(parsed: Seq<(Seq<char>, Seq<u8>)>, id: Seq<char>) -> Option<Seq<u8>> {
    lookup_from(parsed, id, 0)
}

/// A copy of `v`.
pub fn copy_bytes(v: &Vec<u8>) -> (r: Vec<u8>)
    ensures
        r@ == v@,
{
    let mut r: Vec<u8> = Vec::new();
    let mut i: usize = 0;
    while i < v.len()
        invariant
            i <= v.len(),
            r@ == v@.take(i as int),
        decreases v.len() - i,
    {
        r.push(v[i]);
        i = i + 1;
        assert(r@ =~= v@.take(i as int));
    }
    assert(v@.take(i as int) =~= v@);
    r
}

/// Looks up the bytes of the peer id `id` among those that parse.
pub fn find_peer(parsed: &Vec<(String, Vec<u8>)>, id: &String) -> (r: Option<Vec<u8>>)
    ensures
        match r {
            Some(p) => lookup_peer(parsed_view(parsed@), id@) == Some(p@),
            None => lookup_peer(parsed_view(parsed@), id@) is None,
        },
{
    let ghost pv = parsed_view(parsed@);
    let mut i: usize = 0;
    while i < parsed.len()
        invariant
            i <= parsed.len(),
            pv == parsed_view(parsed@),
            lookup_from(pv, id@, 0) == lookup_from(pv, id@, i as int),
        decreases parsed.len() - i,
    {
        assert(pv[i as int] == (parsed@[i as int].0@, parsed@[i as int].1@));
        if parsed[i].0 == *id {
            return Some(copy_bytes(&parsed[i].1));
        }
        i = i + 1;
    }
    None
}

/// The key and record of a single-value answer (`decode_server_info_regular`):
/// the server fields read from the bytes, keyed by the base58 form of the
/// peer id libp2p parses from its text, or by
/// `legacy:{public_name}:{start_block}` with the stand-in peer where it does
/// not parse; `None` where the bytes hold no server record.
pub fn decode_server_info_regular(bytes: &[u8], stand_in: Vec<u8>) -> (r: Option<(String, BlockServerEntry)>)
    ensures
        match server_info_spec(bytes@) {
            None => r is None,
            Some(f) => r matches Some(e) && {
                let peer = crate::did::peer_id_parse(f.3);
                &&& e.0@ == regular_key_spec(f, peer)
                &&& e.1.peer_id@ == (match peer {
                    Some(p) => p,
                    None => stand_in@,
                })
                &&& e.1.start_block as int == f.0
                &&& e.1.end_block as int == f.1
                &&& e.1.public_name@ == f.2
            },
        },
{
    let f = match decode_server_info(bytes) {
        Some(f) => f,
        None => return None,
    };
    let peer = crate::did::parse_peer_id(f.peer_id.as_str());
    Some(regular_server_entry(f, peer, stand_in))
}

/// The key of a single-value answer: the peer id in base58 where it
/// parses, else `legacy:{public_name}:{start_block}`.
pub open spec fn regular_key_spec(f: (int, int, Seq<char>, Seq<char>), peer: Option<Seq<u8>>) -> Seq<char> {
    match peer {
        Some(p) => base58_spec(p),
        None => "legacy:"@ + f.2 + ":"@ + dec_spec(f.0 as nat),
    }
}

/// The records after one answer of a DHT find: a single value (result
/// type 1) adds its server under its key, a dictionary (result type 2) adds
/// the servers whose peer ids parse, and an empty value or another type adds
/// nothing; the first record of a key is kept.
pub open spec fn answer_step(
    s: Seq<(Seq<char>, (Seq<u8>, int, int, Seq<char>))>,
    rt: i32,
    value: Seq<u8>,
    parsed: Seq<(Seq<char>, Seq<u8>)>,
    stand_in: Seq<u8>,
) -> Seq<(Seq<char>, (Seq<u8>, int, int, Seq<char>))> {
    if value.len() == 0 {
        s
    } else if rt == 1 {
        match server_info_spec(value) {
            Some(f) => {
                let peer = lookup_peer(parsed, f.3);
                insert_first_spec(
                    s,
                    regular_key_spec(f, peer),
                    (
                        match peer {
                            Some(p) => p,
                            None => stand_in,
                        },
                        f.0,
                        f.1,
                        f.2,
                    ),
                )
            },
            None => s,
        }
    } else if rt == 2 {
        let items = dictionary_servers_spec(value);
        add_servers_spec(s, items, Seq::new(items.len(), |i: int| lookup_peer(parsed, items[i].0)))
    } else {
        s
    }
}

/// The records after the answers, in order.
pub open spec fn answers_fold(
    s: Seq<(Seq<char>, (Seq<u8>, int, int, Seq<char>))>,
    answers: Seq<(i32, Seq<u8>)>,
    parsed: Seq<(Seq<char>, Seq<u8>)>,
    stand_in: Seq<u8>,
) -> Seq<(Seq<char>, (Seq<u8>, int, int, Seq<char>))>
    decreases answers.len(),
{
    if answers.len() == 0 {
        s
    } else {
        answer_step(
            answers_fold(s, answers.drop_last(), parsed, stand_in),
            answers.last().0,
            answers.last().1,
            parsed,
            stand_in,
        )
    }
}

/// The views of answers.
pub open spec fn answers_view(v: Seq<(i32, Vec<u8>)>) -> Seq<(i32, Seq<u8>)> {
    Seq::new(v.len(), |i: int| (v[i].0, v[i].1@))
}

/// No two records share a key.
pub open spec fn keys_distinct<V>(s: Seq<(Seq<char>, V)>) -> bool {
    forall|i: int, j: int| 0 <= i < j < s.len() ==> #[trigger] s[i].0 != #[trigger] s[j].0
}

/// Adding a record keeps keys distinct.
pub proof fn lemma_insert_first_distinct<V>(s: Seq<(Seq<char>, V)>, key: Seq<char>, v: V)
    requires
        keys_distinct(s),
    ensures
        keys_distinct(insert_first_spec(s, key, v)),
{
    if !(exists|i: int| 0 <= i < s.len() && #[trigger] s[i].0 == key) {
        let t = s.push((key, v));
        assert forall|i: int, j: int| 0 <= i < j < t.len() implies #[trigger] t[i].0 != #[trigger] t[j].0 by {
            if j == s.len() {
                assert(t[i] == s[i]);
            } else {
                assert(t[i] == s[i] && t[j] == s[j]);
            }
        }
    }
}

/// Adding dictionary servers keeps keys distinct.
pub proof fn lemma_add_servers_distinct(
    base: Seq<(Seq<char>, (Seq<u8>, int, int, Seq<char>))>,
    items: Seq<(Seq<char>, (int, int, Seq<char>, Seq<char>))>,
    peers: Seq<Option<Seq<u8>>>,
)
    requires
        keys_distinct(base),
    ensures
        keys_distinct(add_servers_spec(base, items, peers)),
    decreases items.len(),
{
    if items.len() > 0 {
        lemma_add_servers_distinct(base, items.drop_last(), peers.drop_last());
        let rest = add_servers_spec(base, items.drop_last(), peers.drop_last());
        let (key, f) = items.last();
        if let Some(p) = peers[items.len() - 1] {
            lemma_insert_first_distinct(rest, key, (p, f.0, f.1, f.2));
        }
    }
}

/// The answers keep keys distinct.
pub proof fn lemma_answers_distinct(
    s: Seq<(Seq<char>, (Seq<u8>, int, int, Seq<char>))>,
    answers: Seq<(i32, Seq<u8>)>,
    parsed: Seq<(Seq<char>, Seq<u8>)>,
    stand_in: Seq<u8>,
)
    requires
        keys_distinct(s),
    ensures
        keys_distinct(answers_fold(s, answers, parsed, stand_in)),
    decreases answers.len(),
{
    if answers.len() > 0 {
        lemma_answers_distinct(s, answers.drop_last(), parsed, stand_in);
        let rest = answers_fold(s, answers.drop_last(), parsed, stand_in);
        let (rt, value) = answers.last();
        if value.len() != 0 {
            if rt == 1 {
                if let Some(f) = server_info_spec(value) {
                    let peer = lookup_peer(parsed, f.3);
                    lemma_insert_first_distinct(
                        rest,
                        regular_key_spec(f, peer),
                        (
                            match peer {
                                Some(p) => p,
                                None => stand_in,
                            },
                            f.0,
                            f.1,
                            f.2,
                        ),
                    );
                }
            } else if rt == 2 {
                let items = dictionary_servers_spec(value);
                lemma_add_servers_distinct(
                    rest,
                    items,
                    Seq::new(items.len(), |i: int| lookup_peer(parsed, items[i].0)),
                );
            }
        }
    }
}

/// The block servers that the answers of a DHT find name, and the order of
/// their chain (`discover_chain`): each answer in turn adds its servers,
/// keyed by peer id (`legacy:{name}:{start}` for a single-value answer
/// whose peer id does not parse, with the stand-in peer), the first record
/// of a key kept; `parsed` holds the peer ids that parse, with their bytes.
/// No two records share a key, and the order lists every record once, by
/// start block, records starting together in the order they were found.
pub fn discover_servers(
    answers: &Vec<(i32, Vec<u8>)>,
    parsed: &Vec<(String, Vec<u8>)>,
    stand_in: &Vec<u8>,
) -> (r: (Vec<(String, BlockServerEntry)>, Vec<usize>))
    ensures
        servers_view(r.0@) == answers_fold(
            Seq::empty(),
            answers_view(answers@),
            parsed_view(parsed@),
            stand_in@,
        ),
        keys_distinct(servers_view(r.0@)),
        r.1@.len() == r.0@.len(),
        forall|k: int| 0 <= k < r.1@.len() ==> (r.1@[k] as int) < r.0@.len(),
        forall|i: usize| (i as int) < r.0@.len() ==> #[trigger] r.1@.contains(i),
        forall|k: int, m: int| 0 <= k < m < r.1@.len() ==> starts_before(r.0@, r.1@[k] as int, r.1@[m] as int),
{
    let mut servers: Vec<(String, BlockServerEntry)> = Vec::new();
    let ghost av = answers_view(answers@);
    let ghost pv = parsed_view(parsed@);
    assert(servers_view(servers@) =~= Seq::empty());
    let mut i: usize = 0;
    while i < answers.len()
        invariant
            i <= answers.len(),
            av == answers_view(answers@),
            pv == parsed_view(parsed@),
            servers_view(servers@) == answers_fold(Seq::empty(), av.take(i as int), pv, stand_in@),
        decreases answers.len() - i,
    {
        assert(av.take(i as int + 1).drop_last() =~= av.take(i as int));
        assert(av.take(i as int + 1).last() == (answers@[i as int].0, answers@[i as int].1@));
        let rt = answers[i].0;
        let value = &answers[i].1;
        if value.len() != 0 {
            if rt == 1 {
                match decode_server_info(value.as_slice()) {
                    Some(f) => {
                        let peer = find_peer(parsed, &f.peer_id);
                        let ghost fv = f@;
                        let ghost peer_v = match peer {
                            Some(ref p) => Some(p@),
                            None => None,
                        };
                        let (key, entry) = regular_server_entry(f, peer, copy_bytes(stand_in));
                        assert(key@ == regular_key_spec(fv, peer_v));
                        insert_server(&mut servers, key, entry);
                    },
                    None => {},
                }
            } else if rt == 2 {
                let items = dictionary_servers(value.as_slice());
                let ghost iv = server_items_view(items@);
                let mut peers: Vec<Option<Vec<u8>>> = Vec::new();
                let mut j: usize = 0;
                while j < items.len()
                    invariant
                        j <= items.len(),
                        pv == parsed_view(parsed@),
                        iv == server_items_view(items@),
                        peers_view(peers@) == Seq::new(j as nat, |k: int| lookup_peer(pv, iv[k].0)),
                    decreases items.len() - j,
                {
                    let p = find_peer(parsed, &items[j].0);
                    let ghost before = peers_view(peers@);
                    let ghost pvj = match p {
                        Some(ref q) => Some(q@),
                        None => None,
                    };
                    peers.push(p);
                    assert(peers_view(peers@) =~= before.push(pvj));
                    assert(peers_view(peers@) =~= Seq::new(
                        (j + 1) as nat,
                        |k: int| lookup_peer(pv, iv[k].0),
                    ));
                    j = j + 1;
                }
                assert(peers_view(peers@) =~= Seq::new(iv.len(), |k: int| lookup_peer(pv, iv[k].0)));
                add_dictionary_servers(&mut servers, items, peers);
            }
        }
        i = i + 1;
    }
    assert(av.take(answers.len() as int) =~= av);
    proof {
        lemma_answers_distinct(Seq::empty(), av, pv, stand_in@);
    }
    let order = chain_order(&servers);
    (servers, order)
}

// ── Map crawler ───────────────────────────────────────────────────────────

/// The subkeys of dictionary entries as text, in order: an entry that is
/// not an array spoils the whole list; an empty array, a subkey that is
/// neither text nor bytes holding text, and an empty text are skipped.
pub open spec fn subkeys_of(entries: Seq<MsgModel>) -> Option<Seq<Seq<char>>>
    decreases entries.len(),
{
    if entries.len() == 0 {
        Some(Seq::empty())
    } else {
        match subkeys_of(entries.drop_last()) {
            None => None,
            Some(rest) => match entries.last() {
                MsgModel::Array(arr) => if arr.len() == 0 {
                    Some(rest)
                } else {
                    match subkey_text_spec(arr[0]) {
                        Some(p) => if p.len() > 0 {
                            Some(rest.push(p))
                        } else {
                            Some(rest)
                        },
                        None => Some(rest),
                    }
                },
                _ => None,
            },
        }
    }
}

/// Once a prefix of the entries spoils the list, the whole does.
proof fn lemma_subkeys_spoiled(s: Seq<MsgModel>, k: int)
    requires
        0 <= k <= s.len(),
        subkeys_of(s.take(k)) is None,
    ensures
        subkeys_of(s) is None,
    decreases s.len() - k,
{
    if k < s.len() {
        assert(s.take(k + 1).drop_last() =~= s.take(k));
        lemma_subkeys_spoiled(s, k + 1);
    } else {
        assert(s.take(k) =~= s);
    }
}

/// The subkeys of a dictionary record (the model prefixes of
/// `_petals.models`).
pub open spec fn dict_subkeys_spec(bytes: Seq<u8>) -> Option<Seq<Seq<char>>> {
    match dictionary_entries_spec(bytes) {
        Some(e) => subkeys_of(e),
        None => None,
    }
}

/// The views of texts.
pub open spec fn texts_view(v: Seq<String>) -> Seq<Seq<char>> {
    Seq::new(v.len(), |i: int| v[i]@)
}

/// Reads the subkeys of a dictionary record.
pub fn dict_subkeys(bytes: &[u8]) -> (r: Option<Vec<String>>)
    ensures
        match r {
            Some(v) => dict_subkeys_spec(bytes@) == Some(texts_view(v@)),
            None => dict_subkeys_spec(bytes@) is None,
        },
{
    let entries = match dictionary_entries(bytes) {
        Some(e) => e,
        None => return None,
    };
    let ghost es = elems_model(entries);
    let mut out: Vec<String> = Vec::new();
    let mut i: usize = 0;
    while i < entries.len()
        invariant
            i <= entries.len(),
            es == elems_model(entries),
            dictionary_entries_spec(bytes@) == Some(es),
            subkeys_of(es.take(i as int)) == Some(texts_view(out@)),
        decreases entries.len() - i,
    {
        assert(es.take(i as int + 1).drop_last() =~= es.take(i as int));
        assert(es.take(i as int + 1).last() == entries[i as int]@);
        let arr = match &entries[i] {
            MsgValue::Array(arr) => arr,
            _ => {
                proof {
                    lemma_subkeys_spoiled(es, i as int + 1);
                }
                return None;
            },
        };
        proof {
            lemma_array_model(*arr);
        }
        if arr.len() > 0 {
            assert(elems_model(*arr)[0] == arr[0]@);
            match subkey_text(&arr[0]) {
                Some(p) => if !p.as_str().is_empty() {
                    let ghost before = out@;
                    let ghost pv = p@;
                    out.push(p);
                    assert(texts_view(out@) =~= texts_view(before).push(pv));
                },
                None => {},
            }
        }
        i = i + 1;
    }
    assert(es.take(entries.len() as int) =~= es);
    Some(out)
}

/// What the map keeps of a node's record.
pub struct NodeRecord {
    pub peer_id: String,
    pub trust_tier: String,
    pub start_block: usize,
    pub end_block: usize,
    pub throughput: crate::msgpack::Number,
    pub public_name: String,
    pub version: String,
    /// The record has a `vpk` field.
    pub vpk: bool,
}

impl View for NodeRecord {
    type V = (Seq<char>, Seq<char>, int, int, crate::msgpack::Number, Seq<char>, Seq<char>, bool);

    open spec fn view(&self) -> Self::V {
        (
            self.peer_id@,
            self.trust_tier@,
            self.start_block as int,
            self.end_block as int,
            self.throughput,
            self.public_name@,
            self.version@,
            self.vpk,
        )
    }
}

/// The number of trust attestations a record lists.
pub open spec fn attestation_count(m: Seq<(MsgModel, MsgModel)>) -> nat {
    match field(m, "trust_attestations"@) {
        Some(MsgModel::Array(a)) => a.len(),
        _ => 0,
    }
}

/// A node's record as the map reads it: the server record's block range
/// and texts, its throughput, a trust tier from the number of attestations,
/// whether it has a `vpk` field, and its peer id, `unknown` standing in for
/// an empty one.
pub open spec fn node_record_spec(bytes: Seq<u8>, unknown: Seq<char>) -> Option<
    (Seq<char>, Seq<char>, int, int, crate::msgpack::Number, Seq<char>, Seq<char>, bool),
> {
    match ext_payload_spec(bytes, 64) {
        Some(MsgModel::Array(a)) => if a.len() >= 3 {
            match a[2] {
                MsgModel::Pairs(m) => match (int_field(m, "start_block"@), int_field(m, "end_block"@)) {
                    (Some(s), Some(e)) => {
                        let peer = text_field(m, "peer_id"@);
                        Some(
                            (
                                if peer.len() == 0 {
                                    unknown
                                } else {
                                    peer
                                },
                                tier_spec(attestation_count(m)),
                                (s as usize) as int,
                                (e as usize) as int,
                                crate::msgpack::number_of(a[1]),
                                text_field(m, "public_name"@),
                                text_field(m, "version"@),
                                key_index_from(m, "vpk"@, 0) is Some,
                            ),
                        )
                    },
                    _ => None,
                },
                _ => None,
            }
        } else {
            None
        },
        _ => None,
    }
}

/// Reads a node's record; `unknown` is the caller's stand-in id for a
/// record without one.
pub fn decode_node_record(bytes: &[u8], unknown: String) -> (r: Option<NodeRecord>)
    ensures
        match r {
            Some(n) => node_record_spec(bytes@, unknown@) == Some(n@),
            None => node_record_spec(bytes@, unknown@) is None,
        },
{
    let a = match ext_payload(bytes, 64) {
        Some(MsgValue::Array(a)) => a,
        _ => return None,
    };
    proof {
        lemma_array_model(a);
    }
    if a.len() < 3 {
        return None;
    }
    assert(elems_model(a)[1] == a[1]@);
    assert(elems_model(a)[2] == a[2]@);
    let throughput = crate::msgpack::number_value(&a[1]);
    let m = match &a[2] {
        MsgValue::Pairs(m) => m,
        _ => return None,
    };
    proof {
        lemma_pairs_model(*m);
    }
    let start = match int_in(m, "start_block") {
        Some(s) => s,
        None => return None,
    };
    let end = match int_in(m, "end_block") {
        Some(e) => e,
        None => return None,
    };
    let public_name = text_in(m, "public_name");
    let peer = text_in(m, "peer_id");
    let version = text_in(m, "version");
    let vpk = key_index(m, "vpk").is_some();
    let count: usize = match key_index(m, "trust_attestations") {
        Some(i) => {
            assert(pairs_model(*m)[i as int] == (m[i as int].0@, m[i as int].1@));
            match &m[i].1 {
                MsgValue::Array(t) => {
                    proof {
                        lemma_array_model(*t);
                    }
                    t.len()
                },
                _ => 0,
            }
        },
        None => 0,
    };
    let tier = tier_from_vc_count(count);
    Some(
        NodeRecord {
            peer_id: if peer.as_str().is_empty() {
                unknown
            } else {
                peer
            },
            trust_tier: tier.to_owned(),
            start_block: start as usize,
            end_block: end as usize,
            throughput,
            public_name,
            version,
            vpk,
        },
    )
}

/// The `(peer id, record)` of one entry of a dictionary of node records:
/// an array of at least two whose subkey reads as non-empty text and whose
/// value is bytes holding a record, which takes the subkey as its peer id.
pub open spec fn node_item_spec(entry: MsgModel) -> Option<
    (Seq<char>, (Seq<char>, Seq<char>, int, int, crate::msgpack::Number, Seq<char>, Seq<char>, bool)),
> {
    match entry {
        MsgModel::Array(arr) => if arr.len() >= 2 {
            match (subkey_text_spec(arr[0]), arr[1]) {
                (Some(peer), MsgModel::Binary(v)) => if peer.len() == 0 {
                    None
                } else {
                    match node_record_spec(v, peer) {
                        Some(n) => Some((peer, (peer, n.1, n.2, n.3, n.4, n.5, n.6, n.7))),
                        None => None,
                    }
                },
                _ => None,
            }
        } else {
            None
        },
        _ => None,
    }
}

/// The node items of the entries, in order.
pub open spec fn node_items(entries: Seq<MsgModel>) -> Seq<
    (Seq<char>, (Seq<char>, Seq<char>, int, int, crate::msgpack::Number, Seq<char>, Seq<char>, bool)),
>
    decreases entries.len(),
{
    if entries.len() == 0 {
        Seq::empty()
    } else {
        let rest = node_items(entries.drop_last());
        match node_item_spec(entries.last()) {
            Some(x) => rest.push(x),
            None => rest,
        }
    }
}

/// The node items of a dictionary record; none where it is not one.
pub open spec fn dictionary_nodes_spec(bytes: Seq<u8>) -> Seq<
    (Seq<char>, (Seq<char>, Seq<char>, int, int, crate::msgpack::Number, Seq<char>, Seq<char>, bool)),
> {
    match dictionary_entries_spec(bytes) {
        Some(e) => node_items(e),
        None => Seq::empty(),
    }
}

/// The views of `(peer id, record)` items.
pub open spec fn node_items_view(v: Seq<(String, NodeRecord)>) -> Seq<
    (Seq<char>, (Seq<char>, Seq<char>, int, int, crate::msgpack::Number, Seq<char>, Seq<char>, bool)),
> {
    Seq::new(v.len(), |i: int| (v[i].0@, v[i].1@))
}

/// Reads one dictionary entry as a node item.
pub fn node_item(entry: &MsgValue) -> (r: Option<(String, NodeRecord)>)
    ensures
        match r {
            Some(x) => node_item_spec(entry@) == Some((x.0@, x.1@)),
            None => node_item_spec(entry@) is None,
        },
{
    let arr = match entry {
        MsgValue::Array(arr) => arr,
        _ => return None,
    };
    proof {
        lemma_array_model(*arr);
    }
    if arr.len() < 2 {
        return None;
    }
    assert(elems_model(*arr)[0] == arr[0]@);
    assert(elems_model(*arr)[1] == arr[1]@);
    let peer = match subkey_text(&arr[0]) {
        Some(p) => p,
        None => return None,
    };
    let value = match &arr[1] {
        MsgValue::Binary(v) => v,
        _ => return None,
    };
    if peer.as_str().is_empty() {
        return None;
    }
    match decode_node_record(value.as_slice(), peer.clone()) {
        Some(n) => {
            let n = NodeRecord { peer_id: peer.clone(), ..n };
            Some((peer, n))
        },
        None => None,
    }
}

/// The node items of a dictionary record (`decode_dictionary` of the map
/// crawler, before the items are merged into what it has found).
pub fn dictionary_nodes(bytes: &[u8]) -> (r: Vec<(String, NodeRecord)>)
    ensures
        node_items_view(r@) == dictionary_nodes_spec(bytes@),
{
    let mut out: Vec<(String, NodeRecord)> = Vec::new();
    let entries = match dictionary_entries(bytes) {
        Some(e) => e,
        None => {
            assert(node_items_view(out@) =~= Seq::empty());
            return out;
        },
    };
    let ghost es = elems_model(entries);
    let mut i: usize = 0;
    while i < entries.len()
        invariant
            i <= entries.len(),
            es == elems_model(entries),
            dictionary_entries_spec(bytes@) == Some(es),
            node_items_view(out@) == node_items(es.take(i as int)),
        decreases entries.len() - i,
    {
        assert(es.take(i as int + 1).drop_last() =~= es.take(i as int));
        assert(es.take(i as int + 1).last() == entries[i as int]@);
        match node_item(&entries[i]) {
            Some(x) => {
                let ghost before = out@;
                let ghost xv = (x.0@, x.1@);
                out.push(x);
                assert(node_items_view(out@) =~= node_items_view(before).push(xv));
            },
            None => {},
        }
        i = i + 1;
    }
    assert(es.take(entries.len() as int) =~= es);
    out
}

// ── VPK nodes ─────────────────────────────────────────────────────────────

/// A VPK node's advertisement.
pub struct VpkNode {
    pub peer_id: String,
    pub mode: String,
    pub endpoint: String,
    pub capacity_gb: crate::msgpack::Number,
    pub tenant_count: u32,
    pub vpk_version: String,
}

impl View for VpkNode {
    type V = (Seq<char>, Seq<char>, Seq<char>, crate::msgpack::Number, u32, Seq<char>);

    open spec fn view(&self) -> Self::V {
        (self.peer_id@, self.mode@, self.endpoint@, self.capacity_gb, self.tenant_count, self.vpk_version@)
    }
}

/// The text under `key`, `unknown` where there is none.
pub open spec fn text_or_unknown(m: Seq<(MsgModel, MsgModel)>, key: Seq<char>) -> Seq<char> {
    match field(m, key) {
        Some(v) => match text_of(v) {
            Some(t) => t,
            None => "unknown"@,
        },
        None => "unknown"@,
    }
}

/// The tenant count under `tenant_count`, as a `u64` cut to 32 bits; zero
/// where there is none.
pub open spec fn tenant_count_of(m: Seq<(MsgModel, MsgModel)>) -> u32 {
    match field(m, "tenant_count"@) {
        Some(v) => match crate::msgpack::uint_of(v) {
            Some(n) => (n as nat % 0x1_0000_0000) as u32,
            None => 0,
        },
        None => 0,
    }
}

/// A VPK advertisement, a map `{mode, endpoint, capacity_gb, tenant_count,
/// vpk_version}`, for the node `peer`; none where the bytes are no map, or
/// where both mode and endpoint read as `unknown`.
pub open spec fn vpk_map_spec(bytes: Seq<u8>, peer: Seq<char>) -> Option<
    (Seq<char>, Seq<char>, Seq<char>, crate::msgpack::Number, u32, Seq<char>),
> {
    match msgpack_decoding(bytes) {
        Some(MsgModel::Pairs(m)) => {
            let mode = text_or_unknown(m, "mode"@);
            let endpoint = text_or_unknown(m, "endpoint"@);
            if mode == "unknown"@ && endpoint == "unknown"@ {
                None
            } else {
                Some(
                    (
                        peer,
                        mode,
                        endpoint,
                        crate::msgpack::number_field(m, "capacity_gb"@),
                        tenant_count_of(m),
                        text_or_unknown(m, "vpk_version"@),
                    ),
                )
            }
        },
        _ => None,
    }
}

/// Reads a VPK advertisement for the node `peer`.
pub fn decode_vpk_map(bytes: &[u8], peer: String) -> (r: Option<VpkNode>)
    ensures
        match r {
            Some(n) => vpk_map_spec(bytes@, peer@) == Some(n@),
            None => vpk_map_spec(bytes@, peer@) is None,
        },
{
    let m = match read_msgpack(bytes) {
        Some(MsgValue::Pairs(m)) => m,
        _ => return None,
    };
    proof {
        lemma_pairs_model(m);
        reveal_strlit("unknown");
    }
    let mode = crate::msgpack::text_in_or(&m, "mode", "unknown");
    let endpoint = crate::msgpack::text_in_or(&m, "endpoint", "unknown");
    let mode_c = chars_of(mode.as_str());
    let endpoint_c = chars_of(endpoint.as_str());
    if crate::parse::eq_lit(&mode_c, "unknown") && crate::parse::eq_lit(&endpoint_c, "unknown") {
        return None;
    }
    let capacity_gb = crate::msgpack::number_in(&m, "capacity_gb");
    let tenant_count: u32 = match crate::msgpack::uint_in(&m, "tenant_count") {
        Some(n) => (n % 0x1_0000_0000) as u32,
        None => 0,
    };
    let vpk_version = crate::msgpack::text_in_or(&m, "vpk_version", "unknown");
    Some(VpkNode { peer_id: peer, mode, endpoint, capacity_gb, tenant_count, vpk_version })
}

/// A single-value VPK answer, which names no peer.
pub fn parse_vpk_regular(bytes: &[u8]) -> (r: Option<VpkNode>)
    ensures
        match r {
            Some(n) => vpk_map_spec(bytes@, "unknown"@) == Some(n@),
            None => vpk_map_spec(bytes@, "unknown"@) is None,
        },
{
    decode_vpk_map(bytes, "unknown".to_owned())
}

/// `out` with `n` added unless a node with its peer id is there already.
pub open spec fn add_vpk_spec(
    out: Seq<(Seq<char>, Seq<char>, Seq<char>, crate::msgpack::Number, u32, Seq<char>)>,
    n: (Seq<char>, Seq<char>, Seq<char>, crate::msgpack::Number, u32, Seq<char>),
) -> Seq<(Seq<char>, Seq<char>, Seq<char>, crate::msgpack::Number, u32, Seq<char>)> {
    if exists|i: int| 0 <= i < out.len() && #[trigger] out[i].0 == n.0 {
        out
    } else {
        out.push(n)
    }
}

/// The views of VPK nodes.
pub open spec fn vpk_view(v: Seq<VpkNode>) -> Seq<(Seq<char>, Seq<char>, Seq<char>, crate::msgpack::Number, u32, Seq<char>)> {
    Seq::new(v.len(), |i: int| v[i]@)
}

/// Adds `n` unless a node with its peer id is there already.
pub fn add_vpk_node(out: &mut Vec<VpkNode>, n: VpkNode)
    ensures
        vpk_view(final(out)@) == add_vpk_spec(vpk_view(old(out)@), n@),
{
    let ghost before = out@;
    let ghost nv = n@;
    let mut i: usize = 0;
    while i < out.len()
        invariant
            i <= out.len(),
            out@ == before,
            nv == n@,
            forall|j: int| 0 <= j < i ==> #[trigger] out@[j].peer_id@ != nv.0,
        decreases out.len() - i,
    {
        let same = out[i].peer_id == n.peer_id;
        assert(nv.0 == n.peer_id@);
        assert(vpk_view(before)[i as int] == before[i as int]@);
        if same {
            assert(vpk_view(before)[i as int].0 == nv.0);
            return;
        }
        i = i + 1;
    }
    assert forall|j: int| 0 <= j < before.len() implies #[trigger] vpk_view(before)[j].0 != nv.0 by {
        assert(vpk_view(before)[j] == before[j]@);
    }
    out.push(n);
    assert(vpk_view(out@) =~= vpk_view(before).push(nv));
}

/// The advertisement one dictionary entry gives: an array of at least two
/// whose subkey is a string (its text, `?` where it is not UTF-8), the peer
/// id, and whose value is bytes holding an advertisement.
pub open spec fn vpk_item_spec(entry: MsgModel) -> Option<
    (Seq<char>, Seq<char>, Seq<char>, crate::msgpack::Number, u32, Seq<char>),
> {
    match entry {
        MsgModel::Array(arr) => if arr.len() >= 2 {
            match (arr[0], arr[1]) {
                (MsgModel::Str(k), MsgModel::Binary(v)) => vpk_map_spec(
                    v,
                    match k {
                        Some(t) => t,
                        None => "?"@,
                    },
                ),
                _ => None,
            }
        } else {
            None
        },
        _ => None,
    }
}

/// `out` after adding the advertisements of the entries, in order, the
/// first one of a peer kept.
pub open spec fn vpk_fold(
    out: Seq<(Seq<char>, Seq<char>, Seq<char>, crate::msgpack::Number, u32, Seq<char>)>,
    entries: Seq<MsgModel>,
) -> Seq<(Seq<char>, Seq<char>, Seq<char>, crate::msgpack::Number, u32, Seq<char>)>
    decreases entries.len(),
{
    if entries.len() == 0 {
        out
    } else {
        let rest = vpk_fold(out, entries.drop_last());
        match vpk_item_spec(entries.last()) {
            Some(n) => add_vpk_spec(rest, n),
            None => rest,
        }
    }
}

/// `out` after adding the advertisements of a dictionary answer; `out` as
/// it was where the bytes are no dictionary.
pub open spec fn vpk_dictionary_spec(
    out: Seq<(Seq<char>, Seq<char>, Seq<char>, crate::msgpack::Number, u32, Seq<char>)>,
    bytes: Seq<u8>,
) -> Seq<(Seq<char>, Seq<char>, Seq<char>, crate::msgpack::Number, u32, Seq<char>)> {
    match dictionary_entries_spec(bytes) {
        Some(e) => vpk_fold(out, e),
        None => out,
    }
}

/// Reads one dictionary entry as a VPK advertisement.
pub fn vpk_item(entry: &MsgValue) -> (r: Option<VpkNode>)
    ensures
        match r {
            Some(n) => vpk_item_spec(entry@) == Some(n@),
            None => vpk_item_spec(entry@) is None,
        },
{
    let arr = match entry {
        MsgValue::Array(arr) => arr,
        _ => return None,
    };
    proof {
        lemma_array_model(*arr);
    }
    if arr.len() < 2 {
        return None;
    }
    assert(elems_model(*arr)[0] == arr[0]@);
    assert(elems_model(*arr)[1] == arr[1]@);
    let peer = match &arr[0] {
        MsgValue::Str(Some(t)) => t.clone(),
        MsgValue::Str(None) => {
            proof {
                reveal_strlit("?");
            }
            "?".to_owned()
        },
        _ => return None,
    };
    match &arr[1] {
        MsgValue::Binary(v) => decode_vpk_map(v.as_slice(), peer),
        _ => None,
    }
}

/// Adds the advertisements of a dictionary answer to `out`
/// (`parse_vpk_dictionary`).
pub fn parse_vpk_dictionary(bytes: &[u8], out: &mut Vec<VpkNode>)
    ensures
        vpk_view(final(out)@) == vpk_dictionary_spec(vpk_view(old(out)@), bytes@),
{
    let ghost start = vpk_view(out@);
    let entries = match dictionary_entries(bytes) {
        Some(e) => e,
        None => return,
    };
    let ghost es = elems_model(entries);
    let mut i: usize = 0;
    while i < entries.len()
        invariant
            i <= entries.len(),
            es == elems_model(entries),
            dictionary_entries_spec(bytes@) == Some(es),
            vpk_view(out@) == vpk_fold(start, es.take(i as int)),
        decreases entries.len() - i,
    {
        assert(es.take(i as int + 1).drop_last() =~= es.take(i as int));
        assert(es.take(i as int + 1).last() == entries[i as int]@);
        match vpk_item(&entries[i]) {
            Some(n) => add_vpk_node(out, n),
            None => {},
        }
        i = i + 1;
    }
    assert(es.take(entries.len() as int) =~= es);
}

} // verus!
