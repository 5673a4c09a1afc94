//! The DHT records a node announces: its block-server record
//! `Ext(64, [state, throughput, {fields}])`, its VPK advertisement and its
//! entry in the model registry.  Each is built as a MessagePack value and
//! written by rmpv; the block-server record and the advertisement read
//! back as what they announce.

use vstd::prelude::*;

use crate::msgpack::{
    agrees_within, canonical, canonical_within, elems_model, lemma_agrees_array, lemma_agrees_pairs,
    lemma_same_keys, text_of, fits_u32, int_field, text_field, is_nan64, key_index_from, lemma_array_model,
    lemma_pairs_model, msgpack_decoding, msgpack_encoding, pairs_model, write_msgpack,
    MsgModel, MsgValue, Number,
};
use crate::credential::tier_spec;
use crate::dht::{block_dht_id, block_key_spec, dht_id_spec};
use crate::records::{attestation_count, node_record_spec, server_info_spec, vpk_map_spec};

verus! {

/// The model of a string value.
pub open spec fn text_model(s: Seq<char>) -> MsgModel {
    MsgModel::Str(Some(s))
}

/// The model of a signed integer, as `rmpv::Value::from` makes it.
pub open spec fn int_model(n: int) -> MsgModel {
    if n >= 0 {
        MsgModel::PosInt(n as u64)
    } else {
        MsgModel::NegInt(n as i64)
    }
}

/// A string value.
pub fn text(s: &str) -> (r: MsgValue)
    ensures
        r@ == text_model(s@),
{
    MsgValue::Str(Some(s.to_owned()))
}

/// A signed integer value.
pub fn integer(n: i64) -> (r: MsgValue)
    ensures
        r@ == int_model(n as int),
{
    if n >= 0 {
        MsgValue::PosInt(n as u64)
    } else {
        MsgValue::NegInt(n)
    }
}

/// A text that rmpv writes and reads back.
pub open spec fn text_fits(s: Seq<char>) -> bool {
    s.len() < 0x4000_0000
}

// ── VPK advertisement ─────────────────────────────────────────────────────

/// A node's VPK capability, with the capacity in gigabytes as the bits of
/// a `f64`.
pub struct VpkInfo {
    pub mode: String,
    pub endpoint: String,
    pub capacity_gb_bits: u64,
    pub tenant_count: u32,
    pub vpk_version: String,
}

/// The advertisement `{mode, endpoint, capacity_gb, tenant_count,
/// vpk_version}`.
pub open spec fn vpk_model(v: VpkInfo) -> MsgModel {
    MsgModel::Pairs(
        seq![
            (text_model("mode"@), text_model(v.mode@)),
            (text_model("endpoint"@), text_model(v.endpoint@)),
            (text_model("capacity_gb"@), MsgModel::F64(v.capacity_gb_bits)),
            (text_model("tenant_count"@), MsgModel::PosInt(v.tenant_count as u64)),
            (text_model("vpk_version"@), text_model(v.vpk_version@)),
        ],
    )
}

/// The advertisement reads back unchanged: its texts fit and its capacity
/// is a number.
pub open spec fn vpk_fits(v: VpkInfo) -> bool {
    vpk_texts_fit(v) && !is_nan64(v.capacity_gb_bits)
}

/// The advertisement's texts fit.
pub open spec fn vpk_texts_fit(v: VpkInfo) -> bool {
    text_fits(v.mode@) && text_fits(v.endpoint@) && text_fits(v.vpk_version@)
}

/// A fitting advertisement is canonical; where `x` asks for exact floats,
/// its capacity must be a number.
proof fn lemma_vpk_canonical(v: VpkInfo, depth: nat, x: bool)
    requires
        vpk_texts_fit(v),
        x ==> !is_nan64(v.capacity_gb_bits),
        depth >= 2,
    ensures
        canonical_within(vpk_model(v), depth, x),
{
    reveal_strlit("mode");
    reveal_strlit("endpoint");
    reveal_strlit("capacity_gb");
    reveal_strlit("tenant_count");
    reveal_strlit("vpk_version");
    assert("mode"@.len() == 4 && "endpoint"@.len() == 8 && "capacity_gb"@.len() == 11);
    assert("tenant_count"@.len() == 12 && "vpk_version"@.len() == 11);
    let d = (depth - 1) as nat;
    let m = match vpk_model(v) {
        MsgModel::Pairs(m) => m,
        _ => Seq::empty(),
    };
    assert forall|i: int| 0 <= i < m.len() implies #[trigger] canonical_within(m[i].0, d, x)
        && canonical_within(m[i].1, d, x) by {
        assert(canonical_within(m[i].0, d, x));
        assert(canonical_within(m[i].1, d, x));
    }
    assert(fits_u32(m.len()));
    crate::msgpack::lemma_pairs_canonical(m, depth, x);
}

impl VpkInfo {
    /// The advertisement as a value, also the `vpk` field of the
    /// block-server record.
    pub fn to_msgpack_value(&self) -> (r: MsgValue)
        ensures
            r@ == vpk_model(*self),
    {
        let mut m: Vec<(MsgValue, MsgValue)> = Vec::new();
        m.push((text("mode"), text(self.mode.as_str())));
        m.push((text("endpoint"), text(self.endpoint.as_str())));
        m.push((text("capacity_gb"), MsgValue::F64(self.capacity_gb_bits)));
        m.push((text("tenant_count"), MsgValue::PosInt(self.tenant_count as u64)));
        m.push((text("vpk_version"), text(self.vpk_version.as_str())));
        proof {
            lemma_pairs_model(m);
            if let MsgModel::Pairs(p) = vpk_model(*self) {
                assert(pairs_model(m) =~= p);
            }
        }
        MsgValue::Pairs(m)
    }

    /// The advertisement's bytes, for the `_kwaai.vpk.nodes` registry.
    /// Read back for any peer, they give the node's mode, endpoint,
    /// capacity, tenant count and version, unless mode and endpoint are
    /// both `unknown`, which a reader takes for no advertisement.
    pub fn to_msgpack_bytes(&self) -> (r: Vec<u8>)
        ensures
            r@ == msgpack_encoding(vpk_model(*self)),
            vpk_fits(*self) && !(self.mode@ == "unknown"@ && self.endpoint@ == "unknown"@) ==> forall|
                peer: Seq<char>,
            |
                vpk_map_spec(r@, peer) == Some(
                    (
                        peer,
                        self.mode@,
                        self.endpoint@,
                        Number::Double(self.capacity_gb_bits),
                        self.tenant_count,
                        self.vpk_version@,
                    ),
                ),
    {
        let v = self.to_msgpack_value();
        let r = write_msgpack(&v);
        proof {
            if vpk_fits(*self) {
                lemma_vpk_canonical(*self, 64, true);
                lemma_vpk_reads_back(*self);
            }
        }
        r
    }
}

/// Reading the fields of a fitting advertisement gives what it holds.
proof fn lemma_vpk_reads_back(v: VpkInfo)
    ensures
        ({
            let m = match vpk_model(v) {
                MsgModel::Pairs(m) => m,
                _ => Seq::empty(),
            };
            &&& crate::records::text_or_unknown(m, "mode"@) == v.mode@
            &&& crate::records::text_or_unknown(m, "endpoint"@) == v.endpoint@
            &&& crate::msgpack::number_field(m, "capacity_gb"@) == Number::Double(v.capacity_gb_bits)
            &&& crate::records::tenant_count_of(m) == v.tenant_count
            &&& crate::records::text_or_unknown(m, "vpk_version"@) == v.vpk_version@
        }),
{
    reveal_strlit("mode");
    reveal_strlit("endpoint");
    reveal_strlit("capacity_gb");
    reveal_strlit("tenant_count");
    reveal_strlit("vpk_version");
    let m = match vpk_model(v) {
        MsgModel::Pairs(m) => m,
        _ => Seq::empty(),
    };
    assert("mode"@.len() == 4 && "endpoint"@.len() == 8 && "capacity_gb"@.len() == 11);
    assert("tenant_count"@.len() == 12 && "vpk_version"@.len() == 11);
    assert("capacity_gb"@[0] != "vpk_version"@[0]);
    // Each key lookup walks at most the five fields.
    reveal_with_fuel(key_index_from, 6);
    assert((v.tenant_count as u64) as nat % 0x1_0000_0000 == v.tenant_count as nat);
}

// ── Block-server record ───────────────────────────────────────────────────

/// What a node announces for each of its blocks, with the throughput as
/// the bits of a `f64`.  The `adapters` and `next_pings` fields are always
/// written empty.
pub struct ServerInfo {
    pub state: i32,
    pub throughput_bits: u64,
    pub start_block: i32,
    pub end_block: i32,
    pub public_name: String,
    pub version: String,
    pub torch_dtype: String,
    pub using_relay: bool,
    pub cache_tokens_left: i64,
    /// The node's credentials as compact JSON, written only when there are
    /// some.
    pub trust_attestations: Vec<String>,
    /// Written only when present.
    pub vpk_info: Option<VpkInfo>,
    pub peer_id_b58: String,
}

/// The attestations as string values.
pub open spec fn attestations_model(t: Seq<String>) -> Seq<MsgModel> {
    Seq::new(t.len(), |i: int| text_model(t[i]@))
}

/// The fields of the record, in the order they are written.
pub open spec fn server_fields_model(info: ServerInfo) -> Seq<(MsgModel, MsgModel)> {
    let base = seq![
        (text_model("start_block"@), int_model(info.start_block as int)),
        (text_model("end_block"@), int_model(info.end_block as int)),
        (text_model("public_name"@), text_model(info.public_name@)),
        (text_model("version"@), text_model(info.version@)),
        (text_model("torch_dtype"@), text_model(info.torch_dtype@)),
        (text_model("using_relay"@), MsgModel::Boolean(info.using_relay)),
        (text_model("cache_tokens_left"@), int_model(info.cache_tokens_left as int)),
        (text_model("adapters"@), MsgModel::Array(Seq::empty())),
        (text_model("next_pings"@), MsgModel::Pairs(Seq::empty())),
        (text_model("peer_id"@), text_model(info.peer_id_b58@)),
    ];
    let with_attestations = if info.trust_attestations.len() > 0 {
        base.push(
            (
                text_model("trust_attestations"@),
                MsgModel::Array(attestations_model(info.trust_attestations@)),
            ),
        )
    } else {
        base
    };
    match info.vpk_info {
        Some(v) => with_attestations.push((text_model("vpk"@), vpk_model(v))),
        None => with_attestations,
    }
}

/// The record's payload `[state, throughput, {fields}]`.
pub open spec fn server_payload_model(info: ServerInfo) -> MsgModel {
    MsgModel::Array(
        seq![
            int_model(info.state as int),
            MsgModel::F64(info.throughput_bits),
            MsgModel::Pairs(server_fields_model(info)),
        ],
    )
}

/// The record's bytes: the payload written, wrapped as `Ext(64, ..)` and
/// written again.
pub open spec fn server_record_spec(info: ServerInfo) -> Seq<u8> {
    msgpack_encoding(MsgModel::Ext(64, msgpack_encoding(server_payload_model(info))))
}

/// The record reads back, but for the bits of NaNs: its texts fit and the
/// written payload fits the envelope's 32-bit length.
pub open spec fn server_record_readable(info: ServerInfo) -> bool {
    &&& text_fits(info.public_name@)
    &&& text_fits(info.version@)
    &&& text_fits(info.torch_dtype@)
    &&& text_fits(info.peer_id_b58@)
    &&& fits_u32(info.trust_attestations.len() as nat)
    &&& forall|i: int| 0 <= i < info.trust_attestations.len() ==> text_fits(#[trigger] info.trust_attestations@[i]@)
    &&& (info.vpk_info matches Some(v) ==> vpk_texts_fit(v))
    &&& fits_u32(msgpack_encoding(server_payload_model(info)).len())
}

/// The record reads back unchanged: it is readable and its numbers are
/// numbers.
pub open spec fn server_record_fits(info: ServerInfo) -> bool {
    &&& server_record_readable(info)
    &&& !is_nan64(info.throughput_bits)
    &&& (info.vpk_info matches Some(v) ==> vpk_fits(v))
}

/// The record's payload is canonical when the record is readable; where
/// `x` asks for exact floats, when it fits.
proof fn lemma_server_payload_canonical(info: ServerInfo, x: bool)
    requires
        server_record_readable(info),
        x ==> server_record_fits(info),
    ensures
        canonical_within(server_payload_model(info), crate::msgpack::record_depth(), x),
{
    reveal_strlit("start_block");
    reveal_strlit("end_block");
    reveal_strlit("public_name");
    reveal_strlit("version");
    reveal_strlit("torch_dtype");
    reveal_strlit("using_relay");
    reveal_strlit("cache_tokens_left");
    reveal_strlit("adapters");
    reveal_strlit("next_pings");
    reveal_strlit("peer_id");
    reveal_strlit("trust_attestations");
    reveal_strlit("vpk");
    assert("start_block"@.len() == 11 && "end_block"@.len() == 9 && "public_name"@.len() == 11 && "version"@.len() == 7 && "torch_dtype"@.len() == 11 && "using_relay"@.len() == 11 && "cache_tokens_left"@.len() == 17 && "adapters"@.len() == 8 && "next_pings"@.len() == 10 && "peer_id"@.len() == 7 && "trust_attestations"@.len() == 18 && "vpk"@.len() == 3);
    let f = server_fields_model(info);
    let d: nat = 62;
    crate::msgpack::lemma_pairs_canonical(Seq::empty(), 63, x);
    assert(f.take(0) =~= Seq::empty());
    assert(canonical_within(f[0].0, d, x) && canonical_within(f[0].1, d, x));
    crate::msgpack::lemma_pairs_push_canonical(f.take(0), f[0], 63, x);
    assert(f.take(1) =~= f.take(0).push(f[0]));
    assert(canonical_within(f[1].0, d, x) && canonical_within(f[1].1, d, x));
    crate::msgpack::lemma_pairs_push_canonical(f.take(1), f[1], 63, x);
    assert(f.take(2) =~= f.take(1).push(f[1]));
    assert(canonical_within(f[2].0, d, x) && canonical_within(f[2].1, d, x));
    crate::msgpack::lemma_pairs_push_canonical(f.take(2), f[2], 63, x);
    assert(f.take(3) =~= f.take(2).push(f[2]));
    assert(canonical_within(f[3].0, d, x) && canonical_within(f[3].1, d, x));
    crate::msgpack::lemma_pairs_push_canonical(f.take(3), f[3], 63, x);
    assert(f.take(4) =~= f.take(3).push(f[3]));
    assert(canonical_within(f[4].0, d, x) && canonical_within(f[4].1, d, x));
    crate::msgpack::lemma_pairs_push_canonical(f.take(4), f[4], 63, x);
    assert(f.take(5) =~= f.take(4).push(f[4]));
    assert(canonical_within(f[5].0, d, x) && canonical_within(f[5].1, d, x));
    crate::msgpack::lemma_pairs_push_canonical(f.take(5), f[5], 63, x);
    assert(f.take(6) =~= f.take(5).push(f[5]));
    assert(canonical_within(f[6].0, d, x) && canonical_within(f[6].1, d, x));
    crate::msgpack::lemma_pairs_push_canonical(f.take(6), f[6], 63, x);
    assert(f.take(7) =~= f.take(6).push(f[6]));
    crate::msgpack::lemma_array_canonical(Seq::empty(), d, x);
    assert(canonical_within(f[7].0, d, x) && canonical_within(f[7].1, d, x));
    crate::msgpack::lemma_pairs_push_canonical(f.take(7), f[7], 63, x);
    assert(f.take(8) =~= f.take(7).push(f[7]));
    crate::msgpack::lemma_pairs_canonical(Seq::empty(), d, x);
    assert(canonical_within(f[8].0, d, x) && canonical_within(f[8].1, d, x));
    crate::msgpack::lemma_pairs_push_canonical(f.take(8), f[8], 63, x);
    assert(f.take(9) =~= f.take(8).push(f[8]));
    assert(canonical_within(f[9].0, d, x) && canonical_within(f[9].1, d, x));
    crate::msgpack::lemma_pairs_push_canonical(f.take(9), f[9], 63, x);
    assert(f.take(10) =~= f.take(9).push(f[9]));
    let mut acc = f.take(10);
    let t = info.trust_attestations@;
    if t.len() > 0 {
        let a = attestations_model(t);
        assert forall|i: int| 0 <= i < a.len() implies canonical_within(#[trigger] a[i], (d - 1) as nat, x) by {
            assert(text_fits(t[i]@));
        }
        crate::msgpack::lemma_array_canonical(a, d, x);
        crate::msgpack::lemma_pairs_push_canonical(
            acc,
            (text_model("trust_attestations"@), MsgModel::Array(a)),
            63, x);
        acc = acc.push((text_model("trust_attestations"@), MsgModel::Array(a)));
    }
    if let Some(v) = info.vpk_info {
        lemma_vpk_canonical(v, d, x);
        crate::msgpack::lemma_pairs_push_canonical(acc, (text_model("vpk"@), vpk_model(v)), 63, x);
        acc = acc.push((text_model("vpk"@), vpk_model(v)));
    }
    assert(acc =~= f);
    let items = seq![int_model(info.state as int), MsgModel::F64(info.throughput_bits), MsgModel::Pairs(f)];
    assert forall|i: int| 0 <= i < items.len() implies canonical_within(#[trigger] items[i], 63, x) by {}
    crate::msgpack::lemma_array_canonical(items, 64, x);
}

/// A payload read back but for its float bits gives the announced block
/// range, name and peer id.
proof fn lemma_server_readback(info: ServerInfo, w: MsgModel)
    requires
        agrees_within(w, server_payload_model(info), crate::msgpack::record_depth()),
    ensures
        ({
            let a = w->Array_0;
            let m = a[2]->Pairs_0;
            &&& w is Array
            &&& a.len() >= 3
            &&& a[2] is Pairs
            &&& int_field(m, "start_block"@) == Some(info.start_block as i64)
            &&& int_field(m, "end_block"@) == Some(info.end_block as i64)
            &&& text_field(m, "public_name"@) == info.public_name@
            &&& text_field(m, "peer_id"@) == info.peer_id_b58@
        }),
{
    let f = server_fields_model(info);
    let items = seq![
        int_model(info.state as int),
        MsgModel::F64(info.throughput_bits),
        MsgModel::Pairs(f),
    ];
    assert(server_payload_model(info) == MsgModel::Array(items));
    lemma_agrees_array(w, items, 64);
    let a = w->Array_0;
    assert(agrees_within(a[2], items[2], 63));
    lemma_agrees_pairs(a[2], f, 63);
    let m = a[2]->Pairs_0;
    assert forall|j: int| 0 <= j < m.len() implies text_of(#[trigger] m[j].0) == text_of(f[j].0) by {
        assert(agrees_within(m[j].0, f[j].0, 62));
        if j < 10 {
            assert(f[j].0 is Str);
        } else if j == 10 && info.trust_attestations.len() > 0 {
            assert(f[j].0 is Str);
        } else {
            assert(f[j].0 is Str);
        }
    }
    lemma_same_keys(m, f, "start_block"@, 0);
    lemma_same_keys(m, f, "end_block"@, 0);
    lemma_same_keys(m, f, "public_name"@, 0);
    lemma_same_keys(m, f, "peer_id"@, 0);
    lemma_server_fields_read(info);
    assert(agrees_within(m[0].0, f[0].0, 62));
    assert(agrees_within(m[1].0, f[1].0, 62));
    assert(agrees_within(m[2].0, f[2].0, 62));
    assert(agrees_within(m[9].0, f[9].0, 62));
    assert(agrees_within(m[0].1, f[0].1, 62));
    assert(agrees_within(m[1].1, f[1].1, 62));
    assert(agrees_within(m[2].1, f[2].1, 62));
    assert(agrees_within(m[9].1, f[9].1, 62));
    assert(m[0].1 == f[0].1);
    assert(m[1].1 == f[1].1);
    assert(m[2].1 == f[2].1);
    assert(m[9].1 == f[9].1);
}

/// Reading the fields of the record gives what the node announced.
proof fn lemma_server_fields_read(info: ServerInfo)
    ensures
        ({
            let f = server_fields_model(info);
            &&& int_field(f, "start_block"@) == Some(info.start_block as i64)
            &&& int_field(f, "end_block"@) == Some(info.end_block as i64)
            &&& text_field(f, "public_name"@) == info.public_name@
            &&& text_field(f, "version"@) == info.version@
            &&& text_field(f, "peer_id"@) == info.peer_id_b58@
            &&& attestation_count(f) == info.trust_attestations.len()
            &&& (key_index_from(f, "vpk"@, 0) is Some) == (info.vpk_info is Some)
            &&& key_index_from(f, "start_block"@, 0) == Some(0int)
            &&& key_index_from(f, "end_block"@, 0) == Some(1int)
            &&& key_index_from(f, "public_name"@, 0) == Some(2int)
            &&& key_index_from(f, "peer_id"@, 0) == Some(9int)
        }),
{
    reveal_strlit("start_block");
    reveal_strlit("end_block");
    reveal_strlit("public_name");
    reveal_strlit("version");
    reveal_strlit("torch_dtype");
    reveal_strlit("using_relay");
    reveal_strlit("cache_tokens_left");
    reveal_strlit("adapters");
    reveal_strlit("next_pings");
    reveal_strlit("peer_id");
    reveal_strlit("trust_attestations");
    reveal_strlit("vpk");
    assert("start_block"@.len() == 11 && "end_block"@.len() == 9 && "public_name"@.len() == 11 && "version"@.len() == 7 && "torch_dtype"@.len() == 11);
    assert("using_relay"@.len() == 11 && "cache_tokens_left"@.len() == 17 && "adapters"@.len() == 8 && "next_pings"@.len() == 10 && "peer_id"@.len() == 7 && "trust_attestations"@.len() == 18 && "vpk"@.len() == 3);
    assert("start_block"@[0] != "public_name"@[0] && "version"@[0] != "peer_id"@[0]);
    let f = server_fields_model(info);
    // Each key lookup walks at most the twelve fields.
    reveal_with_fuel(key_index_from, 13);
}

impl ServerInfo {
    /// The record of an online node (state 2) serving blocks
    /// `[start, end)`, running this version of KwaaiNet with `float16`
    /// weights and room for 100 000 cached tokens.
    pub fn new(
        start: i32,
        end: i32,
        name: &str,
        relay: bool,
        throughput_bits: u64,
        trust_attestations: Vec<String>,
        vpk_info: Option<VpkInfo>,
        peer_id_b58: String,
    ) -> (r: ServerInfo)
        ensures
            r.state == 2,
            r.throughput_bits == throughput_bits,
            r.start_block == start,
            r.end_block == end,
            r.public_name@ == name@,
            r.version@ == "kwaai-0.4.0"@,
            r.torch_dtype@ == "float16"@,
            r.using_relay == relay,
            r.cache_tokens_left == 100_000,
            r.trust_attestations == trust_attestations,
            r.vpk_info == vpk_info,
            r.peer_id_b58 == peer_id_b58,
    {
        ServerInfo {
            state: 2,
            throughput_bits,
            start_block: start,
            end_block: end,
            public_name: name.to_owned(),
            version: "kwaai-0.4.0".to_owned(),
            torch_dtype: "float16".to_owned(),
            using_relay: relay,
            cache_tokens_left: 100_000,
            trust_attestations,
            vpk_info,
            peer_id_b58,
        }
    }

    /// The record's bytes, `Ext(64, [state, throughput, {fields}])`.  When
    /// the record fits, reading it back gives the announced block range,
    /// name and peer id, and the map reads the node as announced: its
    /// throughput, version, a trust tier from the number of attestations
    /// and whether it offers VPK.
    pub fn to_msgpack(&self) -> (r: Vec<u8>)
        ensures
            r@ == server_record_spec(*self),
            server_record_readable(*self) ==> server_info_spec(r@) == Some(
                (
                    ((self.start_block as i64) as usize) as int,
                    ((self.end_block as i64) as usize) as int,
                    self.public_name@,
                    self.peer_id_b58@,
                ),
            ),
            server_record_fits(*self) ==> forall|unknown: Seq<char>|
                node_record_spec(r@, unknown) == Some(
                    (
                        if self.peer_id_b58@.len() == 0 {
                            unknown
                        } else {
                            self.peer_id_b58@
                        },
                        tier_spec(self.trust_attestations.len() as nat),
                        ((self.start_block as i64) as usize) as int,
                        ((self.end_block as i64) as usize) as int,
                        Number::Double(self.throughput_bits),
                        self.public_name@,
                        self.version@,
                        self.vpk_info is Some,
                    ),
                ),
    {
        let mut fields: Vec<(MsgValue, MsgValue)> = Vec::new();
        fields.push((text("start_block"), integer(self.start_block as i64)));
        fields.push((text("end_block"), integer(self.end_block as i64)));
        fields.push((text("public_name"), text(self.public_name.as_str())));
        fields.push((text("version"), text(self.version.as_str())));
        fields.push((text("torch_dtype"), text(self.torch_dtype.as_str())));
        fields.push((text("using_relay"), MsgValue::Boolean(self.using_relay)));
        fields.push((text("cache_tokens_left"), integer(self.cache_tokens_left)));
        let no_adapters: Vec<MsgValue> = Vec::new();
        let no_pings: Vec<(MsgValue, MsgValue)> = Vec::new();
        proof {
            lemma_array_model(no_adapters);
            lemma_pairs_model(no_pings);
            assert(elems_model(no_adapters) =~= Seq::empty());
            assert(pairs_model(no_pings) =~= Seq::empty());
        }
        fields.push((text("adapters"), MsgValue::Array(no_adapters)));
        fields.push((text("next_pings"), MsgValue::Pairs(no_pings)));
        fields.push((text("peer_id"), text(self.peer_id_b58.as_str())));
        let ghost full = server_fields_model(*self);
        let ghost base = full.take(10);
        proof {
            if self.trust_attestations.len() > 0 {
                assert(full.take(10) =~= server_fields_model(*self).take(10));
            }
            assert(pairs_model(fields) =~= base);
        }
        if self.trust_attestations.len() > 0 {
            let mut ta: Vec<MsgValue> = Vec::new();
            let mut i: usize = 0;
            while i < self.trust_attestations.len()
                invariant
                    i <= self.trust_attestations.len(),
                    elems_model(ta) == attestations_model(self.trust_attestations@.take(i as int)),
                decreases self.trust_attestations.len() - i,
            {
                let ghost before = ta;
                let x = text(self.trust_attestations[i].as_str());
                ta.push(x);
                proof {
                    let t = self.trust_attestations@;
                    assert(elems_model(before).len() == i);
                    assert(before@.len() == i);
                    assert(ta@ == before@.push(x));
                    assert forall|k: int| 0 <= k < i as int + 1 implies #[trigger] elems_model(ta)[k]
                        == attestations_model(t.take(i as int + 1))[k] by {
                        if k < i {
                            assert(ta@[k] == before@[k]);
                            assert(elems_model(before)[k] == attestations_model(t.take(i as int))[k]);
                        }
                    }
                    assert(elems_model(ta) =~= attestations_model(t.take(i as int + 1)));
                }
                i = i + 1;
            }
            proof {
                assert(self.trust_attestations@.take(i as int) =~= self.trust_attestations@);
                lemma_array_model(ta);
            }
            let ghost before = pairs_model(fields);
            fields.push((text("trust_attestations"), MsgValue::Array(ta)));
            assert(pairs_model(fields) =~= before.push(
                (text_model("trust_attestations"@), MsgModel::Array(attestations_model(self.trust_attestations@))),
            ));
        }
        match &self.vpk_info {
            Some(v) => {
                let ghost before = pairs_model(fields);
                fields.push((text("vpk"), v.to_msgpack_value()));
                assert(pairs_model(fields) =~= before.push((text_model("vpk"@), vpk_model(*v))));
            },
            None => {},
        }
        assert(pairs_model(fields) =~= server_fields_model(*self));
        proof {
            lemma_pairs_model(fields);
        }
        let mut items: Vec<MsgValue> = Vec::new();
        items.push(integer(self.state as i64));
        items.push(MsgValue::F64(self.throughput_bits));
        items.push(MsgValue::Pairs(fields));
        proof {
            lemma_array_model(items);
            if let MsgModel::Array(a) = server_payload_model(*self) {
                assert(elems_model(items) =~= a);
            }
        }
        let payload = MsgValue::Array(items);
        let inner = write_msgpack(&payload);
        let ghost inner_bytes = inner@;
        let ext = MsgValue::Ext(64, inner);
        let r = write_msgpack(&ext);
        proof {
            if server_record_readable(*self) {
                lemma_server_fields_read(*self);
                assert(canonical(MsgModel::Ext(64, inner_bytes)));
                assert(msgpack_decoding(r@) == Some(MsgModel::Ext(64, inner_bytes)));
                lemma_server_payload_canonical(*self, false);
                let w = msgpack_decoding(inner_bytes)->Some_0;
                lemma_server_readback(*self, w);
                if server_record_fits(*self) {
                    lemma_server_payload_canonical(*self, true);
                    assert(msgpack_decoding(inner_bytes) == Some(server_payload_model(*self)));
                }
            }
        }
        r
    }
}

/// A model's entry in the `_petals.models` registry.
pub struct ModelInfo {
    pub num_blocks: i32,
    pub repository: String,
}

/// The entry `{repository, num_blocks}`.
pub open spec fn model_info_model(m: ModelInfo) -> MsgModel {
    MsgModel::Pairs(
        seq![
            (text_model("repository"@), text_model(m.repository@)),
            (text_model("num_blocks"@), int_model(m.num_blocks as int)),
        ],
    )
}

impl ModelInfo {
    /// The entry's bytes.
    pub fn to_msgpack(&self) -> (r: Vec<u8>)
        ensures
            r@ == msgpack_encoding(model_info_model(*self)),
    {
        let mut m: Vec<(MsgValue, MsgValue)> = Vec::new();
        m.push((text("repository"), text(self.repository.as_str())));
        m.push((text("num_blocks"), integer(self.num_blocks as i64)));
        proof {
            lemma_pairs_model(m);
            if let MsgModel::Pairs(p) = model_info_model(*self) {
                assert(pairs_model(m) =~= p);
            }
        }
        write_msgpack(&MsgValue::Pairs(m))
    }
}

/// The DHT ids under which a node serving blocks `[start, end)` of the
/// model with DHT prefix `prefix` announces itself, one per block in
/// order.
pub fn announce_block_keys(prefix: &str, start: u32, end: u32) -> (r: Vec<Vec<u8>>)
    requires
        vstd::utf8::encode_utf8(prefix@).len() + 32 < 0x1_0000_0000,
    ensures
        r@.len() == if end > start {
            end - start
        } else {
            0
        },
        forall|k: int| 0 <= k < r@.len() ==> #[trigger] r@[k]@ == dht_id_spec(
            block_key_spec(prefix@, (start + k) as nat),
        ),
{
    let mut r: Vec<Vec<u8>> = Vec::new();
    let mut b: u32 = start;
    while b < end
        invariant
            start <= b,
            b <= end || (end <= start && b == start),
            r@.len() == b - start,
            vstd::utf8::encode_utf8(prefix@).len() + 32 < 0x1_0000_0000,
            forall|k: int| 0 <= k < r@.len() ==> #[trigger] r@[k]@ == dht_id_spec(
                block_key_spec(prefix@, (start + k) as nat),
            ),
        decreases end - b,
    {
        let id = block_dht_id(prefix, b as u64);
        r.push(id);
        b = b + 1;
    }
    r
}

} // verus!
