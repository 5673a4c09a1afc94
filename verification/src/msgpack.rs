//! MessagePack values as the DHT records carry them.  Bytes are read and
//! written by the `rmpv` crate; the library looks at the values through
//! its own `MsgValue`, whose view `MsgModel` the contracts speak of.

use vstd::prelude::*;

use crate::parse::eq_lit;
use crate::text::chars_of;

verus! {

#[verifier::external_type_specification]
#[verifier::external_body]
pub struct ExRmpvValue(rmpv::Value);

/// A MessagePack value.  Integers are split as MessagePack splits them
/// (`PosInt` from zero up, `NegInt` below zero), a floating-point number is
/// kept as its IEEE-754 bit pattern, and a string is its text, or `None`
/// where its bytes are not UTF-8.
#[derive(Debug)]
pub enum MsgValue {
    Nil,
    Boolean(bool),
    PosInt(u64),
    NegInt(i64),
    F32(u32),
    F64(u64),
    Str(Option<String>),
    Binary(Vec<u8>),
    Array(Vec<MsgValue>),
    Pairs(Vec<(MsgValue, MsgValue)>),
    Ext(i8, Vec<u8>),
}

/// The mathematical form of a `MsgValue`.
pub enum MsgModel {
    Nil,
    Boolean(bool),
    PosInt(u64),
    NegInt(i64),
    F32(u32),
    F64(u64),
    Str(Option<Seq<char>>),
    Binary(Seq<u8>),
    Array(Seq<MsgModel>),
    Pairs(Seq<(MsgModel, MsgModel)>),
    Ext(i8, Seq<u8>),
}

/// The model of `v`, element by element.
pub open spec fn msg_model(v: MsgValue) -> MsgModel
    decreases v,
{
    match v {
        MsgValue::Nil => MsgModel::Nil,
        MsgValue::Boolean(b) => MsgModel::Boolean(b),
        MsgValue::PosInt(n) => MsgModel::PosInt(n),
        MsgValue::NegInt(n) => MsgModel::NegInt(n),
        MsgValue::F32(b) => MsgModel::F32(b),
        MsgValue::F64(b) => MsgModel::F64(b),
        MsgValue::Str(s) => MsgModel::Str(
            match s {
                Some(t) => Some(t@),
                None => None,
            },
        ),
        MsgValue::Binary(b) => MsgModel::Binary(b@),
        MsgValue::Array(a) => MsgModel::Array(
            Seq::new(
                a.len() as nat,
                |i: int|
                    if 0 <= i < a.len() {
                        msg_model(a[i])
                    } else {
                        MsgModel::Nil
                    },
            ),
        ),
        MsgValue::Pairs(m) => MsgModel::Pairs(
            Seq::new(
                m.len() as nat,
                |i: int|
                    if 0 <= i < m.len() {
                        (msg_model(m[i].0), msg_model(m[i].1))
                    } else {
                        (MsgModel::Nil, MsgModel::Nil)
                    },
            ),
        ),
        MsgValue::Ext(t, d) => MsgModel::Ext(t, d@),
    }
}

impl View for MsgValue {
    type V = MsgModel;

    open spec fn view(&self) -> MsgModel {
        msg_model(*self)
    }
}

/// The value that `rmpv::decode::read_value` reads from the front of
/// `bytes`, or `None` where it reports an error.
pub uninterp spec fn msgpack_decoding(bytes: Seq<u8>) -> Option<MsgModel>;

/// The bytes that `rmpv::encode::write_value` writes for `v`.
pub uninterp spec fn msgpack_encoding(v: MsgModel) -> Seq<u8>;

/// `n` fits MessagePack's 32-bit length fields.
pub open spec fn fits_u32(n: nat) -> bool {
    n < 0x1_0000_0000
}

/// The 64-bit pattern `b` is a NaN.
pub open spec fn is_nan64(b: u64) -> bool {
    (b as nat / 0x10_0000_0000_0000) % 0x800 == 0x7ff && b as nat % 0x10_0000_0000_0000 != 0
}

/// The 32-bit pattern `b` is a NaN.
pub open spec fn is_nan32(b: u32) -> bool {
    (b as nat / 0x80_0000) % 0x100 == 0xff && b as nat % 0x80_0000 != 0
}

/// `v`, nested at most `depth` levels, is in the form that rmpv writes and
/// reads back: integers in their MessagePack kind, strings that are text,
/// every length within its 32-bit field (a string of fewer than 2^30
/// characters has fewer than 2^32 bytes in UTF-8), and, where
/// `exact_floats` holds, no NaN, whose bits need not survive the trip.
pub open spec fn canonical_within(v: MsgModel, depth: nat, exact_floats: bool) -> bool
    decreases depth,
{
    depth > 0 && match v {
        MsgModel::NegInt(n) => n < 0,
        MsgModel::F32(b) => exact_floats ==> !is_nan32(b),
        MsgModel::F64(b) => exact_floats ==> !is_nan64(b),
        MsgModel::Str(s) => s is Some && s->0.len() < 0x4000_0000,
        MsgModel::Binary(b) => fits_u32(b.len()),
        MsgModel::Array(a) => fits_u32(a.len()) && forall|i: int|
            0 <= i < a.len() ==> canonical_within(#[trigger] a[i], (depth - 1) as nat, exact_floats),
        MsgModel::Pairs(m) => fits_u32(m.len()) && forall|i: int|
            0 <= i < m.len() ==> canonical_within(#[trigger] m[i].0, (depth - 1) as nat, exact_floats)
                && canonical_within(m[i].1, (depth - 1) as nat, exact_floats),
        MsgModel::Ext(_, d) => fits_u32(d.len()),
        _ => true,
    }
}

/// A map is canonical when its pairs are, one level down.
pub proof fn lemma_pairs_canonical(m: Seq<(MsgModel, MsgModel)>, depth: nat, x: bool)
    requires
        depth > 0,
        fits_u32(m.len()),
        forall|i: int| 0 <= i < m.len() ==> #[trigger] canonical_within(m[i].0, (depth - 1) as nat, x)
            && canonical_within(m[i].1, (depth - 1) as nat, x),
    ensures
        canonical_within(MsgModel::Pairs(m), depth, x),
{
    let v = MsgModel::Pairs(m);
    let d = (depth - 1) as nat;
    assert(v->Pairs_0 == m);
    assert forall|i: int| 0 <= i < v->Pairs_0.len() implies canonical_within(v->Pairs_0[i].0, d, x)
        && canonical_within(v->Pairs_0[i].1, d, x) by {
        assert(canonical_within(m[i].0, d, x));
    }
    assert(canonical_within(v, depth, x));
}

/// An array is canonical when its elements are, one level down.
pub proof fn lemma_array_canonical(a: Seq<MsgModel>, depth: nat, x: bool)
    requires
        depth > 0,
        fits_u32(a.len()),
        forall|i: int| 0 <= i < a.len() ==> #[trigger] canonical_within(a[i], (depth - 1) as nat, x),
    ensures
        canonical_within(MsgModel::Array(a), depth, x),
{
    let v = MsgModel::Array(a);
    let d = (depth - 1) as nat;
    assert(v->Array_0 == a);
    assert forall|i: int| 0 <= i < v->Array_0.len() implies canonical_within(v->Array_0[i], d, x) by {
        assert(canonical_within(a[i], d, x));
    }
    assert(canonical_within(v, depth, x));
}

/// A map stays canonical when a canonical pair is added.
pub proof fn lemma_pairs_push_canonical(
    m: Seq<(MsgModel, MsgModel)>,
    p: (MsgModel, MsgModel),
    depth: nat,
    x: bool,
)
    requires
        canonical_within(MsgModel::Pairs(m), depth, x),
        canonical_within(p.0, (depth - 1) as nat, x),
        canonical_within(p.1, (depth - 1) as nat, x),
        fits_u32(m.len() + 1),
    ensures
        canonical_within(MsgModel::Pairs(m.push(p)), depth, x),
{
    let v = MsgModel::Pairs(m);
    let d = (depth - 1) as nat;
    assert(v->Pairs_0 == m);
    let n = m.push(p);
    assert forall|i: int| 0 <= i < n.len() implies canonical_within(n[i].0, d, x) && canonical_within(
        n[i].1,
        d,
        x,
    ) by {
        if i < m.len() {
            assert(n[i] == m[i]);
            assert(canonical_within(v->Pairs_0[i].0, d, x));
        }
    }
    lemma_pairs_canonical(n, depth, x);
}

/// `w` is `v` but for the bits of its floating-point numbers, nested at
/// most `depth` levels.
pub open spec fn agrees_within(w: MsgModel, v: MsgModel, depth: nat) -> bool
    decreases depth,
{
    depth > 0 && match v {
        MsgModel::F32(_) => w is F32,
        MsgModel::F64(_) => w is F64,
        MsgModel::Array(b) => w matches MsgModel::Array(a) && a.len() == b.len() && forall|i: int|
            0 <= i < b.len() ==> agrees_within(#[trigger] a[i], b[i], (depth - 1) as nat),
        MsgModel::Pairs(q) => w matches MsgModel::Pairs(p) && p.len() == q.len() && forall|i: int|
            0 <= i < q.len() ==> agrees_within(#[trigger] p[i].0, q[i].0, (depth - 1) as nat)
                && agrees_within(p[i].1, q[i].1, (depth - 1) as nat),
        _ => w == v,
    }
}

/// What agreeing with an array means: an array of as many elements, each
/// agreeing one level down.
pub proof fn lemma_agrees_array(w: MsgModel, b: Seq<MsgModel>, depth: nat)
    requires
        agrees_within(w, MsgModel::Array(b), depth),
    ensures
        w matches MsgModel::Array(a) && a.len() == b.len() && forall|i: int|
            0 <= i < b.len() ==> agrees_within(#[trigger] a[i], b[i], (depth - 1) as nat),
{
}

/// What agreeing with a map means: a map of as many pairs, each agreeing
/// one level down.
pub proof fn lemma_agrees_pairs(w: MsgModel, q: Seq<(MsgModel, MsgModel)>, depth: nat)
    requires
        agrees_within(w, MsgModel::Pairs(q), depth),
    ensures
        w matches MsgModel::Pairs(p) && p.len() == q.len() && forall|i: int|
            0 <= i < q.len() ==> agrees_within(#[trigger] p[i].0, q[i].0, (depth - 1) as nat)
                && agrees_within(p[i].1, q[i].1, (depth - 1) as nat),
{
}

/// Keys that read as the same texts are looked up alike.
pub proof fn lemma_same_keys(m: Seq<(MsgModel, MsgModel)>, f: Seq<(MsgModel, MsgModel)>, key: Seq<char>, i: int)
    requires
        m.len() == f.len(),
        forall|j: int| 0 <= j < m.len() ==> text_of(#[trigger] m[j].0) == text_of(f[j].0),
    ensures
        key_index_from(m, key, i) == key_index_from(f, key, i),
    decreases m.len() - i,
{
    if 0 <= i < m.len() {
        assert(text_of(m[i].0) == text_of(f[i].0));
        lemma_same_keys(m, f, key, i + 1);
    }
}

/// The depth to which the records of this library nest, with room to spare
/// inside rmpv's reading limit.
pub open spec fn record_depth() -> nat {
    64
}

/// `v` is written and read back unchanged.
pub open spec fn canonical(v: MsgModel) -> bool {
    canonical_within(v, record_depth(), true)
}

/// `v` is written and read back unchanged but for the bits of its NaNs.
pub open spec fn readable(v: MsgModel) -> bool {
    canonical_within(v, record_depth(), false)
}

/// Moves an `rmpv::Value` that is neither an array nor a map into the
/// library's form, variant for variant.  Only `from_rmpv` uses it; it
/// states nothing of its own.
#[verifier::external_body]
fn scalar_from_rmpv(v: rmpv::Value) -> MsgValue {
    match v {
        rmpv::Value::Boolean(b) => MsgValue::Boolean(b),
        rmpv::Value::Integer(n) => match n.as_u64() {
            Some(u) => MsgValue::PosInt(u),
            None => MsgValue::NegInt(n.as_i64().unwrap_or_default()),
        },
        rmpv::Value::F32(x) => MsgValue::F32(x.to_bits()),
        rmpv::Value::F64(x) => MsgValue::F64(x.to_bits()),
        rmpv::Value::String(s) => MsgValue::Str(s.into_str()),
        rmpv::Value::Binary(b) => MsgValue::Binary(b),
        rmpv::Value::Ext(t, d) => MsgValue::Ext(t, d),
        _ => MsgValue::Nil,
    }
}

/// Moves an `rmpv::Value` into the library's form, variant for variant.
/// Only `read_msgpack` uses it; it states nothing of its own.
#[verifier::external_body]
fn from_rmpv(v: rmpv::Value) -> MsgValue {
    match v {
        rmpv::Value::Array(a) => MsgValue::Array(a.into_iter().map(from_rmpv).collect()),
        rmpv::Value::Map(m) => MsgValue::Pairs(m.into_iter().map(|(k, x)| (from_rmpv(k), from_rmpv(x))).collect()),
        other => scalar_from_rmpv(other),
    }
}

/// The number that rmpv reads from a `float 32` or `float 64` record,
/// which keeps the bit pattern.  Only `scalar_to_rmpv` uses it.
#[verifier::external_body]
fn float_from(record: &[u8]) -> rmpv::Value {
    rmpv::decode::read_value(&mut &record[..]).unwrap_or(rmpv::Value::Nil)
}

/// Moves a value of the library's form that is neither an array nor a map
/// into an `rmpv::Value`, variant for variant; a string that is not text
/// (`Str(None)`, which only reading produces) is written as the empty
/// string.  Only `to_rmpv` uses it; it
/// states nothing of its own.
#[verifier::external_body]
fn scalar_to_rmpv(v: &MsgValue) -> rmpv::Value {
    match v {
        MsgValue::Boolean(b) => rmpv::Value::Boolean(*b),
        MsgValue::PosInt(n) => rmpv::Value::from(*n),
        MsgValue::NegInt(n) => rmpv::Value::from(*n),
        MsgValue::F32(b) => float_from(&[&[0xca][..], &b.to_be_bytes()].concat()),
        MsgValue::F64(b) => float_from(&[&[0xcb][..], &b.to_be_bytes()].concat()),
        MsgValue::Str(s) => rmpv::Value::from(s.clone().unwrap_or_default()),
        MsgValue::Binary(b) => rmpv::Value::Binary(b.clone()),
        MsgValue::Ext(t, d) => rmpv::Value::Ext(*t, d.clone()),
        _ => rmpv::Value::Nil,
    }
}

/// Moves a value of the library's form into an `rmpv::Value`, variant for
/// variant.  Only `write_msgpack` uses it; it states nothing of its own.
#[verifier::external_body]
fn to_rmpv(v: &MsgValue) -> rmpv::Value {
    match v {
        MsgValue::Array(a) => rmpv::Value::Array(a.iter().map(to_rmpv).collect()),
        MsgValue::Pairs(m) => rmpv::Value::Map(m.iter().map(|(k, x)| (to_rmpv(k), to_rmpv(x))).collect()),
        other => scalar_to_rmpv(other),
    }
}

/// The model of an optional value.
pub open spec fn opt_model(r: Option<MsgValue>) -> Option<MsgModel> {
    match r {
        Some(v) => Some(v@),
        None => None,
    }
}

/// Reads one MessagePack value from the front of `bytes` with
/// `rmpv::decode::read_value`, `None` where rmpv reports an error.  The
/// contract names the result and says nothing more of it.
#[verifier::external_body]
pub(crate) fn read_msgpack(bytes: &[u8]) -> (r: Option<MsgValue>)
    ensures
        opt_model(r) == msgpack_decoding(bytes@),
{
    match rmpv::decode::read_value(&mut &bytes[..]) {
        Ok(v) => Some(from_rmpv(v)),
        Err(_) => None,
    }
}

/// Writes `v` with `rmpv::encode::write_value` into a fresh `Vec`, which
/// never refuses a write.  The contract names the bytes and claims what
/// rmpv's writer and reader show between them: reading a canonical value's
/// bytes gives it back, and reading a readable value's bytes gives it back
/// but for the bits of its NaNs (which pass through the platform's float
/// registers).
#[verifier::external_body]
pub(crate) fn write_msgpack(v: &MsgValue) -> (r: Vec<u8>)
    ensures
        r@ == msgpack_encoding(v@),
        canonical(v@) ==> msgpack_decoding(r@) == Some(v@),
        readable(v@) ==> msgpack_decoding(r@) is Some && agrees_within(
            msgpack_decoding(r@)->Some_0,
            v@,
            record_depth(),
        ),
{
    let mut buf = Vec::new();
    let _ = rmpv::encode::write_value(&mut buf, &to_rmpv(v));
    buf
}

// ── Reading values ────────────────────────────────────────────────────────

/// The text of a string value (`rmpv::Value::as_str`).
pub open spec fn text_of(v: MsgModel) -> Option<Seq<char>> {
    match v {
        MsgModel::Str(Some(t)) => Some(t),
        _ => None,
    }
}

/// The text of a string value, or the empty text.
pub open spec fn text_or_empty(v: MsgModel) -> Seq<char> {
    match text_of(v) {
        Some(t) => t,
        None => Seq::empty(),
    }
}

/// The value as an `i64` (`rmpv::Value::as_i64`).
pub open spec fn int_of(v: MsgModel) -> Option<i64> {
    match v {
        MsgModel::PosInt(n) => if n <= i64::MAX {
            Some(n as i64)
        } else {
            None
        },
        MsgModel::NegInt(n) => Some(n),
        _ => None,
    }
}

/// The value as a `u64` (`rmpv::Value::as_u64`).
pub open spec fn uint_of(v: MsgModel) -> Option<u64> {
    match v {
        MsgModel::PosInt(n) => Some(n),
        MsgModel::NegInt(n) => if n >= 0 {
            Some(n as u64)
        } else {
            None
        },
        _ => None,
    }
}

/// The index of the first pair at or after `i` whose key is the string
/// `key`.
pub open spec fn key_index_from(m: Seq<(MsgModel, MsgModel)>, key: Seq<char>, i: int) -> Option<int>
    decreases m.len() - i,
{
    if i < 0 || i >= m.len() {
        None
    } else if text_of(m[i].0) == Some(key) {
        Some(i)
    } else {
        key_index_from(m, key, i + 1)
    }
}

/// The value under the first key `key`, as `map.iter().find(..)` gives it.
pub open spec fn field(m: Seq<(MsgModel, MsgModel)>, key: Seq<char>) -> Option<MsgModel> {
    match key_index_from(m, key, 0) {
        Some(i) => Some(m[i].1),
        None => None,
    }
}

/// The text under `key`, or the empty text where there is none.
pub open spec fn text_field(m: Seq<(MsgModel, MsgModel)>, key: Seq<char>) -> Seq<char> {
    match field(m, key) {
        Some(v) => text_or_empty(v),
        None => Seq::empty(),
    }
}

/// The integer under `key`.
pub open spec fn int_field(m: Seq<(MsgModel, MsgModel)>, key: Seq<char>) -> Option<i64> {
    match field(m, key) {
        Some(v) => int_of(v),
        None => None,
    }
}

/// The text of a string value.
pub fn text_value(v: &MsgValue) -> (r: Option<String>)
    ensures
        match r {
            Some(t) => text_of(v@) == Some(t@),
            None => text_of(v@) is None,
        },
{
    match v {
        MsgValue::Str(Some(t)) => Some(t.clone()),
        _ => None,
    }
}

/// The value as an `i64`.
pub fn int_value(v: &MsgValue) -> (r: Option<i64>)
    ensures
        r == int_of(v@),
{
    match v {
        MsgValue::PosInt(n) => if *n <= 0x7fff_ffff_ffff_ffffu64 {
            Some(*n as i64)
        } else {
            None
        },
        MsgValue::NegInt(n) => Some(*n),
        _ => None,
    }
}

/// The value as a `u64`.
pub fn uint_value(v: &MsgValue) -> (r: Option<u64>)
    ensures
        r == uint_of(v@),
{
    match v {
        MsgValue::PosInt(n) => Some(*n),
        MsgValue::NegInt(n) => if *n >= 0 {
            Some(*n as u64)
        } else {
            None
        },
        _ => None,
    }
}

/// `k` is the string `key`.
pub fn key_matches(k: &MsgValue, key: &str) -> (r: bool)
    ensures
        r == (text_of(k@) == Some(key@)),
{
    match k {
        MsgValue::Str(Some(t)) => {
            let c = chars_of(t.as_str());
            eq_lit(&c, key)
        },
        _ => false,
    }
}

/// The models of the pairs of a map.
pub open spec fn pairs_model(m: Vec<(MsgValue, MsgValue)>) -> Seq<(MsgModel, MsgModel)> {
    Seq::new(m.len() as nat, |i: int| (m[i].0@, m[i].1@))
}

/// The models of the elements of an array.
pub open spec fn elems_model(a: Vec<MsgValue>) -> Seq<MsgModel> {
    Seq::new(a.len() as nat, |i: int| a[i]@)
}

/// A map's model holds the models of its pairs.
pub proof fn lemma_pairs_model(m: Vec<(MsgValue, MsgValue)>)
    ensures
        MsgValue::Pairs(m)@ == MsgModel::Pairs(pairs_model(m)),
{
    assert(msg_model(MsgValue::Pairs(m)) == MsgModel::Pairs(pairs_model(m))) by {
        if let MsgModel::Pairs(p) = msg_model(MsgValue::Pairs(m)) {
            assert(p =~= pairs_model(m));
        }
    }
}

/// An array's model holds the models of its elements.
pub proof fn lemma_array_model(a: Vec<MsgValue>)
    ensures
        MsgValue::Array(a)@ == MsgModel::Array(elems_model(a)),
{
    assert(msg_model(MsgValue::Array(a)) == MsgModel::Array(elems_model(a))) by {
        if let MsgModel::Array(s) = msg_model(MsgValue::Array(a)) {
            assert(s =~= elems_model(a));
        }
    }
}

/// The index of the first pair whose key is the string `key`.
pub fn key_index(m: &Vec<(MsgValue, MsgValue)>, key: &str) -> (r: Option<usize>)
    ensures
        match r {
            Some(i) => i < m.len() && key_index_from(pairs_model(*m), key@, 0) == Some(i as int),
            None => key_index_from(pairs_model(*m), key@, 0) is None,
        },
{
    let ghost p = pairs_model(*m);
    let mut i: usize = 0;
    while i < m.len()
        invariant
            i <= m.len(),
            p == pairs_model(*m),
            key_index_from(p, key@, 0) == key_index_from(p, key@, i as int),
        decreases m.len() - i,
    {
        if key_matches(&m[i].0, key) {
            assert(p[i as int] == (m[i as int].0@, m[i as int].1@));
            return Some(i);
        }
        assert(p[i as int] == (m[i as int].0@, m[i as int].1@));
        i = i + 1;
    }
    None
}

/// The integer under `key` in a map.
pub fn int_in(m: &Vec<(MsgValue, MsgValue)>, key: &str) -> (r: Option<i64>)
    ensures
        r == int_field(pairs_model(*m), key@),
{
    match key_index(m, key) {
        Some(i) => {
            assert(pairs_model(*m)[i as int] == (m[i as int].0@, m[i as int].1@));
            int_value(&m[i].1)
        },
        None => None,
    }
}

/// The unsigned integer under `key` in a map.
pub fn uint_in(m: &Vec<(MsgValue, MsgValue)>, key: &str) -> (r: Option<u64>)
    ensures
        r == match field(pairs_model(*m), key@) {
            Some(v) => uint_of(v),
            None => None,
        },
{
    match key_index(m, key) {
        Some(i) => {
            assert(pairs_model(*m)[i as int] == (m[i as int].0@, m[i as int].1@));
            uint_value(&m[i].1)
        },
        None => None,
    }
}

/// The text under `key` in a map, or `default` where there is none.
pub fn text_in_or(m: &Vec<(MsgValue, MsgValue)>, key: &str, default: &str) -> (r: String)
    ensures
        r@ == match field(pairs_model(*m), key@) {
            Some(v) => match text_of(v) {
                Some(t) => t,
                None => default@,
            },
            None => default@,
        },
{
    match key_index(m, key) {
        Some(i) => {
            assert(pairs_model(*m)[i as int] == (m[i as int].0@, m[i as int].1@));
            match text_value(&m[i].1) {
                Some(t) => t,
                None => default.to_owned(),
            }
        },
        None => default.to_owned(),
    }
}

/// The text under `key` in a map, or the empty text.
pub fn text_in(m: &Vec<(MsgValue, MsgValue)>, key: &str) -> (r: String)
    ensures
        r@ == text_field(pairs_model(*m), key@),
{
    proof {
        reveal_strlit("");
    }
    text_in_or(m, key, "")
}

/// A number as a record holds it, before it is read as a float
/// (`rmpv::Value::as_f64`): an integer, the bits of a `float 32` or a
/// `float 64`, or `NotANumber` where the value is none of these, which
/// reads as zero.
#[derive(Clone, Copy, PartialEq, Eq, Structural, Debug)]
pub enum Number {
    Unsigned(u64),
    Signed(i64),
    Single(u32),
    Double(u64),
    NotANumber,
}

/// The number a value holds.
pub open spec fn number_of(v: MsgModel) -> Number {
    match v {
        MsgModel::PosInt(n) => Number::Unsigned(n),
        MsgModel::NegInt(n) => Number::Signed(n),
        MsgModel::F32(b) => Number::Single(b),
        MsgModel::F64(b) => Number::Double(b),
        _ => Number::NotANumber,
    }
}

/// The number under `key`, `NotANumber` where there is none.
pub open spec fn number_field(m: Seq<(MsgModel, MsgModel)>, key: Seq<char>) -> Number {
    match field(m, key) {
        Some(v) => number_of(v),
        None => Number::NotANumber,
    }
}

/// Reads the number a value holds.
pub fn number_value(v: &MsgValue) -> (r: Number)
    ensures
        r == number_of(v@),
{
    match v {
        MsgValue::PosInt(n) => Number::Unsigned(*n),
        MsgValue::NegInt(n) => Number::Signed(*n),
        MsgValue::F32(b) => Number::Single(*b),
        MsgValue::F64(b) => Number::Double(*b),
        _ => Number::NotANumber,
    }
}

/// Reads the number under `key` in a map.
pub fn number_in(m: &Vec<(MsgValue, MsgValue)>, key: &str) -> (r: Number)
    ensures
        r == number_field(pairs_model(*m), key@),
{
    match key_index(m, key) {
        Some(i) => {
            assert(pairs_model(*m)[i as int] == (m[i as int].0@, m[i as int].1@));
            number_value(&m[i].1)
        },
        None => Number::NotANumber,
    }
}

} // verus!
