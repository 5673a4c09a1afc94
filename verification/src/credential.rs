//! The KwaaiNet credential types of the decentralized trust graph, their
//! names and trust weights, and the trust tier a node is shown with.

use vstd::prelude::*;

verus! {

/// KwaaiNet-specific credential types in the trust graph.
#[derive(Debug, Clone, Copy, PartialEq, Eq, Structural, Hash)]
pub enum KwaaiCredentialType {
    /// Attendance at a Kwaai Personal AI Summit
    SummitAttendeeVC,
    /// Node operator signed the GliaNet Fiduciary Pledge
    FiduciaryPledgeVC,
    /// Node passed Kwaai Foundation onboarding verification
    VerifiedNodeVC,
    /// Node demonstrated uptime over a period, issued by bootstrap servers
    UptimeVC,
    /// Peer-witnessed throughput close to the node's announced value
    ThroughputVC,
    /// Peer-to-peer endorsement of reliability
    PeerEndorsementVC,
    /// Binding between a passkey `did:key:` identity and a node `did:peer:`
    BindingVC,
}

/// The type's name as it appears in a credential's `type` list.
pub open spec fn type_name_spec(t: KwaaiCredentialType) -> Seq<char> {
    match t {
        KwaaiCredentialType::SummitAttendeeVC => "SummitAttendeeVC"@,
        KwaaiCredentialType::FiduciaryPledgeVC => "FiduciaryPledgeVC"@,
        KwaaiCredentialType::VerifiedNodeVC => "VerifiedNodeVC"@,
        KwaaiCredentialType::UptimeVC => "UptimeVC"@,
        KwaaiCredentialType::ThroughputVC => "ThroughputVC"@,
        KwaaiCredentialType::PeerEndorsementVC => "PeerEndorsementVC"@,
        KwaaiCredentialType::BindingVC => "BindingVC"@,
    }
}

/// The credential type named `s`, if any.
pub open spec fn from_type_spec(s: Seq<char>) -> Option<KwaaiCredentialType> {
    if s == "SummitAttendeeVC"@ {
        Some(KwaaiCredentialType::SummitAttendeeVC)
    } else if s == "FiduciaryPledgeVC"@ {
        Some(KwaaiCredentialType::FiduciaryPledgeVC)
    } else if s == "VerifiedNodeVC"@ {
        Some(KwaaiCredentialType::VerifiedNodeVC)
    } else if s == "UptimeVC"@ {
        Some(KwaaiCredentialType::UptimeVC)
    } else if s == "ThroughputVC"@ {
        Some(KwaaiCredentialType::ThroughputVC)
    } else if s == "PeerEndorsementVC"@ {
        Some(KwaaiCredentialType::PeerEndorsementVC)
    } else if s == "BindingVC"@ {
        Some(KwaaiCredentialType::BindingVC)
    } else {
        None
    }
}

/// The trust weight of a type, in hundredths.
pub open spec fn trust_weight_spec(t: KwaaiCredentialType) -> nat {
    match t {
        KwaaiCredentialType::FiduciaryPledgeVC => 30,
        KwaaiCredentialType::VerifiedNodeVC => 20,
        KwaaiCredentialType::UptimeVC => 20,
        KwaaiCredentialType::ThroughputVC => 15,
        KwaaiCredentialType::SummitAttendeeVC => 10,
        KwaaiCredentialType::PeerEndorsementVC => 5,
        KwaaiCredentialType::BindingVC => 0,
    }
}

impl KwaaiCredentialType {
    /// The type's name as it appears in a credential's `type` list.
    pub fn as_str(&self) -> (r: &'static str)
        ensures
            r@ == type_name_spec(*self),
    {
        match self {
            KwaaiCredentialType::SummitAttendeeVC => "SummitAttendeeVC",
            KwaaiCredentialType::FiduciaryPledgeVC => "FiduciaryPledgeVC",
            KwaaiCredentialType::VerifiedNodeVC => "VerifiedNodeVC",
            KwaaiCredentialType::UptimeVC => "UptimeVC",
            KwaaiCredentialType::ThroughputVC => "ThroughputVC",
            KwaaiCredentialType::PeerEndorsementVC => "PeerEndorsementVC",
            KwaaiCredentialType::BindingVC => "BindingVC",
        }
    }

    /// Contribution to the local trust score, in hundredths (the score
    /// weight is this divided by 100).  A binding is a structural link and
    /// weighs nothing.
    pub fn trust_weight_percent(&self) -> (r: u32)
        ensures
            r as nat == trust_weight_spec(*self),
    {
        match self {
            KwaaiCredentialType::FiduciaryPledgeVC => 30,
            KwaaiCredentialType::VerifiedNodeVC => 20,
            KwaaiCredentialType::UptimeVC => 20,
            KwaaiCredentialType::ThroughputVC => 15,
            KwaaiCredentialType::SummitAttendeeVC => 10,
            KwaaiCredentialType::PeerEndorsementVC => 5,
            KwaaiCredentialType::BindingVC => 0,
        }
    }

    /// Parse from a credential type string (e.g. `"SummitAttendeeVC"`).
    pub fn from_type_str(s: &str) -> (r: Option<Self>)
        ensures
            r == from_type_spec(s@),
    {
        let c = crate::text::chars_of(s);
        if crate::parse::eq_lit(&c, "SummitAttendeeVC") {
            Some(KwaaiCredentialType::SummitAttendeeVC)
        } else if crate::parse::eq_lit(&c, "FiduciaryPledgeVC") {
            Some(KwaaiCredentialType::FiduciaryPledgeVC)
        } else if crate::parse::eq_lit(&c, "VerifiedNodeVC") {
            Some(KwaaiCredentialType::VerifiedNodeVC)
        } else if crate::parse::eq_lit(&c, "UptimeVC") {
            Some(KwaaiCredentialType::UptimeVC)
        } else if crate::parse::eq_lit(&c, "ThroughputVC") {
            Some(KwaaiCredentialType::ThroughputVC)
        } else if crate::parse::eq_lit(&c, "PeerEndorsementVC") {
            Some(KwaaiCredentialType::PeerEndorsementVC)
        } else if crate::parse::eq_lit(&c, "BindingVC") {
            Some(KwaaiCredentialType::BindingVC)
        } else {
            None
        }
    }
}

/// Reading a type's name gives the type back, and a name is read as a type
/// only when it is that type's name.
pub proof fn law_type_name_roundtrip(t: KwaaiCredentialType, s: Seq<char>)
    ensures
        from_type_spec(type_name_spec(t)) == Some(t),
        from_type_spec(s) matches Some(u) ==> type_name_spec(u) == s,
{
    reveal_strlit("SummitAttendeeVC");
    reveal_strlit("FiduciaryPledgeVC");
    reveal_strlit("VerifiedNodeVC");
    reveal_strlit("UptimeVC");
    reveal_strlit("ThroughputVC");
    reveal_strlit("PeerEndorsementVC");
    reveal_strlit("BindingVC");
    let names = seq![
        "SummitAttendeeVC"@,
        "FiduciaryPledgeVC"@,
        "VerifiedNodeVC"@,
        "UptimeVC"@,
        "ThroughputVC"@,
        "PeerEndorsementVC"@,
        "BindingVC"@,
    ];
    assert forall|i: int, j: int| 0 <= i < j < 7 implies names[i] != names[j] by {
        assert(names[i][0] != names[j][0] || names[i].len() != names[j].len());
    }
    let k: int = match t {
        KwaaiCredentialType::SummitAttendeeVC => 0,
        KwaaiCredentialType::FiduciaryPledgeVC => 1,
        KwaaiCredentialType::VerifiedNodeVC => 2,
        KwaaiCredentialType::UptimeVC => 3,
        KwaaiCredentialType::ThroughputVC => 4,
        KwaaiCredentialType::PeerEndorsementVC => 5,
        KwaaiCredentialType::BindingVC => 6,
    };
    assert(type_name_spec(t) == names[k]);
    assert forall|j: int| 0 <= j < k implies names[j] != names[k] by {}
}

/// The weights are calibrated so that a node with a fiduciary pledge, an
/// onboarding verification, uptime and throughput credentials reaches 0.85,
/// leaving headroom for peer endorsements; all types together weigh 1.
pub proof fn law_trust_weight_calibration()
    ensures
        trust_weight_spec(KwaaiCredentialType::FiduciaryPledgeVC) + trust_weight_spec(
            KwaaiCredentialType::VerifiedNodeVC,
        ) + trust_weight_spec(KwaaiCredentialType::UptimeVC) + trust_weight_spec(
            KwaaiCredentialType::ThroughputVC,
        ) == 85,
        trust_weight_spec(KwaaiCredentialType::FiduciaryPledgeVC) + trust_weight_spec(
            KwaaiCredentialType::VerifiedNodeVC,
        ) + trust_weight_spec(KwaaiCredentialType::UptimeVC) + trust_weight_spec(
            KwaaiCredentialType::ThroughputVC,
        ) + trust_weight_spec(KwaaiCredentialType::SummitAttendeeVC) + trust_weight_spec(
            KwaaiCredentialType::PeerEndorsementVC,
        ) + trust_weight_spec(KwaaiCredentialType::BindingVC) == 100,
{
}

/// The first KwaaiNet type among a credential's type names.
pub open spec fn first_kwaai_type(types: Seq<Seq<char>>) -> Option<KwaaiCredentialType>
    decreases types.len(),
{
    if types.len() == 0 {
        None
    } else {
        match first_kwaai_type(types.drop_last()) {
            Some(t) => Some(t),
            None => from_type_spec(types.last()),
        }
    }
}

/// The KwaaiNet-specific type of a credential with the type names
/// `credential_type`: the first of them that names one.
pub fn kwaai_type(credential_type: &Vec<String>) -> (r: Option<KwaaiCredentialType>)
    ensures
        r == first_kwaai_type(crate::config::strings_view(credential_type@)),
{
    let ghost sv = crate::config::strings_view(credential_type@);
    let mut i: usize = 0;
    while i < credential_type.len()
        invariant
            i <= credential_type.len(),
            sv == crate::config::strings_view(credential_type@),
            first_kwaai_type(sv.take(i as int)) is None,
        decreases credential_type.len() - i,
    {
        assert(sv.take(i + 1).drop_last() =~= sv.take(i as int));
        match KwaaiCredentialType::from_type_str(credential_type[i].as_str()) {
            Some(t) => {
                proof {
                    lemma_first_kwaai_type_stable(sv, i + 1);
                }
                return Some(t);
            },
            None => {},
        }
        i = i + 1;
    }
    assert(sv.take(sv.len() as int) =~= sv);
    None
}

/// Once a type is found in a prefix, longer prefixes find the same one.
proof fn lemma_first_kwaai_type_stable(s: Seq<Seq<char>>, m: int)
    requires
        0 <= m <= s.len(),
    ensures
        first_kwaai_type(s.take(m)) is Some ==> first_kwaai_type(s) == first_kwaai_type(s.take(m)),
    decreases s.len() - m,
{
    if m < s.len() {
        lemma_first_kwaai_type_stable(s, m + 1);
        assert(s.take(m + 1).drop_last() =~= s.take(m));
    } else {
        assert(s.take(m) =~= s);
    }
}

/// The trust tier for a number of trust attestations.
pub open spec fn tier_spec(count: nat) -> Seq<char> {
    if count == 0 {
        "Unknown"@
    } else if count <= 2 {
        "Known"@
    } else if count <= 4 {
        "Verified"@
    } else {
        "Trusted"@
    }
}

/// The trust tier shown for a node with `count` trust attestations:
/// `Unknown` for none, `Known` for one or two, `Verified` for three or
/// four, `Trusted` for more.
pub fn tier_from_vc_count(count: usize) -> (r: &'static str)
    ensures
        r@ == tier_spec(count as nat),
{
    if count == 0 {
        "Unknown"
    } else if count <= 2 {
        "Known"
    } else if count <= 4 {
        "Verified"
    } else {
        "Trusted"
    }
}

/// A point in time in UTC: whole seconds since the Unix epoch and the
/// nanoseconds within that second.
#[derive(Debug, Clone, Copy, PartialEq, Eq, Structural)]
pub struct UtcTime {
    pub secs: i64,
    pub nanos: u32,
}

/// `a` is strictly earlier than `b`.
pub open spec fn time_before(a: UtcTime, b: UtcTime) -> bool {
    a.secs < b.secs || (a.secs == b.secs && a.nanos < b.nanos)
}

/// `t` moved `days` whole days later.
pub open spec fn days_after_spec(t: UtcTime, days: nat) -> UtcTime {
    UtcTime { secs: (t.secs + days * 86400) as i64, nanos: t.nanos }
}

/// The time `days` whole days after `t`.
pub fn days_after(t: UtcTime, days: u32) -> (r: UtcTime)
    requires
        t.secs + days * 86400 <= i64::MAX,
    ensures
        r == days_after_spec(t, days as nat),
{
    let span: i64 = (days as i64) * 86400;
    UtcTime { secs: t.secs + span, nanos: t.nanos }
}

/// A claim's value in a credential subject: a text or a count.
#[derive(Debug, Clone)]
pub enum ClaimValue {
    Text(String),
    Count(u64),
}

/// A claim value with its text as characters.
pub enum ClaimModel {
    Text(Seq<char>),
    Count(u64),
}

impl View for ClaimValue {
    type V = ClaimModel;

    open spec fn view(&self) -> ClaimModel {
        match self {
            ClaimValue::Text(s) => ClaimModel::Text(s@),
            ClaimValue::Count(n) => ClaimModel::Count(*n),
        }
    }
}

/// Claims as (name, value) pairs with their texts as characters.
pub open spec fn claims_view(cs: Seq<(String, ClaimValue)>) -> Seq<(Seq<char>, ClaimModel)> {
    cs.map_values(|p: (String, ClaimValue)| (p.0@, p.1@))
}

/// Where the first claim named `k` stands, if any.
pub open spec fn key_position(cs: Seq<(Seq<char>, ClaimModel)>, k: Seq<char>) -> Option<nat>
    decreases cs.len(),
{
    if cs.len() == 0 {
        None
    } else {
        match key_position(cs.drop_last(), k) {
            Some(i) => Some(i),
            None => if cs.last().0 == k {
                Some((cs.len() - 1) as nat)
            } else {
                None
            },
        }
    }
}

/// The claims with `k` set to `v`: the claim named `k` gets the new value
/// where there is one, else the claim is added at the end.
pub open spec fn set_claim(cs: Seq<(Seq<char>, ClaimModel)>, k: Seq<char>, v: ClaimModel) -> Seq<
    (Seq<char>, ClaimModel),
> {
    match key_position(cs, k) {
        Some(i) => cs.update(i as int, (k, v)),
        None => cs.push((k, v)),
    }
}

/// No two claims share a name.
pub open spec fn claim_names_distinct(cs: Seq<(Seq<char>, ClaimModel)>) -> bool {
    forall|i: int, j: int| 0 <= i < j < cs.len() ==> cs[i].0 != cs[j].0
}

/// Once a claim is found in a prefix, longer prefixes find the same one.
proof fn lemma_key_position_stable(s: Seq<(Seq<char>, ClaimModel)>, k: Seq<char>, m: int)
    requires
        0 <= m <= s.len(),
    ensures
        key_position(s.take(m), k) is Some ==> key_position(s, k) == key_position(s.take(m), k),
    decreases s.len() - m,
{
    if m < s.len() {
        lemma_key_position_stable(s, k, m + 1);
        assert(s.take(m + 1).drop_last() =~= s.take(m));
    } else {
        assert(s.take(m) =~= s);
    }
}

/// A claim is found exactly where its name first occurs.
proof fn lemma_key_position_first(s: Seq<(Seq<char>, ClaimModel)>, k: Seq<char>)
    ensures
        key_position(s, k) matches Some(i) ==> i < s.len() && s[i as int].0 == k && forall|j: int|
            0 <= j < i ==> s[j].0 != k,
        key_position(s, k) is None ==> forall|j: int| 0 <= j < s.len() ==> s[j].0 != k,
    decreases s.len(),
{
    if s.len() > 0 {
        let p = s.drop_last();
        lemma_key_position_first(p, k);
        assert forall|j: int| 0 <= j < p.len() implies p[j] == s[j] by {}
    }
}

/// Setting a claim keeps the claim names distinct.
pub proof fn law_set_claim_keeps_names_distinct(
    cs: Seq<(Seq<char>, ClaimModel)>,
    k: Seq<char>,
    v: ClaimModel,
)
    requires
        claim_names_distinct(cs),
    ensures
        claim_names_distinct(set_claim(cs, k, v)),
        set_claim(cs, k, v).len() == cs.len() + (if key_position(cs, k) is Some { 0int } else { 1 }),
{
    lemma_key_position_first(cs, k);
}

/// The subject of a credential: its DID and the claims made about it.
pub struct CredentialSubject {
    pub id: String,
    pub claims: Vec<(String, ClaimValue)>,
}

impl CredentialSubject {
    /// A subject with the DID `id` and no claims.
    pub fn new(id: String) -> (r: Self)
        ensures
            r.id@ == id@,
            r.claims@.len() == 0,
    {
        CredentialSubject { id, claims: Vec::new() }
    }

    /// The subject with the claim `key` set to `value`.
    pub fn with_claim(self, key: String, value: ClaimValue) -> (r: Self)
        ensures
            r.id@ == self.id@,
            claims_view(r.claims@) == set_claim(claims_view(self.claims@), key@, value@),
    {
        let mut s = self;
        let ghost cv = claims_view(s.claims@);
        match claim_index(&s.claims, key.as_str()) {
            Some(i) => {
                s.claims.set(i, (key, value));
                assert(claims_view(s.claims@) =~= cv.update(i as int, (key@, value@)));
            },
            None => {
                s.claims.push((key, value));
                assert(claims_view(s.claims@) =~= cv.push((key@, value@)));
            },
        }
        s
    }
}

/// Where the first claim named `key` stands, if any.
fn claim_index(claims: &Vec<(String, ClaimValue)>, key: &str) -> (r: Option<usize>)
    ensures
        match r {
            Some(i) => i < claims.len() && key_position(claims_view(claims@), key@) == Some(i as nat),
            None => key_position(claims_view(claims@), key@) is None,
        },
{
    let ghost cv = claims_view(claims@);
    let kc = crate::text::chars_of(key);
    let mut i: usize = 0;
    while i < claims.len()
        invariant
            i <= claims.len(),
            cv == claims_view(claims@),
            kc@ == key@,
            key_position(cv.take(i as int), key@) is None,
        decreases claims.len() - i,
    {
        assert(cv.take(i + 1).drop_last() =~= cv.take(i as int));
        let name = crate::text::chars_of(claims[i].0.as_str());
        if crate::parse::chars_eq(&name, &kc) {
            proof {
                assert(cv[i as int].0 == key@);
                assert(cv.take(i + 1).last() == cv[i as int]);
                lemma_key_position_stable(cv, key@, i + 1);
            }
            return Some(i);
        }
        i = i + 1;
    }
    assert(cv.take(cv.len() as int) =~= cv);
    None
}

/// The cryptographic proof attached to a signed credential.
pub struct CredentialProof {
    /// Always `Ed25519Signature2020`
    pub proof_type: String,
    /// When the proof was made
    pub created: UtcTime,
    /// The issuer's signing key: `<issuer-did>#key-1`
    pub verification_method: String,
    /// Always `assertionMethod`
    pub proof_purpose: String,
    /// The signature, base64url
    pub proof_value: String,
}

/// A W3C verifiable credential (data model 1.1) about a KwaaiNet node.
pub struct VerifiableCredential {
    /// JSON-LD contexts
    pub context: Vec<String>,
    /// Unique identifier, if any
    pub id: Option<String>,
    /// `VerifiableCredential` followed by the KwaaiNet type
    pub credential_type: Vec<String>,
    /// DID of the issuer
    pub issuer: String,
    /// When the credential was issued
    pub issuance_date: UtcTime,
    /// When it expires, if ever
    pub expiration_date: Option<UtcTime>,
    /// The claims about the subject
    pub subject: CredentialSubject,
    /// The issuer's proof (absent on an unsigned credential)
    pub proof: Option<CredentialProof>,
}

/// The JSON-LD contexts of every credential.
pub open spec fn contexts_spec() -> Seq<Seq<char>> {
    seq!["https://www.w3.org/2018/credentials/v1"@, "https://kwaai.ai/credentials/v1"@]
}

/// An unsigned credential as issued at `now`: the standard contexts, no id,
/// no expiry and no proof.
pub open spec fn new_credential_spec(
    vc: VerifiableCredential,
    issuer: Seq<char>,
    types: Seq<Seq<char>>,
    now: UtcTime,
) -> bool {
    &&& crate::config::strings_view(vc.context@) == contexts_spec()
    &&& vc.id is None
    &&& crate::config::strings_view(vc.credential_type@) == types
    &&& vc.issuer@ == issuer
    &&& vc.issuance_date == now
    &&& vc.proof is None
}

/// The type list `VerifiableCredential`, `t`.
pub open spec fn vc_types_spec(t: KwaaiCredentialType) -> Seq<Seq<char>> {
    seq!["VerifiableCredential"@, type_name_spec(t)]
}

/// The owned type list `VerifiableCredential`, `t`.
fn vc_types(t: KwaaiCredentialType) -> (r: Vec<String>)
    ensures
        crate::config::strings_view(r@) == vc_types_spec(t),
{
    let v = vec![String::from_str("VerifiableCredential"), String::from_str(t.as_str())];
    assert(crate::config::strings_view(v@) =~= vc_types_spec(t));
    v
}

/// A credential built for a KwaaiNet type reads back as that type:
/// `VerifiableCredential` names no KwaaiNet type, so the second name is the
/// one found.
pub proof fn law_built_credential_type(t: KwaaiCredentialType)
    ensures
        first_kwaai_type(vc_types_spec(t)) == Some(t),
{
    reveal_strlit("VerifiableCredential");
    reveal_strlit("SummitAttendeeVC");
    reveal_strlit("FiduciaryPledgeVC");
    reveal_strlit("VerifiedNodeVC");
    reveal_strlit("UptimeVC");
    reveal_strlit("ThroughputVC");
    reveal_strlit("PeerEndorsementVC");
    reveal_strlit("BindingVC");
    law_type_name_roundtrip(t, type_name_spec(t));
    let v = "VerifiableCredential"@;
    assert(v != "SummitAttendeeVC"@ && v != "FiduciaryPledgeVC"@ && v != "VerifiedNodeVC"@ && v
        != "UptimeVC"@ && v != "ThroughputVC"@ && v != "PeerEndorsementVC"@ && v != "BindingVC"@) by {
        assert(v.len() == 20);
        assert(v[0] == 'V' && v[1] == 'e');
    }
    assert(from_type_spec(v) is None);
    let s = vc_types_spec(t);
    reveal_with_fuel(first_kwaai_type, 3);
    assert(s.drop_last().drop_last() =~= Seq::<Seq<char>>::empty());
    assert(s.drop_last() =~= seq![v]);
}

impl VerifiableCredential {
    /// A new unsigned credential issued at `now`, without expiry.
    pub fn new(issuer: String, subject: CredentialSubject, credential_types: Vec<String>, now: UtcTime) -> (r: Self)
        ensures
            new_credential_spec(r, issuer@, crate::config::strings_view(credential_types@), now),
            r.expiration_date is None,
            r.subject.id@ == subject.id@,
            claims_view(r.subject.claims@) == claims_view(subject.claims@),
    {
        let context = vec![
            String::from_str("https://www.w3.org/2018/credentials/v1"),
            String::from_str("https://kwaai.ai/credentials/v1"),
        ];
        assert(crate::config::strings_view(context@) =~= contexts_spec());
        VerifiableCredential {
            context,
            id: None,
            credential_type: credential_types,
            issuer,
            issuance_date: now,
            expiration_date: None,
            subject,
            proof: None,
        }
    }

    /// The KwaaiNet-specific type of the credential: the first of its type
    /// names that names one.
    pub fn kwaai_type(&self) -> (r: Option<KwaaiCredentialType>)
        ensures
            r == first_kwaai_type(crate::config::strings_view(self.credential_type@)),
    {
        kwaai_type(&self.credential_type)
    }

    /// Whether the credential's expiry lies before `now`; one without expiry
    /// never expires.
    pub fn is_expired(&self, now: UtcTime) -> (r: bool)
        ensures
            r == match self.expiration_date {
                Some(exp) => time_before(exp, now),
                None => false,
            },
    {
        match self.expiration_date {
            Some(exp) => exp.secs < now.secs || (exp.secs == now.secs && exp.nanos < now.nanos),
            None => false,
        }
    }

    /// DID of the credential subject.
    pub fn subject_did(&self) -> (r: &str)
        ensures
            r@ == self.subject.id@,
    {
        self.subject.id.as_str()
    }

    /// DID of the credential issuer.
    pub fn issuer_did(&self) -> (r: &str)
        ensures
            r@ == self.issuer@,
    {
        self.issuer.as_str()
    }
}

/// A text claim.
fn text_claim(s: String) -> (r: ClaimValue)
    ensures
        r@ == ClaimModel::Text(s@),
{
    ClaimValue::Text(s)
}

/// A subject with two text claims of different names, in that order.
fn subject_with_two(id: String, k1: &str, v1: String, k2: &str, v2: String) -> (r: CredentialSubject)
    requires
        k1@ != k2@,
    ensures
        r.id@ == id@,
        claims_view(r.claims@) == seq![(k1@, ClaimModel::Text(v1@)), (k2@, ClaimModel::Text(v2@))],
{
    let s = CredentialSubject::new(id);
    assert(claims_view(s.claims@) =~= Seq::empty());
    let s = s.with_claim(String::from_str(k1), text_claim(v1));
    let s = s.with_claim(String::from_str(k2), text_claim(v2));
    assert(key_position(seq![(k1@, ClaimModel::Text(v1@))], k2@) is None) by {
        reveal_with_fuel(key_position, 2);
        assert(seq![(k1@, ClaimModel::Text(v1@))].drop_last() =~= Seq::<(Seq<char>, ClaimModel)>::empty());
    }
    s
}

/// A summit attendance credential issued at `now`, valid for two years
/// (730 days), with the claims `eventName` and `eventDate`.
pub fn summit_attendee_vc(
    issuer_did: String,
    subject_did: String,
    event_name: String,
    event_date: String,
    now: UtcTime,
) -> (r: VerifiableCredential)
    requires
        now.secs + 730 * 86400 <= i64::MAX,
    ensures
        new_credential_spec(r, issuer_did@, vc_types_spec(KwaaiCredentialType::SummitAttendeeVC), now),
        r.expiration_date == Some(days_after_spec(now, 730)),
        r.subject.id@ == subject_did@,
        claims_view(r.subject.claims@) == seq![
            ("eventName"@, ClaimModel::Text(event_name@)),
            ("eventDate"@, ClaimModel::Text(event_date@)),
        ],
{
    proof {
        reveal_strlit("eventName");
        reveal_strlit("eventDate");
    }
    assert("eventName"@[5] != "eventDate"@[5]);
    let subject = subject_with_two(subject_did, "eventName", event_name, "eventDate", event_date);
    let mut vc = VerifiableCredential::new(
        issuer_did,
        subject,
        vc_types(KwaaiCredentialType::SummitAttendeeVC),
        now,
    );
    vc.expiration_date = Some(days_after(now, 730));
    vc
}

/// A fiduciary pledge credential issued at `now`, without expiry, with the
/// claims `pledgeHash` and `pledgeName` (the GliaNet Fiduciary Pledge v1).
pub fn fiduciary_pledge_vc(issuer_did: String, subject_did: String, pledge_hash: String, now: UtcTime) -> (r: VerifiableCredential)
    ensures
        new_credential_spec(r, issuer_did@, vc_types_spec(KwaaiCredentialType::FiduciaryPledgeVC), now),
        r.expiration_date is None,
        r.subject.id@ == subject_did@,
        claims_view(r.subject.claims@) == seq![
            ("pledgeHash"@, ClaimModel::Text(pledge_hash@)),
            ("pledgeName"@, ClaimModel::Text("GliaNet Fiduciary Pledge v1"@)),
        ],
{
    proof {
        reveal_strlit("pledgeHash");
        reveal_strlit("pledgeName");
    }
    assert("pledgeHash"@[6] != "pledgeName"@[6]);
    let subject = subject_with_two(
        subject_did,
        "pledgeHash",
        pledge_hash,
        "pledgeName",
        String::from_str("GliaNet Fiduciary Pledge v1"),
    );
    VerifiableCredential::new(issuer_did, subject, vc_types(KwaaiCredentialType::FiduciaryPledgeVC), now)
}

/// A peer endorsement credential issued at `now`, valid for 90 days, with
/// the claim `interactionCount`.
pub fn peer_endorsement_vc(issuer_did: String, subject_did: String, interaction_count: u64, now: UtcTime) -> (r: VerifiableCredential)
    requires
        now.secs + 90 * 86400 <= i64::MAX,
    ensures
        new_credential_spec(r, issuer_did@, vc_types_spec(KwaaiCredentialType::PeerEndorsementVC), now),
        r.expiration_date == Some(days_after_spec(now, 90)),
        r.subject.id@ == subject_did@,
        claims_view(r.subject.claims@) == seq![("interactionCount"@, ClaimModel::Count(interaction_count))],
{
    let s = CredentialSubject::new(subject_did);
    assert(claims_view(s.claims@) =~= Seq::empty());
    let subject = s.with_claim(String::from_str("interactionCount"), ClaimValue::Count(interaction_count));
    let mut vc = VerifiableCredential::new(
        issuer_did,
        subject,
        vc_types(KwaaiCredentialType::PeerEndorsementVC),
        now,
    );
    vc.expiration_date = Some(days_after(now, 90));
    vc
}

/// A binding credential issued at `now`, without expiry, linking the node
/// DID (the subject) to a passkey DID with the claims `linkedIdentity` and
/// `linkType` (`PasskeyBinding`).
pub fn binding_vc(issuer_did: String, node_did: String, passkey_did: String, now: UtcTime) -> (r: VerifiableCredential)
    ensures
        new_credential_spec(r, issuer_did@, vc_types_spec(KwaaiCredentialType::BindingVC), now),
        r.expiration_date is None,
        r.subject.id@ == node_did@,
        claims_view(r.subject.claims@) == seq![
            ("linkedIdentity"@, ClaimModel::Text(passkey_did@)),
            ("linkType"@, ClaimModel::Text("PasskeyBinding"@)),
        ],
{
    proof {
        reveal_strlit("linkedIdentity");
        reveal_strlit("linkType");
    }
    assert("linkedIdentity"@.len() != "linkType"@.len());
    let subject = subject_with_two(
        node_did,
        "linkedIdentity",
        passkey_did,
        "linkType",
        String::from_str("PasskeyBinding"),
    );
    VerifiableCredential::new(issuer_did, subject, vc_types(KwaaiCredentialType::BindingVC), now)
}

} // verus!
