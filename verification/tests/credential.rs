use kwaainet::credential::{kwaai_type, tier_from_vc_count, KwaaiCredentialType};

const ALL: [KwaaiCredentialType; 7] = [
    KwaaiCredentialType::SummitAttendeeVC,
    KwaaiCredentialType::FiduciaryPledgeVC,
    KwaaiCredentialType::VerifiedNodeVC,
    KwaaiCredentialType::UptimeVC,
    KwaaiCredentialType::ThroughputVC,
    KwaaiCredentialType::PeerEndorsementVC,
    KwaaiCredentialType::BindingVC,
];

#[test]
fn type_names_roundtrip() {
    for t in ALL {
        assert_eq!(KwaaiCredentialType::from_type_str(t.as_str()), Some(t));
    }
    assert_eq!(KwaaiCredentialType::from_type_str("VerifiableCredential"), None);
    assert_eq!(KwaaiCredentialType::from_type_str("summitattendeevc"), None);
}

#[test]
fn trust_weights_are_calibrated() {
    let core: u32 = [
        KwaaiCredentialType::FiduciaryPledgeVC,
        KwaaiCredentialType::VerifiedNodeVC,
        KwaaiCredentialType::UptimeVC,
        KwaaiCredentialType::ThroughputVC,
    ]
    .iter()
    .map(|t| t.trust_weight_percent())
    .sum();
    assert_eq!(core, 85);
    assert_eq!(ALL.iter().map(|t| t.trust_weight_percent()).sum::<u32>(), 100);
    assert_eq!(KwaaiCredentialType::BindingVC.trust_weight_percent(), 0);
}

#[test]
fn kwaai_type_is_first_known_name() {
    let types = vec!["VerifiableCredential".to_string(), "UptimeVC".to_string(), "BindingVC".to_string()];
    assert_eq!(kwaai_type(&types), Some(KwaaiCredentialType::UptimeVC));
    assert_eq!(kwaai_type(&vec!["VerifiableCredential".to_string()]), None);
}

#[test]
fn tiers_by_attestation_count() {
    assert_eq!(tier_from_vc_count(0), "Unknown");
    assert_eq!(tier_from_vc_count(1), "Known");
    assert_eq!(tier_from_vc_count(2), "Known");
    assert_eq!(tier_from_vc_count(3), "Verified");
    assert_eq!(tier_from_vc_count(4), "Verified");
    assert_eq!(tier_from_vc_count(5), "Trusted");
    assert_eq!(tier_from_vc_count(usize::MAX), "Trusted");
}

use kwaainet::credential::{
    binding_vc, fiduciary_pledge_vc, peer_endorsement_vc, summit_attendee_vc, ClaimValue,
    CredentialSubject, UtcTime, VerifiableCredential,
};

fn text_of(v: &ClaimValue) -> Option<&str> {
    match v {
        ClaimValue::Text(s) => Some(s.as_str()),
        ClaimValue::Count(_) => None,
    }
}

#[test]
fn summit_credential_lasts_two_years() {
    let now = UtcTime { secs: 1_700_000_000, nanos: 5 };
    let vc = summit_attendee_vc(
        "did:peer:issuer".to_string(),
        "did:peer:subject".to_string(),
        "Kwaai Summit".to_string(),
        "2025-03-01".to_string(),
        now,
    );
    assert_eq!(
        vc.context,
        vec!["https://www.w3.org/2018/credentials/v1".to_string(), "https://kwaai.ai/credentials/v1".to_string()]
    );
    assert_eq!(vc.credential_type, vec!["VerifiableCredential".to_string(), "SummitAttendeeVC".to_string()]);
    assert_eq!(vc.issuer_did(), "did:peer:issuer");
    assert_eq!(vc.subject_did(), "did:peer:subject");
    assert_eq!(vc.issuance_date, now);
    assert_eq!(vc.expiration_date, Some(UtcTime { secs: 1_700_000_000 + 730 * 86400, nanos: 5 }));
    assert!(vc.id.is_none() && vc.proof.is_none());
    assert_eq!(vc.subject.claims.len(), 2);
    assert_eq!(vc.subject.claims[0].0, "eventName");
    assert_eq!(text_of(&vc.subject.claims[0].1), Some("Kwaai Summit"));
    assert_eq!(vc.subject.claims[1].0, "eventDate");
    assert_eq!(text_of(&vc.subject.claims[1].1), Some("2025-03-01"));
    assert_eq!(vc.kwaai_type(), Some(KwaaiCredentialType::SummitAttendeeVC));
    assert!(!vc.is_expired(now));
    assert!(!vc.is_expired(UtcTime { secs: 1_700_000_000 + 730 * 86400, nanos: 5 }));
    assert!(vc.is_expired(UtcTime { secs: 1_700_000_000 + 730 * 86400, nanos: 6 }));
}

#[test]
fn other_credential_builders() {
    let now = UtcTime { secs: 1000, nanos: 0 };
    let p = fiduciary_pledge_vc("i".to_string(), "s".to_string(), "abc123".to_string(), now);
    assert_eq!(p.kwaai_type(), Some(KwaaiCredentialType::FiduciaryPledgeVC));
    assert_eq!(p.expiration_date, None);
    assert!(!p.is_expired(UtcTime { secs: i64::MAX, nanos: 0 }));
    assert_eq!(p.subject.claims[0].0, "pledgeHash");
    assert_eq!(text_of(&p.subject.claims[1].1), Some("GliaNet Fiduciary Pledge v1"));

    let e = peer_endorsement_vc("i".to_string(), "s".to_string(), 42, now);
    assert_eq!(e.expiration_date, Some(UtcTime { secs: 1000 + 90 * 86400, nanos: 0 }));
    assert_eq!(e.subject.claims.len(), 1);
    assert_eq!(e.subject.claims[0].0, "interactionCount");
    assert!(matches!(e.subject.claims[0].1, ClaimValue::Count(42)));

    let b = binding_vc("i".to_string(), "did:peer:node".to_string(), "did:key:zpass".to_string(), now);
    assert_eq!(b.kwaai_type(), Some(KwaaiCredentialType::BindingVC));
    assert_eq!(b.subject_did(), "did:peer:node");
    assert_eq!(text_of(&b.subject.claims[0].1), Some("did:key:zpass"));
    assert_eq!(text_of(&b.subject.claims[1].1), Some("PasskeyBinding"));
}

#[test]
fn setting_a_claim_twice_replaces_it() {
    let s = CredentialSubject::new("did:peer:x".to_string())
        .with_claim("a".to_string(), ClaimValue::Count(1))
        .with_claim("b".to_string(), ClaimValue::Text("t".to_string()))
        .with_claim("a".to_string(), ClaimValue::Count(7));
    assert_eq!(s.claims.len(), 2);
    assert_eq!(s.claims[0].0, "a");
    assert!(matches!(s.claims[0].1, ClaimValue::Count(7)));
    assert_eq!(s.claims[1].0, "b");
    let vc = VerifiableCredential::new("i".to_string(), s, vec!["X".to_string()], UtcTime { secs: 0, nanos: 0 });
    assert_eq!(vc.kwaai_type(), None);
}
