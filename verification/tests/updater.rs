use kwaainet::updater::{cache_is_fresh, is_newer, version_of_tag, CacheEntry, UpdateChecker, UpdateInfo};

#[test]
fn newer_versions_compare_numerically() {
    assert!(is_newer("0.4.1", "0.4.0"));
    assert!(is_newer("0.10.0", "0.9.9"));
    assert!(is_newer("1", "0.99.99"));
    assert!(!is_newer("0.4.0", "0.4.0"));
    assert!(!is_newer("0.3.9", "0.4.0"));
    // Missing parts count as 0; pieces that are not numbers are skipped.
    assert!(!is_newer("0.4", "0.4.0"));
    assert!(is_newer("1.x.2", "1.1.9"));
    assert!(!is_newer("garbage", "0.0.0"));
}

#[test]
fn tags_lose_leading_vs() {
    assert_eq!(version_of_tag("v0.5.0"), "0.5.0");
    assert_eq!(version_of_tag("vv1"), "1");
    assert_eq!(version_of_tag("0.5.0"), "0.5.0");
    assert_eq!(version_of_tag(""), "");
}

#[test]
fn cache_freshness_is_one_day() {
    assert!(cache_is_fresh(1000, 1000));
    assert!(cache_is_fresh(1000 + 86399, 1000));
    assert!(!cache_is_fresh(1000 + 86400, 1000));
    assert!(cache_is_fresh(5, 10));
}

fn info(v: &str) -> UpdateInfo {
    UpdateInfo { version: v.to_string(), name: None, url: None, body: None }
}

#[test]
fn cached_answer_only_when_fresh_and_not_forced() {
    let c = UpdateChecker::new();
    assert_eq!(c.current_version, "0.4.0");
    let entry = || Some(CacheEntry { checked_at: 100, update_info: Some(info("9.9.9")) });
    let got = c.cached_answer(false, entry(), Some(200)).expect("fresh cache is used");
    assert_eq!(got.unwrap().version, "9.9.9");
    assert!(c.cached_answer(true, entry(), Some(200)).is_none());
    assert!(c.cached_answer(false, entry(), Some(100 + 86400)).is_none());
    assert!(c.cached_answer(false, entry(), None).is_none());
    assert!(c.cached_answer(false, None, Some(200)).is_none());
}

#[test]
fn release_becomes_update_only_when_newer() {
    let c = UpdateChecker::new();
    let u = c
        .update_from_release("v0.5.0", Some("Name".to_string()), Some("url".to_string()), None)
        .expect("newer");
    assert_eq!(u.version, "0.5.0");
    assert_eq!(u.name.as_deref(), Some("Name"));
    assert_eq!(u.url.as_deref(), Some("url"));
    assert!(u.body.is_none());
    assert!(c.update_from_release("v0.4.0", None, None, None).is_none());
    assert!(c.update_from_release("v0.3.2", None, None, None).is_none());
}
