use kwaainet::summit::{Config, MissingVar};

fn s(v: &str) -> Option<String> {
    Some(v.to_string())
}

#[test]
fn summit_config_defaults_and_requirements() {
    let c = Config::from_env_values(s("postgres://x"), None, None, s("abcd"), None).unwrap();
    assert_eq!(c.database_url, "postgres://x");
    assert_eq!(c.rp_id, "localhost");
    assert_eq!(c.rp_origin, "http://localhost:3000");
    assert_eq!(c.signing_key_hex, "abcd");
    assert_eq!(c.bind_addr, "0.0.0.0:3000");
    let c = Config::from_env_values(s("d"), s("summit.kwaai.ai"), s("https://summit.kwaai.ai"), s("k"), s("127.0.0.1:1")).unwrap();
    assert_eq!(c.rp_id, "summit.kwaai.ai");
    assert_eq!(c.bind_addr, "127.0.0.1:1");
    let e = Config::from_env_values(None, None, None, None, None).unwrap_err();
    assert_eq!(e, MissingVar::DatabaseUrl);
    assert_eq!(e.message(), "DATABASE_URL must be set");
    let e = Config::from_env_values(s("d"), None, None, None, None).unwrap_err();
    assert_eq!(e, MissingVar::SigningKey);
}
