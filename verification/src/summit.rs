//! Settings of the summit on-ramp server, taken from its environment.

use vstd::prelude::*;

use crate::config::opt_view;

verus! {

/// Settings of the summit server.
#[derive(Debug)]
pub struct Config {
    /// PostgreSQL connection string
    pub database_url: String,
    /// WebAuthn relying-party ID (domain, e.g. "summit.kwaai.ai" or "localhost")
    pub rp_id: String,
    /// WebAuthn relying-party origin (full URL, e.g. "https://summit.kwaai.ai")
    pub rp_origin: String,
    /// Hex-encoded 32-byte Ed25519 private key seed used to sign issued VCs
    pub signing_key_hex: String,
    /// TCP bind address
    pub bind_addr: String,
}

/// A required variable that is not set.
#[derive(Debug, PartialEq, Eq)]
pub enum MissingVar {
    /// `DATABASE_URL`
    DatabaseUrl,
    /// `SUMMIT_SIGNING_KEY_HEX`
    SigningKey,
}

impl MissingVar {
    /// The error's text.
    pub fn message(&self) -> (r: &'static str)
        ensures
            r@ == match self {
                MissingVar::DatabaseUrl => "DATABASE_URL must be set"@,
                MissingVar::SigningKey => "SUMMIT_SIGNING_KEY_HEX must be set (32 hex-encoded bytes)"@,
            },
    {
        match self {
            MissingVar::DatabaseUrl => "DATABASE_URL must be set",
            MissingVar::SigningKey => "SUMMIT_SIGNING_KEY_HEX must be set (32 hex-encoded bytes)",
        }
    }
}

impl Config {
    /// The settings from the values of `DATABASE_URL`, `RP_ID`, `RP_ORIGIN`,
    /// `SUMMIT_SIGNING_KEY_HEX` and `BIND_ADDR` (`None` when unset).  The
    /// database URL and the signing key are required, checked in that
    /// order; the others default to `localhost`, `http://localhost:3000`
    /// and `0.0.0.0:3000`.
    pub fn from_env_values(
        database_url: Option<String>,
        rp_id: Option<String>,
        rp_origin: Option<String>,
        signing_key_hex: Option<String>,
        bind_addr: Option<String>,
    ) -> (r: Result<Config, MissingVar>)
        ensures
            database_url is None ==> r == Err::<Config, MissingVar>(MissingVar::DatabaseUrl),
            database_url is Some && signing_key_hex is None ==> r == Err::<Config, MissingVar>(
                MissingVar::SigningKey,
            ),
            database_url is Some && signing_key_hex is Some ==> (r matches Ok(c) && {
                &&& Some(c.database_url@) == opt_view(database_url)
                &&& Some(c.signing_key_hex@) == opt_view(signing_key_hex)
                &&& c.rp_id@ == match rp_id {
                    Some(v) => v@,
                    None => "localhost"@,
                }
                &&& c.rp_origin@ == match rp_origin {
                    Some(v) => v@,
                    None => "http://localhost:3000"@,
                }
                &&& c.bind_addr@ == match bind_addr {
                    Some(v) => v@,
                    None => "0.0.0.0:3000"@,
                }
            }),
    {
        let database_url = match database_url {
            Some(v) => v,
            None => return Err(MissingVar::DatabaseUrl),
        };
        let rp_id = match rp_id {
            Some(v) => v,
            None => String::from_str("localhost"),
        };
        let rp_origin = match rp_origin {
            Some(v) => v,
            None => String::from_str("http://localhost:3000"),
        };
        let signing_key_hex = match signing_key_hex {
            Some(v) => v,
            None => return Err(MissingVar::SigningKey),
        };
        let bind_addr = match bind_addr {
            Some(v) => v,
            None => String::from_str("0.0.0.0:3000"),
        };
        Ok(Config { database_url, rp_id, rp_origin, signing_key_hex, bind_addr })
    }
}

} // verus!
