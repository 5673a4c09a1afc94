//! Node configuration: the settings stored in `~/.kwaainet/config.yaml`,
//! their defaults, and the `config set KEY VALUE` editing rules.

use vstd::prelude::*;

use crate::parse::{
    ascii_lower, contains_lit, eq_lit, has_infix, lemma_split_nonempty, lower_all, parse_bool,
    parse_bool_spec, parse_unsigned, parse_unsigned_spec, split_chars, split_spec, trim_chars,
    trim_spec,
};
use crate::text::{chars_of, string_of};

verus! {

/// The characters of an optional string.
pub open spec fn opt_view(o: Option<String>) -> Option<Seq<char>> {
    match o {
        Some(s) => Some(s@),
        None => None,
    }
}

/// The characters of each string in a list.
pub open spec fn strings_view(v: Seq<String>) -> Seq<Seq<char>> {
    v.map_values(|s: String| s@)
}

/// A copy of an optional string.
pub fn clone_opt(o: &Option<String>) -> (r: Option<String>)
    ensures
        opt_view(r) == opt_view(*o),
{
    match o {
        Some(s) => Some(s.clone()),
        None => None,
    }
}

/// Alert settings of the health monitor.
#[derive(Debug)]
pub struct AlertingConfig {
    pub enabled: bool,
    pub on_disconnect: bool,
    pub on_reconnect: bool,
    pub on_critical: bool,
    pub webhook_url: Option<String>,
    pub email: Option<String>,
}

impl Default for AlertingConfig {
    /// Everything off and unset.
    fn default() -> (r: Self)
        ensures
            !r.enabled && !r.on_disconnect && !r.on_reconnect && !r.on_critical,
            r.webhook_url is None,
            r.email is None,
    {
        AlertingConfig {
            enabled: false,
            on_disconnect: false,
            on_reconnect: false,
            on_critical: false,
            webhook_url: None,
            email: None,
        }
    }
}

/// Reconnection policy of the health monitor.  The two real-valued settings
/// are kept as IEEE-754 double bit patterns.
#[derive(Debug)]
pub struct ReconnectionConfig {
    pub enabled: bool,
    pub max_attempts: u32,
    pub backoff_strategy: String,
    pub initial_delay: u64,
    pub max_delay: u64,
    pub backoff_multiplier_bits: u64,
    pub jitter: bool,
    pub jitter_factor_bits: u64,
}

/// Bit pattern of the double `2.0`, the default backoff multiplier.
pub const BACKOFF_MULTIPLIER_DEFAULT_BITS: u64 = 0x4000_0000_0000_0000u64;

/// Bit pattern of the double `0.5`, the default jitter factor.
pub const JITTER_FACTOR_DEFAULT_BITS: u64 = 0x3fe0_0000_0000_0000u64;

impl Default for ReconnectionConfig {
    fn default() -> (r: Self)
        ensures
            r.enabled,
            r.max_attempts == 10,
            r.backoff_strategy@ == "exponential"@,
            r.initial_delay == 30,
            r.max_delay == 1800,
            r.backoff_multiplier_bits == BACKOFF_MULTIPLIER_DEFAULT_BITS,
            r.jitter,
            r.jitter_factor_bits == JITTER_FACTOR_DEFAULT_BITS,
    {
        ReconnectionConfig {
            enabled: true,
            max_attempts: default_max_attempts(),
            backoff_strategy: default_backoff_strategy(),
            initial_delay: default_initial_delay(),
            max_delay: default_max_delay(),
            backoff_multiplier_bits: BACKOFF_MULTIPLIER_DEFAULT_BITS,
            jitter: true,
            jitter_factor_bits: JITTER_FACTOR_DEFAULT_BITS,
        }
    }
}

/// Health-monitoring settings.
#[derive(Debug)]
pub struct HealthConfig {
    pub enabled: bool,
    pub api_endpoint: String,
    pub check_interval: u64,
    pub request_timeout: u64,
    pub failure_threshold: u32,
    pub reconnection: ReconnectionConfig,
    pub alerting: AlertingConfig,
}

impl Default for HealthConfig {
    fn default() -> (r: Self)
        ensures
            r.enabled,
            r.api_endpoint@ == "https://map.kwaai.ai/api/v1/state"@,
            r.check_interval == 60,
            r.request_timeout == 10,
            r.failure_threshold == 3,
            r.reconnection.enabled && r.reconnection.max_attempts == 10,
            !r.alerting.enabled,
    {
        HealthConfig {
            enabled: true,
            api_endpoint: default_api_endpoint(),
            check_interval: default_check_interval(),
            request_timeout: default_request_timeout(),
            failure_threshold: default_failure_threshold(),
            reconnection: ReconnectionConfig::default(),
            alerting: AlertingConfig::default(),
        }
    }
}

/// The node configuration.
#[derive(Debug)]
pub struct KwaaiNetConfig {
    pub model: String,
    pub blocks: u32,
    /// First transformer block this node serves; it serves
    /// `[start_block, start_block + blocks)`.
    pub start_block: u32,
    pub port: u16,
    pub use_gpu: bool,
    pub log_level: String,
    pub public_name: Option<String>,
    pub public_ip: Option<String>,
    pub announce_addr: Option<String>,
    pub no_relay: bool,
    pub initial_peers: Vec<String>,
    pub health_monitoring: HealthConfig,
    /// Canonical DHT prefix of the model, taken from the network map.
    pub model_dht_prefix: Option<String>,
    /// Repository URL of the model, taken from the network map.
    pub model_repository: Option<String>,
    pub vpk_enabled: bool,
    pub vpk_mode: Option<String>,
    pub vpk_endpoint: Option<String>,
    pub vpk_local_port: Option<u16>,
    pub auto_rebalance: bool,
    pub rebalance_interval_secs: u64,
    /// Other nodes that must cover our range before we move.
    pub rebalance_min_redundancy: usize,
}

/// The configuration with its text fields as character sequences.
pub struct ConfigView {
    pub model: Seq<char>,
    pub blocks: u32,
    pub start_block: u32,
    pub port: u16,
    pub use_gpu: bool,
    pub log_level: Seq<char>,
    pub public_name: Option<Seq<char>>,
    pub public_ip: Option<Seq<char>>,
    pub announce_addr: Option<Seq<char>>,
    pub no_relay: bool,
    pub initial_peers: Seq<Seq<char>>,
    pub health_enabled: bool,
    pub model_dht_prefix: Option<Seq<char>>,
    pub model_repository: Option<Seq<char>>,
    pub vpk_enabled: bool,
    pub vpk_mode: Option<Seq<char>>,
    pub vpk_endpoint: Option<Seq<char>>,
    pub vpk_local_port: Option<u16>,
    pub auto_rebalance: bool,
    pub rebalance_interval_secs: u64,
    pub rebalance_min_redundancy: usize,
}

impl View for KwaaiNetConfig {
    type V = ConfigView;

    open spec fn view(&self) -> ConfigView {
        ConfigView {
            model: self.model@,
            blocks: self.blocks,
            start_block: self.start_block,
            port: self.port,
            use_gpu: self.use_gpu,
            log_level: self.log_level@,
            public_name: opt_view(self.public_name),
            public_ip: opt_view(self.public_ip),
            announce_addr: opt_view(self.announce_addr),
            no_relay: self.no_relay,
            initial_peers: strings_view(self.initial_peers@),
            health_enabled: self.health_monitoring.enabled,
            model_dht_prefix: opt_view(self.model_dht_prefix),
            model_repository: opt_view(self.model_repository),
            vpk_enabled: self.vpk_enabled,
            vpk_mode: opt_view(self.vpk_mode),
            vpk_endpoint: opt_view(self.vpk_endpoint),
            vpk_local_port: self.vpk_local_port,
            auto_rebalance: self.auto_rebalance,
            rebalance_interval_secs: self.rebalance_interval_secs,
            rebalance_min_redundancy: self.rebalance_min_redundancy,
        }
    }
}

/// Why a `config set` was refused.
#[derive(Debug)]
pub enum ConfigError {
    /// The value of a numeric key is not a number of the key's type.
    InvalidNumber { key: String },
    /// The value of a boolean key is not one of the accepted spellings.
    InvalidBool { value: String },
    /// There is no such key.
    UnknownKey { key: String },
}

/// [`ConfigError`] with its text as character sequences.
pub enum ConfigErrorView {
    InvalidNumber { key: Seq<char> },
    InvalidBool { value: Seq<char> },
    UnknownKey { key: Seq<char> },
}

impl View for ConfigError {
    type V = ConfigErrorView;

    open spec fn view(&self) -> ConfigErrorView {
        match self {
            ConfigError::InvalidNumber { key } => ConfigErrorView::InvalidNumber { key: key@ },
            ConfigError::InvalidBool { value } => ConfigErrorView::InvalidBool { value: value@ },
            ConfigError::UnknownKey { key } => ConfigErrorView::UnknownKey { key: key@ },
        }
    }
}

/// The text that follows the key in a number error.
pub open spec fn number_error_suffix(key: Seq<char>) -> Seq<char> {
    if key == "start_block"@ {
        " must be a non-negative integer"@
    } else if key == "rebalance_interval_secs"@ || key == "rebalance_min_redundancy"@ {
        " must be a positive integer"@
    } else {
        " must be a number"@
    }
}

/// The message shown for an error.
pub open spec fn config_error_message(e: ConfigErrorView) -> Seq<char> {
    match e {
        ConfigErrorView::InvalidNumber { key } => key + number_error_suffix(key),
        ConfigErrorView::InvalidBool { value } => "Expected true/false, got "@ + value,
        ConfigErrorView::UnknownKey { key } => "Unknown config key '"@ + key
            + "'. Run `kwaainet config set --help` to see valid keys."@,
    }
}

/// `a` followed by the literal `b`.
pub fn append_lit(a: String, b: &str) -> (r: String)
    ensures
        r@ == a@ + b@,
{
    let mut s = a;
    s.append(b);
    s
}

impl ConfigError {
    /// The human-readable message of the error.
    pub fn message(&self) -> (r: String)
        ensures
            r@ == config_error_message(self@),
    {
        match self {
            ConfigError::InvalidNumber { key } => {
                let k = chars_of(key.as_str());
                let suffix = if eq_lit(&k, "start_block") {
                    " must be a non-negative integer"
                } else if eq_lit(&k, "rebalance_interval_secs") || eq_lit(
                    &k,
                    "rebalance_min_redundancy",
                ) {
                    " must be a positive integer"
                } else {
                    " must be a number"
                };
                append_lit(key.clone(), suffix)
            },
            ConfigError::InvalidBool { value } => {
                let s = String::from_str("Expected true/false, got ");
                append_lit(s, value.as_str())
            },
            ConfigError::UnknownKey { key } => {
                let s = String::from_str("Unknown config key '");
                let s = append_lit(s, key.as_str());
                append_lit(s, "'. Run `kwaainet config set --help` to see valid keys.")
            },
        }
    }
}

/// The peers listed in a comma-separated value: empty text clears the list,
/// otherwise each comma-separated piece is trimmed of surrounding whitespace.
pub open spec fn peers_from_value(value: Seq<char>) -> Seq<Seq<char>> {
    if value.len() == 0 {
        Seq::empty()
    } else {
        split_spec(value, ',').map_values(|p: Seq<char>| trim_spec(p))
    }
}

/// The effect of `config set key value` on a configuration: the updated
/// configuration, or the error that refuses the update.
pub open spec fn set_key_spec(cfg: ConfigView, key: Seq<char>, value: Seq<char>) -> Result<
    ConfigView,
    ConfigErrorView,
> {
    if key == "model"@ {
        Ok(ConfigView { model: value, ..cfg })
    } else if key == "blocks"@ {
        match parse_unsigned_spec(value, u32::MAX as int) {
            Some(n) => Ok(ConfigView { blocks: n as u32, ..cfg }),
            None => Err(ConfigErrorView::InvalidNumber { key }),
        }
    } else if key == "port"@ {
        match parse_unsigned_spec(value, u16::MAX as int) {
            Some(n) => Ok(ConfigView { port: n as u16, ..cfg }),
            None => Err(ConfigErrorView::InvalidNumber { key }),
        }
    } else if key == "use_gpu"@ {
        match parse_bool_spec(value) {
            Some(b) => Ok(ConfigView { use_gpu: b, ..cfg }),
            None => Err(ConfigErrorView::InvalidBool { value }),
        }
    } else if key == "log_level"@ {
        Ok(ConfigView { log_level: value, ..cfg })
    } else if key == "public_name"@ {
        Ok(ConfigView { public_name: Some(value), ..cfg })
    } else if key == "public_ip"@ {
        Ok(ConfigView { public_ip: Some(value), ..cfg })
    } else if key == "announce_addr"@ {
        Ok(ConfigView { announce_addr: Some(value), ..cfg })
    } else if key == "no_relay"@ {
        match parse_bool_spec(value) {
            Some(b) => Ok(ConfigView { no_relay: b, ..cfg }),
            None => Err(ConfigErrorView::InvalidBool { value }),
        }
    } else if key == "start_block"@ {
        match parse_unsigned_spec(value, u32::MAX as int) {
            Some(n) => Ok(ConfigView { start_block: n as u32, ..cfg }),
            None => Err(ConfigErrorView::InvalidNumber { key }),
        }
    } else if key == "auto_rebalance"@ {
        match parse_bool_spec(value) {
            Some(b) => Ok(ConfigView { auto_rebalance: b, ..cfg }),
            None => Err(ConfigErrorView::InvalidBool { value }),
        }
    } else if key == "rebalance_interval_secs"@ {
        match parse_unsigned_spec(value, u64::MAX as int) {
            Some(n) => Ok(ConfigView { rebalance_interval_secs: n as u64, ..cfg }),
            None => Err(ConfigErrorView::InvalidNumber { key }),
        }
    } else if key == "rebalance_min_redundancy"@ {
        match parse_unsigned_spec(value, usize::MAX as int) {
            Some(n) => Ok(ConfigView { rebalance_min_redundancy: n as usize, ..cfg }),
            None => Err(ConfigErrorView::InvalidNumber { key }),
        }
    } else if key == "initial_peers"@ {
        Ok(ConfigView { initial_peers: peers_from_value(value), ..cfg })
    } else {
        Err(ConfigErrorView::UnknownKey { key })
    }
}

/// The keys `config set` knows.
pub open spec fn known_config_key(key: Seq<char>) -> bool {
    key == "model"@ || key == "blocks"@ || key == "port"@ || key == "use_gpu"@ || key == "log_level"@ || key == "public_name"@ || key == "public_ip"@ || key == "announce_addr"@ || key == "no_relay"@ || key == "start_block"@ || key == "auto_rebalance"@ || key == "rebalance_interval_secs"@ || key == "rebalance_min_redundancy"@ || key == "initial_peers"@
}

/// The largest value a numeric key takes; zero for other keys.
pub open spec fn numeric_key_max(key: Seq<char>) -> int {
    if key == "blocks"@ || key == "start_block"@ {
        u32::MAX as int
    } else if key == "port"@ {
        u16::MAX as int
    } else if key == "rebalance_interval_secs"@ {
        u64::MAX as int
    } else if key == "rebalance_min_redundancy"@ {
        usize::MAX as int
    } else {
        0
    }
}

/// An unknown key is refused as unknown (and `set_key` then leaves the
/// configuration as it was).
pub proof fn law_set_key_unknown_refused(cfg: ConfigView, key: Seq<char>, value: Seq<char>)
    requires
        !known_config_key(key),
    ensures
        set_key_spec(cfg, key, value) == Err::<ConfigView, ConfigErrorView>(ConfigErrorView::UnknownKey { key }),
{
}

/// A numeric key whose value is no number of the key's width is refused
/// as an invalid number (and the configuration is left as it was).
pub proof fn law_set_key_bad_number_refused(cfg: ConfigView, key: Seq<char>, value: Seq<char>)
    requires
        key == "blocks"@ || key == "port"@ || key == "start_block"@ || key == "rebalance_interval_secs"@
            || key == "rebalance_min_redundancy"@,
        parse_unsigned_spec(value, numeric_key_max(key)) is None,
    ensures
        set_key_spec(cfg, key, value) == Err::<ConfigView, ConfigErrorView>(ConfigErrorView::InvalidNumber { key }),
{
    reveal_strlit("model");
    reveal_strlit("blocks");
    reveal_strlit("port");
    reveal_strlit("use_gpu");
    reveal_strlit("log_level");
    reveal_strlit("public_name");
    reveal_strlit("public_ip");
    reveal_strlit("announce_addr");
    reveal_strlit("no_relay");
    reveal_strlit("start_block");
    reveal_strlit("auto_rebalance");
    reveal_strlit("rebalance_interval_secs");
    reveal_strlit("rebalance_min_redundancy");
    reveal_strlit("initial_peers");
    assert("model"@.len() == 5);
    assert("blocks"@.len() == 6);
    assert("port"@.len() == 4);
    assert("use_gpu"@.len() == 7);
    assert("log_level"@.len() == 9);
    assert("public_name"@.len() == 11);
    assert("public_ip"@.len() == 9);
    assert("announce_addr"@.len() == 13);
    assert("no_relay"@.len() == 8);
    assert("start_block"@.len() == 11);
    assert("auto_rebalance"@.len() == 14);
    assert("rebalance_interval_secs"@.len() == 23);
    assert("rebalance_min_redundancy"@.len() == 24);
    assert("initial_peers"@.len() == 13);
    assert("log_level"@[0] != "public_ip"@[0]);
    assert("public_name"@[0] != "start_block"@[0]);
    assert("announce_addr"@[0] != "initial_peers"@[0]);
}

/// A boolean key whose value is none of the accepted spellings is refused
/// as an invalid boolean (and the configuration is left as it was).
pub proof fn law_set_key_bad_bool_refused(cfg: ConfigView, key: Seq<char>, value: Seq<char>)
    requires
        key == "use_gpu"@ || key == "no_relay"@ || key == "auto_rebalance"@,
        parse_bool_spec(value) is None,
    ensures
        set_key_spec(cfg, key, value) == Err::<ConfigView, ConfigErrorView>(ConfigErrorView::InvalidBool { value }),
{
    reveal_strlit("model");
    reveal_strlit("blocks");
    reveal_strlit("port");
    reveal_strlit("use_gpu");
    reveal_strlit("log_level");
    reveal_strlit("public_name");
    reveal_strlit("public_ip");
    reveal_strlit("announce_addr");
    reveal_strlit("no_relay");
    reveal_strlit("start_block");
    reveal_strlit("auto_rebalance");
    reveal_strlit("rebalance_interval_secs");
    reveal_strlit("rebalance_min_redundancy");
    reveal_strlit("initial_peers");
    assert("model"@.len() == 5);
    assert("blocks"@.len() == 6);
    assert("port"@.len() == 4);
    assert("use_gpu"@.len() == 7);
    assert("log_level"@.len() == 9);
    assert("public_name"@.len() == 11);
    assert("public_ip"@.len() == 9);
    assert("announce_addr"@.len() == 13);
    assert("no_relay"@.len() == 8);
    assert("start_block"@.len() == 11);
    assert("auto_rebalance"@.len() == 14);
    assert("rebalance_interval_secs"@.len() == 23);
    assert("rebalance_min_redundancy"@.len() == 24);
    assert("initial_peers"@.len() == 13);
    assert("log_level"@[0] != "public_ip"@[0]);
    assert("public_name"@[0] != "start_block"@[0]);
    assert("announce_addr"@[0] != "initial_peers"@[0]);
}

/// The value is of the type of its key: a number of the key's width for a
/// numeric key, an accepted spelling for a boolean key, anything else.
pub open spec fn config_value_fits(key: Seq<char>, value: Seq<char>) -> bool {
    if key == "blocks"@ || key == "port"@ || key == "start_block"@ || key == "rebalance_interval_secs"@
        || key == "rebalance_min_redundancy"@ {
        parse_unsigned_spec(value, numeric_key_max(key)) is Some
    } else if key == "use_gpu"@ || key == "no_relay"@ || key == "auto_rebalance"@ {
        parse_bool_spec(value) is Some
    } else {
        true
    }
}

/// A known key with a value of its type is accepted, and accepting it
/// changes at most the field the key names.
pub proof fn law_set_key_changes_only_named_field(cfg: ConfigView, key: Seq<char>, value: Seq<char>)
    requires
        known_config_key(key),
        config_value_fits(key, value),
    ensures
        set_key_spec(cfg, key, value) is Ok,
        ({
            let n = set_key_spec(cfg, key, value)->Ok_0;
            &&& (key != "model"@ ==> n.model == cfg.model)
            &&& (key != "blocks"@ ==> n.blocks == cfg.blocks)
            &&& (key != "port"@ ==> n.port == cfg.port)
            &&& (key != "use_gpu"@ ==> n.use_gpu == cfg.use_gpu)
            &&& (key != "log_level"@ ==> n.log_level == cfg.log_level)
            &&& (key != "public_name"@ ==> n.public_name == cfg.public_name)
            &&& (key != "public_ip"@ ==> n.public_ip == cfg.public_ip)
            &&& (key != "announce_addr"@ ==> n.announce_addr == cfg.announce_addr)
            &&& (key != "no_relay"@ ==> n.no_relay == cfg.no_relay)
            &&& (key != "start_block"@ ==> n.start_block == cfg.start_block)
            &&& (key != "auto_rebalance"@ ==> n.auto_rebalance == cfg.auto_rebalance)
            &&& (key != "rebalance_interval_secs"@ ==> n.rebalance_interval_secs == cfg.rebalance_interval_secs)
            &&& (key != "rebalance_min_redundancy"@ ==> n.rebalance_min_redundancy == cfg.rebalance_min_redundancy)
            &&& (key != "initial_peers"@ ==> n.initial_peers == cfg.initial_peers)
            &&& (n.health_enabled == cfg.health_enabled)
            &&& (n.model_dht_prefix == cfg.model_dht_prefix)
            &&& (n.model_repository == cfg.model_repository)
            &&& (n.vpk_enabled == cfg.vpk_enabled)
            &&& (n.vpk_mode == cfg.vpk_mode)
            &&& (n.vpk_endpoint == cfg.vpk_endpoint)
            &&& (n.vpk_local_port == cfg.vpk_local_port)
        }),
{
    reveal_strlit("model");
    reveal_strlit("blocks");
    reveal_strlit("port");
    reveal_strlit("use_gpu");
    reveal_strlit("log_level");
    reveal_strlit("public_name");
    reveal_strlit("public_ip");
    reveal_strlit("announce_addr");
    reveal_strlit("no_relay");
    reveal_strlit("start_block");
    reveal_strlit("auto_rebalance");
    reveal_strlit("rebalance_interval_secs");
    reveal_strlit("rebalance_min_redundancy");
    reveal_strlit("initial_peers");
    assert("model"@.len() == 5);
    assert("blocks"@.len() == 6);
    assert("port"@.len() == 4);
    assert("use_gpu"@.len() == 7);
    assert("log_level"@.len() == 9);
    assert("public_name"@.len() == 11);
    assert("public_ip"@.len() == 9);
    assert("announce_addr"@.len() == 13);
    assert("no_relay"@.len() == 8);
    assert("start_block"@.len() == 11);
    assert("auto_rebalance"@.len() == 14);
    assert("rebalance_interval_secs"@.len() == 23);
    assert("rebalance_min_redundancy"@.len() == 24);
    assert("initial_peers"@.len() == 13);
    assert("log_level"@[0] != "public_ip"@[0]);
    assert("public_name"@[0] != "start_block"@[0]);
    assert("announce_addr"@[0] != "initial_peers"@[0]);
}

/// The peer list for a comma-separated value, see [`peers_from_value`].
pub fn parse_peer_list(value: &str) -> (r: Vec<String>)
    ensures
        strings_view(r@) == peers_from_value(value@),
{
    let v = chars_of(value);
    if v.len() == 0 {
        let r: Vec<String> = Vec::new();
        assert(strings_view(r@) =~= Seq::<Seq<char>>::empty());
        return r;
    }
    let pieces = split_chars(&v, ',');
    let ghost target = split_spec(value@, ',').map_values(|p: Seq<char>| trim_spec(p));
    let mut r: Vec<String> = Vec::new();
    let mut i: usize = 0;
    while i < pieces.len()
        invariant
            i <= pieces.len(),
            v@ == value@,
            pieces@.len() == split_spec(value@, ',').len(),
            forall|k: int|
                0 <= k < pieces@.len() ==> #[trigger] pieces@[k]@ == split_spec(value@, ',')[k],
            target == split_spec(value@, ',').map_values(|p: Seq<char>| trim_spec(p)),
            strings_view(r@) =~= target.subrange(0, i as int),
        decreases pieces.len() - i,
    {
        let t = string_of(&trim_chars(&pieces[i]));
        assert(t@ == target[i as int]);
        let ghost old_r = r@;
        r.push(t);
        assert(strings_view(r@) =~= strings_view(old_r).push(target[i as int]));
        assert(target.subrange(0, i + 1) =~= target.subrange(0, i as int).push(target[i as int]));
        i = i + 1;
    }
    assert(target.subrange(0, i as int) =~= target);
    r
}

impl KwaaiNetConfig {
    /// Sets the configuration key `key` from the text `value`, coercing it
    /// to the key's type.  Numeric keys take unsigned decimal numbers of
    /// their width, boolean keys take `true`/`1`/`yes` or `false`/`0`/`no`,
    /// and `initial_peers` takes a comma-separated list.  On an error the
    /// configuration is left as it was.
    pub fn set_key(&mut self, key: &str, value: &str) -> (r: Result<(), ConfigError>)
        ensures
            match r {
                Ok(()) => set_key_spec(old(self)@, key@, value@) == Ok::<
                    ConfigView,
                    ConfigErrorView,
                >(final(self)@),
                Err(e) => set_key_spec(old(self)@, key@, value@) == Err::<
                    ConfigView,
                    ConfigErrorView,
                >(e@) && final(self)@ == old(self)@,
            },
            final(self).health_monitoring == old(self).health_monitoring,
    {
        let k = chars_of(key);
        let v = chars_of(value);
        if eq_lit(&k, "model") {
            self.model = String::from_str(value);
        } else if eq_lit(&k, "blocks") {
            match parse_unsigned(&v, 0xffff_ffffu64) {
                Some(n) => {
                    self.blocks = n as u32;
                },
                None => {
                    return Err(ConfigError::InvalidNumber { key: String::from_str(key) });
                },
            }
        } else if eq_lit(&k, "port") {
            match parse_unsigned(&v, 0xffffu64) {
                Some(n) => {
                    self.port = n as u16;
                },
                None => {
                    return Err(ConfigError::InvalidNumber { key: String::from_str(key) });
                },
            }
        } else if eq_lit(&k, "use_gpu") {
            match parse_bool(value) {
                Some(b) => {
                    self.use_gpu = b;
                },
                None => {
                    return Err(ConfigError::InvalidBool { value: String::from_str(value) });
                },
            }
        } else if eq_lit(&k, "log_level") {
            self.log_level = String::from_str(value);
        } else if eq_lit(&k, "public_name") {
            self.public_name = Some(String::from_str(value));
        } else if eq_lit(&k, "public_ip") {
            self.public_ip = Some(String::from_str(value));
        } else if eq_lit(&k, "announce_addr") {
            self.announce_addr = Some(String::from_str(value));
        } else if eq_lit(&k, "no_relay") {
            match parse_bool(value) {
                Some(b) => {
                    self.no_relay = b;
                },
                None => {
                    return Err(ConfigError::InvalidBool { value: String::from_str(value) });
                },
            }
        } else if eq_lit(&k, "start_block") {
            match parse_unsigned(&v, 0xffff_ffffu64) {
                Some(n) => {
                    self.start_block = n as u32;
                },
                None => {
                    return Err(ConfigError::InvalidNumber { key: String::from_str(key) });
                },
            }
        } else if eq_lit(&k, "auto_rebalance") {
            match parse_bool(value) {
                Some(b) => {
                    self.auto_rebalance = b;
                },
                None => {
                    return Err(ConfigError::InvalidBool { value: String::from_str(value) });
                },
            }
        } else if eq_lit(&k, "rebalance_interval_secs") {
            match parse_unsigned(&v, u64::MAX) {
                Some(n) => {
                    self.rebalance_interval_secs = n;
                },
                None => {
                    return Err(ConfigError::InvalidNumber { key: String::from_str(key) });
                },
            }
        } else if eq_lit(&k, "rebalance_min_redundancy") {
            match parse_unsigned(&v, usize::MAX as u64) {
                Some(n) => {
                    self.rebalance_min_redundancy = n as usize;
                },
                None => {
                    return Err(ConfigError::InvalidNumber { key: String::from_str(key) });
                },
            }
        } else if eq_lit(&k, "initial_peers") {
            self.initial_peers = parse_peer_list(value);
        } else {
            return Err(ConfigError::UnknownKey { key: String::from_str(key) });
        }
        Ok(())
    }
}

// ---------------------------------------------------------------------------
// Defaults
// ---------------------------------------------------------------------------

/// Serde's default for boolean settings that start enabled.
pub fn default_true() -> (r: bool)
    ensures
        r,
{
    true
}

/// The public bootstrap peers.
pub fn default_peers() -> (r: Vec<String>)
    ensures
        strings_view(r@) == seq![
            "/dns/bootstrap-1.kwaai.ai/tcp/8000/p2p/QmQhRuheeCLEsVD3RsnknM75gPDDqxAb8DhnWgro7KhaJc"@,
            "/dns/bootstrap-2.kwaai.ai/tcp/8000/p2p/Qmd3A8N5aQBATe2SYvNikaeCS9CAKN4E86jdCPacZ6RZJY"@,
        ],
{
    let mut r: Vec<String> = Vec::new();
    r.push(
        String::from_str(
            "/dns/bootstrap-1.kwaai.ai/tcp/8000/p2p/QmQhRuheeCLEsVD3RsnknM75gPDDqxAb8DhnWgro7KhaJc",
        ),
    );
    r.push(
        String::from_str(
            "/dns/bootstrap-2.kwaai.ai/tcp/8000/p2p/Qmd3A8N5aQBATe2SYvNikaeCS9CAKN4E86jdCPacZ6RZJY",
        ),
    );
    assert(strings_view(r@) =~= seq![
        "/dns/bootstrap-1.kwaai.ai/tcp/8000/p2p/QmQhRuheeCLEsVD3RsnknM75gPDDqxAb8DhnWgro7KhaJc"@,
        "/dns/bootstrap-2.kwaai.ai/tcp/8000/p2p/Qmd3A8N5aQBATe2SYvNikaeCS9CAKN4E86jdCPacZ6RZJY"@,
    ]);
    r
}

/// The network-map state endpoint polled by the health monitor.
pub fn default_api_endpoint() -> (r: String)
    ensures
        r@ == "https://map.kwaai.ai/api/v1/state"@,
{
    String::from_str("https://map.kwaai.ai/api/v1/state")
}

/// Seconds between health checks.
pub fn default_check_interval() -> (r: u64)
    ensures
        r == 60,
{
    60
}

/// Seconds before a health request times out.
pub fn default_request_timeout() -> (r: u64)
    ensures
        r == 10,
{
    10
}

/// Failed checks before the node counts as disconnected.
pub fn default_failure_threshold() -> (r: u32)
    ensures
        r == 3,
{
    3
}

/// Reconnection attempts before giving up.
pub fn default_max_attempts() -> (r: u32)
    ensures
        r == 10,
{
    10
}

/// The reconnection backoff strategy.
pub fn default_backoff_strategy() -> (r: String)
    ensures
        r@ == "exponential"@,
{
    String::from_str("exponential")
}

/// Seconds before the first reconnection attempt.
pub fn default_initial_delay() -> (r: u64)
    ensures
        r == 30,
{
    30
}

/// Upper bound on the reconnection delay, in seconds.
pub fn default_max_delay() -> (r: u64)
    ensures
        r == 1800,
{
    1800
}

/// Seconds between rebalancing checks.
pub fn default_rebalance_interval() -> (r: u64)
    ensures
        r == 300,
{
    300
}

/// Other nodes that must cover our range before rebalancing moves it.
pub fn default_rebalance_min_redundancy() -> (r: usize)
    ensures
        r == 1,
{
    1
}

/// The configured model: `KWAAINET_MODEL` when set, else the Llama 3.1 8B
/// instruct model.
pub fn default_model_from(env_model: Option<String>) -> (r: String)
    ensures
        r@ == match env_model {
            Some(m) => m@,
            None => "unsloth/Llama-3.1-8B-Instruct"@,
        },
{
    match env_model {
        Some(m) => m,
        None => String::from_str("unsloth/Llama-3.1-8B-Instruct"),
    }
}

/// Blocks to serve: `KWAAINET_BLOCKS` when it holds a `u32`, else 8.
pub fn default_blocks_from(env_blocks: Option<String>) -> (r: u32)
    ensures
        r as int == match env_blocks {
            Some(s) => match parse_unsigned_spec(s@, u32::MAX as int) {
                Some(n) => n,
                None => 8,
            },
            None => 8,
        },
{
    match env_blocks {
        Some(s) => match parse_unsigned(&chars_of(s.as_str()), 0xffff_ffffu64) {
            Some(n) => n as u32,
            None => 8,
        },
        None => 8,
    }
}

/// The P2P port: `KWAAINET_PORT` when it holds a `u16`, else 8080.
pub fn default_port_from(env_port: Option<String>) -> (r: u16)
    ensures
        r as int == match env_port {
            Some(s) => match parse_unsigned_spec(s@, u16::MAX as int) {
                Some(n) => n,
                None => 8080,
            },
            None => 8080,
        },
{
    match env_port {
        Some(s) => match parse_unsigned(&chars_of(s.as_str()), 0xffffu64) {
            Some(n) => n as u16,
            None => 8080,
        },
        None => 8080,
    }
}

/// The log level: `KWAAINET_LOG_LEVEL` when set, else `info`.
pub fn default_log_level_from(env_level: Option<String>) -> (r: String)
    ensures
        r@ == match env_level {
            Some(l) => l@,
            None => "info"@,
        },
{
    match env_level {
        Some(l) => l,
        None => String::from_str("info"),
    }
}

/// The environment a default configuration is built from.
#[derive(Debug)]
pub struct DefaultEnv {
    /// `KWAAINET_MODEL`
    pub model: Option<String>,
    /// `KWAAINET_BLOCKS`
    pub blocks: Option<String>,
    /// `KWAAINET_PORT`
    pub port: Option<String>,
    /// `KWAAINET_LOG_LEVEL`
    pub log_level: Option<String>,
    /// `USER`
    pub user: Option<String>,
    /// The operating system name, e.g. `linux`.
    pub os: String,
    /// The CPU architecture name, e.g. `x86_64`.
    pub arch: String,
}

/// The default public name: `USER-os-arch`, with `anonymous` for an unset user.
pub open spec fn default_public_name_spec(user: Option<Seq<char>>, os: Seq<char>, arch: Seq<
    char,
>) -> Seq<char> {
    let u = match user {
        Some(u) => u,
        None => "anonymous"@,
    };
    u + "-"@ + os + "-"@ + arch
}

/// Executable form of [`default_public_name_spec`].
pub fn default_public_name(user: &Option<String>, os: &str, arch: &str) -> (r: String)
    ensures
        r@ == default_public_name_spec(opt_view(*user), os@, arch@),
{
    let u = match user {
        Some(u) => u.clone(),
        None => String::from_str("anonymous"),
    };
    let s = append_lit(u, "-");
    let s = append_lit(s, os);
    let s = append_lit(s, "-");
    append_lit(s, arch)
}

/// The configuration written on first run, for the environment `env`:
/// the model, block count, port and log level from the environment where
/// set (and, for numbers, valid), else the defaults; the public name from
/// the user and platform; the two default bootstrap peers; health
/// monitoring on and everything else off or unset.
pub open spec fn is_first_run_config(r: KwaaiNetConfig, env: DefaultEnv) -> bool {
    &&& r.model@ == (match env.model {
            Some(m) => m@,
            None => "unsloth/Llama-3.1-8B-Instruct"@,
        })
    &&& r.start_block == 0
    &&& r.use_gpu
    &&& opt_view(r.public_name) == Some(
            default_public_name_spec(opt_view(env.user), env.os@, env.arch@),
        )
    &&& r.public_ip is None
    &&& r.announce_addr is None
    &&& !r.no_relay
    &&& r.initial_peers@.len() == 2
    &&& r.health_monitoring.enabled
    &&& r.model_dht_prefix is None
    &&& r.model_repository is None
    &&& !r.vpk_enabled
    &&& r.vpk_mode is None
    &&& r.vpk_endpoint is None
    &&& r.vpk_local_port is None
    &&& !r.auto_rebalance
    &&& r.rebalance_interval_secs == 300
    &&& r.rebalance_min_redundancy == 1
    &&& r.blocks as int == (match env.blocks {
            Some(s) => match parse_unsigned_spec(s@, u32::MAX as int) {
                Some(n) => n,
                None => 8,
            },
            None => 8,
        })
    &&& r.port as int == (match env.port {
            Some(s) => match parse_unsigned_spec(s@, u16::MAX as int) {
                Some(n) => n,
                None => 8080,
            },
            None => 8080,
        })
    &&& r.log_level@ == (match env.log_level {
            Some(l) => l@,
            None => "info"@,
        })
}

/// A configuration as it stands after loading: a model named by an explicit
/// HuggingFace path (with a `/`) keeps no map-derived DHT prefix or
/// repository.
pub open spec fn normalized_spec(c: ConfigView) -> ConfigView {
    if c.model.contains('/') {
        ConfigView { model_dht_prefix: None, model_repository: None, ..c }
    } else {
        c
    }
}

/// What loading the configuration settles on, given what was read from the
/// file (`None` where there is no file): the file's configuration,
/// normalized, and nothing to write; else the first-run configuration, to
/// be written (`true`).
pub fn settle_loaded(found: Option<KwaaiNetConfig>, env: &DefaultEnv) -> (r: (KwaaiNetConfig, bool))
    ensures
        match found {
            Some(c) => r.0@ == normalized_spec(c@) && r.0.health_monitoring == c.health_monitoring
                && !r.1,
            None => is_first_run_config(r.0, *env) && r.1,
        },
{
    match found {
        Some(c) => {
            let mut c = c;
            c.normalize_after_load();
            (c, false)
        },
        None => (KwaaiNetConfig::default_from(env), true),
    }
}

impl KwaaiNetConfig {
    /// The configuration written on first run.
    pub fn default_from(env: &DefaultEnv) -> (r: Self)
        ensures
            is_first_run_config(r, *env),
    {
        let peers = default_peers();
        assert(strings_view(peers@).len() == peers@.len());
        KwaaiNetConfig {
            model: default_model_from(clone_opt(&env.model)),
            blocks: default_blocks_from(clone_opt(&env.blocks)),
            start_block: 0,
            port: default_port_from(clone_opt(&env.port)),
            use_gpu: true,
            log_level: default_log_level_from(clone_opt(&env.log_level)),
            public_name: Some(default_public_name(&env.user, env.os.as_str(), env.arch.as_str())),
            public_ip: None,
            announce_addr: None,
            no_relay: false,
            initial_peers: peers,
            health_monitoring: HealthConfig::default(),
            model_dht_prefix: None,
            model_repository: None,
            vpk_enabled: false,
            vpk_mode: None,
            vpk_endpoint: None,
            vpk_local_port: None,
            auto_rebalance: false,
            rebalance_interval_secs: default_rebalance_interval(),
            rebalance_min_redundancy: default_rebalance_min_redundancy(),
        }
    }
}

/// `s` with every `from` written as `to`.
pub open spec fn replace_char_spec(s: Seq<char>, from: char, to: char) -> Seq<char> {
    s.map_values(|c: char| if c == from { to } else { c })
}

/// Executable form of [`replace_char_spec`].
pub fn replace_char(s: &Vec<char>, from: char, to: char) -> (r: Vec<char>)
    ensures
        r@ == replace_char_spec(s@, from, to),
{
    let mut r: Vec<char> = Vec::new();
    let mut i: usize = 0;
    while i < s.len()
        invariant
            i <= s.len(),
            r@ =~= replace_char_spec(s@.take(i as int), from, to),
        decreases s.len() - i,
    {
        if s[i] == from {
            r.push(to);
        } else {
            r.push(s[i]);
        }
        i = i + 1;
        assert(r@ =~= replace_char_spec(s@.take(i as int), from, to));
    }
    assert(s@.take(s@.len() as int) =~= s@);
    r
}

/// The DHT prefix derived from a model name, Petals style: the part after
/// the last `/`, with every `.` written as `-`.
pub open spec fn derived_dht_prefix(model: Seq<char>) -> Seq<char> {
    replace_char_spec(split_spec(model, '/').last(), '.', '-')
}

/// The model size guessed from its name when no `config.json` is at hand:
/// 80 blocks for a 70B model, 40 for a 13B model, else 32.
pub open spec fn blocks_from_name_spec(model: Seq<char>) -> i32 {
    if has_infix(ascii_lower(model), "70b"@) {
        80
    } else if has_infix(ascii_lower(model), "13b"@) {
        40
    } else {
        32
    }
}

/// The `num_hidden_layers` integer of a model's `config.json` text (`None`
/// when the text is not JSON or holds no such integer).
pub uninterp spec fn config_num_hidden_layers(text: Seq<char>) -> Option<i64>;

/// Parses a `config.json` text with `serde_json::from_str` and reads its
/// `num_hidden_layers` field as an `i64` (`Value::as_i64`).  The contract
/// names the outcome and says nothing of how JSON is read.
#[verifier::external_body]
fn read_num_hidden_layers(text: &str) -> (r: Option<i64>)
    ensures
        r == config_num_hidden_layers(text@),
{
    match serde_json::from_str::<serde_json::Value>(text) {
        Ok(v) => v["num_hidden_layers"].as_i64(),
        Err(_) => None,
    }
}

/// The block count of a model: its config's `num_hidden_layers` (cut to 32
/// bits) when a config is at hand and holds one, else the name heuristic.
pub open spec fn total_blocks_spec(model: Seq<char>, config_json: Option<Seq<char>>) -> i32 {
    match config_json {
        Some(t) => match config_num_hidden_layers(t) {
            Some(n) => n as i32,
            None => blocks_from_name_spec(model),
        },
        None => blocks_from_name_spec(model),
    }
}

impl KwaaiNetConfig {
    /// Return the effective DHT prefix for this node's model: the canonical
    /// prefix from the network map when there is one, else the model name's
    /// last `/`-segment with dots turned into dashes
    /// (`"org/Model-Name.1B"` becomes `"Model-Name-1B"`).
    pub fn effective_dht_prefix(&self) -> (r: String)
        ensures
            r@ == match self.model_dht_prefix {
                Some(p) => p@,
                None => derived_dht_prefix(self.model@),
            },
    {
        match &self.model_dht_prefix {
            Some(p) => p.clone(),
            None => {
                let pieces = split_chars(&chars_of(self.model.as_str()), '/');
                proof {
                    lemma_split_nonempty(self.model@, '/');
                }
                let last = &pieces[pieces.len() - 1];
                string_of(&replace_char(last, '.', '-'))
            },
        }
    }

    /// The model's size guessed from its name: a name containing `70b` (in
    /// any ASCII case) has 80 blocks, one containing `13b` has 40, any other
    /// 32.  Only ASCII characters can spell these patterns, so ASCII
    /// lowercasing decides them as full lowercasing would.
    pub fn blocks_from_name(&self) -> (r: i32)
        ensures
            r == blocks_from_name_spec(self.model@),
    {
        let m = lower_all(&chars_of(self.model.as_str()));
        if contains_lit(&m, "70b") {
            80
        } else if contains_lit(&m, "13b") {
            40
        } else {
            32
        }
    }

    /// Total transformer blocks in the full model: `num_hidden_layers` of
    /// the snapshot's `config.json` text when one is given and holds it,
    /// otherwise the name heuristic.
    pub fn model_total_blocks(&self, config_json: Option<&str>) -> (r: i32)
        ensures
            r == total_blocks_spec(self.model@, match config_json {
                Some(t) => Some(t@),
                None => None,
            }),
    {
        match config_json {
            Some(t) => match read_num_hidden_layers(t) {
                Some(n) => {
                    #[verifier::truncate]
                    let b = n as i32;
                    b
                },
                None => self.blocks_from_name(),
            },
            None => self.blocks_from_name(),
        }
    }

    /// Effective last block (exclusive) this node serves:
    /// `start_block + blocks`, clamped to the model's block count taken as
    /// a `u32`.
    pub fn effective_end_block(&self, config_json: Option<&str>) -> (r: u32)
        requires
            self.start_block + self.blocks <= u32::MAX,
        ensures
            ({
                let total = total_blocks_spec(self.model@, match config_json {
                    Some(t) => Some(t@),
                    None => None,
                }) as u32;
                r == if self.start_block + self.blocks <= total {
                    (self.start_block + self.blocks) as u32
                } else {
                    total
                }
            }),
    {
        let t = self.model_total_blocks(config_json);
        #[verifier::truncate]
        let total = t as u32;
        let end = self.start_block + self.blocks;
        if end <= total {
            end
        } else {
            total
        }
    }

    /// Drops the map-derived settings when the model is named by an explicit
    /// HuggingFace path (its name holds a `/`): they only held for the model
    /// that was active when the map was consulted.
    pub fn normalize_after_load(&mut self)
        ensures
            final(self)@ == normalized_spec(old(self)@),
            final(self).health_monitoring == old(self).health_monitoring,
    {
        let m = chars_of(self.model.as_str());
        let mut i: usize = 0;
        let mut has_slash = false;
        while i < m.len()
            invariant
                i <= m.len(),
                m@ == self.model@,
                has_slash == exists|k: int| 0 <= k < i && m@[k] == '/',
            decreases m.len() - i,
        {
            if m[i] == '/' {
                has_slash = true;
            }
            i = i + 1;
        }
        if has_slash {
            self.model_dht_prefix = None;
            self.model_repository = None;
        }
    }
}

/// Without a canonical prefix from the map, the DHT prefix is a single
/// path segment with no dots: it holds neither `/` nor `.`.
pub proof fn law_derived_prefix_has_no_slash_or_dot(model: Seq<char>)
    ensures
        !derived_dht_prefix(model).contains('/'),
        !derived_dht_prefix(model).contains('.'),
{
    lemma_split_pieces_lack_sep(model, '/');
    lemma_split_nonempty(model, '/');
    let last = split_spec(model, '/').last();
    assert(!last.contains('/'));
    let d = derived_dht_prefix(model);
    if d.contains('/') {
        let k = choose|k: int| 0 <= k < d.len() && d[k] == '/';
        assert(last[k] != '/');
    }
}

/// No piece of a split holds the separator.
pub proof fn lemma_split_pieces_lack_sep(s: Seq<char>, sep: char)
    ensures
        forall|k: int| 0 <= k < split_spec(s, sep).len() ==> !(#[trigger] split_spec(s, sep)[k]).contains(sep),
    decreases s.len(),
{
    if s.len() > 0 {
        lemma_split_pieces_lack_sep(s.drop_last(), sep);
        lemma_split_nonempty(s.drop_last(), sep);
        let p = split_spec(s.drop_last(), sep);
        if s.last() != sep {
            let q = p.last().push(s.last());
            assert(!p.last().contains(sep));
            if q.contains(sep) {
                let j = choose|j: int| 0 <= j < q.len() && q[j] == sep;
                if j < q.len() - 1 {
                    assert(p.last()[j] == sep);
                }
            }
            assert forall|k: int| 0 <= k < split_spec(s, sep).len() implies !(#[trigger] split_spec(s, sep)[k]).contains(sep) by {
                if k < p.len() - 1 {
                    assert(split_spec(s, sep)[k] == p[k]);
                } else {
                    assert(split_spec(s, sep)[k] == q);
                }
            }
        } else {
            assert forall|k: int| 0 <= k < split_spec(s, sep).len() implies !(#[trigger] split_spec(s, sep)[k]).contains(sep) by {
                if k < p.len() {
                    assert(split_spec(s, sep)[k] == p[k]);
                } else {
                    assert(split_spec(s, sep)[k] =~= Seq::<char>::empty());
                }
            }
        }
    }
}

/// The home directory from `dirs::home_dir`, as text (non-UTF-8 parts
/// replaced by U+FFFD); `None` when it cannot be determined.  It depends on
/// the environment and the user database; the one thing stated is what
/// dirs-sys's source shows of every outcome: both `$HOME` and the password
/// entry are passed over when empty, so a directory it gives is not empty.
#[verifier::external_body]
fn home_dir_text() -> (r: Option<String>)
    ensures
        r matches Some(h) ==> h@.len() > 0,
{
    dirs::home_dir().map(|p| p.to_string_lossy().into_owned())
}

/// `base` joined with the relative path `comp`, as `Path::join` does on
/// Unix: a `/` between them unless `base` is empty or already ends in one.
pub open spec fn join_path_spec(base: Seq<char>, comp: Seq<char>) -> Seq<char> {
    if base.len() == 0 || base.last() == '/' {
        base + comp
    } else {
        base + seq!['/'] + comp
    }
}

/// `base` joined with the relative path `comp`.
pub fn join_path(base: &str, comp: &str) -> (r: String)
    ensures
        r@ == join_path_spec(base@, comp@),
{
    let mut s = chars_of(base);
    let n = s.len();
    if n > 0 && s[n - 1] != '/' {
        s.push('/');
    }
    let c = chars_of(comp);
    crate::fmt::push_all(&mut s, &c);
    string_of(&s)
}

/// The directory that stands for the home directory: `home` where it is
/// known, else the current directory `.`.
pub open spec fn home_or_current_spec(home: Option<Seq<char>>) -> Seq<char> {
    match home {
        Some(h) => h,
        None => "."@,
    }
}

/// `home` where it is known, else `.`.
pub fn home_or_current(home: Option<String>) -> (r: String)
    ensures
        r@ == home_or_current_spec(opt_view(home)),
{
    match home {
        Some(h) => h,
        None => String::from_str("."),
    }
}

/// The home directory, or `.` when it cannot be determined; never empty,
/// so paths built on it are never bare relative names like `.kwaainet`.
pub fn dirs_home() -> (r: String)
    ensures
        r@.len() > 0,
{
    let home = home_dir_text();
    proof {
        reveal_strlit(".");
    }
    home_or_current(home)
}

/// The node's data directory under a home directory.
pub open spec fn kwaainet_dir_spec(home: Seq<char>) -> Seq<char> {
    join_path_spec(home, ".kwaainet"@)
}

/// `HOME/.kwaainet`.
pub fn kwaainet_dir_in(home: &str) -> (r: String)
    ensures
        r@ == kwaainet_dir_spec(home@),
{
    join_path(home, ".kwaainet")
}

/// `~/.kwaainet`, the node's data directory.
pub fn kwaainet_dir() -> (r: String)
    ensures
        exists|h: Seq<char>| h.len() > 0 && r@ == #[trigger] kwaainet_dir_spec(h),
{
    let h = dirs_home();
    kwaainet_dir_in(h.as_str())
}

/// `~/.kwaainet/config.yaml`.
pub fn config_file() -> (r: String)
    ensures
        exists|h: Seq<char>| h.len() > 0 && r@ == join_path_spec(#[trigger] kwaainet_dir_spec(h), "config.yaml"@),
{
    let d = kwaainet_dir();
    join_path(d.as_str(), "config.yaml")
}

/// `~/.kwaainet/run`, where PID, lock and status files live.
pub fn run_dir() -> (r: String)
    ensures
        exists|h: Seq<char>| h.len() > 0 && r@ == join_path_spec(#[trigger] kwaainet_dir_spec(h), "run"@),
{
    let d = kwaainet_dir();
    join_path(d.as_str(), "run")
}

/// `~/.kwaainet/logs`.
pub fn log_dir() -> (r: String)
    ensures
        exists|h: Seq<char>| h.len() > 0 && r@ == join_path_spec(#[trigger] kwaainet_dir_spec(h), "logs"@),
{
    let d = kwaainet_dir();
    join_path(d.as_str(), "logs")
}

/// `~/.kwaainet/logs/kwaainet.log`.
pub fn log_file() -> (r: String)
    ensures
        exists|h: Seq<char>| h.len() > 0 && r@ == join_path_spec(
            join_path_spec(#[trigger] kwaainet_dir_spec(h), "logs"@),
            "kwaainet.log"@,
        ),
{
    let d = log_dir();
    join_path(d.as_str(), "kwaainet.log")
}

/// The DHT prefix a model name gives when no canonical one is known, with
/// the owner kept: every `.` and `/` written as `-`
/// (`unsloth/Llama-3.1-8B-Instruct` becomes `unsloth-Llama-3-1-8B-Instruct`).
pub fn dht_prefix_fallback(model: &str) -> (r: String)
    ensures
        r@ == replace_char_spec(replace_char_spec(model@, '.', '-'), '/', '-'),
{
    let a = replace_char(&chars_of(model), '.', '-');
    string_of(&replace_char(&a, '/', '-'))
}

impl KwaaiNetConfig {
    /// The DHT prefix a `shard run` queries: derived from the model given on
    /// the command line when it differs from the configured one, else the
    /// configured model's effective prefix.
    pub fn run_dht_prefix(&self, cli_model: Option<&str>) -> (r: String)
        ensures
            r@ == match cli_model {
                Some(m) => if m@ != self.model@ {
                    derived_dht_prefix(m@)
                } else {
                    match self.model_dht_prefix {
                        Some(p) => p@,
                        None => derived_dht_prefix(self.model@),
                    }
                },
                None => match self.model_dht_prefix {
                    Some(p) => p@,
                    None => derived_dht_prefix(self.model@),
                },
            },
    {
        match cli_model {
            Some(m) => {
                let mc = chars_of(m);
                let cc = chars_of(self.model.as_str());
                if !crate::parse::chars_eq(&mc, &cc) {
                    let pieces = split_chars(&mc, '/');
                    proof {
                        lemma_split_nonempty(m@, '/');
                    }
                    let last = &pieces[pieces.len() - 1];
                    string_of(&replace_char(last, '.', '-'))
                } else {
                    self.effective_dht_prefix()
                }
            },
            None => self.effective_dht_prefix(),
        }
    }
}

/// A VPK mode that is not `bob`, `eve` or `both`.
#[derive(Debug, PartialEq, Eq)]
pub struct InvalidVpkMode {
    pub mode: String,
}

impl InvalidVpkMode {
    /// The error's text.
    pub fn message(&self) -> (r: String)
        ensures
            r@ == "Invalid mode '"@ + self.mode@ + "'. Must be: bob, eve, or both"@,
    {
        let mut s = chars_of("Invalid mode '");
        crate::fmt::push_all(&mut s, &chars_of(self.mode.as_str()));
        crate::fmt::push_lit(&mut s, "'. Must be: bob, eve, or both");
        string_of(&s)
    }
}

/// The VPK operating modes: query-only, storage, or both.
pub open spec fn valid_vpk_mode(mode: Seq<char>) -> bool {
    mode == "bob"@ || mode == "eve"@ || mode == "both"@
}

impl KwaaiNetConfig {
    /// Turns the VPK integration on in `mode`, advertising `endpoint` (none
    /// for local-only use) and checking the local service on `port`.  An
    /// unknown mode is refused and leaves the configuration as it was.
    pub fn enable_vpk(&mut self, mode: String, endpoint: Option<String>, port: u16) -> (r: Result<
        (),
        InvalidVpkMode,
    >)
        ensures
            valid_vpk_mode(mode@) ==> r is Ok && final(self)@ == (ConfigView {
                vpk_enabled: true,
                vpk_mode: Some(mode@),
                vpk_endpoint: opt_view(endpoint),
                vpk_local_port: Some(port),
                ..old(self)@
            }),
            !valid_vpk_mode(mode@) ==> (r matches Err(e) && e.mode@ == mode@),
            !valid_vpk_mode(mode@) ==> final(self)@ == old(self)@,
            final(self).health_monitoring == old(self).health_monitoring,
    {
        let m = chars_of(mode.as_str());
        if !(eq_lit(&m, "bob") || eq_lit(&m, "eve") || eq_lit(&m, "both")) {
            return Err(InvalidVpkMode { mode });
        }
        self.vpk_enabled = true;
        self.vpk_mode = Some(mode);
        self.vpk_endpoint = endpoint;
        self.vpk_local_port = Some(port);
        Ok(())
    }

    /// Turns the VPK integration off and forgets its settings.
    pub fn disable_vpk(&mut self)
        ensures
            final(self)@ == (ConfigView {
                vpk_enabled: false,
                vpk_mode: None,
                vpk_endpoint: None,
                vpk_local_port: None,
                ..old(self)@
            }),
            final(self).health_monitoring == old(self).health_monitoring,
    {
        self.vpk_enabled = false;
        self.vpk_mode = None;
        self.vpk_endpoint = None;
        self.vpk_local_port = None;
    }
}

} // verus!
