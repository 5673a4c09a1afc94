//! The command-line arguments of the `kwaainet` subcommands, as plain data,
//! and how `start` options override the stored configuration.

use vstd::prelude::*;

use crate::config::{opt_view, ConfigView, KwaaiNetConfig};

verus! {

/// Options of `kwaainet start`.
#[derive(Debug)]
pub struct StartArgs {
    /// Model to serve (e.g. unsloth/Llama-3.1-8B-Instruct)
    pub model: Option<String>,
    /// Number of transformer blocks to share
    pub blocks: Option<u32>,
    /// TCP port for P2P connections
    pub port: Option<u16>,
    /// Disable GPU acceleration (use CPU only)
    pub no_gpu: bool,
    /// Public display name for this node
    pub public_name: Option<String>,
    /// Override public IP address (auto-detected by default)
    pub public_ip: Option<String>,
    /// Custom announce multiaddr for P2P networking
    pub announce_addr: Option<String>,
    /// Disable automatic relay
    pub no_relay: bool,
    /// Run in background (daemon mode)
    pub daemon: bool,
    /// Allow concurrent instances (don't stop existing processes)
    pub concurrent: bool,
    /// Also start the shard inference server in the background
    pub shard: bool,
}

/// Options of `kwaainet logs`.
#[derive(Debug)]
pub struct LogsArgs {
    /// Number of lines to show
    pub lines: usize,
    /// Follow log output in real time
    pub follow: bool,
    /// Show shard server log instead of the node log
    pub shard: bool,
}

/// Options of `kwaainet config`.
#[derive(Debug)]
pub struct ConfigArgs {
    pub action: Option<ConfigAction>,
}

/// Subcommands of `kwaainet config`.
#[derive(Debug)]
pub enum ConfigAction {
    /// Show current configuration (default when no subcommand given)
    Show,
    /// Set a config value (`config set KEY VALUE`).
    SetKey { key: String, value: String },
}

/// Options of `kwaainet service`.
#[derive(Debug)]
pub struct ServiceArgs {
    pub action: ServiceAction,
}

/// Subcommands of `kwaainet service`.
#[derive(Debug)]
pub enum ServiceAction {
    /// Install the auto-start service
    Install,
    /// Uninstall the auto-start service
    Uninstall,
    /// Show service status
    Status,
    /// Restart the auto-start service
    Restart,
}

/// Options of `kwaainet monitor`.
#[derive(Debug)]
pub struct MonitorArgs {
    pub action: MonitorAction,
}

/// Subcommands of `kwaainet monitor`.
#[derive(Debug)]
pub enum MonitorAction {
    /// Show connection statistics
    Stats,
    /// Configure disconnect alerts
    Alert(AlertArgs),
}

/// Options of `kwaainet monitor alert`.
#[derive(Debug)]
pub struct AlertArgs {
    /// Enable alerts
    pub enable: bool,
    /// Disable alerts
    pub disable: bool,
    /// Alert after N minutes of disconnection
    pub threshold: Option<u32>,
    /// Webhook URL for alerts
    pub webhook: Option<String>,
    /// Minimum connections before alerting
    pub min_connections: Option<u32>,
}

/// Options of `kwaainet update`.
#[derive(Debug)]
pub struct UpdateArgs {
    /// Only check for updates, don't install
    pub check: bool,
    /// Force update check (bypass cache)
    pub force: bool,
}

/// Options of `kwaainet load-model`.
#[derive(Debug)]
pub struct LoadModelArgs {
    /// Ollama model reference, e.g. `qwen3:0.6b` or `hf.co/org/model:tag`
    pub model: String,
}

/// Options of `kwaainet generate`.
#[derive(Debug)]
pub struct GenerateArgs {
    /// Model reference (Ollama: `qwen:latest`, HuggingFace: `owner/model`)
    pub model: String,
    /// Prompt to tokenize
    pub prompt: String,
}

/// Options of `kwaainet benchmark`.
#[derive(Debug)]
pub struct BenchmarkArgs {
    /// Model to benchmark; defaults to the configured model.
    pub model: Option<String>,
    /// Number of decode steps to time (after a warm-up pass).
    pub steps: usize,
}

/// Options of `kwaainet serve`.
#[derive(Debug)]
pub struct ServeArgs {
    /// Model to load; defaults to the configured model.
    pub model: Option<String>,
    /// HTTP port for the OpenAI-compatible API
    pub port: u16,
}

/// Options of `kwaainet identity`.
#[derive(Debug)]
pub struct IdentityArgs {
    pub action: IdentityAction,
}

/// Subcommands of `kwaainet identity`.
#[derive(Debug)]
pub enum IdentityAction {
    /// Show this node's DID, Peer ID, trust tier, and credential summary
    Show,
    /// Import a Verifiable Credential from a JSON file into the local store
    ImportVc { path: String },
    /// List all stored Verifiable Credentials
    ListVcs,
    /// Verify a Verifiable Credential (structure check + Ed25519 signature)
    VerifyVc { path: String },
}

/// Options of `kwaainet vpk`.
#[derive(Debug)]
pub struct VpkArgs {
    pub action: VpkAction,
}

/// Subcommands of `kwaainet vpk`.
#[derive(Debug)]
pub enum VpkAction {
    /// Enable VPK integration and start advertising on DHT
    Enable { mode: String, endpoint: Option<String>, port: u16 },
    /// Disable VPK integration and stop DHT advertisement
    Disable,
    /// Show local VPK health and DHT advertisement status
    Status,
    /// Discover VPK-capable nodes via DHT
    Discover,
    /// Shard a knowledge base across Eve nodes discovered via DHT
    Shard { kb_id: String, eve_count: usize },
    /// Resolve shard endpoints for a knowledge base from DHT
    Resolve { kb_id: String },
}

/// Options of `kwaainet uninstall`.
#[derive(Debug)]
pub struct UninstallArgs {
    /// Skip the confirmation prompt
    pub yes: bool,
    /// Keep ~/.kwaainet/ data (config, logs, identity)
    pub keep_data: bool,
}

/// An answer to the uninstall prompt agrees: `y` or `yes`, in any case,
/// with surrounding whitespace ignored.
pub open spec fn confirms_spec(answer: Seq<char>) -> bool {
    let a = crate::parse::ascii_lower(crate::parse::trim_spec(answer));
    a == "y"@ || a == "yes"@
}

/// Whether an answer to the uninstall prompt agrees.
pub fn confirms(answer: &str) -> (r: bool)
    ensures
        r == confirms_spec(answer@),
{
    let a = crate::parse::lower_all(&crate::parse::trim_chars(&crate::text::chars_of(answer)));
    crate::parse::eq_lit(&a, "y") || crate::parse::eq_lit(&a, "yes")
}

/// Options of `kwaainet shard serve`.
#[derive(Debug)]
pub struct ShardServeArgs {
    /// Path to the model directory; defaults to the HuggingFace cache.
    pub model_path: Option<String>,
    /// Override start_block from config.yaml
    pub start_block: Option<u32>,
    /// Override number of blocks from config.yaml
    pub blocks: Option<u32>,
    /// Disable GPU acceleration and use CPU only
    pub no_gpu: bool,
    /// Auto-discover which blocks are unserved (the default; kept as an alias)
    pub auto: bool,
    /// Disable automatic DHT gap discovery and use start_block from config.yaml
    pub no_auto: bool,
    /// Periodically move blocks to fill gaps when our range is well covered
    pub auto_rebalance: bool,
}

/// Options of `kwaainet shard chain`.
#[derive(Debug)]
pub struct ShardChainArgs {
    /// DHT prefix to query; defaults to the configured model's prefix.
    pub dht_prefix: Option<String>,
    /// Number of blocks to scan
    pub total_blocks: usize,
}

/// Options of `kwaainet shard download`.
#[derive(Debug)]
pub struct ShardDownloadArgs {
    /// HuggingFace model ID; defaults to the configured model.
    pub model: Option<String>,
    /// HuggingFace access token for private or gated models.
    pub hf_token: Option<String>,
}

/// Options of `kwaainet calibrate`.
#[derive(Debug)]
pub struct CalibrateArgs {
    /// Model to calibrate for
    pub model: Option<String>,
    /// Force re-calibration (ignore cache)
    pub force: bool,
    /// Quick estimation mode (default)
    pub quick: bool,
    /// Apply a calibration profile: min, recommended, or max
    pub apply: Option<String>,
}

/// Options of `kwaainet setup`.
#[derive(Debug)]
pub struct SetupArgs {
    /// Download and install missing dependencies (e.g. p2pd)
    pub get_deps: bool,
}

/// The configuration after the `start` options override it: each option
/// given replaces its setting, `--no-gpu` turns the GPU off and
/// `--no-relay` turns relaying off; everything else stays.
pub open spec fn start_overrides_spec(
    c: ConfigView,
    model: Option<Seq<char>>,
    blocks: Option<u32>,
    port: Option<u16>,
    no_gpu: bool,
    public_name: Option<Seq<char>>,
    public_ip: Option<Seq<char>>,
    announce_addr: Option<Seq<char>>,
    no_relay: bool,
) -> ConfigView {
    ConfigView {
        model: match model {
            Some(m) => m,
            None => c.model,
        },
        blocks: match blocks {
            Some(b) => b,
            None => c.blocks,
        },
        port: match port {
            Some(p) => p,
            None => c.port,
        },
        use_gpu: if no_gpu {
            false
        } else {
            c.use_gpu
        },
        public_name: match public_name {
            Some(n) => Some(n),
            None => c.public_name,
        },
        public_ip: match public_ip {
            Some(i) => Some(i),
            None => c.public_ip,
        },
        announce_addr: match announce_addr {
            Some(a) => Some(a),
            None => c.announce_addr,
        },
        no_relay: if no_relay {
            true
        } else {
            c.no_relay
        },
        ..c
    }
}

/// Each `start` option that is given replaces its setting (`--no-gpu` turns
/// the GPU off, `--no-relay` turns relaying off) and each option left out
/// keeps the stored one; the settings `start` has no option for never
/// change.
pub proof fn law_start_overrides(
    c: ConfigView,
    model: Option<Seq<char>>,
    blocks: Option<u32>,
    port: Option<u16>,
    no_gpu: bool,
    public_name: Option<Seq<char>>,
    public_ip: Option<Seq<char>>,
    announce_addr: Option<Seq<char>>,
    no_relay: bool,
)
    ensures
        ({
            let r = start_overrides_spec(
                c,
                model,
                blocks,
                port,
                no_gpu,
                public_name,
                public_ip,
                announce_addr,
                no_relay,
            );
            &&& port matches Some(p) ==> r.port == p
            &&& port is None ==> r.port == c.port
            &&& blocks matches Some(b) ==> r.blocks == b
            &&& blocks is None ==> r.blocks == c.blocks
            &&& model matches Some(m) ==> r.model == m
            &&& model is None ==> r.model == c.model
            &&& no_gpu ==> !r.use_gpu
            &&& !no_gpu ==> r.use_gpu == c.use_gpu
            &&& public_name is Some ==> r.public_name == public_name
            &&& public_name is None ==> r.public_name == c.public_name
            &&& public_ip is Some ==> r.public_ip == public_ip
            &&& public_ip is None ==> r.public_ip == c.public_ip
            &&& announce_addr is Some ==> r.announce_addr == announce_addr
            &&& announce_addr is None ==> r.announce_addr == c.announce_addr
            &&& no_relay ==> r.no_relay
            &&& !no_relay ==> r.no_relay == c.no_relay
            &&& r.start_block == c.start_block
            &&& r.log_level == c.log_level
            &&& r.initial_peers == c.initial_peers
            &&& r.health_enabled == c.health_enabled
            &&& r.model_dht_prefix == c.model_dht_prefix
            &&& r.model_repository == c.model_repository
            &&& r.vpk_enabled == c.vpk_enabled
            &&& r.vpk_mode == c.vpk_mode
            &&& r.vpk_endpoint == c.vpk_endpoint
            &&& r.vpk_local_port == c.vpk_local_port
            &&& r.auto_rebalance == c.auto_rebalance
            &&& r.rebalance_interval_secs == c.rebalance_interval_secs
            &&& r.rebalance_min_redundancy == c.rebalance_min_redundancy
        }),
{
}

impl KwaaiNetConfig {
    /// Applies the overrides of `kwaainet start` to the configuration.
    #[verifier::rlimit(60)]
    pub fn apply_start_args(&mut self, args: StartArgs)
        ensures
            final(self)@ == start_overrides_spec(
                old(self)@,
                opt_view(args.model),
                args.blocks,
                args.port,
                args.no_gpu,
                opt_view(args.public_name),
                opt_view(args.public_ip),
                opt_view(args.announce_addr),
                args.no_relay,
            ),
            final(self).health_monitoring == old(self).health_monitoring,
            final(self).port == (match args.port {
                Some(p) => p,
                None => old(self).port,
            }),
            final(self).blocks == (match args.blocks {
                Some(b) => b,
                None => old(self).blocks,
            }),
            final(self).model@ == (match args.model {
                Some(m) => m@,
                None => old(self).model@,
            }),
            final(self).use_gpu == (!args.no_gpu && old(self).use_gpu),
            opt_view(final(self).public_name) == (match args.public_name {
                Some(n) => Some(n@),
                None => opt_view(old(self).public_name),
            }),
            opt_view(final(self).public_ip) == (match args.public_ip {
                Some(i) => Some(i@),
                None => opt_view(old(self).public_ip),
            }),
            opt_view(final(self).announce_addr) == (match args.announce_addr {
                Some(a) => Some(a@),
                None => opt_view(old(self).announce_addr),
            }),
            final(self).no_relay == (args.no_relay || old(self).no_relay),
            final(self).start_block == old(self).start_block,
    {
        proof {
            law_start_overrides(
                old(self)@,
                opt_view(args.model),
                args.blocks,
                args.port,
                args.no_gpu,
                opt_view(args.public_name),
                opt_view(args.public_ip),
                opt_view(args.announce_addr),
                args.no_relay,
            );
        }
        let ghost health = self.health_monitoring;
        let StartArgs {
            model,
            blocks,
            port,
            no_gpu,
            public_name,
            public_ip,
            announce_addr,
            no_relay,
            ..
        } = args;
        if let Some(m) = model {
            self.model = m;
        }
        assert(self.health_monitoring == health);
        if let Some(b) = blocks {
            self.blocks = b;
        }
        assert(self.health_monitoring == health);
        if let Some(p) = port {
            self.port = p;
        }
        assert(self.health_monitoring == health);
        if no_gpu {
            self.use_gpu = false;
        }
        assert(self.health_monitoring == health);
        if let Some(n) = public_name {
            self.public_name = Some(n);
        }
        assert(self.health_monitoring == health);
        if let Some(ip) = public_ip {
            self.public_ip = Some(ip);
        }
        assert(self.health_monitoring == health);
        if let Some(a) = announce_addr {
            self.announce_addr = Some(a);
        }
        assert(self.health_monitoring == health);
        if no_relay {
            self.no_relay = true;
        }
    }
}

} // verus!
