//! The go-libp2p daemon (`p2pd`): its launch settings and command line, and
//! the multiaddrs its control socket is reached at.

use vstd::prelude::*;

use crate::config::{opt_view, strings_view};
use crate::parse::{has_prefix, split_chars, split_spec, starts_with_lit, sub_chars};
use crate::text::{chars_of, string_of};

verus! {

/// Launch settings of the p2p daemon, set one by one with the builder
/// methods.
#[derive(Debug)]
pub struct DaemonBuilder {
    pub binary_path: Option<String>,
    pub listen_addr: Option<String>,
    pub bootstrap_peers: Vec<String>,
    pub dht: bool,
    pub relay: bool,
    pub auto_relay: bool,
    pub auto_nat: bool,
    pub nat_portmap: bool,
    pub host_addrs: Vec<String>,
    pub announce_addrs: Vec<String>,
    pub metrics: bool,
    pub metrics_addr: Option<String>,
    /// Path to a protobuf-encoded Ed25519 private key file (`-id` flag):
    /// with it the daemon keeps its peer id across restarts.
    pub identity_key_path: Option<String>,
}

/// The settings of a [`DaemonBuilder`], text as characters.
pub struct DaemonSettings {
    pub binary_path: Option<Seq<char>>,
    pub listen_addr: Option<Seq<char>>,
    pub bootstrap_peers: Seq<Seq<char>>,
    pub dht: bool,
    pub relay: bool,
    pub auto_relay: bool,
    pub auto_nat: bool,
    pub nat_portmap: bool,
    pub host_addrs: Seq<Seq<char>>,
    pub announce_addrs: Seq<Seq<char>>,
    pub metrics: bool,
    pub metrics_addr: Option<Seq<char>>,
    pub identity_key_path: Option<Seq<char>>,
}

impl View for DaemonBuilder {
    type V = DaemonSettings;

    open spec fn view(&self) -> DaemonSettings {
        DaemonSettings {
            binary_path: opt_view(self.binary_path),
            listen_addr: opt_view(self.listen_addr),
            bootstrap_peers: strings_view(self.bootstrap_peers@),
            dht: self.dht,
            relay: self.relay,
            auto_relay: self.auto_relay,
            auto_nat: self.auto_nat,
            nat_portmap: self.nat_portmap,
            host_addrs: strings_view(self.host_addrs@),
            announce_addrs: strings_view(self.announce_addrs@),
            metrics: self.metrics,
            metrics_addr: opt_view(self.metrics_addr),
            identity_key_path: opt_view(self.identity_key_path),
        }
    }
}

/// Nothing set: no paths or addresses, no peers, every feature off.
pub open spec fn default_settings() -> DaemonSettings {
    DaemonSettings {
        binary_path: None,
        listen_addr: None,
        bootstrap_peers: Seq::empty(),
        dht: false,
        relay: false,
        auto_relay: false,
        auto_nat: false,
        nat_portmap: false,
        host_addrs: Seq::empty(),
        announce_addrs: Seq::empty(),
        metrics: false,
        metrics_addr: None,
        identity_key_path: None,
    }
}

/// Appends the strings of `more` to `v`.
fn extend_strings(v: &mut Vec<String>, more: Vec<String>)
    ensures
        strings_view(final(v)@) == strings_view(old(v)@) + strings_view(more@),
{
    let ghost start = strings_view(v@);
    let mut i: usize = 0;
    while i < more.len()
        invariant
            i <= more.len(),
            strings_view(v@) == start + strings_view(more@).take(i as int),
        decreases more.len() - i,
    {
        let ghost before = v@;
        v.push(more[i].clone());
        assert(strings_view(v@) =~= strings_view(before).push(more@[i as int]@));
        i = i + 1;
        assert(strings_view(v@) =~= start + strings_view(more@).take(i as int));
    }
    assert(strings_view(more@).take(more@.len() as int) =~= strings_view(more@));
}

impl Default for DaemonBuilder {
    fn default() -> (r: Self)
        ensures
            r@ == default_settings(),
    {
        let r = DaemonBuilder {
            binary_path: None,
            listen_addr: None,
            bootstrap_peers: Vec::new(),
            dht: false,
            relay: false,
            auto_relay: false,
            auto_nat: false,
            nat_portmap: false,
            host_addrs: Vec::new(),
            announce_addrs: Vec::new(),
            metrics: false,
            metrics_addr: None,
            identity_key_path: None,
        };
        assert(r@.bootstrap_peers =~= Seq::<Seq<char>>::empty());
        assert(r@.host_addrs =~= Seq::<Seq<char>>::empty());
        assert(r@.announce_addrs =~= Seq::<Seq<char>>::empty());
        r
    }
}

impl DaemonBuilder {
    /// Create a new daemon builder with default settings.
    pub fn new() -> (r: Self)
        ensures
            r@ == default_settings(),
    {
        Self::default()
    }

    /// Set the path to the p2pd binary.
    pub fn with_binary_path(self, path: String) -> (r: Self)
        ensures
            r@ == (DaemonSettings { binary_path: Some(path@), ..self@ }),
    {
        let mut s = self;
        s.binary_path = Some(path);
        s
    }

    /// Set the IPC listen address (a multiaddr such as
    /// `/unix//tmp/kwaai-p2pd.sock` or `/ip4/127.0.0.1/tcp/5005`).
    pub fn with_listen_addr(self, addr: String) -> (r: Self)
        ensures
            r@ == (DaemonSettings { listen_addr: Some(addr@), ..self@ }),
    {
        let mut s = self;
        s.listen_addr = Some(addr);
        s
    }

    /// Enable DHT support.
    pub fn dht(self, enable: bool) -> (r: Self)
        ensures
            r@ == (DaemonSettings { dht: enable, ..self@ }),
    {
        let mut s = self;
        s.dht = enable;
        s
    }

    /// Enable relay support (this node acts as a relay server).
    pub fn relay(self, enable: bool) -> (r: Self)
        ensures
            r@ == (DaemonSettings { relay: enable, ..self@ }),
    {
        let mut s = self;
        s.relay = enable;
        s
    }

    /// Enable auto-relay (this node uses relay servers when behind NAT).
    pub fn auto_relay(self, enable: bool) -> (r: Self)
        ensures
            r@ == (DaemonSettings { auto_relay: enable, ..self@ }),
    {
        let mut s = self;
        s.auto_relay = enable;
        s
    }

    /// Enable AutoNAT (detect whether this node is reachable).
    pub fn auto_nat(self, enable: bool) -> (r: Self)
        ensures
            r@ == (DaemonSettings { auto_nat: enable, ..self@ }),
    {
        let mut s = self;
        s.auto_nat = enable;
        s
    }

    /// Set the host multiaddrs p2pd listens on for P2P traffic, e.g.
    /// `["/ip4/0.0.0.0/tcp/8080"]`; a later call replaces the list.
    pub fn host_addrs(self, addrs: Vec<String>) -> (r: Self)
        ensures
            r@ == (DaemonSettings { host_addrs: strings_view(addrs@), ..self@ }),
    {
        let mut s = self;
        s.host_addrs = addrs;
        s
    }

    /// Set the multiaddrs this node announces to the DHT network, e.g.
    /// `["/ip4/203.0.113.1/tcp/8080"]`, the public address; a later call
    /// replaces the list.
    pub fn announce_addrs(self, addrs: Vec<String>) -> (r: Self)
        ensures
            r@ == (DaemonSettings { announce_addrs: strings_view(addrs@), ..self@ }),
    {
        let mut s = self;
        s.announce_addrs = addrs;
        s
    }

    /// Enable NAT port mapping.
    pub fn nat_portmap(self, enable: bool) -> (r: Self)
        ensures
            r@ == (DaemonSettings { nat_portmap: enable, ..self@ }),
    {
        let mut s = self;
        s.nat_portmap = enable;
        s
    }

    /// Enable the metrics endpoint.
    pub fn metrics(self, enable: bool) -> (r: Self)
        ensures
            r@ == (DaemonSettings { metrics: enable, ..self@ }),
    {
        let mut s = self;
        s.metrics = enable;
        s
    }

    /// Set the metrics listen address (e.g. `127.0.0.1:8888`).
    pub fn metrics_addr(self, addr: String) -> (r: Self)
        ensures
            r@ == (DaemonSettings { metrics_addr: Some(addr@), ..self@ }),
    {
        let mut s = self;
        s.metrics_addr = Some(addr);
        s
    }

    /// Add a bootstrap peer.
    pub fn bootstrap_peer(self, peer: String) -> (r: Self)
        ensures
            r@ == (DaemonSettings { bootstrap_peers: self@.bootstrap_peers.push(peer@), ..self@ }),
    {
        let mut s = self;
        let ghost before = s.bootstrap_peers@;
        s.bootstrap_peers.push(peer);
        assert(strings_view(s.bootstrap_peers@) =~= strings_view(before).push(peer@));
        s
    }

    /// Add several bootstrap peers.
    pub fn bootstrap_peers(self, peers: Vec<String>) -> (r: Self)
        ensures
            r@ == (DaemonSettings {
                bootstrap_peers: self@.bootstrap_peers + strings_view(peers@),
                ..self@
            }),
    {
        let mut s = self;
        extend_strings(&mut s.bootstrap_peers, peers);
        s
    }

    /// Set the path of the identity key file (`-id` flag), which keeps the
    /// node's peer id stable across restarts.
    pub fn with_identity_key(self, path: String) -> (r: Self)
        ensures
            r@ == (DaemonSettings { identity_key_path: Some(path@), ..self@ }),
    {
        let mut s = self;
        s.identity_key_path = Some(path);
        s
    }
}

/// The strings of `v` joined with `,`.
pub open spec fn join_commas(v: Seq<Seq<char>>) -> Seq<char>
    decreases v.len(),
{
    if v.len() == 0 {
        Seq::empty()
    } else if v.len() == 1 {
        v[0]
    } else {
        join_commas(v.drop_last()) + seq![','] + v.last()
    }
}

/// Executable form of [`join_commas`].
pub fn join_with_commas(v: &Vec<String>) -> (r: String)
    ensures
        r@ == join_commas(strings_view(v@)),
{
    let ghost sv = strings_view(v@);
    let mut out: Vec<char> = Vec::new();
    let mut i: usize = 0;
    while i < v.len()
        invariant
            i <= v.len(),
            sv == strings_view(v@),
            out@ == join_commas(sv.take(i as int)),
        decreases v.len() - i,
    {
        assert(sv.take(i + 1).drop_last() =~= sv.take(i as int));
        if i > 0 {
            out.push(',');
        }
        let piece = chars_of(v[i].as_str());
        let mut k: usize = 0;
        let ghost base = out@;
        while k < piece.len()
            invariant
                k <= piece.len(),
                out@ == base + piece@.take(k as int),
            decreases piece.len() - k,
        {
            out.push(piece[k]);
            k = k + 1;
            assert(out@ =~= base + piece@.take(k as int));
        }
        assert(piece@.take(piece@.len() as int) =~= piece@);
        proof {
            if i == 0 {
                assert(sv.take(1) =~= seq![sv[0]]);
                assert(base =~= Seq::<char>::empty());
                assert(out@ =~= sv[0]);
            }
        }
        i = i + 1;
    }
    assert(sv.take(sv.len() as int) =~= sv);
    string_of(&out)
}

/// The control address the daemon listens on when none is set: a Unix
/// socket in `/tmp`.
pub open spec fn default_listen_addr() -> Seq<char> {
    "/unix//tmp/kwaai-p2pd.sock"@
}

/// The flag words for each bootstrap peer.
pub open spec fn bootstrap_args(peers: Seq<Seq<char>>) -> Seq<Seq<char>>
    decreases peers.len(),
{
    if peers.len() == 0 {
        Seq::empty()
    } else {
        bootstrap_args(peers.drop_last()) + seq!["-bootstrapPeers"@, peers.last()]
    }
}

/// The feature flags of the daemon command line.
pub open spec fn flag_args(s: DaemonSettings) -> Seq<Seq<char>> {
    (if s.dht {
        seq!["-dht"@]
    } else {
        Seq::empty()
    }) + (if s.relay {
        seq!["-relay"@]
    } else {
        Seq::empty()
    }) + (if s.auto_relay {
        seq!["-autoRelay"@]
    } else {
        Seq::empty()
    }) + (if s.auto_nat {
        seq!["-autonat"@]
    } else {
        Seq::empty()
    }) + (if s.nat_portmap {
        seq!["-natPortMap"@]
    } else {
        Seq::empty()
    })
}

/// The host and announce addresses of the daemon command line.
pub open spec fn addr_args(s: DaemonSettings) -> Seq<Seq<char>> {
    (if s.host_addrs.len() > 0 {
        seq!["-hostAddrs"@, join_commas(s.host_addrs)]
    } else {
        Seq::empty()
    }) + (if s.announce_addrs.len() > 0 {
        seq!["-announceAddrs"@, join_commas(s.announce_addrs)]
    } else {
        Seq::empty()
    })
}

/// The metrics part of the daemon command line.
pub open spec fn metrics_args(s: DaemonSettings) -> Seq<Seq<char>> {
    if s.metrics {
        seq!["-metrics"@] + match s.metrics_addr {
            Some(a) => seq!["-metricsAddr"@, a],
            None => Seq::empty(),
        }
    } else {
        Seq::empty()
    }
}

/// The identity part of the daemon command line.
pub open spec fn id_args(s: DaemonSettings) -> Seq<Seq<char>> {
    match s.identity_key_path {
        Some(p) => seq!["-id"@, p],
        None => Seq::empty(),
    }
}

/// The daemon's command-line arguments for the given settings and
/// effective listen address, in the order the daemon is given them.
pub open spec fn daemon_args_spec(s: DaemonSettings, listen: Seq<char>) -> Seq<Seq<char>> {
    seq!["-listen"@, listen] + flag_args(s) + addr_args(s) + metrics_args(s) + bootstrap_args(
        s.bootstrap_peers,
    ) + id_args(s)
}

/// How to start the daemon: the binary (`None` for the one built with the
/// crate), the control address, and the arguments.
pub struct DaemonLaunch {
    pub binary_path: Option<String>,
    pub listen_addr: String,
    pub args: Vec<String>,
}

/// Appends a literal argument.
fn push_arg(args: &mut Vec<String>, lit: &str)
    ensures
        strings_view(final(args)@) == strings_view(old(args)@).push(lit@),
{
    let ghost before = args@;
    args.push(String::from_str(lit));
    assert(strings_view(args@) =~= strings_view(before).push(lit@));
}

/// Appends an argument.
fn push_string(args: &mut Vec<String>, s: String)
    ensures
        strings_view(final(args)@) == strings_view(old(args)@).push(s@),
{
    let ghost before = args@;
    args.push(s);
    assert(strings_view(args@) =~= strings_view(before).push(s@));
}

impl DaemonBuilder {
    /// Appends the feature flags.
    fn push_flag_args(&self, args: &mut Vec<String>)
        ensures
            strings_view(final(args)@) == strings_view(old(args)@) + flag_args(self@),
    {
        let ghost s = self@;
        let ghost a0 = strings_view(args@);
        if self.dht {
            push_arg(args, "-dht");
        }
        let ghost a1 = strings_view(args@);
        assert(a1 =~= a0 + (if s.dht { seq!["-dht"@] } else { Seq::empty() }));
        if self.relay {
            push_arg(args, "-relay");
        }
        let ghost a2 = strings_view(args@);
        assert(a2 =~= a1 + (if s.relay { seq!["-relay"@] } else { Seq::empty() }));
        if self.auto_relay {
            push_arg(args, "-autoRelay");
        }
        let ghost a3 = strings_view(args@);
        assert(a3 =~= a2 + (if s.auto_relay { seq!["-autoRelay"@] } else { Seq::empty() }));
        if self.auto_nat {
            push_arg(args, "-autonat");
        }
        let ghost a4 = strings_view(args@);
        assert(a4 =~= a3 + (if s.auto_nat { seq!["-autonat"@] } else { Seq::empty() }));
        if self.nat_portmap {
            push_arg(args, "-natPortMap");
        }
        assert(strings_view(args@) =~= a4 + (if s.nat_portmap {
            seq!["-natPortMap"@]
        } else {
            Seq::empty()
        }));
        assert(strings_view(args@) =~= a0 + flag_args(s));
    }

    /// Appends the host and announce addresses.
    fn push_addr_args(&self, args: &mut Vec<String>)
        ensures
            strings_view(final(args)@) == strings_view(old(args)@) + addr_args(self@),
    {
        let ghost s = self@;
        let ghost a0 = strings_view(args@);
        if self.host_addrs.len() > 0 {
            push_arg(args, "-hostAddrs");
            push_string(args, join_with_commas(&self.host_addrs));
        }
        let ghost a1 = strings_view(args@);
        assert(a1 =~= a0 + (if s.host_addrs.len() > 0 {
            seq!["-hostAddrs"@, join_commas(s.host_addrs)]
        } else {
            Seq::empty()
        }));
        if self.announce_addrs.len() > 0 {
            push_arg(args, "-announceAddrs");
            push_string(args, join_with_commas(&self.announce_addrs));
        }
        assert(strings_view(args@) =~= a1 + (if s.announce_addrs.len() > 0 {
            seq!["-announceAddrs"@, join_commas(s.announce_addrs)]
        } else {
            Seq::empty()
        }));
        assert(strings_view(args@) =~= a0 + addr_args(s));
    }

    /// Appends the metrics flags.
    fn push_metrics_args(&self, args: &mut Vec<String>)
        ensures
            strings_view(final(args)@) == strings_view(old(args)@) + metrics_args(self@),
    {
        let ghost a0 = strings_view(args@);
        if self.metrics {
            push_arg(args, "-metrics");
            match &self.metrics_addr {
                Some(a) => {
                    push_arg(args, "-metricsAddr");
                    push_string(args, a.clone());
                },
                None => {},
            }
        }
        assert(strings_view(args@) =~= a0 + metrics_args(self@));
    }

    /// Appends one `-bootstrapPeers` flag per bootstrap peer.
    fn push_bootstrap_args(&self, args: &mut Vec<String>)
        ensures
            strings_view(final(args)@) == strings_view(old(args)@) + bootstrap_args(
                self@.bootstrap_peers,
            ),
    {
        let ghost s = self@;
        let ghost a0 = strings_view(args@);
        let mut i: usize = 0;
        assert(s.bootstrap_peers.take(0) =~= Seq::<Seq<char>>::empty());
        assert(a0 + bootstrap_args(s.bootstrap_peers.take(0)) =~= a0);
        while i < self.bootstrap_peers.len()
            invariant
                i <= self.bootstrap_peers.len(),
                s == self@,
                strings_view(args@) == a0 + bootstrap_args(s.bootstrap_peers.take(i as int)),
            decreases self.bootstrap_peers.len() - i,
        {
            assert(s.bootstrap_peers.take(i + 1).drop_last() =~= s.bootstrap_peers.take(i as int));
            assert(s.bootstrap_peers.take(i + 1).last() == self.bootstrap_peers@[i as int]@);
            push_arg(args, "-bootstrapPeers");
            push_string(args, self.bootstrap_peers[i].clone());
            i = i + 1;
            assert(strings_view(args@) =~= a0 + bootstrap_args(s.bootstrap_peers.take(i as int)));
        }
        assert(s.bootstrap_peers.take(s.bootstrap_peers.len() as int) =~= s.bootstrap_peers);
    }

    /// The command that starts the daemon with these settings: the listen
    /// address defaults to [`default_listen_addr`], then come the flags of
    /// the enabled features, the joined host and announce addresses, the
    /// metrics address when metrics are on, one `-bootstrapPeers` per peer,
    /// and the identity key.
    pub fn launch(&self) -> (r: DaemonLaunch)
        ensures
            opt_view(r.binary_path) == self@.binary_path,
            r.listen_addr@ == match self@.listen_addr {
                Some(a) => a,
                None => default_listen_addr(),
            },
            strings_view(r.args@) == daemon_args_spec(self@, r.listen_addr@),
    {
        let listen = match &self.listen_addr {
            Some(a) => a.clone(),
            None => String::from_str("/unix//tmp/kwaai-p2pd.sock"),
        };
        let mut args: Vec<String> = Vec::new();
        assert(strings_view(args@) =~= Seq::<Seq<char>>::empty());
        push_arg(&mut args, "-listen");
        push_string(&mut args, listen.clone());
        assert(strings_view(args@) =~= seq!["-listen"@, listen@]);
        self.push_flag_args(&mut args);
        self.push_addr_args(&mut args);
        self.push_metrics_args(&mut args);
        self.push_bootstrap_args(&mut args);
        let ghost a9 = strings_view(args@);
        match &self.identity_key_path {
            Some(p) => {
                push_arg(&mut args, "-id");
                push_string(&mut args, p.clone());
            },
            None => {},
        }
        assert(strings_view(args@) =~= a9 + id_args(self@));
        let binary_path = match &self.binary_path {
            Some(b) => Some(b.clone()),
            None => None,
        };
        DaemonLaunch { binary_path, listen_addr: listen, args }
    }
}

/// Where the daemon's control socket is reached.
#[derive(Debug, PartialEq, Eq)]
pub enum DaemonEndpoint {
    /// A TCP address `ip:port`.
    Tcp(String),
    /// A Unix socket path.
    Unix(String),
}

/// Why a control address was refused.
#[derive(Debug, PartialEq, Eq)]
pub enum DaemonAddrError {
    /// An `/ip4/` or `/ip6/` address without `/tcp/PORT`.
    InvalidMultiaddr(String),
    /// Neither an IP nor a Unix address.
    Unsupported(String),
}

impl DaemonAddrError {
    /// The error's text.
    pub fn message(&self) -> (r: String)
        ensures
            r@ == match self {
                DaemonAddrError::InvalidMultiaddr(a) => "Invalid multiaddr: "@ + a@,
                DaemonAddrError::Unsupported(a) => "Unsupported multiaddr format: "@ + a@,
            },
    {
        match self {
            DaemonAddrError::InvalidMultiaddr(a) => {
                let mut s = chars_of("Invalid multiaddr: ");
                let t = chars_of(a.as_str());
                crate::fmt::push_all(&mut s, &t);
                string_of(&s)
            },
            DaemonAddrError::Unsupported(a) => {
                let mut s = chars_of("Unsupported multiaddr format: ");
                let t = chars_of(a.as_str());
                crate::fmt::push_all(&mut s, &t);
                string_of(&s)
            },
        }
    }
}

/// The view of a parsed control address.
pub enum EndpointView {
    Tcp(Seq<char>),
    Unix(Seq<char>),
}

/// What a control multiaddr designates: `/ip4/IP/tcp/PORT/…` and
/// `/ip6/IP/tcp/PORT/…` a TCP address `IP:PORT`, `/unix/PATH` the socket
/// `PATH`.  `None` stands for an IP address without `tcp` as its third
/// part, `Some(Err(()))` for any other form.
pub open spec fn daemon_endpoint_spec(addr: Seq<char>) -> Result<EndpointView, bool> {
    if has_prefix(addr, "/ip4/"@) || has_prefix(addr, "/ip6/"@) {
        let parts = split_spec(addr, '/');
        if parts.len() < 5 || parts[3] != "tcp"@ {
            Err(true)
        } else {
            Ok(EndpointView::Tcp(parts[2] + seq![':'] + parts[4]))
        }
    } else if has_prefix(addr, "/unix/"@) {
        Ok(EndpointView::Unix(addr.skip(6)))
    } else {
        Err(false)
    }
}

/// Where to reach the daemon whose control address is `addr`.  An IP
/// address must have `tcp` as its third part and a port as its fourth;
/// other forms than IP and Unix addresses are refused.
pub fn daemon_endpoint(addr: &str) -> (r: Result<DaemonEndpoint, DaemonAddrError>)
    ensures
        match daemon_endpoint_spec(addr@) {
            Ok(EndpointView::Tcp(t)) => r matches Ok(DaemonEndpoint::Tcp(x)) && x@ == t,
            Ok(EndpointView::Unix(p)) => r matches Ok(DaemonEndpoint::Unix(x)) && x@ == p,
            Err(true) => r matches Err(DaemonAddrError::InvalidMultiaddr(a)) && a@ == addr@,
            Err(false) => r matches Err(DaemonAddrError::Unsupported(a)) && a@ == addr@,
        },
{
    let a = chars_of(addr);
    if starts_with_lit(&a, "/ip4/") || starts_with_lit(&a, "/ip6/") {
        let parts = split_chars(&a, '/');
        let ok = parts.len() >= 5 && crate::parse::eq_lit(&parts[3], "tcp");
        if !ok {
            return Err(DaemonAddrError::InvalidMultiaddr(string_of(&a)));
        }
        let mut t = parts[2].clone();
        assert(t@ == parts@[2]@);
        t.push(':');
        let p4 = &parts[4];
        let mut k: usize = 0;
        let ghost base = t@;
        while k < p4.len()
            invariant
                k <= p4.len(),
                t@ == base + p4@.take(k as int),
            decreases p4.len() - k,
        {
            t.push(p4[k]);
            k = k + 1;
            assert(t@ =~= base + p4@.take(k as int));
        }
        assert(p4@.take(p4@.len() as int) =~= p4@);
        Ok(DaemonEndpoint::Tcp(string_of(&t)))
    } else if starts_with_lit(&a, "/unix/") {
        proof {
            reveal_strlit("/unix/");
        }
        Ok(DaemonEndpoint::Unix(string_of(&sub_chars(&a, 6, a.len()))))
    } else {
        Err(DaemonAddrError::Unsupported(string_of(&a)))
    }
}

/// The socket file behind a `/unix/` listen address, which a stale run may
/// have left behind.
pub fn unix_socket_path(listen_addr: &str) -> (r: Option<String>)
    ensures
        match r {
            Some(p) => has_prefix(listen_addr@, "/unix/"@) && p@ == listen_addr@.skip(6),
            None => !has_prefix(listen_addr@, "/unix/"@),
        },
{
    let a = chars_of(listen_addr);
    if starts_with_lit(&a, "/unix/") {
        proof {
            reveal_strlit("/unix/");
        }
        Some(string_of(&sub_chars(&a, 6, a.len())))
    } else {
        None
    }
}

} // verus!
