//! What a running node announces and how it starts its p2p daemon,
//! decided from the configuration.

use vstd::prelude::*;

use crate::config::{
    opt_view, replace_char_spec, strings_view, KwaaiNetConfig, dht_prefix_fallback,
};
use crate::fmt::{dec_spec, push_all, push_dec, push_lit};
use crate::p2p::{DaemonBuilder, DaemonSettings, default_settings};
use crate::text::{chars_of, string_of};

verus! {

/// The name a node announces: its public name (or `kwaainet-node`), `/v`
/// and the build's version.
pub open spec fn announced_name_spec(public_name: Option<Seq<char>>) -> Seq<char> {
    (match public_name {
        Some(n) => n,
        None => "kwaainet-node"@,
    }) + "/v0.4.0"@
}

/// The name this node announces on the network.
pub fn announced_name(public_name: &Option<String>) -> (r: String)
    ensures
        r@ == announced_name_spec(opt_view(*public_name)),
{
    let mut s = match public_name {
        Some(n) => chars_of(n.as_str()),
        None => chars_of("kwaainet-node"),
    };
    push_lit(&mut s, "/v0.4.0");
    string_of(&s)
}

/// The bootstrap peers a node uses: the configured ones, or the network's
/// defaults when none are configured.
pub fn bootstrap_peers_for(initial_peers: &Vec<String>, defaults: &Vec<String>) -> (r: Vec<String>)
    ensures
        strings_view(r@) == if initial_peers@.len() == 0 {
            strings_view(defaults@)
        } else {
            strings_view(initial_peers@)
        },
{
    let src = if initial_peers.len() == 0 { defaults } else { initial_peers };
    let mut r: Vec<String> = Vec::new();
    let mut i: usize = 0;
    while i < src.len()
        invariant
            i <= src.len(),
            strings_view(r@) == strings_view(src@).take(i as int),
        decreases src.len() - i,
    {
        let ghost before = r@;
        r.push(src[i].clone());
        assert(strings_view(r@) =~= strings_view(before).push(src@[i as int]@));
        i = i + 1;
        assert(strings_view(r@) =~= strings_view(src@).take(i as int));
    }
    assert(strings_view(src@).take(src@.len() as int) =~= strings_view(src@));
    r
}

/// `/ip4/{ip}/tcp/{port}`.
pub open spec fn tcp_multiaddr_spec(ip: Seq<char>, port: nat) -> Seq<char> {
    "/ip4/"@ + ip + "/tcp/"@ + dec_spec(port)
}

/// The multiaddr p2pd listens on for P2P traffic: every IPv4 interface at
/// the configured port.
pub fn host_addr(port: u16) -> (r: String)
    ensures
        r@ == tcp_multiaddr_spec("0.0.0.0"@, port as nat),
{
    let mut s = chars_of("/ip4/");
    push_lit(&mut s, "0.0.0.0");
    push_lit(&mut s, "/tcp/");
    push_dec(&mut s, port as u64);
    string_of(&s)
}

/// The multiaddr announced for a configured public IP.
pub fn announce_addr(public_ip: &Option<String>, port: u16) -> (r: Option<String>)
    ensures
        match public_ip {
            Some(ip) => r matches Some(a) && a@ == tcp_multiaddr_spec(ip@, port as nat),
            None => r is None,
        },
{
    match public_ip {
        Some(ip) => {
            let mut s = chars_of("/ip4/");
            let t = chars_of(ip.as_str());
            push_all(&mut s, &t);
            push_lit(&mut s, "/tcp/");
            push_dec(&mut s, port as u64);
            Some(string_of(&s))
        },
        None => None,
    }
}

/// Whether the node goes through relays: only without a public IP (behind
/// NAT) and with relaying allowed.
pub fn using_relay(public_ip: &Option<String>, no_relay: bool) -> (r: bool)
    ensures
        r == (public_ip is None && !no_relay),
{
    public_ip.is_none() && !no_relay
}

/// The model repository announced in the model registry: the one from the
/// network map, else the model's HuggingFace page (under `meta-llama/` for
/// a name without an owner).
pub open spec fn repository_spec(model: Seq<char>, map_repository: Option<Seq<char>>) -> Seq<char> {
    match map_repository {
        Some(r) => r,
        None => if model.contains('/') {
            "https://huggingface.co/"@ + model
        } else {
            "https://huggingface.co/meta-llama/"@ + model
        },
    }
}

/// The DHT prefix a node announces under: the one from the network map,
/// else the model name with `.` and `/` written as `-`.
pub open spec fn announce_prefix_spec(model: Seq<char>, map_prefix: Option<Seq<char>>) -> Seq<char> {
    match map_prefix {
        Some(p) => p,
        None => replace_char_spec(replace_char_spec(model, '.', '-'), '/', '-'),
    }
}

impl KwaaiNetConfig {
    /// The model repository this node announces.
    pub fn announce_repository(&self) -> (r: String)
        ensures
            r@ == repository_spec(self.model@, opt_view(self.model_repository)),
    {
        match &self.model_repository {
            Some(r) => r.clone(),
            None => {
                let m = chars_of(self.model.as_str());
                let mut has_slash = false;
                let mut i: usize = 0;
                while i < m.len()
                    invariant
                        i <= m.len(),
                        m@ == self.model@,
                        has_slash == exists|k: int| 0 <= k < i && m@[k] == '/',
                    decreases m.len() - i,
                {
                    if m[i] == '/' {
                        has_slash = true;
                    }
                    i = i + 1;
                }
                let mut s = if has_slash {
                    chars_of("https://huggingface.co/")
                } else {
                    chars_of("https://huggingface.co/meta-llama/")
                };
                push_all(&mut s, &m);
                string_of(&s)
            },
        }
    }

    /// The DHT prefix this node announces its blocks under.
    pub fn announce_prefix(&self) -> (r: String)
        ensures
            r@ == announce_prefix_spec(self.model@, opt_view(self.model_dht_prefix)),
    {
        match &self.model_dht_prefix {
            Some(p) => p.clone(),
            None => dht_prefix_fallback(self.model.as_str()),
        }
    }

    /// The block range announced: `[start_block, start_block + blocks)` as
    /// 32-bit signed integers.
    pub fn announced_range(&self) -> (r: (i32, i32))
        requires
            self.start_block + self.blocks <= u32::MAX,
        ensures
            r.0 == self.start_block as i32,
            r.1 == (self.start_block + self.blocks) as i32,
    {
        let end: u32 = self.start_block + self.blocks;
        #[verifier::truncate]
        let a = self.start_block as i32;
        #[verifier::truncate]
        let b = end as i32;
        (a, b)
    }

    /// The p2p daemon this node starts: DHT on, relay service unless
    /// `no_relay`, auto-relay, AutoNAT and port mapping on, listening on the
    /// configured port, announcing the public IP when one is configured,
    /// with the given bootstrap peers, identity key and (when found) binary.
    pub fn node_daemon_builder(
        &self,
        bootstrap_peers: Vec<String>,
        identity_key_path: String,
        p2pd_path: Option<String>,
    ) -> (r: DaemonBuilder)
        ensures
            r@ == (DaemonSettings {
                binary_path: opt_view(p2pd_path),
                dht: true,
                relay: !self.no_relay,
                auto_relay: true,
                auto_nat: true,
                nat_portmap: true,
                host_addrs: seq![tcp_multiaddr_spec("0.0.0.0"@, self.port as nat)],
                bootstrap_peers: strings_view(bootstrap_peers@),
                identity_key_path: Some(identity_key_path@),
                announce_addrs: match self.public_ip {
                    Some(ip) => seq![tcp_multiaddr_spec(ip@, self.port as nat)],
                    None => Seq::empty(),
                },
                ..default_settings()
            }),
    {
        let mut hosts: Vec<String> = Vec::new();
        hosts.push(host_addr(self.port));
        let b = DaemonBuilder::new().dht(true).relay(!self.no_relay).auto_relay(true).auto_nat(
            true,
        ).nat_portmap(true).host_addrs(hosts).bootstrap_peers(bootstrap_peers).with_identity_key(
            identity_key_path,
        );
        assert(Seq::<Seq<char>>::empty() + strings_view(bootstrap_peers@) =~= strings_view(
            bootstrap_peers@,
        ));
        let b = match announce_addr(&self.public_ip, self.port) {
            Some(a) => {
                let mut v: Vec<String> = Vec::new();
                v.push(a);
                b.announce_addrs(v)
            },
            None => b,
        };
        let r = match p2pd_path {
            Some(p) => b.with_binary_path(p),
            None => b,
        };
        assert(r@.host_addrs =~= seq![tcp_multiaddr_spec("0.0.0.0"@, self.port as nat)]);
        assert(r@.announce_addrs =~= match self.public_ip {
            Some(ip) => seq![tcp_multiaddr_spec(ip@, self.port as nat)],
            None => Seq::<Seq<char>>::empty(),
        });
        r
    }

    /// The VPK service port: the configured one, else 7432.
    pub fn vpk_port(&self) -> (r: u16)
        ensures
            r == match self.vpk_local_port {
                Some(p) => p,
                None => 7432,
            },
    {
        match self.vpk_local_port {
            Some(p) => p,
            None => 7432,
        }
    }
}

/// The first of `probe` that holds, as an offset.
pub open spec fn first_free(probe: Seq<bool>, k: int) -> Option<int>
    decreases probe.len() - k,
{
    if k < 0 || k >= probe.len() {
        None
    } else if probe[k] {
        Some(k)
    } else {
        first_free(probe, k + 1)
    }
}

/// The port the node listens on: `preferred` when it is free, else the
/// first free one of the next hundred; `probe[k]` tells whether
/// `preferred + k` is free.  `None` when all of them are taken.
pub fn find_free_port(preferred: u16, probe: &Vec<bool>) -> (r: Option<u16>)
    requires
        preferred + 100 <= u16::MAX,
        probe@.len() == 101,
    ensures
        match first_free(probe@, 0) {
            Some(k) => r == Some((preferred + k) as u16),
            None => r is None,
        },
{
    let mut k: usize = 0;
    while k < 101
        invariant
            k <= 101,
            probe@.len() == 101,
            preferred + 100 <= u16::MAX,
            first_free(probe@, 0) == first_free(probe@, k as int),
        decreases 101 - k,
    {
        if probe[k] {
            return Some(preferred + k as u16);
        }
        k = k + 1;
    }
    None
}

} // verus!
