//! Configuration data model: the file-backed sections, the environment
//! overrides applied on top of them, and the resolved form the rest of the
//! system consumes.

use vstd::prelude::*;

use crate::text::{
    ascii_lower, spec_clean_list, spec_lower, spec_parse_u64, spec_split, split_items, views_of,
};
use crate::text::parse_u64;

verus! {

/// Server section: where the concentrator listens and how peers reach it.
#[derive(Debug, Clone)]
pub struct ServerConfig {
    pub listen_port: u16,
    pub external_address: Option<String>,
}

impl Default for ServerConfig {
    /// Listens on the standard WireGuard port, with no external address.
    fn default() -> (r: Self)
        ensures
            r.listen_port == 51820,
            r.external_address is None,
    {
        ServerConfig { listen_port: 51820, external_address: None }
    }
}

/// Network section: subnets, the allowed-IP list handed to peers, and the DNS
/// servers written into peer configurations.
#[derive(Debug, Clone)]
pub struct NetworkConfig {
    pub subnet_v4: String,
    pub subnet_v6: Option<String>,
    pub allowed_ips: Vec<String>,
    pub peer_dns: Vec<String>,
}

impl Default for NetworkConfig {
    /// A private IPv4 subnet and full-tunnel allowed-IPs.
    fn default() -> (r: Self)
        ensures
            r.subnet_v4@ == "10.66.0.0/24"@,
            r.subnet_v6 is None,
            views_of(r.allowed_ips@) =~= seq!["0.0.0.0/0"@, "::/0"@],
            r.peer_dns@.len() == 0,
    {
        let mut allowed: Vec<String> = Vec::new();
        allowed.push("0.0.0.0/0".to_owned());
        allowed.push("::/0".to_owned());
        proof {
            assert(views_of(allowed@) =~= seq!["0.0.0.0/0"@, "::/0"@]);
        }
        NetworkConfig {
            subnet_v4: "10.66.0.0/24".to_owned(),
            subnet_v6: None,
            allowed_ips: allowed,
            peer_dns: Vec::new(),
        }
    }
}

/// Peers section: how many peers to resolve, or their names.
#[derive(Debug, Clone)]
pub struct PeersConfig {
    pub count: Option<usize>,
    pub names: Option<Vec<String>>,
}

impl Default for PeersConfig {
    /// No peers requested.
    fn default() -> (r: Self)
        ensures
            r.count is None,
            r.names is None,
    {
        PeersConfig { count: None, names: None }
    }
}

/// Runtime section as loaded from the file: optional sidecars.
#[derive(Debug, Clone)]
pub struct RuntimeConfigFile {
    pub enable_coredns: bool,
    pub emit_qr: bool,
}

impl Default for RuntimeConfigFile {
    /// Both the DNS sidecar and QR rendering are on.
    fn default() -> (r: Self)
        ensures
            r.enable_coredns,
            r.emit_qr,
    {
        RuntimeConfigFile { enable_coredns: true, emit_qr: true }
    }
}

/// The whole configuration file, one field per section.
#[derive(Debug, Clone)]
pub struct ConfigFile {
    pub server: ServerConfig,
    pub network: NetworkConfig,
    pub peers: PeersConfig,
    pub runtime: RuntimeConfigFile,
}

impl Default for ConfigFile {
    /// Every section at its own default.
    fn default() -> (r: Self)
        ensures
            r.server.listen_port == 51820,
            r.server.external_address is None,
            r.network.subnet_v4@ == "10.66.0.0/24"@,
            r.network.subnet_v6 is None,
            views_of(r.network.allowed_ips@) =~= seq!["0.0.0.0/0"@, "::/0"@],
            r.network.peer_dns@.len() == 0,
            r.peers.count is None,
            r.peers.names is None,
            r.runtime.enable_coredns,
            r.runtime.emit_qr,
    {
        ConfigFile {
            server: ServerConfig::default(),
            network: NetworkConfig::default(),
            peers: PeersConfig::default(),
            runtime: RuntimeConfigFile::default(),
        }
    }
}

/// Runtime flags kept in the resolved configuration.
#[derive(Debug, Clone)]
pub struct RuntimeConfig {
    pub enable_coredns: bool,
}

/// One peer identity; the id doubles as its on-disk directory name.
#[derive(Debug, Clone)]
pub struct Peer {
    pub id: String,
}

/// The five fixed directories under the state root.
#[derive(Debug, Clone)]
pub struct Paths {
    pub root: String,
    pub keys: String,
    pub peers: String,
    pub server: String,
    pub state: String,
}

impl Paths {
    /// The fixed layout under `/var/lib/wg`.
    pub fn defaults() -> (r: Paths)
        ensures
            r.root@ == "/var/lib/wg"@,
            r.keys@ == "/var/lib/wg/keys"@,
            r.peers@ == "/var/lib/wg/peers"@,
            r.server@ == "/var/lib/wg/server"@,
            r.state@ == "/var/lib/wg/state"@,
    {
        Paths {
            root: "/var/lib/wg".to_owned(),
            keys: "/var/lib/wg/keys".to_owned(),
            peers: "/var/lib/wg/peers".to_owned(),
            server: "/var/lib/wg/server".to_owned(),
            state: "/var/lib/wg/state".to_owned(),
        }
    }
}

/// The value provisioning produces and the interface controller consumes.
#[derive(Debug, Clone)]
pub struct ResolvedConfig {
    pub server: ServerConfig,
    pub network: NetworkConfig,
    pub peers: Vec<Peer>,
    pub runtime: RuntimeConfig,
    pub paths: Paths,
}

/// The raw values of the recognized environment variables, read by the caller
/// and applied here; `None` stands for an unset or empty variable.
#[derive(Debug, Clone, Default)]
pub struct EnvOverrides {
    pub listen_port: Option<String>,
    pub external_address: Option<String>,
    pub subnet_v4: Option<String>,
    pub subnet_v6: Option<String>,
    pub allowed_ips: Option<String>,
    pub peer_dns: Option<String>,
    pub peer_count: Option<String>,
    pub peer_names: Option<String>,
    pub enable_coredns: Option<String>,
    pub emit_qr: Option<String>,
}

/// What parsing a port override yields: a decimal number that fits a `u16`.
pub open spec fn spec_env_u16(s: Seq<char>) -> Option<u16> {
    match spec_parse_u64(s) {
        Some(v) => if v <= u16::MAX {
            Some(v as u16)
        } else {
            None
        },
        None => None,
    }
}

/// Parses a port-sized override value.
pub fn env_u16(val: &str) -> (r: Option<u16>)
    ensures
        r == spec_env_u16(val@),
{
    match parse_u64(val) {
        Some(v) => if v <= 0xffff {
            Some(v as u16)
        } else {
            None
        },
        None => None,
    }
}

/// What parsing a count override yields: a decimal number that fits a `usize`.
pub open spec fn spec_env_usize(s: Seq<char>) -> Option<usize> {
    match spec_parse_u64(s) {
        Some(v) => if v <= usize::MAX {
            Some(v as usize)
        } else {
            None
        },
        None => None,
    }
}

/// Parses a count override value.
pub fn env_usize(val: &str) -> (r: Option<usize>)
    ensures
        r == spec_env_usize(val@),
{
    match parse_u64(val) {
        Some(v) => if v <= usize::MAX as u64 {
            Some(v as usize)
        } else {
            None
        },
        None => None,
    }
}

/// What a list override holds: the comma-separated items, trimmed, empty ones
/// dropped.
pub open spec fn spec_env_list(s: Seq<char>) -> Seq<Seq<char>> {
    spec_clean_list(spec_split(s, ','))
}

/// Parses a list override value.
pub fn env_list(val: &str) -> (r: Vec<String>)
    ensures
        views_of(r@) == spec_env_list(val@),
{
    split_items(val, ',')
}

/// What a boolean override means: `true`/`1`/`yes` and `false`/`0`/`no`,
/// case-insensitively; anything else is no override.
pub open spec fn spec_env_bool(s: Seq<char>) -> Option<bool> {
    let low = spec_lower(s);
    if low == "true"@ || low == "1"@ || low == "yes"@ {
        Some(true)
    } else if low == "false"@ || low == "0"@ || low == "no"@ {
        Some(false)
    } else {
        None
    }
}

/// Parses a boolean override value.
pub fn env_bool(val: &str) -> (r: Option<bool>)
    ensures
        r == spec_env_bool(val@),
{
    let low = ascii_lower(val);
    let l = low.as_str();
    if crate::text::str_eq(l, "true") || crate::text::str_eq(l, "1") || crate::text::str_eq(
        l,
        "yes",
    ) {
        Some(true)
    } else if crate::text::str_eq(l, "false") || crate::text::str_eq(l, "0") || crate::text::str_eq(
        l,
        "no",
    ) {
        Some(false)
    } else {
        None
    }
}

/// The port a set override selects, or the old value.
pub open spec fn spec_port_after(over: Option<String>, old_port: u16) -> u16 {
    match over {
        Some(v) => match spec_env_u16(v@) {
            Some(p) => p,
            None => old_port,
        },
        None => old_port,
    }
}

/// The views of an optional name list.
pub open spec fn spec_names_views(o: Option<Vec<String>>) -> Option<Seq<Seq<char>>> {
    match o {
        Some(v) => Some(views_of(v@)),
        None => None,
    }
}

/// The flag a set override selects, or the old value.
pub open spec fn spec_bool_after(over: Option<String>, old_flag: bool) -> bool {
    match over {
        Some(v) => match spec_env_bool(v@) {
            Some(b) => b,
            None => old_flag,
        },
        None => old_flag,
    }
}

/// Applies the recognized environment overrides on top of a loaded
/// configuration, field by field; an unparsable or absent value leaves the
/// field alone.
#[verifier::rlimit(60)]
pub fn apply_env_overrides(cfg: &mut ConfigFile, env: &EnvOverrides)
    ensures
        final(cfg).server.listen_port == spec_port_after(env.listen_port, old(cfg).server.listen_port),
        final(cfg).server.external_address == (match env.external_address {
            Some(v) => Some(v),
            None => old(cfg).server.external_address,
        }),
        final(cfg).network.subnet_v4 == (match env.subnet_v4 {
            Some(v) => v,
            None => old(cfg).network.subnet_v4,
        }),
        final(cfg).network.subnet_v6 == (match env.subnet_v6 {
            Some(v) => Some(v),
            None => old(cfg).network.subnet_v6,
        }),
        views_of(final(cfg).network.allowed_ips@) == (match env.allowed_ips {
            Some(v) => spec_env_list(v@),
            None => views_of(old(cfg).network.allowed_ips@),
        }),
        views_of(final(cfg).network.peer_dns@) == (match env.peer_dns {
            Some(v) => spec_env_list(v@),
            None => views_of(old(cfg).network.peer_dns@),
        }),
        final(cfg).peers.count == (match env.peer_count {
            Some(v) => match spec_env_usize(v@) {
                Some(c) => Some(c),
                None => old(cfg).peers.count,
            },
            None => old(cfg).peers.count,
        }),
        spec_names_views(final(cfg).peers.names) == (match env.peer_names {
            Some(v) => if spec_env_list(v@).len() > 0 {
                Some(spec_env_list(v@))
            } else {
                spec_names_views(old(cfg).peers.names)
            },
            None => spec_names_views(old(cfg).peers.names),
        }),
        final(cfg).runtime.enable_coredns == spec_bool_after(
            env.enable_coredns,
            old(cfg).runtime.enable_coredns,
        ),
        final(cfg).runtime.emit_qr == spec_bool_after(env.emit_qr, old(cfg).runtime.emit_qr),
{
    if let Some(v) = &env.listen_port {
        if let Some(port) = env_u16(v.as_str()) {
            cfg.server.listen_port = port;
        }
    }
    if let Some(v) = &env.external_address {
        cfg.server.external_address = Some(v.clone());
    }
    if let Some(v) = &env.subnet_v4 {
        cfg.network.subnet_v4 = v.clone();
    }
    if let Some(v) = &env.subnet_v6 {
        cfg.network.subnet_v6 = Some(v.clone());
    }
    if let Some(v) = &env.allowed_ips {
        cfg.network.allowed_ips = env_list(v.as_str());
    }
    if let Some(v) = &env.peer_dns {
        cfg.network.peer_dns = env_list(v.as_str());
    }
    if let Some(v) = &env.peer_count {
        if let Some(count) = env_usize(v.as_str()) {
            cfg.peers.count = Some(count);
        }
    }
    if let Some(v) = &env.peer_names {
        let names = env_list(v.as_str());
        if names.len() > 0 {
            cfg.peers.names = Some(names);
        }
    }
    if let Some(v) = &env.enable_coredns {
        if let Some(flag) = env_bool(v.as_str()) {
            cfg.runtime.enable_coredns = flag;
        }
    }
    if let Some(v) = &env.emit_qr {
        if let Some(flag) = env_bool(v.as_str()) {
            cfg.runtime.emit_qr = flag;
        }
    }
}

} // verus!
