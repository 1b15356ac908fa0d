//! The interface controller's decisions: which kernel operations apply and
//! teardown issue, how their outcomes are normalized so that "already exists"
//! and "already gone" count as success, and a model of the kernel's address
//! and route tables showing that a second apply changes nothing.
//!
//! The netlink calls themselves, and the `wg` tool invocations, happen
//! outside; this module hands them argument lists and takes their outcomes
//! back as plain values.

use vstd::prelude::*;
use vstd::string::StrSliceExecFns;
use vstd::string::StringExecFns;

use crate::addr::{
    parse_ipv6, parse_subnet_v4, parse_subnet_v6, spec_parse_cidr_v4, spec_parse_ipv6,
    spec_parse_prefix, ipv6_net_of, host_range_v4, host_range_v6,
};
use crate::config::ConfigFile;
use crate::errors::Error;
use crate::ip_alloc::{extract_addresses, spec_extract_addresses};
use crate::text::{
    join_strings, spec_dec, spec_join, spec_split, spec_trim, split_char, trim, u64_to_string,
    views_of,
};

verus! {

/// The kernel error code for an object that already exists.
pub const EEXIST: i32 = 17;

/// The kernel error code for an object that is not there.
pub const ENOENT: i32 = 2;

/// The kernel error code for a forbidden operation.
pub const EPERM: i32 = 1;

/// The kernel error code for an unsupported operation.
pub const EOPNOTSUPP: i32 = 95;

/// The kernel error code for a missing device.
pub const ENODEV: i32 = 19;

/// The fixed name of the managed interface.
pub fn wg_iface_name() -> (r: &'static str)
    ensures
        r@ == "wg0"@,
{
    "wg0"
}

/// The runtime handle apply passes to teardown: the kernel link's index.
#[derive(Debug, Clone, Copy, PartialEq, Eq, Structural)]
pub struct WgHandles {
    pub link_index: u32,
}

/// A kernel operation's outcome with one benign code turned into success.
pub open spec fn spec_ignore(res: Result<(), i32>, benign: i32) -> Result<(), i32> {
    match res {
        Ok(u) => Ok(u),
        Err(c) => if c == benign {
            Ok(())
        } else {
            Err(c)
        },
    }
}

/// Treats the kernel's already-exists answer as success: re-applying an
/// address or route that a prior run installed is a no-op, not an error.
pub fn ignore_exists(res: Result<(), i32>) -> (r: Result<(), i32>)
    ensures
        r == spec_ignore(res, -EEXIST as i32),
{
    match res {
        Ok(u) => Ok(u),
        Err(c) => if c == -EEXIST {
            Ok(())
        } else {
            Err(c)
        },
    }
}

/// Treats the kernel's not-found answer as success: deleting an object that a
/// prior teardown already removed is a no-op, not an error.
pub fn ignore_notfound(res: Result<(), i32>) -> (r: Result<(), i32>)
    ensures
        r == spec_ignore(res, -ENOENT as i32),
{
    match res {
        Ok(u) => Ok(u),
        Err(c) => if c == -ENOENT {
            Ok(())
        } else {
            Err(c)
        },
    }
}

/// Whether a link lookup's error code means the link simply is not there.
pub fn link_lookup_missing(code: i32) -> (r: bool)
    ensures
        r == (code == -ENODEV as i32 || code == -ENOENT as i32),
{
    code == -ENODEV || code == -ENOENT
}

/// What a failure to create the probe interface means.
#[derive(Debug, Clone, Copy, PartialEq, Eq, Structural)]
pub enum ModuleCheckVerdict {
    /// The process lacks the privilege to manage links.
    MissingPrivileges,
    /// The kernel offers no WireGuard link type.
    ModuleUnavailable,
    /// Some other failure; it propagates as it is.
    Other,
}

/// Classifies the error code of the module-support probe.
pub fn classify_module_check(code: Option<i32>) -> (r: ModuleCheckVerdict)
    ensures
        r == (match code {
            Some(c) => if c == -EPERM as i32 {
                ModuleCheckVerdict::MissingPrivileges
            } else if c == -EOPNOTSUPP as i32 || c == -ENODEV as i32 {
                ModuleCheckVerdict::ModuleUnavailable
            } else {
                ModuleCheckVerdict::Other
            },
            None => ModuleCheckVerdict::Other,
        }),
{
    match code {
        Some(c) => {
            if c == -EPERM {
                ModuleCheckVerdict::MissingPrivileges
            } else if c == -EOPNOTSUPP || c == -ENODEV {
                ModuleCheckVerdict::ModuleUnavailable
            } else {
                ModuleCheckVerdict::Other
            }
        },
        None => ModuleCheckVerdict::Other,
    }
}

/// What the interface controller needs of one peer: its public key, the path
/// of its preshared key file, and its client configuration's text when the
/// file exists.
#[derive(Debug, Clone)]
pub struct WgPeerInput {
    pub public_key: String,
    pub preshared_path: String,
    pub conf_text: Option<String>,
}

/// The allowed addresses a peer's configuration assigns it; none when the
/// configuration is not generated yet.
pub open spec fn spec_peer_allowed(conf: Option<String>) -> Seq<Seq<char>> {
    match conf {
        Some(t) => spec_extract_addresses(t@),
        None => Seq::<Seq<char>>::empty(),
    }
}

/// Reads a peer's allowed addresses out of its configuration text.
pub fn peer_allowed_ips(conf: &Option<String>) -> (r: Vec<String>)
    ensures
        views_of(r@) == spec_peer_allowed(*conf),
{
    match conf {
        Some(t) => extract_addresses(t.as_str()),
        None => {
            let r: Vec<String> = Vec::new();
            assert(views_of(r@) =~= Seq::<Seq<char>>::empty());
            r
        },
    }
}

/// The `wg set` arguments that install the listen port and the server key.
pub open spec fn spec_iface_cmd(listen_port: u16, key_path: Seq<char>) -> Seq<Seq<char>> {
    seq!["set"@, "wg0"@, "listen-port"@, spec_dec(listen_port as nat), "private-key"@, key_path]
}

/// The `wg set` arguments that install one peer.
pub open spec fn spec_peer_cmd(p: WgPeerInput) -> Seq<Seq<char>> {
    seq![
        "set"@,
        "wg0"@,
        "peer"@,
        spec_trim(p.public_key@),
        "preshared-key"@,
        p.preshared_path@,
        "allowed-ips"@,
        spec_join(spec_peer_allowed(p.conf_text), ","@),
    ]
}

/// One install command per peer that has at least one allowed address; a peer
/// whose configuration is not generated yet is skipped, not failed.
pub open spec fn spec_peer_cmds(peers: Seq<WgPeerInput>) -> Seq<Seq<Seq<char>>>
    decreases peers.len(),
{
    if peers.len() == 0 {
        Seq::<Seq<Seq<char>>>::empty()
    } else {
        spec_peer_cmds(peers.drop_last()) + (if spec_peer_allowed(peers.last().conf_text).len()
            > 0 {
            seq![spec_peer_cmd(peers.last())]
        } else {
            Seq::<Seq<Seq<char>>>::empty()
        })
    }
}

/// The views of a command list.
pub open spec fn spec_cmd_views(cmds: Seq<Vec<String>>) -> Seq<Seq<Seq<char>>> {
    cmds.map_values(|c: Vec<String>| views_of(c@))
}

/// Builds the `wg` commands that push the server's listen port and key and
/// every configured peer into the kernel device: the interface command first,
/// then one command per peer with allowed addresses, in peer order.
pub fn configure_peers(listen_port: u16, key_path: &str, peers: &Vec<WgPeerInput>) -> (r: Vec<
    Vec<String>,
>)
    ensures
        spec_cmd_views(r@) == seq![spec_iface_cmd(listen_port, key_path@)] + spec_peer_cmds(
            peers@,
        ),
{
    let mut cmds: Vec<Vec<String>> = Vec::new();
    let mut head: Vec<String> = Vec::new();
    head.push("set".to_owned());
    head.push("wg0".to_owned());
    head.push("listen-port".to_owned());
    head.push(u64_to_string(listen_port as u64));
    head.push("private-key".to_owned());
    head.push(key_path.to_owned());
    assert(views_of(head@) =~= spec_iface_cmd(listen_port, key_path@));
    cmds.push(head);
    assert(spec_cmd_views(cmds@) =~= seq![spec_iface_cmd(listen_port, key_path@)]
        + spec_peer_cmds(peers@.take(0)));
    let n: usize = peers.len();
    for i in 0..n
        invariant
            n == peers@.len(),
            spec_cmd_views(cmds@) == seq![spec_iface_cmd(listen_port, key_path@)]
                + spec_peer_cmds(peers@.take(i as int)),
    {
        let ghost cmds0 = cmds@;
        proof {
            assert(peers@.take(i + 1).drop_last() =~= peers@.take(i as int));
            assert(peers@.take(i + 1).last() == peers@[i as int]);
        }
        let allowed = peer_allowed_ips(&peers[i].conf_text);
        if allowed.len() > 0 {
            let mut cmd: Vec<String> = Vec::new();
            cmd.push("set".to_owned());
            cmd.push("wg0".to_owned());
            cmd.push("peer".to_owned());
            cmd.push(trim(peers[i].public_key.as_str()));
            cmd.push("preshared-key".to_owned());
            cmd.push(peers[i].preshared_path.clone());
            cmd.push("allowed-ips".to_owned());
            cmd.push(join_strings(&allowed, ","));
            proof {
                assert(views_of(cmd@) =~= spec_peer_cmd(peers@[i as int]));
            }
            cmds.push(cmd);
            assert(spec_cmd_views(cmds@) =~= spec_cmd_views(cmds0).push(
                spec_peer_cmd(peers@[i as int]),
            ));
        }
        assert(spec_cmd_views(cmds@) =~= seq![spec_iface_cmd(listen_port, key_path@)]
            + spec_peer_cmds(peers@.take(i + 1)));
    }
    assert(peers@.take(n as int) =~= peers@);
    cmds
}

/// The `wg set` arguments that remove one peer from the device.
pub fn wg_remove_peer_args(public_key: &str) -> (r: Vec<String>)
    ensures
        views_of(r@) =~= seq!["set"@, "wg0"@, "peer"@, spec_trim(public_key@), "remove"@],
{
    let mut cmd: Vec<String> = Vec::new();
    cmd.push("set".to_owned());
    cmd.push("wg0".to_owned());
    cmd.push("peer".to_owned());
    cmd.push(trim(public_key));
    cmd.push("remove".to_owned());
    cmd
}

/// The `wg set` arguments that reset the listen port during teardown.
pub fn wg_reset_args() -> (r: Vec<String>)
    ensures
        views_of(r@) =~= seq!["set"@, "wg0"@, "listen-port"@, "0"@],
{
    let mut cmd: Vec<String> = Vec::new();
    cmd.push("set".to_owned());
    cmd.push("wg0".to_owned());
    cmd.push("listen-port".to_owned());
    cmd.push("0".to_owned());
    cmd
}

/// A kernel route or address: a destination with its prefix length.
#[derive(Debug, Clone, Copy, PartialEq, Eq, Structural)]
pub enum RouteTarget {
    V4(u32, u8),
    V6(u128, u8),
}

/// What one allowed-address item names as a route target.
pub open spec fn spec_route_of_item(item: Seq<char>) -> Option<RouteTarget> {
    match spec_parse_cidr_v4(item) {
        Some((a, p)) => Some(RouteTarget::V4(a, p)),
        None => {
            let parts = spec_split(item, '/');
            if parts.len() == 2 {
                match (spec_parse_ipv6(parts[0]), spec_parse_prefix(parts[1], 128)) {
                    (Some(a), Some(p)) => Some(RouteTarget::V6(a, p)),
                    _ => None,
                }
            } else {
                None
            }
        },
    }
}

/// Parses one allowed-address item into a route target.
pub fn route_of_item(item: &str) -> (r: Option<RouteTarget>)
    ensures
        r == spec_route_of_item(item@),
{
    match parse_subnet_v4_raw(item) {
        Some(t) => Some(t),
        None => {
            let parts = split_char(item, '/');
            proof {
                assert(views_of(parts@).len() == parts@.len());
            }
            if parts.len() != 2 {
                return None;
            }
            assert(views_of(parts@)[0] == parts@[0]@);
            assert(views_of(parts@)[1] == parts@[1]@);
            let a = match parse_ipv6(parts[0].as_str()) {
                Some(a) => a,
                None => {
                    return None;
                },
            };
            match crate::addr::parse_prefix(parts[1].as_str(), 128) {
                Some(p) => Some(RouteTarget::V6(a, p)),
                None => None,
            }
        },
    }
}

/// Parses a v4 CIDR item without masking it: routes keep the address as
/// written.
fn parse_subnet_v4_raw(item: &str) -> (r: Option<RouteTarget>)
    ensures
        r == (match spec_parse_cidr_v4(item@) {
            Some((a, p)) => Some(RouteTarget::V4(a, p)),
            None => None,
        }),
{
    let parts = split_char(item, '/');
    proof {
        assert(views_of(parts@).len() == parts@.len());
    }
    if parts.len() != 2 {
        return None;
    }
    assert(views_of(parts@)[0] == parts@[0]@);
    assert(views_of(parts@)[1] == parts@[1]@);
    let a = match crate::addr::parse_ipv4(parts[0].as_str()) {
        Some(a) => a,
        None => {
            return None;
        },
    };
    match crate::addr::parse_prefix(parts[1].as_str(), 32) {
        Some(p) => Some(RouteTarget::V4(a, p)),
        None => None,
    }
}

/// The route targets of one peer's allowed items, or the first item that does
/// not parse.
pub open spec fn spec_routes_of_items(items: Seq<Seq<char>>) -> Option<Seq<RouteTarget>>
    decreases items.len(),
{
    if items.len() == 0 {
        Some(Seq::<RouteTarget>::empty())
    } else {
        match (spec_routes_of_items(items.drop_last()), spec_route_of_item(items.last())) {
            (Some(pre), Some(t)) => Some(pre.push(t)),
            _ => None,
        }
    }
}

/// The route targets of all peers, in peer and item order.
pub open spec fn spec_routes_of_peers(peers: Seq<WgPeerInput>) -> Option<Seq<RouteTarget>>
    decreases peers.len(),
{
    if peers.len() == 0 {
        Some(Seq::<RouteTarget>::empty())
    } else {
        match (
            spec_routes_of_peers(peers.drop_last()),
            spec_routes_of_items(spec_peer_allowed(peers.last().conf_text)),
        ) {
            (Some(pre), Some(items)) => Some(pre + items),
            _ => None,
        }
    }
}

/// Computes the kernel routes the peers' allowed addresses call for: one per
/// allowed item, in order. Fails exactly when some item does not parse, and
/// reports that item.
pub fn route_targets(peers: &Vec<WgPeerInput>) -> (r: Result<Vec<RouteTarget>, Error>)
    ensures
        match r {
            Ok(ts) => spec_routes_of_peers(peers@) == Some(ts@),
            Err(e) => spec_routes_of_peers(peers@) is None && e is InvalidConfig,
        },
{
    let mut out: Vec<RouteTarget> = Vec::new();
    let n: usize = peers.len();
    assert(out@ =~= Seq::<RouteTarget>::empty());
    for i in 0..n
        invariant
            n == peers@.len(),
            spec_routes_of_peers(peers@.take(i as int)) == Some(out@),
    {
        proof {
            assert(peers@.take(i + 1).drop_last() =~= peers@.take(i as int));
            assert(peers@.take(i + 1).last() == peers@[i as int]);
        }
        let items = peer_allowed_ips(&peers[i].conf_text);
        let ghost iv = views_of(items@);
        let m: usize = items.len();
        let mut these: Vec<RouteTarget> = Vec::new();
        assert(these@ =~= Seq::<RouteTarget>::empty());
        for j in 0..m
            invariant
                m == items@.len(),
                iv == views_of(items@),
                iv == spec_peer_allowed(peers@[i as int].conf_text),
                spec_routes_of_items(iv.take(j as int)) == Some(these@),
                i < n == peers@.len(),
        {
            proof {
                assert(iv.take(j + 1).drop_last() =~= iv.take(j as int));
                assert(iv.take(j + 1).last() == iv[j as int]);
                assert(iv[j as int] == items@[j as int]@);
            }
            match route_of_item(items[j].as_str()) {
                Some(t) => {
                    these.push(t);
                },
                None => {
                    proof {
                        lemma_routes_items_none(iv, j + 1);
                        lemma_routes_peers_none(peers@, i + 1);
                    }
                    return Err(Error::InvalidConfig(items[j].clone()));
                },
            }
        }
        assert(iv.take(m as int) =~= iv);
        let k: usize = these.len();
        let ghost out0 = out@;
        for j in 0..k
            invariant
                k == these@.len(),
                out@ == out0 + these@.take(j as int),
        {
            out.push(these[j]);
            assert(out@ =~= out0 + these@.take(j + 1));
        }
        proof {
            assert(these@.take(k as int) =~= these@);
            assert(spec_routes_of_peers(peers@.take(i + 1)) == Some(out@));
        }
    }
    assert(peers@.take(n as int) =~= peers@);
    Ok(out)
}

/// Items that fail on a prefix fail as a whole.
proof fn lemma_routes_items_none(items: Seq<Seq<char>>, m: int)
    requires
        0 <= m <= items.len(),
        spec_routes_of_items(items.take(m)) is None,
    ensures
        spec_routes_of_items(items) is None,
    decreases items.len() - m,
{
    if m < items.len() {
        assert(items.take(m + 1).drop_last() =~= items.take(m));
        lemma_routes_items_none(items, m + 1);
    } else {
        assert(items.take(m) =~= items);
    }
}

/// Peers that fail on a prefix fail as a whole.
proof fn lemma_routes_peers_none(peers: Seq<WgPeerInput>, m: int)
    requires
        0 <= m <= peers.len(),
        spec_routes_of_peers(peers.take(m)) is None,
    ensures
        spec_routes_of_peers(peers) is None,
    decreases peers.len() - m,
{
    if m < peers.len() {
        assert(peers.take(m + 1).drop_last() =~= peers.take(m));
        lemma_routes_peers_none(peers, m + 1);
    } else {
        assert(peers.take(m) =~= peers);
    }
}

/// The server's own interface addresses: the first usable host of each
/// configured subnet. Fails exactly when a subnet text does not parse.
pub fn server_addresses(cfg: &ConfigFile) -> (r: Result<(u32, Option<u128>), Error>)
    ensures
        match r {
            Ok((v4, v6)) => {
                &&& crate::engine::spec_subnet_v4_of(*cfg) matches Some(s4) && v4 as int
                    == s4.host_lo()
                &&& (v6 is Some <==> cfg.network.subnet_v6 is Some)
                &&& (match v6 {
                    Some(a) => ipv6_net_of(cfg.network.subnet_v6.unwrap()@) matches Some(n6)
                        && a == n6.0,
                    None => true,
                })
            },
            Err(e) => e is InvalidConfig && (spec_parse_cidr_v4(cfg.network.subnet_v4@) is None || (
            cfg.network.subnet_v6 matches Some(s6) && ipv6_net_of(s6@) is None)),
        },
{
    let s4 = match parse_subnet_v4(cfg.network.subnet_v4.as_str()) {
        Ok(s) => s,
        Err(e) => {
            return Err(e);
        },
    };
    let (lo4, _hi4) = host_range_v4(&s4);
    let v6: Option<u128> = match &cfg.network.subnet_v6 {
        Some(t) => match parse_subnet_v6(t.as_str()) {
            Ok(s6) => {
                let (lo6, _hi6) = host_range_v6(&s6);
                Some(lo6)
            },
            Err(e) => {
                return Err(e);
            },
        },
        None => None,
    };
    Ok((lo4, v6))
}

/// One table of kernel objects: what is installed, as a set.
pub open spec fn spec_install(k: Set<RouteTarget>, plan: Seq<RouteTarget>) -> Set<RouteTarget>
    decreases plan.len(),
{
    if plan.len() == 0 {
        k
    } else {
        spec_install(k, plan.drop_last()).insert(plan.last())
    }
}

/// Installing a plan adds exactly the plan's objects.
pub proof fn lemma_install_is_union(k: Set<RouteTarget>, plan: Seq<RouteTarget>)
    ensures
        spec_install(k, plan) == k.union(plan.to_set()),
    decreases plan.len(),
{
    broadcast use vstd::set::group_set_axioms;

    if plan.len() == 0 {
        assert(plan.to_set() =~= Set::<RouteTarget>::empty());
        assert(spec_install(k, plan) =~= k.union(plan.to_set()));
    } else {
        lemma_install_is_union(k, plan.drop_last());
        assert(plan.drop_last().to_set().insert(plan.last()) =~= plan.to_set()) by {
            assert(forall|x: RouteTarget|
                plan.to_set().contains(x) == #[trigger] plan.contains(x));
            assert(forall|x: RouteTarget|
                plan.drop_last().to_set().contains(x) == #[trigger] plan.drop_last().contains(x));
            assert forall|x: RouteTarget|
                plan.contains(x) == (plan.drop_last().contains(x) || x == plan.last()) by {
                if plan.contains(x) {
                    let i = choose|i: int| 0 <= i < plan.len() && plan[i] == x;
                    if i < plan.len() - 1 {
                        assert(plan.drop_last()[i] == x);
                    }
                }
                if plan.drop_last().contains(x) {
                    let i = choose|i: int|
                        0 <= i < plan.drop_last().len() && plan.drop_last()[i] == x;
                    assert(plan[i] == x);
                }
                if x == plan.last() {
                    assert(plan[plan.len() - 1] == x);
                }
            }
        }
        assert(spec_install(k, plan) =~= k.union(plan.to_set()));
    }
}

/// Idempotent kernel apply: installing the same plan a second time leaves the
/// kernel's address and route tables exactly as the first install left them —
/// and with the already-exists answers normalized to success, the second
/// apply does not error either.
pub proof fn lemma_reapply_same_state(k: Set<RouteTarget>, plan: Seq<RouteTarget>)
    ensures
        spec_install(spec_install(k, plan), plan) == spec_install(k, plan),
{
    lemma_install_is_union(k, plan);
    lemma_install_is_union(spec_install(k, plan), plan);
    assert(k.union(plan.to_set()).union(plan.to_set()) =~= k.union(plan.to_set()));
}

} // verus!
