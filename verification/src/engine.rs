//! The provisioning engine: `prepare` resolves the peer list, decides through
//! the digest-and-assets gate whether regeneration must run, and plans the
//! address assignment when it must. The caller carries out the plan — key
//! generation, rendering, atomic writes — and persists the returned state.

use vstd::prelude::*;

use crate::addr::{
    ipv6_net_of, parse_subnet_v4, parse_subnet_v6, spec_mask_net_v4, spec_parse_cidr_v4, SubnetV4,
    SubnetV6, host_range_v4, host_range_v6,
};
use crate::assets::{
    assets_missing, find_dir, lemma_find_dir_ok, lemma_find_dir_some, spec_assets_missing,
    spec_find_dir, spec_peer_ok, PeerFiles,
};
use crate::config::{
    ConfigFile, Paths, Peer, ResolvedConfig, RuntimeConfig, ServerConfig, NetworkConfig,
};
use crate::digest::{
    extract_state_digest, inputs_changed, render_inputs_state, spec_digest_of,
    spec_extract_digest, spec_state_text, lemma_state_digest_round_trip,
};
use crate::errors::Error;
use crate::ip_alloc::{
    extract_addresses, gather_assigned_v4, gather_assigned_v6, plan_v4, plan_v6, spec_gather_v4,
    spec_gather_v6, spec_item_v4, spec_item_v6, spec_plan_v4, spec_plan_v6, spec_extract_addresses,
};
use crate::peers::{
    resolve_peers, spec_count_or_zero, spec_count_resolution, spec_dir_set, spec_distinct,
    spec_dup_exists, spec_ids, spec_named_resolution, spec_names_mode, spec_peer_id_for,
    spec_reused_count,
};
use crate::text::{clone_strings, views_of};

verus! {

/// What the caller observed on disk before provisioning: whether the server
/// key files exist, one record per existing peer directory, and the state
/// file's text when it exists.
#[derive(Debug, Clone)]
pub struct DiskState {
    pub server_key: bool,
    pub server_pub: bool,
    pub peer_files: Vec<PeerFiles>,
    pub state_text: Option<String>,
}

/// The regeneration plan: the planned addresses, the new digest, and the
/// state file text to persist once the artifacts are written.
#[derive(Debug, Clone)]
pub struct RegenPlan {
    pub server_v4: u32,
    pub server_v6: Option<u128>,
    pub subnet_v4: SubnetV4,
    pub subnet_v6: Option<SubnetV6>,
    pub peer_v4: Vec<u32>,
    pub peer_v6: Vec<Option<u128>>,
    pub digest: String,
    pub state_text: String,
}

/// What `prepare` yields: the resolved configuration and, when the change
/// detector finds the artifacts stale, the plan to regenerate them.
#[derive(Debug, Clone)]
pub struct Prepared {
    pub resolved: ResolvedConfig,
    pub regen: Option<RegenPlan>,
}

/// The digest a stored state file carries, if one is stored at all.
pub open spec fn spec_stored_digest(state_text: Option<String>) -> Option<Seq<char>> {
    match state_text {
        Some(t) => spec_extract_digest(t@),
        None => None,
    }
}

/// The regeneration gate: regeneration runs if and only if the stored digest
/// is absent or differs from the configuration's, or any required asset of
/// the peers with the given identities is missing. A state file that carries
/// no readable digest counts as no stored digest, so it triggers one
/// regeneration rather than a failure: the digest is only a fast path, asset
/// presence is the ground truth.
pub open spec fn spec_regen_needed(cfg: ConfigFile, disk: DiskState, ids: Seq<Seq<char>>) -> bool {
    (match spec_stored_digest(disk.state_text) {
        Some(d) => d != spec_digest_of(cfg),
        None => true,
    }) || spec_assets_missing(disk.server_key, disk.server_pub, disk.peer_files@, ids)
}

/// The observed directory names, in observation order.
pub open spec fn spec_dirs(files: Seq<PeerFiles>) -> Seq<String> {
    Seq::new(files.len(), |i: int| files[i].dir)
}

/// The identities a row of names derives, in order.
pub open spec fn spec_named_ids(ns: Seq<String>) -> Seq<Seq<char>> {
    Seq::new(ns.len(), |i: int| spec_peer_id_for(ns[i]@, i))
}

/// A configured subnet's text does not parse.
pub open spec fn spec_subnet_parse_failed(cfg: ConfigFile) -> bool {
    spec_parse_cidr_v4(cfg.network.subnet_v4@) is None || (match cfg.network.subnet_v6 {
        Some(t) => ipv6_net_of(t@) is None,
        None => false,
    })
}

/// Both families' address plans go through for the given identities.
pub open spec fn spec_plans_ok(cfg: ConfigFile, disk: DiskState, ids: Seq<Seq<char>>) -> bool {
    let sub4 = spec_subnet_v4_of(cfg)->Some_0;
    &&& spec_plan_v4(
        sub4,
        spec_gather_v4(spec_conf_texts(disk.peer_files@)).push(sub4.host_lo() as u32),
        spec_existing_v4(disk.peer_files@, ids),
    ) is Some
    &&& (match cfg.network.subnet_v6 {
        Some(t) => spec_plan_v6(
            SubnetV6 { net: ipv6_net_of(t@)->Some_0.0, prefix: ipv6_net_of(t@)->Some_0.1 },
            spec_gather_v6(spec_conf_texts(disk.peer_files@)).push(ipv6_net_of(t@)->Some_0.0),
            spec_existing_v6(disk.peer_files@, ids),
        ) is Some,
        None => true,
    })
}

/// The masked IPv4 subnet a configuration names, if its text parses.
pub open spec fn spec_subnet_v4_of(cfg: ConfigFile) -> Option<SubnetV4> {
    match spec_parse_cidr_v4(cfg.network.subnet_v4@) {
        Some((a, p)) => Some(
            SubnetV4 { net: spec_mask_net_v4(a, p) as u32, prefix: p },
        ),
        None => None,
    }
}

/// The first IPv4 address among a list of address items.
pub open spec fn spec_first_v4(items: Seq<Seq<char>>) -> Option<u32>
    decreases items.len(),
{
    if items.len() == 0 {
        None
    } else {
        match spec_item_v4(items.first()) {
            Some(a) => Some(a),
            None => spec_first_v4(items.drop_first()),
        }
    }
}

/// The first IPv6 address among a list of address items.
pub open spec fn spec_first_v6(items: Seq<Seq<char>>) -> Option<u128>
    decreases items.len(),
{
    if items.len() == 0 {
        None
    } else {
        match spec_item_v6(items.first()) {
            Some(a) => Some(a),
            None => spec_first_v6(items.drop_first()),
        }
    }
}

/// The IPv4 address a peer's own configuration already assigns it, if any.
pub open spec fn spec_peer_existing_v4(files: Seq<PeerFiles>, id: Seq<char>) -> Option<u32> {
    match spec_find_dir(files, id) {
        Some(pf) => match pf.client_conf {
            Some(t) => spec_first_v4(spec_extract_addresses(t@)),
            None => None,
        },
        None => None,
    }
}

/// The IPv6 address a peer's own configuration already assigns it, if any.
pub open spec fn spec_peer_existing_v6(files: Seq<PeerFiles>, id: Seq<char>) -> Option<u128> {
    match spec_find_dir(files, id) {
        Some(pf) => match pf.client_conf {
            Some(t) => spec_first_v6(spec_extract_addresses(t@)),
            None => None,
        },
        None => None,
    }
}

/// The texts of every existing client configuration, in directory order.
pub open spec fn spec_conf_texts(files: Seq<PeerFiles>) -> Seq<Seq<char>>
    decreases files.len(),
{
    if files.len() == 0 {
        Seq::<Seq<char>>::empty()
    } else {
        spec_conf_texts(files.drop_last()) + (match files.last().client_conf {
            Some(t) => seq![t@],
            None => Seq::<Seq<char>>::empty(),
        })
    }
}

/// Picks the first IPv4 address out of extracted address items.
fn first_v4(items: &Vec<String>) -> (r: Option<u32>)
    ensures
        r == spec_first_v4(views_of(items@)),
{
    let ghost iv = views_of(items@);
    let n: usize = items.len();
    assert(iv.skip(0) =~= iv);
    for i in 0..n
        invariant
            n == items@.len(),
            iv == views_of(items@),
            spec_first_v4(iv) == spec_first_v4(iv.skip(i as int)),
    {
        proof {
            assert(iv.skip(i as int).first() == iv[i as int]);
            assert(iv.skip(i as int).drop_first() =~= iv.skip(i + 1));
            assert(iv[i as int] == items@[i as int]@);
        }
        let part = crate::addr::cidr_addr_part(items[i].as_str());
        match crate::addr::parse_ipv4(part.as_str()) {
            Some(a) => {
                return Some(a);
            },
            None => {},
        }
    }
    assert(iv.skip(n as int) =~= Seq::<Seq<char>>::empty());
    None
}

/// Picks the first IPv6 address out of extracted address items.
fn first_v6(items: &Vec<String>) -> (r: Option<u128>)
    ensures
        r == spec_first_v6(views_of(items@)),
{
    let ghost iv = views_of(items@);
    let n: usize = items.len();
    assert(iv.skip(0) =~= iv);
    for i in 0..n
        invariant
            n == items@.len(),
            iv == views_of(items@),
            spec_first_v6(iv) == spec_first_v6(iv.skip(i as int)),
    {
        proof {
            assert(iv.skip(i as int).first() == iv[i as int]);
            assert(iv.skip(i as int).drop_first() =~= iv.skip(i + 1));
            assert(iv[i as int] == items@[i as int]@);
        }
        let part = crate::addr::cidr_addr_part(items[i].as_str());
        match crate::addr::parse_ipv6(part.as_str()) {
            Some(a) => {
                return Some(a);
            },
            None => {},
        }
    }
    assert(iv.skip(n as int) =~= Seq::<Seq<char>>::empty());
    None
}

/// Collects the texts of the existing client configurations.
fn conf_texts(files: &Vec<PeerFiles>) -> (r: Vec<String>)
    ensures
        views_of(r@) == spec_conf_texts(files@),
{
    let mut r: Vec<String> = Vec::new();
    let n: usize = files.len();
    assert(views_of(r@) =~= spec_conf_texts(files@.take(0)));
    for i in 0..n
        invariant
            n == files@.len(),
            views_of(r@) == spec_conf_texts(files@.take(i as int)),
    {
        let ghost r0 = r@;
        proof {
            assert(files@.take(i + 1).drop_last() =~= files@.take(i as int));
            assert(files@.take(i + 1).last() == files@[i as int]);
        }
        match &files[i].client_conf {
            Some(t) => {
                r.push(t.clone());
                assert(views_of(r@) =~= views_of(r0).push(t@));
            },
            None => {},
        }
        assert(views_of(r@) =~= spec_conf_texts(files@.take(i + 1)));
    }
    assert(files@.take(n as int) =~= files@);
    r
}

/// The directory names of the observed peer directories.
fn dirs_of(files: &Vec<PeerFiles>) -> (r: Vec<String>)
    ensures
        r@ == spec_dirs(files@),
{
    let mut r: Vec<String> = Vec::new();
    let n: usize = files.len();
    for i in 0..n
        invariant
            n == files@.len(),
            r@.len() == i,
            forall|j: int| 0 <= j < i ==> #[trigger] r@[j] == files@[j].dir,
    {
        r.push(files[i].dir.clone());
    }
    assert(r@ =~= spec_dirs(files@));
    r
}

/// Copies a server section, value for value.
fn clone_server_config(s: &ServerConfig) -> (r: ServerConfig)
    ensures
        r.listen_port == s.listen_port,
        r.external_address == s.external_address,
{
    ServerConfig {
        listen_port: s.listen_port,
        external_address: match &s.external_address {
            Some(a) => Some(a.clone()),
            None => None,
        },
    }
}

/// Copies a network section, value for value.
fn clone_network_config(s: &NetworkConfig) -> (r: NetworkConfig)
    ensures
        r.subnet_v4 == s.subnet_v4,
        r.subnet_v6 == s.subnet_v6,
        r.allowed_ips@ == s.allowed_ips@,
        r.peer_dns@ == s.peer_dns@,
{
    NetworkConfig {
        subnet_v4: s.subnet_v4.clone(),
        subnet_v6: match &s.subnet_v6 {
            Some(a) => Some(a.clone()),
            None => None,
        },
        allowed_ips: clone_strings(&s.allowed_ips),
        peer_dns: clone_strings(&s.peer_dns),
    }
}

/// The per-peer IPv4 addresses already present in the peers' own
/// configurations, in peer order.
pub open spec fn spec_existing_v4(files: Seq<PeerFiles>, ids: Seq<Seq<char>>) -> Seq<Option<u32>> {
    Seq::new(ids.len(), |i: int| spec_peer_existing_v4(files, ids[i]))
}

/// The per-peer IPv6 addresses already present in the peers' own
/// configurations, in peer order.
pub open spec fn spec_existing_v6(files: Seq<PeerFiles>, ids: Seq<Seq<char>>) -> Seq<
    Option<u128>,
> {
    Seq::new(ids.len(), |i: int| spec_peer_existing_v6(files, ids[i]))
}

/// Reads each peer's already-assigned IPv4 address out of its observation.
fn existing_v4(files: &Vec<PeerFiles>, peers: &Vec<Peer>) -> (r: Vec<Option<u32>>)
    ensures
        r@ == spec_existing_v4(files@, spec_ids(peers@)),
{
    let mut r: Vec<Option<u32>> = Vec::new();
    let n: usize = peers.len();
    for i in 0..n
        invariant
            n == peers@.len(),
            r@.len() == i,
            forall|j: int| 0 <= j < i ==> r@[j] == spec_peer_existing_v4(files@, peers@[j].id@),
    {
        let e: Option<u32> = match find_dir(files, peers[i].id.as_str()) {
            Some(pf) => match &pf.client_conf {
                Some(t) => {
                    let items = extract_addresses(t.as_str());
                    first_v4(&items)
                },
                None => None,
            },
            None => None,
        };
        r.push(e);
    }
    proof {
        assert(forall|i: int|
            0 <= i < peers@.len() ==> spec_ids(peers@)[i] == (#[trigger] peers@[i].id)@);
        assert(r@ =~= spec_existing_v4(files@, spec_ids(peers@)));
    }
    r
}

/// Reads each peer's already-assigned IPv6 address out of its observation.
fn existing_v6(files: &Vec<PeerFiles>, peers: &Vec<Peer>) -> (r: Vec<Option<u128>>)
    ensures
        r@ == spec_existing_v6(files@, spec_ids(peers@)),
{
    let mut r: Vec<Option<u128>> = Vec::new();
    let n: usize = peers.len();
    for i in 0..n
        invariant
            n == peers@.len(),
            r@.len() == i,
            forall|j: int| 0 <= j < i ==> r@[j] == spec_peer_existing_v6(files@, peers@[j].id@),
    {
        let e: Option<u128> = match find_dir(files, peers[i].id.as_str()) {
            Some(pf) => match &pf.client_conf {
                Some(t) => {
                    let items = extract_addresses(t.as_str());
                    first_v6(&items)
                },
                None => None,
            },
            None => None,
        };
        r.push(e);
    }
    proof {
        assert(forall|i: int|
            0 <= i < peers@.len() ==> spec_ids(peers@)[i] == (#[trigger] peers@[i].id)@);
        assert(r@ =~= spec_existing_v6(files@, spec_ids(peers@)));
    }
    r
}

/// Everything `prepare` promises of its result: the resolved configuration
/// carries the inputs faithfully; the regeneration plan, when one comes back,
/// is exact; each error is tied to its condition; and success is owed
/// wherever no random identity draw decides the outcome.
pub open spec fn spec_prepare_post(
    cfg: ConfigFile,
    disk: DiskState,
    r: Result<Prepared, Error>,
) -> bool {
    &&& (match r {
        Ok(p) => {
            &&& p.resolved.server.listen_port == cfg.server.listen_port
            &&& p.resolved.server.external_address == cfg.server.external_address
            &&& p.resolved.network.subnet_v4 == cfg.network.subnet_v4
            &&& p.resolved.network.subnet_v6 == cfg.network.subnet_v6
            &&& p.resolved.network.allowed_ips@ == cfg.network.allowed_ips@
            &&& p.resolved.network.peer_dns@ == cfg.network.peer_dns@
            &&& p.resolved.runtime.enable_coredns == cfg.runtime.enable_coredns
            &&& p.resolved.paths.root@ == "/var/lib/wg"@
            &&& p.resolved.paths.keys@ == "/var/lib/wg/keys"@
            &&& p.resolved.paths.peers@ == "/var/lib/wg/peers"@
            &&& p.resolved.paths.server@ == "/var/lib/wg/server"@
            &&& p.resolved.paths.state@ == "/var/lib/wg/state"@
            &&& spec_distinct(spec_ids(p.resolved.peers@))
            &&& (if spec_names_mode(cfg.peers) {
                spec_named_resolution(p.resolved.peers@, cfg.peers.names->Some_0@)
            } else {
                spec_count_resolution(
                    p.resolved.peers@,
                    spec_count_or_zero(cfg.peers.count),
                    spec_dirs(disk.peer_files@),
                )
            })
            &&& (p.regen is Some <==> spec_regen_needed(cfg, disk, spec_ids(p.resolved.peers@)))
            &&& (match p.regen {
                Some(plan) => {
                    &&& spec_subnet_v4_of(cfg) == Some(plan.subnet_v4)
                    &&& plan.subnet_v4.wf()
                    &&& plan.server_v4 as int == plan.subnet_v4.host_lo()
                    &&& spec_plan_v4(
                        plan.subnet_v4,
                        spec_gather_v4(spec_conf_texts(disk.peer_files@)).push(plan.server_v4),
                        spec_existing_v4(disk.peer_files@, spec_ids(p.resolved.peers@)),
                    ) == Some(plan.peer_v4@)
                    &&& (cfg.network.subnet_v6 is Some <==> plan.subnet_v6 is Some)
                    &&& (match plan.subnet_v6 {
                        Some(sub6) => {
                            &&& ipv6_net_of(cfg.network.subnet_v6->Some_0@) == Some(
                                (sub6.net, sub6.prefix),
                            )
                            &&& sub6.wf()
                            &&& plan.server_v6 == Some(sub6.net as u128)
                            &&& spec_plan_v6(
                                sub6,
                                spec_gather_v6(spec_conf_texts(disk.peer_files@)).push(sub6.net),
                                spec_existing_v6(disk.peer_files@, spec_ids(p.resolved.peers@)),
                            ) == Some(plan.peer_v6@.map_values(|o: Option<u128>| o.unwrap()))
                            &&& forall|i: int|
                                0 <= i < plan.peer_v6@.len() ==> (#[trigger] plan.peer_v6@[i])
                                    is Some
                        },
                        None => plan.server_v6 is None && (forall|i: int|
                            0 <= i < plan.peer_v6@.len() ==> (#[trigger] plan.peer_v6@[i])
                                is None),
                    })
                    &&& plan.peer_v4@.len() == p.resolved.peers@.len()
                    &&& plan.peer_v6@.len() == p.resolved.peers@.len()
                    &&& plan.digest@ == spec_digest_of(cfg)
                    &&& plan.state_text@ == spec_state_text(spec_digest_of(cfg), cfg)
                },
                None => true,
            })
        },
        Err(e) => match e {
            Error::DuplicateIdentity(nm) => spec_names_mode(cfg.peers) && spec_dup_exists(
                cfg.peers.names->Some_0@,
            ) && (exists|j: int|
                0 <= j < cfg.peers.names->Some_0@.len() && nm@ == (
                #[trigger] cfg.peers.names->Some_0@[j])@),
            Error::IdentityPoolExhausted => !spec_names_mode(cfg.peers) && spec_count_or_zero(
                cfg.peers.count,
            ) > spec_dir_set(spec_dirs(disk.peer_files@)).len(),
            Error::InvalidConfig(_) => spec_subnet_parse_failed(cfg),
            Error::AddressPoolExhausted(_) => !spec_subnet_parse_failed(cfg),
            _ => false,
        },
    })
    &&& ((spec_names_mode(cfg.peers) && spec_dup_exists(cfg.peers.names->Some_0@)) <==> (r
        matches Err(e) && e is DuplicateIdentity))
    &&& ((spec_names_mode(cfg.peers) && !spec_dup_exists(cfg.peers.names->Some_0@)) ==> ({
        let ids = spec_named_ids(cfg.peers.names->Some_0@);
        let needed = spec_regen_needed(cfg, disk, ids);
        &&& (r is Ok <==> (!needed || (!spec_subnet_parse_failed(cfg) && spec_plans_ok(
            cfg,
            disk,
            ids,
        ))))
        &&& ((needed && spec_subnet_parse_failed(cfg)) <==> (r matches Err(e) && e
            is InvalidConfig))
        &&& ((needed && !spec_subnet_parse_failed(cfg) && !spec_plans_ok(cfg, disk, ids)) <==> (r
            matches Err(e) && e is AddressPoolExhausted))
    }))
    &&& ((!spec_names_mode(cfg.peers) && spec_count_or_zero(cfg.peers.count) == 0) ==> ({
        let needed = spec_regen_needed(cfg, disk, Seq::<Seq<char>>::empty());
        &&& (r is Ok <==> !(needed && spec_subnet_parse_failed(cfg)))
        &&& ((needed && spec_subnet_parse_failed(cfg)) <==> (r matches Err(e) && e
            is InvalidConfig))
    }))
    &&& ((!spec_names_mode(cfg.peers) && spec_count_or_zero(cfg.peers.count) <= spec_dir_set(
        spec_dirs(disk.peer_files@),
    ).len() && spec_stored_digest(disk.state_text) == Some(spec_digest_of(cfg)) && disk.server_key
        && disk.server_pub && (forall|i: int|
        0 <= i < disk.peer_files@.len() ==> spec_peer_ok(#[trigger] disk.peer_files@[i]))) ==> (r
        matches Ok(p) && p.regen is None))
}

/// Resolves the configuration against the observed disk state: resolves the
/// peer list, consults the regeneration gate, and plans addresses and state
/// text when regeneration must run. `spec_prepare_post` is the whole
/// contract.
#[verifier::rlimit(100)]
pub fn prepare(cfg: &ConfigFile, disk: &DiskState) -> (r: Result<Prepared, Error>)
    requires
        (match cfg.peers.names {
            Some(names) => names@.len(),
            None => 0,
        }) < usize::MAX,
    ensures
        spec_prepare_post(*cfg, *disk, r),
{
    let ghost gdirs = spec_dirs(disk.peer_files@);
    let dirs = dirs_of(&disk.peer_files);
    let peers = match resolve_peers(&cfg.peers, &dirs) {
        Ok(ps) => ps,
        Err(e) => {
            return Err(e);
        },
    };
    let ghost ids = spec_ids(peers@);
    proof {
        if spec_names_mode(cfg.peers) {
            assert(ids =~= spec_named_ids(cfg.peers.names->Some_0@));
        } else {
            if spec_count_or_zero(cfg.peers.count) == 0 {
                assert(ids =~= Seq::<Seq<char>>::empty());
            }
        }
    }
    let stored: Option<String> = match &disk.state_text {
        Some(t) => extract_state_digest(t.as_str()),
        None => None,
    };
    let changed = inputs_changed(cfg, &stored);
    let missing = assets_missing(disk.server_key, disk.server_pub, &disk.peer_files, &peers);
    let regen_needed = changed || missing;
    proof {
        match stored {
            Some(d) => {
                assert(spec_stored_digest(disk.state_text) == Some(d@));
            },
            None => {
                assert(spec_stored_digest(disk.state_text) is None);
            },
        }
        assert(regen_needed == spec_regen_needed(*cfg, *disk, ids));
        // with enough complete directories and a matching digest, nothing is
        // stale
        if !spec_names_mode(cfg.peers) && spec_count_or_zero(cfg.peers.count) <= spec_dir_set(
            gdirs,
        ).len() && spec_stored_digest(disk.state_text) == Some(spec_digest_of(*cfg))
            && disk.server_key && disk.server_pub && (forall|i: int|
            0 <= i < disk.peer_files@.len() ==> spec_peer_ok(#[trigger] disk.peer_files@[i])) {
            broadcast use vstd::set::group_set_axioms;

            let c = spec_count_or_zero(cfg.peers.count);
            assert(spec_reused_count(c, gdirs) == c);
            assert forall|i: int| 0 <= i < ids.len() implies (match spec_find_dir(
                disk.peer_files@,
                #[trigger] ids[i],
            ) {
                Some(pf) => spec_peer_ok(pf),
                None => false,
            }) by {
                assert(ids[i] == (peers@[i].id)@);
                assert(spec_dir_set(gdirs).contains(peers@[i].id@));
                assert(views_of(gdirs).contains(ids[i]));
                let j = choose|j: int| 0 <= j < views_of(gdirs).len() && views_of(gdirs)[j]
                    == ids[i];
                assert(views_of(gdirs)[j] == gdirs[j]@);
                assert(gdirs[j] == disk.peer_files@[j].dir);
                lemma_find_dir_some(disk.peer_files@, ids[i]);
                lemma_find_dir_ok(disk.peer_files@, ids[i]);
            }
            assert(!spec_assets_missing(disk.server_key, disk.server_pub, disk.peer_files@, ids));
            assert(!regen_needed);
        }
    }
    let regen: Option<RegenPlan> = if regen_needed {
        let subnet_v4 = match parse_subnet_v4(cfg.network.subnet_v4.as_str()) {
            Ok(s) => s,
            Err(e) => {
                return Err(e);
            },
        };
        let subnet_v6: Option<SubnetV6> = match &cfg.network.subnet_v6 {
            Some(t) => match parse_subnet_v6(t.as_str()) {
                Ok(s) => Some(s),
                Err(e) => {
                    return Err(e);
                },
            },
            None => None,
        };
        proof {
            assert(!spec_subnet_parse_failed(*cfg));
            assert(spec_subnet_v4_of(*cfg) == Some(subnet_v4));
        }
        let texts = conf_texts(&disk.peer_files);
        let (lo4, _hi4) = host_range_v4(&subnet_v4);
        let server_v4: u32 = lo4;
        let mut used_v4 = gather_assigned_v4(&texts);
        used_v4.push(server_v4);
        let exist4 = existing_v4(&disk.peer_files, &peers);
        proof {
            assert(used_v4@ =~= spec_gather_v4(spec_conf_texts(disk.peer_files@)).push(
                subnet_v4.host_lo() as u32,
            ));
        }
        let peer_v4 = match plan_v4(&subnet_v4, &used_v4, &exist4) {
            Ok(v) => v,
            Err(e) => {
                proof {
                    if peers.len() == 0 {
                        assert(spec_existing_v4(disk.peer_files@, ids).len() == 0);
                        assert(spec_plan_v4(subnet_v4, used_v4@, exist4@) is Some);
                    }
                    assert(!spec_plans_ok(*cfg, *disk, ids));
                }
                return Err(e);
            },
        };
        let mut server_v6: Option<u128> = None;
        let mut peer_v6: Vec<Option<u128>> = Vec::new();
        match &subnet_v6 {
            Some(s6) => {
                let (lo6, _hi6) = host_range_v6(s6);
                server_v6 = Some(lo6);
                let mut used_v6 = gather_assigned_v6(&texts);
                used_v6.push(lo6);
                let exist6 = existing_v6(&disk.peer_files, &peers);
                proof {
                    assert(used_v6@ =~= spec_gather_v6(spec_conf_texts(disk.peer_files@)).push(
                        s6.net,
                    ));
                }
                let raw6 = match plan_v6(s6, &used_v6, &exist6) {
                    Ok(v) => v,
                    Err(e) => {
                        proof {
                            if peers.len() == 0 {
                                assert(spec_existing_v6(disk.peer_files@, ids).len() == 0);
                                assert(spec_plan_v6(*s6, used_v6@, exist6@) is Some);
                            }
                            assert(!spec_plans_ok(*cfg, *disk, ids));
                        }
                        return Err(e);
                    },
                };
                let m: usize = raw6.len();
                for i in 0..m
                    invariant
                        m == raw6@.len(),
                        peer_v6@.len() == i,
                        forall|j: int| 0 <= j < i ==> (#[trigger] peer_v6@[j]) == Some(raw6@[j]),
                {
                    peer_v6.push(Some(raw6[i]));
                }
                proof {
                    assert(peer_v6@.map_values(|o: Option<u128>| o.unwrap()) =~= raw6@);
                }
            },
            None => {
                let m: usize = peers.len();
                for i in 0..m
                    invariant
                        peer_v6@.len() == i,
                        forall|j: int| 0 <= j < i ==> (#[trigger] peer_v6@[j]) is None,
                {
                    peer_v6.push(None);
                }
            },
        }
        let digest = crate::digest::inputs_digest(cfg);
        let state_text = render_inputs_state(cfg);
        Some(
            RegenPlan {
                server_v4,
                server_v6,
                subnet_v4,
                subnet_v6,
                peer_v4,
                peer_v6,
                digest,
                state_text,
            },
        )
    } else {
        None
    };
    proof {
        if regen is Some {
            let plan = regen->Some_0;
            crate::ip_alloc::lemma_plan_v4_len(
                plan.subnet_v4,
                spec_gather_v4(spec_conf_texts(disk.peer_files@)).push(plan.server_v4),
                spec_existing_v4(disk.peer_files@, ids),
            );
            match plan.subnet_v6 {
                Some(s6) => {
                    crate::ip_alloc::lemma_plan_v6_len(
                        s6,
                        spec_gather_v6(spec_conf_texts(disk.peer_files@)).push(s6.net),
                        spec_existing_v6(disk.peer_files@, ids),
                    );
                },
                None => {},
            }
            // both plans went through, so the plans the contract speaks of
            // exist
            assert(spec_plans_ok(*cfg, *disk, ids));
        }
    }
    Ok(
        Prepared {
            resolved: ResolvedConfig {
                server: clone_server_config(&cfg.server),
                network: clone_network_config(&cfg.network),
                peers,
                runtime: RuntimeConfig { enable_coredns: cfg.runtime.enable_coredns },
                paths: Paths::defaults(),
            },
            regen,
        },
    )
}

/// Provisioning without interface changes: the same resolution and planning
/// as `prepare`, under the same whole contract.
pub fn generate(cfg: &ConfigFile, disk: &DiskState) -> (r: Result<Prepared, Error>)
    requires
        (match cfg.peers.names {
            Some(names) => names@.len(),
            None => 0,
        }) < usize::MAX,
    ensures
        spec_prepare_post(*cfg, *disk, r),
{
    prepare(cfg, disk)
}

/// Looking one peer's configuration up is not offered yet; the call is
/// accepted and does nothing.
pub fn show_peer(_peers: Vec<String>) {
}

/// Idempotent regeneration: when the stored state file was written for this
/// very configuration and every required asset is present, regeneration stays
/// off — a second run performs no writes.
pub proof fn lemma_idempotent_regeneration(cfg: ConfigFile, disk: DiskState, ids: Seq<Seq<char>>)
    requires
        disk.state_text matches Some(t) && t@ == spec_state_text(spec_digest_of(cfg), cfg),
        !spec_assets_missing(disk.server_key, disk.server_pub, disk.peer_files@, ids),
    ensures
        !spec_regen_needed(cfg, disk, ids),
{
    lemma_state_digest_round_trip(cfg);
}

/// Regeneration on drift: when any single peer's client configuration is
/// gone, regeneration must run, whatever digest is stored.
pub proof fn lemma_regen_on_drift(cfg: ConfigFile, disk: DiskState, ids: Seq<Seq<char>>, k: int)
    requires
        0 <= k < ids.len(),
        (match spec_find_dir(disk.peer_files@, ids[k]) {
            Some(pf) => pf.client_conf is None,
            None => true,
        }),
    ensures
        spec_regen_needed(cfg, disk, ids),
{
    assert(spec_assets_missing(disk.server_key, disk.server_pub, disk.peer_files@, ids)) by {
        assert(!(match spec_find_dir(disk.peer_files@, ids[k]) {
            Some(pf) => crate::assets::spec_peer_ok(pf),
            None => false,
        }));
    }
}

} // verus!
