//! Rendering of the generated WireGuard configuration texts: the server's
//! `server.conf` and each peer's `client.conf`. The caller writes them to
//! disk atomically.

use vstd::prelude::*;
use vstd::string::StrSliceExecFns;
use vstd::string::StringExecFns;

use crate::addr::{ipv4_to_string, ipv6_to_string, spec_ipv4_text, spec_ipv6_text};
use crate::config::ConfigFile;
use crate::errors::Error;
use crate::text::{join_strings, spec_dec, spec_join, spec_trim, trim, u64_to_string, views_of};

verus! {

/// What one peer contributes to the rendered artifacts: its keys as read or
/// generated, and its planned addresses.
#[derive(Debug, Clone)]
pub struct PeerArtifact {
    pub public_key: String,
    pub preshared_key: String,
    pub ip: u32,
    pub ip6: Option<u128>,
}

/// An address list: the IPv4 address as a host route, then the IPv6 one when
/// present.
pub open spec fn spec_addr_list(ip: u32, ip6: Option<u128>) -> Seq<char> {
    spec_ipv4_text(ip) + "/32"@ + (match ip6 {
        Some(a) => ", "@ + spec_ipv6_text(a) + "/128"@,
        None => Seq::<char>::empty(),
    })
}

/// Renders an address list, exactly as `spec_addr_list` says.
pub fn addr_list(ip: u32, ip6: Option<u128>) -> (r: String)
    ensures
        r@ == spec_addr_list(ip, ip6),
{
    let mut r = ipv4_to_string(ip);
    r.append("/32");
    match ip6 {
        Some(a) => {
            r.append(", ");
            let t = ipv6_to_string(a);
            r.append(t.as_str());
            r.append("/128");
        },
        None => {},
    }
    proof {
        assert(r@ =~= spec_addr_list(ip, ip6));
    }
    r
}

/// One `[Peer]` block of the server configuration.
pub open spec fn spec_server_peer_block(p: PeerArtifact) -> Seq<char> {
    "[Peer]\nPublicKey = "@ + spec_trim(p.public_key@) + "\nPresharedKey = "@ + spec_trim(
        p.preshared_key@,
    ) + "\nAllowedIPs = "@ + spec_addr_list(p.ip, p.ip6) + "\n\n"@
}

/// The `[Peer]` blocks of all peers, in order.
pub open spec fn spec_server_peer_blocks(peers: Seq<PeerArtifact>) -> Seq<char>
    decreases peers.len(),
{
    if peers.len() == 0 {
        Seq::<char>::empty()
    } else {
        spec_server_peer_blocks(peers.drop_last()) + spec_server_peer_block(peers.last())
    }
}

/// The whole server configuration text: its `[Interface]` block, then one
/// `[Peer]` block per peer.
pub open spec fn spec_server_conf(
    listen_port: u16,
    private_key: Seq<char>,
    server_v4: u32,
    server_v6: Option<u128>,
    peers: Seq<PeerArtifact>,
) -> Seq<char> {
    "[Interface]\nAddress = "@ + spec_addr_list(server_v4, server_v6) + "\nListenPort = "@
        + spec_dec(listen_port as nat) + "\nPrivateKey = "@ + spec_trim(private_key) + "\n\n"@
        + spec_server_peer_blocks(peers)
}

/// Renders the server configuration, exactly as `spec_server_conf` says.
pub fn render_server_conf(
    listen_port: u16,
    private_key: &str,
    server_v4: u32,
    server_v6: Option<u128>,
    peers: &Vec<PeerArtifact>,
) -> (r: String)
    ensures
        r@ == spec_server_conf(listen_port, private_key@, server_v4, server_v6, peers@),
{
    let mut r: String = "[Interface]\nAddress = ".to_owned();
    let addrs = addr_list(server_v4, server_v6);
    r.append(addrs.as_str());
    r.append("\nListenPort = ");
    let port = u64_to_string(listen_port as u64);
    r.append(port.as_str());
    r.append("\nPrivateKey = ");
    let key = trim(private_key);
    r.append(key.as_str());
    r.append("\n\n");
    proof {
        assert(r@ =~= "[Interface]\nAddress = "@ + spec_addr_list(server_v4, server_v6)
            + "\nListenPort = "@ + spec_dec(listen_port as nat) + "\nPrivateKey = "@ + spec_trim(
            private_key@,
        ) + "\n\n"@);
    }
    let ghost head = r@;
    let n: usize = peers.len();
    assert(r@ =~= head + spec_server_peer_blocks(peers@.take(0)));
    for i in 0..n
        invariant
            n == peers@.len(),
            r@ == head + spec_server_peer_blocks(peers@.take(i as int)),
    {
        let ghost r0 = r@;
        r.append("[Peer]\nPublicKey = ");
        let pk = trim(peers[i].public_key.as_str());
        r.append(pk.as_str());
        r.append("\nPresharedKey = ");
        let psk = trim(peers[i].preshared_key.as_str());
        r.append(psk.as_str());
        r.append("\nAllowedIPs = ");
        let al = addr_list(peers[i].ip, peers[i].ip6);
        r.append(al.as_str());
        r.append("\n\n");
        proof {
            assert(peers@.take(i + 1).drop_last() =~= peers@.take(i as int));
            assert(peers@.take(i + 1).last() == peers@[i as int]);
            assert(r@ =~= r0 + spec_server_peer_block(peers@[i as int]));
            assert(r@ =~= head + spec_server_peer_blocks(peers@.take(i + 1)));
        }
    }
    assert(peers@.take(n as int) =~= peers@);
    r
}

/// A peer's client configuration text: its own `[Interface]` block — address,
/// private key, the DNS list when one is configured — then the `[Peer]` block
/// pointing at the server.
pub open spec fn spec_peer_conf(
    cfg: ConfigFile,
    ip: u32,
    ip6: Option<u128>,
    private_key: Seq<char>,
    server_public: Seq<char>,
    external: Seq<char>,
) -> Seq<char> {
    "[Interface]\nAddress = "@ + spec_addr_list(ip, ip6) + "\nPrivateKey = "@ + spec_trim(
        private_key,
    ) + "\n"@ + (if views_of(cfg.network.peer_dns@).len() > 0 {
        "DNS = "@ + spec_join(views_of(cfg.network.peer_dns@), ", "@) + "\n"@
    } else {
        Seq::<char>::empty()
    }) + "\n[Peer]\nPublicKey = "@ + spec_trim(server_public) + "\nEndpoint = "@ + external
        + ":"@ + spec_dec(cfg.server.listen_port as nat) + "\nAllowedIPs = "@ + spec_join(
        views_of(cfg.network.allowed_ips@),
        ", "@,
    ) + "\n"@
}

/// Renders a peer's client configuration. Fails exactly when no external
/// address is configured, since the peer could not reach the server without
/// one.
pub fn render_peer_conf(
    cfg: &ConfigFile,
    ip: u32,
    ip6: Option<u128>,
    private_key: &str,
    server_public: &str,
) -> (r: Result<String, Error>)
    ensures
        match r {
            Ok(t) => cfg.server.external_address matches Some(ext) && t@ == spec_peer_conf(
                *cfg,
                ip,
                ip6,
                private_key@,
                server_public@,
                ext@,
            ),
            Err(e) => cfg.server.external_address is None && e is MissingExternalAddress,
        },
{
    let external = match &cfg.server.external_address {
        Some(ext) => ext,
        None => {
            return Err(Error::MissingExternalAddress);
        },
    };
    let mut r: String = "[Interface]\nAddress = ".to_owned();
    let addrs = addr_list(ip, ip6);
    r.append(addrs.as_str());
    r.append("\nPrivateKey = ");
    let key = trim(private_key);
    r.append(key.as_str());
    r.append("\n");
    if cfg.network.peer_dns.len() > 0 {
        r.append("DNS = ");
        let dns = join_strings(&cfg.network.peer_dns, ", ");
        r.append(dns.as_str());
        r.append("\n");
    }
    r.append("\n[Peer]\nPublicKey = ");
    let pk = trim(server_public);
    r.append(pk.as_str());
    r.append("\nEndpoint = ");
    r.append(external.as_str());
    r.append(":");
    let port = u64_to_string(cfg.server.listen_port as u64);
    r.append(port.as_str());
    r.append("\nAllowedIPs = ");
    let allowed = join_strings(&cfg.network.allowed_ips, ", ");
    r.append(allowed.as_str());
    r.append("\n");
    proof {
        assert(views_of(cfg.network.peer_dns@).len() == cfg.network.peer_dns@.len());
        assert(r@ =~= spec_peer_conf(*cfg, ip, ip6, private_key@, server_public@, external@));
    }
    Ok(r)
}

} // verus!
