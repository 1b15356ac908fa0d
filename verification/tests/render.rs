use rust_wg::artifacts::{addr_list, render_peer_conf, render_server_conf, PeerArtifact};
use rust_wg::config::ConfigFile;
use rust_wg::errors::Error;

fn test_config() -> ConfigFile {
    let mut cfg = ConfigFile::default();
    cfg.server.external_address = Some("vpn.example.com".to_string());
    cfg
}

#[test]
fn address_lists_render_both_families() {
    assert_eq!(addr_list(0x0A420001, None), "10.66.0.1/32");
    let v6 = (0xfd00u128 << 112) | 1;
    assert_eq!(addr_list(0x0A420001, Some(v6)), "10.66.0.1/32, fd00:0:0:0:0:0:0:1/128");
}

#[test]
fn server_conf_renders_interface_and_peers() {
    let peers = vec![PeerArtifact {
        public_key: "PK\n".to_string(),
        preshared_key: "PSK\n".to_string(),
        ip: 0x0A420002,
        ip6: None,
    }];
    let text = render_server_conf(51820, "KEY\n", 0x0A420001, None, &peers);
    assert_eq!(
        text,
        "[Interface]\nAddress = 10.66.0.1/32\nListenPort = 51820\nPrivateKey = KEY\n\n\
         [Peer]\nPublicKey = PK\nPresharedKey = PSK\nAllowedIPs = 10.66.0.2/32\n\n"
    );
}

#[test]
fn server_conf_without_peers_has_only_interface() {
    let text = render_server_conf(7, "K", 0x0A420001, None, &Vec::new());
    assert_eq!(text, "[Interface]\nAddress = 10.66.0.1/32\nListenPort = 7\nPrivateKey = K\n\n");
}

#[test]
fn peer_conf_renders_endpoint_and_allowed_ips() {
    let mut cfg = test_config();
    cfg.network.peer_dns = vec!["1.1.1.1".to_string()];
    let text = render_peer_conf(&cfg, 0x0A420002, None, "PKEY\n", "SPUB\n").unwrap();
    assert_eq!(
        text,
        "[Interface]\nAddress = 10.66.0.2/32\nPrivateKey = PKEY\nDNS = 1.1.1.1\n\n\
         [Peer]\nPublicKey = SPUB\nEndpoint = vpn.example.com:51820\n\
         AllowedIPs = 0.0.0.0/0, ::/0\n"
    );
}

#[test]
fn peer_conf_omits_absent_dns() {
    let cfg = test_config();
    let text = render_peer_conf(&cfg, 0x0A420002, None, "P", "S").unwrap();
    assert!(!text.contains("DNS"));
}

#[test]
fn peer_conf_requires_external_address() {
    let cfg = ConfigFile::default();
    let err = render_peer_conf(&cfg, 0x0A420002, None, "P", "S").unwrap_err();
    assert!(matches!(err, Error::MissingExternalAddress));
    assert!(!err.message().is_empty());
}

#[test]
fn error_messages_name_their_subject() {
    assert_eq!(
        Error::DuplicateIdentity("phone".to_string()).message(),
        "duplicate peer name after slugging: phone"
    );
    assert_eq!(
        Error::AddressPoolExhausted("10.0.0.0/30".to_string()).message(),
        "no available addresses in subnet 10.0.0.0/30"
    );
    assert_eq!(
        Error::MissingDependency("nft".to_string()).message(),
        "nft binary not found but it is required"
    );
    assert_eq!(
        Error::InvalidConfig("junk".to_string()).message(),
        "could not parse: junk"
    );
    assert_eq!(
        Error::CommandFailed("denied".to_string()).message(),
        "command failed: denied"
    );
    assert_eq!(Error::MissingIpv6Subnet.message(), "subnet_v6 required for ipv6 NAT");
    assert!(!Error::MissingExternalAddress.message().is_empty());
    assert!(!Error::IdentityPoolExhausted.message().is_empty());
}
