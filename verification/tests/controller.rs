use rust_wg::config::ConfigFile;
use rust_wg::errors::Error;
use rust_wg::iface::{
    classify_module_check, configure_peers, ignore_exists, ignore_notfound, link_lookup_missing,
    peer_allowed_ips, route_targets, server_addresses, wg_iface_name, wg_remove_peer_args,
    wg_reset_args, ModuleCheckVerdict, RouteTarget, WgPeerInput,
};
use rust_wg::nft::{
    apply_forward_v4, apply_forward_v6, apply_nat_v4, apply_nat_v6, nat_gate, nat_required,
    needs_nat_tool, nft_delete_outcome, parse_dev_from_route, teardown, NftHandles,
};
use rust_wg::addr::{parse_subnet_v4, parse_subnet_v6};

#[test]
fn benign_kernel_codes_become_success() {
    assert_eq!(ignore_exists(Err(-17)), Ok(()));
    assert_eq!(ignore_exists(Err(-2)), Err(-2));
    assert_eq!(ignore_exists(Ok(())), Ok(()));
    assert_eq!(ignore_notfound(Err(-2)), Ok(()));
    assert_eq!(ignore_notfound(Err(-17)), Err(-17));
    assert!(link_lookup_missing(-19));
    assert!(link_lookup_missing(-2));
    assert!(!link_lookup_missing(-1));
}

#[test]
fn module_check_classifies_codes() {
    assert_eq!(classify_module_check(Some(-1)), ModuleCheckVerdict::MissingPrivileges);
    assert_eq!(classify_module_check(Some(-95)), ModuleCheckVerdict::ModuleUnavailable);
    assert_eq!(classify_module_check(Some(-19)), ModuleCheckVerdict::ModuleUnavailable);
    assert_eq!(classify_module_check(Some(-5)), ModuleCheckVerdict::Other);
    assert_eq!(classify_module_check(None), ModuleCheckVerdict::Other);
}

#[test]
fn configure_peers_builds_wg_commands() {
    let peers = vec![
        WgPeerInput {
            public_key: "PK1\n".to_string(),
            preshared_path: "/var/lib/wg/peers/peer-a/preshared.key".to_string(),
            conf_text: Some("Address = 10.66.0.2/32, fd00:0:0:0:0:0:0:2/128\n".to_string()),
        },
        WgPeerInput {
            public_key: "PK2".to_string(),
            preshared_path: "p".to_string(),
            conf_text: None,
        },
    ];
    let cmds = configure_peers(51820, "/var/lib/wg/keys/server.key", &peers);
    assert_eq!(cmds.len(), 2, "the unconfigured peer is skipped");
    assert_eq!(
        cmds[0],
        vec!["set", "wg0", "listen-port", "51820", "private-key", "/var/lib/wg/keys/server.key"]
    );
    assert_eq!(
        cmds[1],
        vec![
            "set",
            "wg0",
            "peer",
            "PK1",
            "preshared-key",
            "/var/lib/wg/peers/peer-a/preshared.key",
            "allowed-ips",
            "10.66.0.2/32,fd00:0:0:0:0:0:0:2/128"
        ]
    );
}

#[test]
fn cleanup_commands_have_fixed_shape() {
    assert_eq!(wg_remove_peer_args("PK\n"), vec!["set", "wg0", "peer", "PK", "remove"]);
    assert_eq!(wg_reset_args(), vec!["set", "wg0", "listen-port", "0"]);
    assert_eq!(wg_iface_name(), "wg0");
}

#[test]
fn allowed_ips_come_from_the_conf_text() {
    let items = peer_allowed_ips(&Some("Address = 10.66.0.2/32\n".to_string()));
    assert_eq!(items, vec!["10.66.0.2/32"]);
    assert!(peer_allowed_ips(&None).is_empty());
}

#[test]
fn route_targets_follow_allowed_items() {
    let peers = vec![WgPeerInput {
        public_key: "PK".to_string(),
        preshared_path: "p".to_string(),
        conf_text: Some("Address = 10.66.0.2/32, fd00:0:0:0:0:0:0:2/128\n".to_string()),
    }];
    let routes = route_targets(&peers).unwrap();
    assert_eq!(
        routes,
        vec![
            RouteTarget::V4(0x0A420002, 32),
            RouteTarget::V6((0xfd00u128 << 112) | 2, 128),
        ]
    );
}

#[test]
fn unparsable_allowed_item_fails_routes() {
    let peers = vec![WgPeerInput {
        public_key: "PK".to_string(),
        preshared_path: "p".to_string(),
        conf_text: Some("Address = junk\n".to_string()),
    }];
    assert!(matches!(route_targets(&peers).unwrap_err(), Error::InvalidConfig(t) if t == "junk"));
}

#[test]
fn server_addresses_take_first_hosts() {
    let mut cfg = ConfigFile::default();
    cfg.network.subnet_v6 = Some("fd00::/64".to_string());
    let (v4, v6) = server_addresses(&cfg).unwrap();
    assert_eq!(v4, 0x0A420001);
    assert_eq!(v6, Some(0xfd00u128 << 112));
    cfg.network.subnet_v4 = "garbage".to_string();
    assert!(server_addresses(&cfg).is_err());
}

#[test]
fn nat_gating_follows_default_routes() {
    let full = vec!["0.0.0.0/0".to_string(), "::/0".to_string()];
    assert_eq!(nat_required(&full), (true, true));
    let narrow = vec!["10.0.0.5/32".to_string()];
    assert_eq!(nat_required(&narrow), (false, false));
    assert!(!needs_nat_tool(&narrow));
    assert!(needs_nat_tool(&full));
    assert!(nat_gate(false, false, false, false).is_ok());
    assert!(nat_gate(true, false, true, false).is_ok());
    assert!(nat_gate(true, true, true, true).is_ok());
    let err = nat_gate(true, false, false, true).unwrap_err();
    assert!(matches!(err, Error::MissingDependency(t) if t == "nft"));
    let err = nat_gate(false, true, true, false).unwrap_err();
    assert!(matches!(err, Error::MissingIpv6Subnet));
}

#[test]
fn nat_scripts_name_device_and_subnet() {
    let s4 = parse_subnet_v4("10.66.0.0/24").unwrap();
    let (del, script) = apply_nat_v4("eth0", &s4);
    assert_eq!(del, vec!["delete", "table", "ip", "wg_nat_v4"]);
    assert_eq!(
        script,
        "add table ip wg_nat_v4\n\
         add chain ip wg_nat_v4 postrouting { type nat hook postrouting priority 100 ; }\n\
         add rule ip wg_nat_v4 postrouting oifname \"eth0\" ip saddr 10.66.0.0/24 masquerade\n"
    );
    let s6 = parse_subnet_v6("fd00::/64").unwrap();
    let (del6, script6) = apply_nat_v6("eth0", &s6);
    assert_eq!(del6, vec!["delete", "table", "ip6", "wg_nat_v6"]);
    assert!(script6.contains("ip6 saddr fd00:0:0:0:0:0:0:0/64 masquerade"));
}

#[test]
fn forward_scripts_accept_both_directions() {
    let (del, script) = apply_forward_v4();
    assert_eq!(del, vec!["delete", "table", "ip", "wg_filter_v4"]);
    assert!(script.contains("iifname \"wg0\" accept"));
    assert!(script.contains("oifname \"wg0\" accept"));
    let (_, script6) = apply_forward_v6();
    assert!(script6.contains("add table ip6 wg_filter_v6"));
}

#[test]
fn teardown_deletes_only_enabled_families() {
    let both = teardown(&NftHandles { v4: true, v6: true });
    assert_eq!(both.len(), 4);
    assert_eq!(both[0], vec!["delete", "table", "ip", "wg_nat_v4"]);
    assert_eq!(both[3], vec!["delete", "table", "ip6", "wg_filter_v6"]);
    let none = teardown(&NftHandles { v4: false, v6: false });
    assert!(none.is_empty());
}

#[test]
fn missing_table_counts_as_removed() {
    assert!(nft_delete_outcome(true, "").is_ok());
    assert!(nft_delete_outcome(false, "Error: No such file or directory; rest").is_ok());
    let err = nft_delete_outcome(false, "permission denied").unwrap_err();
    assert!(matches!(err, Error::CommandFailed(t) if t == "permission denied"));
}

#[test]
fn default_route_device_is_parsed() {
    let out = "default via 10.0.0.1 dev eth0 proto dhcp metric 100\n";
    assert_eq!(parse_dev_from_route(out).as_deref(), Some("eth0"));
    assert_eq!(parse_dev_from_route("no route here\n"), None);
    assert_eq!(parse_dev_from_route(""), None);
    let multi = "garbage line\ndefault dev wlan0\n";
    assert_eq!(parse_dev_from_route(multi).as_deref(), Some("wlan0"));
}
