use rust_wg::assets::{
    assets_missing, ensure_peer_keys, ensure_server_keys, find_dir, KeyAction, PeerFiles,
};
use rust_wg::config::{ConfigFile, EnvOverrides, Peer, apply_env_overrides};
use rust_wg::digest::{extract_state_digest, inputs_digest, inputs_changed, render_inputs_state};
use rust_wg::engine::{prepare, DiskState};

fn peer_files(dir: &str, conf: Option<&str>) -> PeerFiles {
    PeerFiles {
        dir: dir.to_string(),
        private_key: true,
        public_key: true,
        preshared_key: true,
        client_conf: conf.map(|t| t.to_string()),
    }
}

fn test_config() -> ConfigFile {
    let mut cfg = ConfigFile::default();
    cfg.server.external_address = Some("vpn.example.com".to_string());
    cfg.peers.names = Some(vec!["alpha".to_string(), "beta".to_string()]);
    cfg
}

#[test]
fn digest_is_deterministic_and_sensitive() {
    let cfg = test_config();
    let d1 = inputs_digest(&cfg);
    let d2 = inputs_digest(&cfg);
    assert_eq!(d1, d2);
    assert_eq!(d1.len(), 64);
    assert!(d1.chars().all(|c| c.is_ascii_hexdigit()));
    let mut other = test_config();
    other.server.listen_port = 4242;
    assert_ne!(inputs_digest(&other), d1);
}

#[test]
fn state_file_round_trips_its_digest() {
    let cfg = test_config();
    let text = render_inputs_state(&cfg);
    let digest = extract_state_digest(text.as_str()).unwrap();
    assert_eq!(digest, inputs_digest(&cfg));
    assert!(extract_state_digest("not a state file").is_none());
}

#[test]
fn inputs_changed_compares_digests() {
    let cfg = test_config();
    let d = inputs_digest(&cfg);
    assert!(!inputs_changed(&cfg, &Some(d.clone())));
    assert!(inputs_changed(&cfg, &None));
    assert!(inputs_changed(&cfg, &Some("0000".to_string())));
}

#[test]
fn missing_assets_are_detected() {
    let peers = vec![Peer { id: "peer-alpha".to_string() }];
    let files = vec![peer_files("peer-alpha", Some("Address = 10.66.0.2/32\n"))];
    assert!(!assets_missing(true, true, &files, &peers));
    assert!(assets_missing(false, true, &files, &peers));
    assert!(assets_missing(true, true, &Vec::new(), &peers));
    let broken = vec![peer_files("peer-alpha", None)];
    assert!(assets_missing(true, true, &broken, &peers));
}

#[test]
fn find_dir_matches_by_name() {
    let files = vec![peer_files("peer-a", None), peer_files("peer-b", Some("x"))];
    assert_eq!(find_dir(&files, "peer-b").unwrap().client_conf.as_deref(), Some("x"));
    assert!(find_dir(&files, "peer-c").is_none());
}

#[test]
fn key_plans_follow_file_presence() {
    assert_eq!(ensure_server_keys(true, true), KeyAction::Reuse);
    assert_eq!(ensure_server_keys(true, false), KeyAction::Generate);
    assert_eq!(ensure_server_keys(false, false), KeyAction::Generate);
    let plan = ensure_peer_keys(true, false, false);
    assert_eq!(plan.private, KeyAction::Reuse);
    assert_eq!(plan.public, KeyAction::Generate);
    assert_eq!(plan.preshared, KeyAction::Generate);
}

#[test]
fn fresh_disk_triggers_regeneration() {
    let cfg = test_config();
    let disk = DiskState {
        server_key: false,
        server_pub: false,
        peer_files: Vec::new(),
        state_text: None,
    };
    let p = prepare(&cfg, &disk).unwrap();
    assert_eq!(p.resolved.peers.len(), 2);
    assert_eq!(p.resolved.peers[0].id, "peer-alpha");
    let plan = p.regen.expect("fresh disk must regenerate");
    assert_eq!(plan.server_v4, 0x0A420001);
    assert_eq!(plan.peer_v4, vec![0x0A420002, 0x0A420003]);
    assert!(plan.server_v6.is_none());
    assert_eq!(plan.digest, inputs_digest(&cfg));
}

#[test]
fn converged_disk_regenerates_nothing() {
    let cfg = test_config();
    let disk = DiskState {
        server_key: true,
        server_pub: true,
        peer_files: vec![
            peer_files("peer-alpha", Some("Address = 10.66.0.2/32\n")),
            peer_files("peer-beta", Some("Address = 10.66.0.3/32\n")),
        ],
        state_text: Some(render_inputs_state(&cfg)),
    };
    let p = prepare(&cfg, &disk).unwrap();
    assert!(p.regen.is_none());
}

#[test]
fn deleted_client_conf_forces_regeneration() {
    let cfg = test_config();
    let disk = DiskState {
        server_key: true,
        server_pub: true,
        peer_files: vec![
            peer_files("peer-alpha", Some("Address = 10.66.0.2/32\n")),
            peer_files("peer-beta", None),
        ],
        state_text: Some(render_inputs_state(&cfg)),
    };
    let p = prepare(&cfg, &disk).unwrap();
    let plan = p.regen.expect("a missing client.conf must force regeneration");
    assert_eq!(plan.peer_v4, vec![0x0A420002, 0x0A420003]);
}

#[test]
fn converged_count_mode_regenerates_nothing() {
    let mut cfg = test_config();
    cfg.peers.names = None;
    cfg.peers.count = Some(2);
    let disk = DiskState {
        server_key: true,
        server_pub: true,
        peer_files: vec![
            peer_files("peer-a", Some("Address = 10.66.0.2/32\n")),
            peer_files("peer-b", Some("Address = 10.66.0.3/32\n")),
        ],
        state_text: Some(render_inputs_state(&cfg)),
    };
    let p = prepare(&cfg, &disk).unwrap();
    assert!(p.regen.is_none());
    assert_eq!(p.resolved.peers[0].id, "peer-a");
    assert_eq!(p.resolved.peers[1].id, "peer-b");
}

#[test]
fn unreadable_state_file_regenerates_instead_of_failing() {
    let cfg = test_config();
    let disk = DiskState {
        server_key: true,
        server_pub: true,
        peer_files: vec![
            peer_files("peer-alpha", Some("Address = 10.66.0.2/32\n")),
            peer_files("peer-beta", Some("Address = 10.66.0.3/32\n")),
        ],
        state_text: Some("not a state file".to_string()),
    };
    let p = prepare(&cfg, &disk).unwrap();
    assert!(p.regen.is_some(), "an unreadable digest counts as no digest");
}

#[test]
fn appended_peer_keeps_existing_addresses() {
    let mut cfg = test_config();
    cfg.peers.names =
        Some(vec!["alpha".to_string(), "beta".to_string(), "gamma".to_string()]);
    let disk = DiskState {
        server_key: true,
        server_pub: true,
        peer_files: vec![
            peer_files("peer-alpha", Some("Address = 10.66.0.2/32\n")),
            peer_files("peer-beta", Some("Address = 10.66.0.3/32\n")),
        ],
        state_text: None,
    };
    let p = prepare(&cfg, &disk).unwrap();
    let plan = p.regen.expect("digest changed, regeneration must run");
    assert_eq!(plan.peer_v4, vec![0x0A420002, 0x0A420003, 0x0A420004]);
}

#[test]
fn dual_stack_plans_both_families() {
    let mut cfg = test_config();
    cfg.network.subnet_v6 = Some("fd00::/64".to_string());
    let disk = DiskState {
        server_key: false,
        server_pub: false,
        peer_files: Vec::new(),
        state_text: None,
    };
    let plan = prepare(&cfg, &disk).unwrap().regen.unwrap();
    let net = 0xfd00u128 << 112;
    assert_eq!(plan.server_v6, Some(net));
    assert_eq!(plan.peer_v6, vec![Some(net + 1), Some(net + 2)]);
}

#[test]
fn env_overrides_apply_field_by_field() {
    let mut cfg = ConfigFile::default();
    let env = EnvOverrides {
        listen_port: Some("4242".to_string()),
        external_address: Some("host.example".to_string()),
        subnet_v4: Some("192.168.9.0/24".to_string()),
        subnet_v6: None,
        allowed_ips: Some("10.0.0.5/32".to_string()),
        peer_dns: Some("1.1.1.1, 9.9.9.9".to_string()),
        peer_count: Some("3".to_string()),
        peer_names: Some("a, b".to_string()),
        enable_coredns: Some("no".to_string()),
        emit_qr: Some("bogus".to_string()),
    };
    apply_env_overrides(&mut cfg, &env);
    assert_eq!(cfg.server.listen_port, 4242);
    assert_eq!(cfg.server.external_address.as_deref(), Some("host.example"));
    assert_eq!(cfg.network.subnet_v4, "192.168.9.0/24");
    assert_eq!(cfg.network.allowed_ips, vec!["10.0.0.5/32"]);
    assert_eq!(cfg.network.peer_dns, vec!["1.1.1.1", "9.9.9.9"]);
    assert_eq!(cfg.peers.count, Some(3));
    assert_eq!(cfg.peers.names, Some(vec!["a".to_string(), "b".to_string()]));
    assert!(!cfg.runtime.enable_coredns);
    assert!(cfg.runtime.emit_qr, "an unparsable override leaves the default");
}

#[test]
fn bad_port_override_is_ignored() {
    let mut cfg = ConfigFile::default();
    let env = EnvOverrides { listen_port: Some("99999".to_string()), ..Default::default() };
    apply_env_overrides(&mut cfg, &env);
    assert_eq!(cfg.server.listen_port, 51820);
}
