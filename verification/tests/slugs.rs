use rust_wg::config::{PeersConfig, env_bool, env_list, env_u16, env_usize};
use rust_wg::errors::Error;
use rust_wg::peers::{peer_id_for, resolve_count_peers, resolve_named_peers, resolve_peers, sort_strings, str_le};
use rust_wg::slug::slugify;

#[test]
fn slug_of_mixed_name() {
    assert_eq!(slugify("My Phone!"), "my-phone");
}

#[test]
fn slug_of_blank_name_is_empty() {
    assert_eq!(slugify("   "), "");
}

#[test]
fn slug_collapses_runs_and_lowercases() {
    assert_eq!(slugify("A--B__C  9"), "a-b-c-9");
    assert_eq!(slugify("--x--"), "x");
    assert_eq!(slugify(""), "");
}

#[test]
fn peer_id_falls_back_when_slug_empty() {
    assert_eq!(peer_id_for("   ", 0), "peer-unnamed-1");
    assert_eq!(peer_id_for("Phone", 4), "peer-phone");
}

#[test]
fn named_peers_resolve_in_order() {
    let names = vec!["My Phone!".to_string(), "Laptop".to_string()];
    let peers = resolve_named_peers(&names).unwrap();
    assert_eq!(peers.len(), 2);
    assert_eq!(peers[0].id, "peer-my-phone");
    assert_eq!(peers[1].id, "peer-laptop");
}

#[test]
fn duplicate_slugs_are_rejected() {
    let names = vec!["My Phone".to_string(), "my_phone".to_string()];
    let err = resolve_named_peers(&names).unwrap_err();
    assert!(matches!(err, Error::DuplicateIdentity(name) if name == "my_phone"));
}

#[test]
fn count_zero_resolves_no_peers() {
    let peers = resolve_count_peers(0, &vec!["peer-a".to_string()]).unwrap();
    assert!(peers.is_empty());
}

#[test]
fn count_reuses_existing_directories_sorted() {
    let dirs = vec!["peer-b".to_string(), "peer-a".to_string(), "peer-c".to_string()];
    let peers = resolve_count_peers(2, &dirs).unwrap();
    assert_eq!(peers.len(), 2);
    assert_eq!(peers[0].id, "peer-a");
    assert_eq!(peers[1].id, "peer-b");
}

#[test]
fn count_draws_fresh_identities_beyond_existing() {
    let dirs = vec!["peer-a".to_string()];
    let peers = resolve_count_peers(3, &dirs).unwrap();
    assert_eq!(peers.len(), 3);
    assert_eq!(peers[0].id, "peer-a");
    for p in &peers[1..] {
        assert!(p.id.starts_with("peer-"));
        assert_eq!(p.id.len(), 41);
    }
    assert_ne!(peers[1].id, peers[2].id);
}

#[test]
fn resolve_peers_prefers_names() {
    let cfg = PeersConfig { count: Some(5), names: Some(vec!["a".to_string()]) };
    let peers = resolve_peers(&cfg, &Vec::new()).unwrap();
    assert_eq!(peers.len(), 1);
    assert_eq!(peers[0].id, "peer-a");
}

#[test]
fn resolve_peers_by_count_when_names_absent() {
    let cfg = PeersConfig { count: Some(2), names: None };
    let peers = resolve_peers(&cfg, &vec!["peer-z".to_string()]).unwrap();
    assert_eq!(peers.len(), 2);
    assert_eq!(peers[0].id, "peer-z");
}

#[test]
fn string_order_is_lexicographic() {
    assert!(str_le("abc", "abd"));
    assert!(str_le("ab", "abc"));
    assert!(!str_le("b", "abc"));
    assert!(str_le("", ""));
    let sorted = sort_strings(&vec!["c".to_string(), "a".to_string(), "b".to_string()]);
    assert_eq!(sorted, vec!["a".to_string(), "b".to_string(), "c".to_string()]);
}

#[test]
fn env_parsers_accept_and_reject() {
    assert_eq!(env_u16("51820"), Some(51820));
    assert_eq!(env_u16("+7"), Some(7));
    assert_eq!(env_u16("65536"), None);
    assert_eq!(env_u16("12x"), None);
    assert_eq!(env_u16(""), None);
    assert_eq!(env_usize("42"), Some(42));
    assert_eq!(env_bool("TRUE"), Some(true));
    assert_eq!(env_bool("1"), Some(true));
    assert_eq!(env_bool("Yes"), Some(true));
    assert_eq!(env_bool("no"), Some(false));
    assert_eq!(env_bool("0"), Some(false));
    assert_eq!(env_bool("maybe"), None);
    assert_eq!(env_list(" a, b ,, c "), vec!["a", "b", "c"]);
    assert_eq!(env_list(""), Vec::<String>::new());
}
