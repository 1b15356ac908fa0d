use rust_wg::addr::{host_range_v4, parse_ipv4, parse_subnet_v4, parse_subnet_v6};
use rust_wg::errors::Error;
use rust_wg::ip_alloc::{
    extract_addresses, gather_assigned_v4, gather_assigned_v6, next_available_v4,
    next_available_v6, plan_v4, plan_v6,
};

#[test]
fn extract_reads_the_address_line() {
    let text = "[Interface]\n  Address = 10.66.0.5/32, fd00:0:0:0:0:0:0:5/128\nPrivateKey = k\n";
    let items = extract_addresses(text);
    assert_eq!(items, vec!["10.66.0.5/32", "fd00:0:0:0:0:0:0:5/128"]);
}

#[test]
fn extract_without_address_line_is_empty() {
    assert!(extract_addresses("[Interface]\nPrivateKey = k\n").is_empty());
    assert!(extract_addresses("").is_empty());
}

#[test]
fn extract_skips_malformed_address_lines() {
    let text = "Address 10.0.0.1\nAddress = 10.66.0.9/32\n";
    let items = extract_addresses(text);
    assert_eq!(items, vec!["10.66.0.9/32"]);
}

#[test]
fn gather_collects_by_family() {
    let texts = vec![
        "Address = 10.66.0.2/32, fd00:0:0:0:0:0:0:2/128\n".to_string(),
        "Address = 10.66.0.3/32\n".to_string(),
        "PrivateKey = x\n".to_string(),
    ];
    let v4 = gather_assigned_v4(&texts);
    assert_eq!(v4, vec![parse_ipv4("10.66.0.2").unwrap(), parse_ipv4("10.66.0.3").unwrap()]);
    let v6 = gather_assigned_v6(&texts);
    assert_eq!(v6, vec![(0xfd00u128 << 112) | 2]);
}

#[test]
fn next_available_skips_assigned() {
    let s = parse_subnet_v4("10.66.0.0/24").unwrap();
    let (lo, _) = host_range_v4(&s);
    let used = vec![lo, lo + 1];
    assert_eq!(next_available_v4(&s, &used).unwrap(), lo + 2);
    assert_eq!(next_available_v4(&s, &Vec::new()).unwrap(), lo);
}

#[test]
fn exhausted_pool_reports_the_subnet() {
    let s = parse_subnet_v4("10.0.0.0/31").unwrap();
    let used = vec![0x0A000000, 0x0A000001];
    let err = next_available_v4(&s, &used).unwrap_err();
    assert!(matches!(err, Error::AddressPoolExhausted(t) if t == "10.0.0.0/31"));
}

#[test]
fn plan_assigns_consecutive_fresh_addresses() {
    let s = parse_subnet_v4("10.66.0.0/24").unwrap();
    let (lo, _) = host_range_v4(&s);
    let used = vec![lo];
    let existing: Vec<Option<u32>> = vec![None, None, None];
    let got = plan_v4(&s, &used, &existing).unwrap();
    assert_eq!(got, vec![lo + 1, lo + 2, lo + 3]);
}

#[test]
fn plan_keeps_existing_addresses() {
    let s = parse_subnet_v4("10.66.0.0/24").unwrap();
    let (lo, _) = host_range_v4(&s);
    let used = vec![lo + 1, lo + 2, lo];
    let existing: Vec<Option<u32>> = vec![Some(lo + 1), Some(lo + 2), None];
    let got = plan_v4(&s, &used, &existing).unwrap();
    assert_eq!(got, vec![lo + 1, lo + 2, lo + 3]);
}

#[test]
fn appending_a_peer_preserves_earlier_addresses() {
    let s = parse_subnet_v4("10.66.0.0/24").unwrap();
    let (lo, _) = host_range_v4(&s);
    let first = plan_v4(&s, &vec![lo], &vec![None, None]).unwrap();
    let existing: Vec<Option<u32>> = vec![Some(first[0]), Some(first[1]), None];
    let used = vec![first[0], first[1], lo];
    let second = plan_v4(&s, &used, &existing).unwrap();
    assert_eq!(&second[..2], &first[..]);
    assert_eq!(second[2], lo + 3);
}

#[test]
fn plan_v6_allocates_from_network_address() {
    let s = parse_subnet_v6("fd00::/64").unwrap();
    let net = 0xfd00u128 << 112;
    let used = vec![net];
    let got = plan_v6(&s, &used, &vec![None, None]).unwrap();
    assert_eq!(got, vec![net + 1, net + 2]);
    assert_eq!(next_available_v6(&s, &Vec::new()).unwrap(), net);
}

#[test]
fn plan_errors_when_pool_runs_out() {
    let s = parse_subnet_v4("10.0.0.0/30").unwrap();
    let (lo, hi) = host_range_v4(&s);
    assert_eq!(hi - lo, 1);
    let err = plan_v4(&s, &vec![lo], &vec![None, None]).unwrap_err();
    assert!(matches!(err, Error::AddressPoolExhausted(_)));
}
