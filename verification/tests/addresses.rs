use rust_wg::addr::{
    host_range_v4, host_range_v6, ipv4_to_string, ipv6_to_string, parse_ipv4, parse_ipv6,
    parse_subnet_v4, parse_subnet_v6,
};
use rust_wg::errors::Error;
use rust_wg::ip_alloc::{subnet_v4_text, subnet_v6_text};
use rust_wg::text::{parse_u64, u64_to_string};

#[test]
fn decimal_renders_and_parses() {
    assert_eq!(u64_to_string(0), "0");
    assert_eq!(u64_to_string(51820), "51820");
    assert_eq!(parse_u64("51820"), Some(51820));
    assert_eq!(parse_u64(u64_to_string(u64::MAX).as_str()), Some(u64::MAX));
    assert_eq!(parse_u64("18446744073709551616"), None);
    assert_eq!(parse_u64(""), None);
    assert_eq!(parse_u64("+"), None);
}

#[test]
fn ipv4_text_round_trips() {
    assert_eq!(ipv4_to_string(0x0A420001), "10.66.0.1");
    assert_eq!(parse_ipv4("10.66.0.1"), Some(0x0A420001));
    assert_eq!(parse_ipv4(ipv4_to_string(u32::MAX).as_str()), Some(u32::MAX));
    assert_eq!(parse_ipv4("10.66.0"), None);
    assert_eq!(parse_ipv4("10.66.0.256"), None);
    assert_eq!(parse_ipv4("10.66.00.1"), None);
    assert_eq!(parse_ipv4("0.0.0.0"), Some(0));
}

#[test]
fn ipv6_text_round_trips() {
    let fd2 = (0xfd00u128 << 112) | 2;
    assert_eq!(ipv6_to_string(fd2), "fd00:0:0:0:0:0:0:2");
    assert_eq!(parse_ipv6("fd00:0:0:0:0:0:0:2"), Some(fd2));
    assert_eq!(parse_ipv6(ipv6_to_string(u128::MAX).as_str()), Some(u128::MAX));
    assert_eq!(parse_ipv6("fd00::2"), None);
    assert_eq!(parse_ipv6("fd00:0:0:0:0:0:2"), None);
}

#[test]
fn subnet_v4_parse_masks_the_address() {
    let s = parse_subnet_v4("10.66.0.5/24").unwrap();
    assert_eq!(s.net, 0x0A420000);
    assert_eq!(s.prefix, 24);
    assert_eq!(subnet_v4_text(&s), "10.66.0.0/24");
    let err = parse_subnet_v4("10.66.0.5").unwrap_err();
    assert!(matches!(err, Error::InvalidConfig(_)));
    assert!(parse_subnet_v4("10.66.0.5/33").is_err());
}

#[test]
fn subnet_v4_host_range_excludes_edges() {
    let s = parse_subnet_v4("10.66.0.0/24").unwrap();
    let (lo, hi) = host_range_v4(&s);
    assert_eq!(lo, 0x0A420001);
    assert_eq!(hi, 0x0A4200FE);
}

#[test]
fn tiny_subnets_use_every_address() {
    let s31 = parse_subnet_v4("10.0.0.0/31").unwrap();
    let (lo, hi) = host_range_v4(&s31);
    assert_eq!((lo, hi), (0x0A000000, 0x0A000001));
    let s32 = parse_subnet_v4("10.0.0.7/32").unwrap();
    let (lo32, hi32) = host_range_v4(&s32);
    assert_eq!((lo32, hi32), (0x0A000007, 0x0A000007));
}

#[test]
fn subnet_v6_parse_masks_and_spans() {
    let s = parse_subnet_v6("fd00::5/64").unwrap();
    assert_eq!(s.net, 0xfd00u128 << 112);
    assert_eq!(s.prefix, 64);
    assert_eq!(subnet_v6_text(&s), "fd00:0:0:0:0:0:0:0/64");
    let (lo, hi) = host_range_v6(&s);
    assert_eq!(lo, 0xfd00u128 << 112);
    assert_eq!(hi, (0xfd00u128 << 112) | 0xffff_ffff_ffff_ffffu128);
    assert!(parse_subnet_v6("fd00::/129").is_err());
    assert!(parse_subnet_v6("not-a-subnet").is_err());
}
