//! From a delegated prefix and a rule to addresses and ports.

use mapecd::error::MapEError;
use mapecd::map::calc::{
    build_ce_ipv6, compute_mape_params, derive_ipv4_and_psid, extract_ea_bits, is_computable,
};
use mapecd::map::rule::{CeFormat, MapRule, PortParams};
use mapecd::net::{Ipv4Addr, Ipv4Net, Ipv6Addr, Ipv6Net};

fn net6(text: &str) -> Ipv6Net {
    let n: ipnet::Ipv6Net = text.parse().unwrap();
    Ipv6Net::new(Ipv6Addr { bits: u128::from(n.addr()) }, n.prefix_len()).unwrap()
}

fn net4(text: &str) -> Ipv4Net {
    let n: ipnet::Ipv4Net = text.parse().unwrap();
    Ipv4Net::new(Ipv4Addr { bits: u32::from(n.addr()) }, n.prefix_len()).unwrap()
}

fn v6(text: &str) -> Ipv6Addr {
    net6(&format!("{text}/128")).addr
}

fn v4(text: &str) -> Ipv4Addr {
    net4(&format!("{text}/32")).addr
}

fn make_rule(
    ipv6_prefix: &str,
    ipv4_prefix: &str,
    ea_length: u8,
    psid_offset: u8,
    psid_length: u8,
    br: &str,
) -> MapRule {
    MapRule {
        ipv6_prefix: net6(ipv6_prefix),
        ipv4_prefix: net4(ipv4_prefix),
        ea_length,
        is_fmr: true,
        br_address: v6(br),
        port_params: PortParams { psid_offset, psid_length },
    }
}

#[test]
fn test_extract_ea_bits_ok() {
    let rule = make_rule("2001:db8::/32", "192.0.2.0/24", 16, 0, 8, "2001:db8::1");
    let ce = net6("2001:db8:6401::/48");
    let ea = extract_ea_bits(ce, &rule).unwrap();
    assert_eq!(ea, 0x6401);
}

#[test]
fn test_extract_ea_bits_mismatch_returns_error() {
    let rule = make_rule("2001:db8::/32", "192.0.2.0/24", 16, 0, 8, "2001:db8::1");
    let ce = net6("2001:db8:6401::/50");
    let result = extract_ea_bits(ce, &rule);
    assert!(matches!(result, Err(MapEError::InvalidCePrefix)));
}

#[test]
fn test_extract_ea_bits_zero_ea_length() {
    let rule = make_rule("2001:db8::/32", "192.0.2.0/32", 0, 0, 0, "2001:db8::1");
    let ce = net6("2001:db8::/32");
    let ea = extract_ea_bits(ce, &rule).unwrap();
    assert_eq!(ea, 0);
}

#[test]
fn test_derive_ipv4_and_psid_basic() {
    let rule = make_rule("2001:db8::/32", "192.0.2.0/24", 16, 0, 8, "2001:db8::1");
    let (ipv4, psid) = derive_ipv4_and_psid(0x6401, &rule);
    assert_eq!(ipv4, v4("192.0.2.100"));
    assert_eq!(psid, 1);
}

#[test]
fn test_derive_ipv4_and_psid_k0() {
    let rule = make_rule("2001:db8::/32", "192.0.2.0/24", 8, 0, 0, "2001:db8::1");
    let (ipv4, psid) = derive_ipv4_and_psid(0x64, &rule);
    assert_eq!(ipv4, v4("192.0.2.100"));
    assert_eq!(psid, 0);
}

#[test]
fn test_build_ce_ipv6_rfc7597() {
    let rule = make_rule("2001:db8::/32", "192.0.2.0/24", 16, 0, 8, "2001:db8::1");
    let ce_prefix = net6("2001:db8:6401::/48");
    let ea_bits = extract_ea_bits(ce_prefix, &rule).unwrap();
    let ce_ipv6 = build_ce_ipv6(ce_prefix, &rule, ea_bits, CeFormat::Rfc7597);
    assert_eq!(ce_ipv6, v6("2001:db8:6401::c000:264:100"));
}

#[test]
fn test_build_ce_ipv6_psid0() {
    let rule = make_rule("2001:db8::/32", "192.0.2.0/24", 16, 0, 8, "2001:db8::1");
    let ce_prefix = net6("2001:db8:0500::/48");
    let ea_bits = extract_ea_bits(ce_prefix, &rule).unwrap();
    let ce_ipv6 = build_ce_ipv6(ce_prefix, &rule, ea_bits, CeFormat::Rfc7597);
    assert_eq!(ce_ipv6, v6("2001:db8:500::c000:205:0"));
}

#[test]
fn test_build_ce_ipv6_v6plus_format() {
    let rule = make_rule("2001:db8::/32", "192.0.2.0/24", 16, 4, 8, "2001:db8::1");
    let ce_prefix = net6("2001:db8:6405::/48");
    let ea_bits = extract_ea_bits(ce_prefix, &rule).unwrap();
    let ce_ipv6 = build_ce_ipv6(ce_prefix, &rule, ea_bits, CeFormat::V6Plus);
    assert_eq!(ce_ipv6, v6("2001:db8:6405:0:c0:2:6400:500"));
}

#[test]
fn test_compute_mape_params_v6plus() {
    let rule = make_rule("2001:db8::/32", "192.0.2.0/24", 16, 4, 8, "2001:db8::1");
    let ce_prefix = net6("2001:db8:6405::/48");
    let params = compute_mape_params(ce_prefix, &rule, CeFormat::Rfc7597).unwrap();
    assert_eq!(params.ipv4, v4("192.0.2.100"));
    assert_eq!(params.psid, 5);
    assert_eq!(params.ce_ipv6, v6("2001:db8:6405::c000:264:500"));
    assert_eq!(params.ce_format, CeFormat::Rfc7597);
    let total: usize = params
        .port_ranges
        .iter()
        .map(|r| (*r.end() - *r.start()) as usize + 1)
        .sum();
    assert_eq!(total, 240);
}

#[test]
fn test_compute_mape_params_v6plus_format_differs_from_rfc7597() {
    let rule = make_rule("2001:db8::/32", "192.0.2.0/24", 16, 4, 8, "2001:db8::1");
    let ce_prefix = net6("2001:db8:6405::/48");
    let rfc_params = compute_mape_params(ce_prefix, &rule, CeFormat::Rfc7597).unwrap();
    let v6plus_params = compute_mape_params(ce_prefix, &rule, CeFormat::V6Plus).unwrap();
    assert_eq!(rfc_params.ipv4, v6plus_params.ipv4);
    assert_eq!(rfc_params.psid, v6plus_params.psid);
    assert_ne!(rfc_params.ce_ipv6, v6plus_params.ce_ipv6);
    assert_eq!(rfc_params.ce_format, CeFormat::Rfc7597);
    assert_eq!(v6plus_params.ce_format, CeFormat::V6Plus);
}

#[test]
fn a_prefix_of_the_wrong_length_is_refused() {
    let rule = make_rule("2001:db8::/32", "192.0.2.0/24", 16, 4, 8, "2001:db8::1");
    let e = compute_mape_params(net6("2001:db8:6405::/56"), &rule, CeFormat::Rfc7597);
    assert!(matches!(e, Err(MapEError::InvalidCePrefix)));
}

#[test]
fn different_prefixes_get_different_shares() {
    let rule = make_rule("2001:db8::/32", "192.0.2.0/24", 16, 4, 8, "2001:db8::1");
    let mut seen: Vec<(u32, u16)> = Vec::new();
    for ea in 0..1024u128 {
        let addr = Ipv6Addr { bits: (0x2001_0db8u128 << 96) | (ea << 80) };
        let ce = Ipv6Net::new(addr, 48).unwrap();
        assert!(is_computable(ce, &rule, CeFormat::Rfc7597));
        let p = compute_mape_params(ce, &rule, CeFormat::Rfc7597).unwrap();
        assert!(ce.contains(p.ce_ipv6));
        assert!(!seen.contains(&(p.ipv4.bits, p.psid)));
        seen.push((p.ipv4.bits, p.psid));
    }
}

#[test]
fn networks_are_cut_off_at_their_length() {
    let n = net6("2001:db8:ffff::1/40");
    assert_eq!(n.network(), v6("2001:db8:ff00::"));
    assert_eq!(n.trunc(), net6("2001:db8:ff00::/40"));
    assert!(n.contains(v6("2001:db8:ff12::")));
    assert!(!n.contains(v6("2001:db8:fe00::")));
    assert_eq!(net4("192.0.2.77/24").network(), v4("192.0.2.0"));
    assert_eq!(net4("192.0.2.77/24").trunc(), net4("192.0.2.0/24"));
    assert!(Ipv6Net::new(v6("::"), 129).is_none());
    assert!(Ipv4Net::new(v4("0.0.0.0"), 33).is_none());
    assert!(net6("::/0").contains(v6("ffff::")));
}
