//! Port sets, PSIDs and the translation of ports.

use std::ops::RangeInclusive;

use mapecd::ebpf::psid::{psid_config_from_params, PsidConfig};
use mapecd::ebpf::translate::{try_egress, try_ingress, Rewrite};
use mapecd::error::MapEError;
use mapecd::map::port_set::calc_port_ranges;
use mapecd::map::rule::{CeFormat, MapRule, MapeParams, PortParams};
use mapecd::net::{Ipv4Addr, Ipv4Net, Ipv6Addr, Ipv6Net};

fn params(psid_offset: u8, psid_length: u8) -> PortParams {
    PortParams { psid_offset, psid_length }
}

fn ports(ranges: &[RangeInclusive<u16>]) -> Vec<u16> {
    ranges.iter().flat_map(|r| r.clone()).collect()
}

fn total(ranges: &[RangeInclusive<u16>]) -> usize {
    ranges.iter().map(|r| (*r.end() - *r.start()) as usize + 1).sum()
}

#[test]
fn test_psid_config_size() {
    assert_eq!(std::mem::size_of::<PsidConfig>(), 10);
}

#[test]
fn test_try_new_v6plus_a4_k8() {
    let cfg = PsidConfig::try_new(4, 8, 5).unwrap();
    assert_eq!(cfg.offset, 4);
    assert_eq!(cfg.length, 8);
    assert_eq!(cfg.block_shift, 4);
    assert_eq!(cfg.psid, 5);
    assert_eq!(cfg.staging_min, 4096);
    assert_eq!(cfg.staging_max, 4335);
}

#[test]
fn test_try_new_a0() {
    let cfg = PsidConfig::try_new(0, 0, 0).unwrap();
    assert_eq!(cfg.offset, 0);
    assert_eq!(cfg.staging_min, 1);
    assert_eq!(cfg.staging_max, 65535);
    assert_eq!(cfg.block_shift, 0);
}

#[test]
fn test_try_new_invalid_overflow() {
    assert!(PsidConfig::try_new(10, 8, 0).is_none());
    assert!(PsidConfig::try_new(16, 1, 0).is_none());
}

#[test]
fn test_try_new_boundary_a_plus_k_eq_16() {
    let cfg = PsidConfig::try_new(4, 12, 0);
    assert!(cfg.is_some());
    let cfg = cfg.unwrap();
    assert_eq!(cfg.block_shift, 0);
}

#[test]
fn test_a0_k0_all_ports() {
    let ranges = calc_port_ranges(&params(0, 0), 0);
    assert_eq!(ranges, vec![1u16..=65535u16]);
}

#[test]
fn test_v6plus_total_port_count() {
    let ranges = calc_port_ranges(&params(4, 8), 5);
    let total: usize = ranges.iter().map(|r| (*r.end() - *r.start()) as usize + 1).sum();
    assert_eq!(total, 240);
}

#[test]
fn test_v6plus_port_formula() {
    let ranges = calc_port_ranges(&params(4, 8), 5);
    let all_ports: Vec<u16> = ranges.iter().flat_map(|r| r.clone()).collect();
    assert!(all_ports.contains(&4101));
    assert!(all_ports.contains(&4357));
    assert!(all_ports.contains(&65285));
}

#[test]
fn test_a0_port_formula() {
    let ranges = calc_port_ranges(&params(0, 8), 5);
    let all_ports: Vec<u16> = ranges.iter().flat_map(|r| r.clone()).collect();
    assert!(all_ports.contains(&261));
    assert!(all_ports.contains(&517));
}

#[test]
fn test_merge_adjacent_ranges() {
    let ranges = calc_port_ranges(&params(4, 0), 0);
    assert_eq!(ranges, vec![16u16..=65535u16]);
}

#[test]
fn psids_share_the_ports_out() {
    let mut seen = vec![0u32; 65536];
    for psid in 0..256u16 {
        for p in ports(&calc_port_ranges(&params(4, 8), psid)) {
            seen[p as usize] += 1;
            assert_eq!(p % 256, psid);
        }
    }
    for p in 0..65536usize {
        assert_eq!(seen[p], if p < 4096 { 0 } else { 1 });
    }
}

#[test]
fn ports_ascend_without_gaps_inside_ranges() {
    let ranges = calc_port_ranges(&params(6, 2), 3);
    let all = ports(&ranges);
    assert!(all.windows(2).all(|w| w[0] < w[1]));
    assert!(ranges.windows(2).all(|w| *w[0].end() + 1 < *w[1].start()));
    assert_eq!(all.len(), total(&ranges));
}

#[test]
fn staging_ports_and_psid_ports_are_one_to_one() {
    let cfg = PsidConfig::try_new(4, 8, 5).unwrap();
    let mut seen: Vec<u16> = Vec::new();
    for staging in cfg.staging_min..=cfg.staging_max {
        let port = cfg.to_psid_port(staging).unwrap();
        assert_eq!(cfg.to_staging_port(port), Some(staging));
        assert!(!seen.contains(&port));
        seen.push(port);
    }
    assert_eq!(seen.len(), 240);
    assert_eq!(cfg.to_psid_port(4096), Some(4096 + 5 * 16));
    assert_eq!(cfg.to_psid_port(4112), Some(2 * 4096 + 5 * 16));
    assert_eq!(cfg.to_psid_port(4095), None);
    assert_eq!(cfg.to_psid_port(4336), None);
    assert_eq!(cfg.to_staging_port(5 * 16), None);
    assert_eq!(cfg.to_staging_port(4096 + 6 * 16), None);
}

#[test]
fn nothing_is_translated_without_excluded_bits() {
    let cfg = PsidConfig::try_new(0, 8, 5).unwrap();
    assert_eq!(cfg.to_psid_port(1000), None);
    assert_eq!(cfg.to_staging_port(1000), None);
}

fn mapping(psid_offset: u8, psid_length: u8) -> MapeParams {
    let br = Ipv6Addr { bits: 1 };
    MapeParams {
        ce_ipv6: Ipv6Addr { bits: 2 },
        ipv4: Ipv4Addr { bits: 3 },
        psid: 5,
        port_ranges: vec![1u16..=65535u16],
        br_address: br,
        rule: MapRule {
            ipv6_prefix: Ipv6Net { addr: br, prefix_len: 32 },
            ipv4_prefix: Ipv4Net { addr: Ipv4Addr { bits: 0 }, prefix_len: 24 },
            ea_length: 16,
            is_fmr: true,
            br_address: br,
            port_params: params(psid_offset, psid_length),
        },
        ce_format: CeFormat::Rfc7597,
    }
}

#[test]
fn psid_config_of_a_mapping() {
    let cfg = psid_config_from_params(&mapping(4, 8)).unwrap();
    assert_eq!(Some(cfg), PsidConfig::try_new(4, 8, 5));
    let e = psid_config_from_params(&mapping(10, 8)).unwrap_err();
    assert!(matches!(e, MapEError::EbpfError(_)));
    assert_eq!(
        e.message(),
        "ebpf error: invalid PSID params: offset=10 length=8 (offset+length must be <= 16)"
    );
}

/// An IPv4 packet with a header of `words` words, a protocol and a payload.
fn packet(words: u8, proto: u8, payload: &[u8]) -> Vec<u8> {
    let mut p = vec![0u8; words as usize * 4];
    p[0] = 0x40 | words;
    p[9] = proto;
    p.extend_from_slice(payload);
    p
}

#[test]
fn source_ports_are_rewritten_on_the_way_out() {
    let cfg = PsidConfig::try_new(4, 8, 5);
    let mut payload = 4096u16.to_be_bytes().to_vec();
    payload.extend_from_slice(&[0u8; 18]);
    let tcp = Rewrite {
        port_offset: 20,
        csum_offset: 36,
        old_port: 4096,
        new_port: 4176,
        pseudo_header: true,
    };
    assert_eq!(try_egress(&packet(5, 6, &payload), &cfg), Some(tcp));
    assert_eq!(
        try_egress(&packet(6, 17, &payload), &cfg),
        Some(Rewrite { port_offset: 24, csum_offset: 30, ..tcp })
    );
    assert_eq!(try_egress(&packet(5, 47, &payload), &cfg), None);
    assert_eq!(try_egress(&packet(5, 6, &payload), &None), None);
    assert_eq!(try_egress(&packet(5, 6, &payload[..1]), &cfg), None);
    assert_eq!(try_egress(&[0x45; 9], &cfg), None);
}

#[test]
fn destination_ports_are_rewritten_on_the_way_in() {
    let cfg = PsidConfig::try_new(4, 8, 5);
    let mut payload = vec![0u8, 80];
    payload.extend_from_slice(&4176u16.to_be_bytes());
    let got = try_ingress(&packet(5, 17, &payload), &cfg).unwrap();
    assert_eq!(got.port_offset, 22);
    assert_eq!(got.csum_offset, 26);
    assert_eq!((got.old_port, got.new_port), (4176, 4096));
}

#[test]
fn echo_identifiers_are_rewritten() {
    let cfg = PsidConfig::try_new(4, 8, 5);
    let mut request = vec![8u8, 0, 0, 0];
    request.extend_from_slice(&4096u16.to_be_bytes());
    let out = try_egress(&packet(5, 1, &request), &cfg).unwrap();
    assert_eq!((out.port_offset, out.csum_offset, out.pseudo_header), (24, 22, false));
    assert_eq!(out.new_port, 4176);
    let mut reply = vec![0u8, 0, 0, 0];
    reply.extend_from_slice(&4176u16.to_be_bytes());
    assert_eq!(try_egress(&packet(5, 1, &reply), &cfg), None);
    let back = try_ingress(&packet(5, 1, &reply), &cfg).unwrap();
    assert_eq!(back.new_port, 4096);
}
