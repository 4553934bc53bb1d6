//! What the kernel is told: tunnel attributes, routes and packet rules.

use std::ops::RangeInclusive;

use mapecd::error::MapEError;
use mapecd::net::{Ipv6Addr, Ipv6Net};
use mapecd::netlink::{
    add_ipv4_default_route, del_ipv4_default_route_by_oif, device_is_gone, encode_ip6tnl_data,
    get_ipv4_default_routes, link_mtu, RouteChange, RouteEntry, IFLA_IPTUN_ENCAP_LIMIT,
    IFLA_IPTUN_PROTO, IPPROTO_IPIP,
};
use mapecd::nftables::{
    apply_ruleset, delete_tables, format_port_elements, generate_ruleset, nft_result,
    render_ruleset,
};

fn v6(text: &str) -> Ipv6Addr {
    let n: ipnet::Ipv6Net = format!("{text}/128").parse().unwrap();
    Ipv6Net::new(Ipv6Addr { bits: u128::from(n.addr()) }, 128).unwrap().addr
}

#[test]
fn test_encode_ip6tnl_data_structure() {
    let data = encode_ip6tnl_data(v6("2001:db8::1"), v6("2001:db8::ffff"), 3, 0);
    assert_eq!(data.len(), 64);
}

#[test]
fn test_encode_link_type_field() {
    let data = encode_ip6tnl_data(v6("::"), v6("::"), 42, 0);
    assert_eq!(data[0], 8, "NLA total length should be 8");
    assert_eq!(data[1], 0);
    assert_eq!(data[2], 1, "NLA type (IFLA_IPTUN_LINK) should be 1");
    assert_eq!(data[3], 0);
    let link_index = u32::from_ne_bytes([data[4], data[5], data[6], data[7]]);
    assert_eq!(link_index, 42);
}

#[test]
fn test_encode_proto_is_ipproto_ipip() {
    let data = encode_ip6tnl_data(v6("::"), v6("::"), 1, 0);
    let offset = 48;
    assert_eq!(data[offset + 2], IFLA_IPTUN_PROTO as u8);
    assert_eq!(data[offset + 4], IPPROTO_IPIP);
}

#[test]
fn test_encode_encaplimit_is_zero() {
    let data = encode_ip6tnl_data(v6("::"), v6("::"), 1, 0);
    let offset = 56;
    assert_eq!(data[offset + 2], IFLA_IPTUN_ENCAP_LIMIT as u8);
    assert_eq!(data[offset + 4], 0);
}

#[test]
fn test_encode_local_address_bytes() {
    let local = v6("2001:db8::1");
    let data = encode_ip6tnl_data(local, v6("::"), 1, 0);
    let offset = 8;
    assert_eq!(data[offset + 2], 2, "NLA type should be IFLA_IPTUN_LOCAL=2");
    let addr_bytes: [u8; 16] = data[offset + 4..offset + 20].try_into().unwrap();
    assert_eq!(u128::from_be_bytes(addr_bytes), local.bits);
}

fn route(dst_prefix_len: u8, universe: bool, oifs: &[u32]) -> RouteEntry {
    RouteEntry { dst_prefix_len, universe, oifs: oifs.to_vec() }
}

#[test]
fn test_add_route_clears_existing() {
    let routes = vec![route(0, true, &[2]), route(24, true, &[9]), route(0, true, &[3])];
    assert_eq!(get_ipv4_default_routes(&routes), vec![2, 3]);
    assert_eq!(
        add_ipv4_default_route(&routes, 10),
        vec![RouteChange::Delete(2), RouteChange::Delete(3), RouteChange::Add(10)]
    );
}

#[test]
fn test_add_route_no_existing() {
    assert_eq!(add_ipv4_default_route(&vec![], 10), vec![RouteChange::Add(10)]);
}

#[test]
fn test_del_route_by_oif() {
    let routes = vec![route(0, true, &[5]), route(0, true, &[10]), route(0, true, &[15])];
    assert_eq!(del_ipv4_default_route_by_oif(&routes, 10), vec![1]);
    let more = vec![route(8, true, &[10]), route(0, false, &[3, 10])];
    assert_eq!(del_ipv4_default_route_by_oif(&more, 10), vec![1]);
}

#[test]
fn test_get_default_routes_empty() {
    assert!(get_ipv4_default_routes(&vec![]).is_empty());
    assert!(get_ipv4_default_routes(&vec![route(0, false, &[7])]).is_empty());
}

#[test]
fn test_mock_del_ipv4_addr_nodev_ignored() {
    assert!(device_is_gone("No such device (os error 19)"));
}

#[test]
fn errors_of_the_kernel() {
    assert!(device_is_gone("Received a netlink error message No such device (os error 19)"));
    assert!(device_is_gone("(os error 19)"));
    assert!(!device_is_gone("Operation not permitted (os error 1)"));
    assert_eq!(link_mtu("eth0", Some(1500)).unwrap(), 1500);
    assert_eq!(
        link_mtu("eth0", None).unwrap_err().message(),
        "netlink error: interface eth0: MTU attribute not found in RTM_GETLINK response"
    );
}

fn br() -> Ipv6Addr {
    v6("2001:db8::1")
}

fn default_staging() -> (u16, u16) {
    (4096, 4335)
}

#[test]
fn test_generate_ruleset_contains_flush() {
    let ranges = vec![1u16..=65535u16];
    let ruleset = generate_ruleset(&ranges, "ip6tnl0", br(), default_staging());
    assert!(ruleset.contains("flush table ip mapecd"));
    assert!(ruleset.contains("flush table ip6 mapecd"));
}

#[test]
fn test_generate_ruleset_contains_table_names() {
    let ranges = vec![1u16..=65535u16];
    let ruleset = generate_ruleset(&ranges, "ip6tnl0", br(), default_staging());
    assert!(ruleset.contains("table ip mapecd"));
    assert!(ruleset.contains("table ip6 mapecd"));
}

#[test]
fn test_generate_ruleset_masquerade_staging_range() {
    let ranges = vec![4176u16..=4191u16, 8272u16..=8287u16];
    let ruleset = generate_ruleset(&ranges, "ip6tnl0", br(), (4096, 4335));
    assert!(
        ruleset.contains(
            "oifname \"ip6tnl0\" meta l4proto { tcp, udp, icmp } masquerade to :4096-4335"
        ),
        "staging range masquerade rule should be present"
    );
    assert!(
        !ruleset.contains("masquerade to :4176"),
        "per-range masquerade should not be present"
    );
}

#[test]
fn test_generate_ruleset_mss_clamp_both_directions() {
    let ranges = vec![1u16..=65535u16];
    let ruleset = generate_ruleset(&ranges, "ip6tnl0", br(), default_staging());
    assert!(
        ruleset.contains("oifname \"ip6tnl0\" tcp flags syn tcp option maxseg size set rt mtu")
    );
    assert!(
        ruleset.contains("iifname \"ip6tnl0\" tcp flags syn tcp option maxseg size set rt mtu")
    );
}

#[test]
fn test_generate_ruleset_br_filter() {
    let br = v6("2001:db8::ffff");
    let ranges = vec![1u16..=65535u16];
    let ruleset = generate_ruleset(&ranges, "ip6tnl0", br, default_staging());
    assert!(ruleset.contains("ip6 saddr != 2001:db8::ffff ip6 nexthdr 4 drop"));
}

#[test]
fn test_generate_ruleset_single_port_element() {
    let ranges = vec![4101u16..=4101u16];
    let ruleset = generate_ruleset(&ranges, "ip6tnl0", br(), default_staging());
    assert!(ruleset.contains("elements = { 4101 }"));
}

#[test]
fn test_generate_ruleset_port_range_element() {
    let ranges = vec![4101u16..=4356u16];
    let ruleset = generate_ruleset(&ranges, "ip6tnl0", br(), default_staging());
    assert!(ruleset.contains("elements = { 4101-4356 }"));
}

#[test]
fn test_generate_ruleset_multiple_ranges() {
    let ranges = vec![4101u16..=4101u16, 4357u16..=4357u16, 8197u16..=8452u16];
    let ruleset = generate_ruleset(&ranges, "ip6tnl0", br(), default_staging());
    assert!(ruleset.contains("4101, 4357, 8197-8452"));
}

#[test]
fn test_generate_ruleset_full_range() {
    let ranges = vec![1u16..=65535u16];
    let ruleset = generate_ruleset(&ranges, "ip6tnl0", br(), default_staging());
    assert!(ruleset.contains("elements = { 1-65535 }"));
}

#[test]
fn test_apply_ruleset_empty_port_ranges_returns_error() {
    let result = apply_ruleset(&[], "ip6tnl0", br(), default_staging());
    assert!(matches!(result, Err(MapEError::EmptyPortRanges)));
}

#[test]
fn test_apply_ruleset_calls_executor() {
    let ranges = vec![1u16..=65535u16];
    let input = apply_ruleset(&ranges, "ip6tnl0", br(), default_staging()).unwrap();
    assert!(input.contains("flush table ip mapecd"));
}

#[test]
fn test_delete_tables_calls_executor() {
    let input = delete_tables();
    assert!(input.contains("delete table ip mapecd"));
    assert!(input.contains("delete table ip6 mapecd"));
}

#[test]
fn the_exit_of_nft_decides() {
    assert!(nft_result(true, "exit status: 0", "warning").is_ok());
    let e = nft_result(false, "exit status: 1", "syntax error").unwrap_err();
    assert_eq!(e.message(), "nft error: nft exited with exit status: 1: syntax error");
}

#[test]
fn test_format_single_port() {
    let ranges: Vec<RangeInclusive<u16>> = vec![80u16..=80u16];
    assert_eq!(format_port_elements(&ranges), "80");
}

#[test]
fn test_format_range() {
    let ranges: Vec<RangeInclusive<u16>> = vec![1024u16..=2048u16];
    assert_eq!(format_port_elements(&ranges), "1024-2048");
}

#[test]
fn test_format_multiple_mixed() {
    let ranges: Vec<RangeInclusive<u16>> =
        vec![80u16..=80u16, 1024u16..=2048u16, 3000u16..=3000u16];
    assert_eq!(format_port_elements(&ranges), "80, 1024-2048, 3000");
}

#[test]
fn test_format_empty() {
    let ranges: Vec<RangeInclusive<u16>> = vec![];
    assert_eq!(format_port_elements(&ranges), "");
}

#[test]
fn the_rules_as_a_whole() {
    let expected = "add table ip mapecd
flush table ip mapecd
add table ip6 mapecd
flush table ip6 mapecd

table ip mapecd {
    set port_ranges {
        type inet_service
        flags interval
        elements = { 80, 90-99 }
    }

    chain postrouting {
        type nat hook postrouting priority srcnat;
        oifname \"t0\" meta l4proto { tcp, udp, icmp } masquerade to :1-2
    }

    chain forward {
        type filter hook forward priority filter;
        oifname \"t0\" tcp flags syn tcp option maxseg size set rt mtu
        iifname \"t0\" tcp flags syn tcp option maxseg size set rt mtu
    }
}

table ip6 mapecd {
    chain prerouting {
        type filter hook prerouting priority filter;
        ip6 saddr != 2001:db8::1 ip6 nexthdr 4 drop
    }
}
";
    let ranges = vec![80u16..=80u16, 90u16..=99u16];
    let text = render_ruleset(&ranges, "t0", "2001:db8::1", (1, 2));
    assert_eq!(generate_ruleset(&ranges, "t0", br(), (1, 2)), text);
    assert_eq!(text, expected);
}
