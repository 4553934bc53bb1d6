//! Captured frames, lease files and the identity of the client.

use mapecd::dhcpv6::capture::{
    capture_filter, news_from_contents, passes_dst_filter, process_frame, Capture,
    CaptureReceiver,
};
use mapecd::dhcpv6::event::{DhcpV6Event, LeaseEvent};
use mapecd::dhcpv6::identity::{
    get_iaid, get_link_local_addr, get_mac_addr, load_or_create_duid, new_duid, IfAddrEntry,
    IfAddress,
};
use mapecd::dhcpv6::lease::{
    concerns_lease, delegated_prefix_text, lease_event, lease_file_path, parse_delegated_prefix,
};
use mapecd::dhcpv6::wire::{Contents, DelegatedPrefix, Delegation};
use mapecd::net::{Ipv6Addr, Ipv6Net};

fn net6(text: &str) -> Ipv6Net {
    let n: ipnet::Ipv6Net = text.parse().unwrap();
    Ipv6Net::new(Ipv6Addr { bits: u128::from(n.addr()) }, n.prefix_len()).unwrap()
}

fn v6(text: &str) -> Ipv6Addr {
    net6(&format!("{text}/128")).addr
}

fn make_frame_with_dst(dst: Ipv6Addr) -> Vec<u8> {
    let mut frame = vec![0u8; 63];
    frame[38..54].copy_from_slice(&dst.bits.to_be_bytes());
    frame
}

#[test]
fn test_filter_dst_match_passes() {
    let ll = v6("fe80::1:2:3:4");
    let frame = make_frame_with_dst(ll);
    assert!(passes_dst_filter(&frame, &Some(ll)));
}

#[test]
fn test_filter_dst_mismatch_unicast_skipped() {
    let ll = v6("fe80::1:2:3:4");
    let other = v6("fe80::5:6:7:8");
    let frame = make_frame_with_dst(other);
    assert!(!passes_dst_filter(&frame, &Some(ll)));
}

#[test]
fn test_filter_multicast_passes_regardless_of_ll() {
    let multicast = v6("ff02::1:2");
    let ll = v6("fe80::1:2:3:4");
    let frame = make_frame_with_dst(multicast);
    assert!(passes_dst_filter(&frame, &Some(ll)));
}

#[test]
fn test_filter_no_ll_addr_passes_all() {
    let unicast = v6("fe80::9:9:9:9");
    let frame = make_frame_with_dst(unicast);
    assert!(passes_dst_filter(&frame, &None));
}

#[test]
fn test_filter_short_frame_rejected() {
    let frame = vec![0u8; 30];
    let ll = v6("fe80::1:2:3:4");
    assert!(!passes_dst_filter(&frame, &Some(ll)));
    assert!(!passes_dst_filter(&frame, &None));
}

fn opt(code: u16, data: &[u8]) -> Vec<u8> {
    let mut v = code.to_be_bytes().to_vec();
    v.extend_from_slice(&(data.len() as u16).to_be_bytes());
    v.extend_from_slice(data);
    v
}

fn ia_pd(prefix: Ipv6Net) -> Vec<u8> {
    let mut inner = vec![0, 0, 0, 100, 0, 0, 0, 200, prefix.prefix_len];
    inner.extend_from_slice(&prefix.addr.bits.to_be_bytes());
    let mut data = vec![0, 0, 0, 1, 0, 0, 0, 0, 0, 0, 0, 0];
    data.extend_from_slice(&opt(26, &inner));
    opt(25, &data)
}

fn container() -> Vec<u8> {
    let mut payload = opt(90, &v6("2001:db8::1").bits.to_be_bytes());
    payload.extend_from_slice(&opt(
        89,
        &[1, 16, 24, 192, 0, 2, 32, 0x20, 0x01, 0x0d, 0xb8],
    ));
    opt(94, &payload)
}

fn frame_with(dst: Ipv6Addr, message: &[u8]) -> Vec<u8> {
    let mut frame = make_frame_with_dst(dst);
    frame.truncate(62);
    frame.extend_from_slice(message);
    frame
}

fn message(msg_type: u8, options: &[Vec<u8>]) -> Vec<u8> {
    let mut m = vec![msg_type, 1, 2, 3];
    for o in options {
        m.extend_from_slice(o);
    }
    m
}

#[test]
fn replies_announce_prefix_and_rules() {
    let ll = v6("fe80::1");
    let prefix = net6("2001:db8:6401::/48");
    let both = frame_with(ll, &message(7, &[ia_pd(prefix), container()]));
    match process_frame(&both, &Some(ll)) {
        Ok(Some(DhcpV6Event::Both { rules, ia_pd })) => {
            assert_eq!(ia_pd, prefix);
            assert_eq!(rules.len(), 1);
            assert_eq!(rules[0].br_address, v6("2001:db8::1"));
        }
        other => panic!("unexpected {other:?}"),
    }
    let bare = frame_with(ll, &message(7, &[ia_pd(prefix)]));
    assert!(matches!(
        process_frame(&bare, &Some(ll)),
        Ok(Some(DhcpV6Event::IaPdReceived(p))) if p == prefix
    ));
}

#[test]
fn other_frames_announce_nothing() {
    let ll = v6("fe80::1");
    let prefix = net6("2001:db8:6401::/48");
    let advertise = frame_with(ll, &message(2, &[ia_pd(prefix)]));
    assert!(matches!(process_frame(&advertise, &Some(ll)), Ok(None)));
    let empty = frame_with(ll, &message(7, &[]));
    assert!(matches!(process_frame(&empty, &Some(ll)), Ok(None)));
    let failed = frame_with(ll, &message(7, &[ia_pd(prefix), opt(13, &[0, 2])]));
    assert!(matches!(process_frame(&failed, &Some(ll)), Ok(None)));
    let foreign = frame_with(v6("fe80::2"), &message(7, &[ia_pd(prefix)]));
    assert!(matches!(process_frame(&foreign, &Some(ll)), Ok(None)));
    let cut = frame_with(ll, &[7, 1]);
    assert!(process_frame(&cut, &Some(ll)).is_err());
}

#[test]
fn the_link_local_address_is_looked_up_until_it_is_known() {
    let prefix = net6("2001:db8:6401::/48");
    let frame = frame_with(v6("fe80::2"), &message(7, &[ia_pd(prefix)]));
    let mut capture = Capture { our_ll_addr: None };
    assert!(matches!(capture.handle_frame(&frame, None), Ok(Some(_))));
    assert!(matches!(capture.handle_frame(&frame, Some(v6("fe80::1"))), Ok(None)));
    assert_eq!(capture.our_ll_addr, Some(v6("fe80::1")));
    assert!(matches!(capture.handle_frame(&frame, Some(v6("fe80::2"))), Ok(None)));
    assert_eq!(CaptureReceiver::new("eth0".to_string()).upstream_interface, "eth0");
}

#[test]
fn contents_announce_prefix_and_rules() {
    let contents = |status: Option<u16>, failed: bool, container: Option<Vec<u8>>| Contents {
        status,
        server_unicast: None,
        delegation: Some(Delegation {
            t1: 0,
            t2: 0,
            prefix: Some(DelegatedPrefix {
                valid_lifetime: 9,
                prefix_len: 64,
                prefix_ip: v6("2001:db8::1").bits,
            }),
            failed,
        }),
        container,
    };
    let rules = container()[4..].to_vec();
    assert!(matches!(
        news_from_contents(&contents(None, false, Some(rules.clone()))),
        Some(DhcpV6Event::Both { ia_pd, .. }) if ia_pd == net6("2001:db8::/64")
    ));
    assert!(matches!(
        news_from_contents(&contents(Some(0), false, None)),
        Some(DhcpV6Event::IaPdReceived(_))
    ));
    assert!(matches!(
        news_from_contents(&contents(None, false, Some(vec![1]))),
        Some(DhcpV6Event::IaPdReceived(_))
    ));
    assert!(news_from_contents(&contents(Some(1), false, Some(rules.clone()))).is_none());
    assert!(news_from_contents(&contents(None, true, Some(rules))).is_none());
}

#[test]
fn the_capture_filter_ends_in_verdicts() {
    let filter = capture_filter();
    assert_eq!(filter.len(), 8);
    assert_eq!(filter[filter.len() - 1].code, 0x06);
}

#[test]
fn test_parse_delegated_prefix_basic() {
    let content = "\
ADDRESS=192.168.1.100
PREFIXLEN=24
X-DELEGATED-PREFIX=2001:db8::/48
";
    let result = parse_delegated_prefix(content);
    assert_eq!(result, Some(net6("2001:db8::/48")));
}

#[test]
fn test_parse_delegated_prefix_with_comment() {
    let content = "\
# This is private data. Do not parse.
ADDRESS=192.168.1.1
X-DELEGATED-PREFIX=2001:db8:1::/56
LIFETIME=86400
";
    let result = parse_delegated_prefix(content);
    assert_eq!(result, Some(net6("2001:db8:1::/56")));
}

#[test]
fn test_parse_delegated_prefix_not_found() {
    let content = "ADDRESS=192.168.1.1\nLIFETIME=86400\n";
    assert!(parse_delegated_prefix(content).is_none());
}

#[test]
fn test_parse_delegated_prefix_invalid_prefix() {
    let content = "X-DELEGATED-PREFIX=not-a-prefix\n";
    assert!(parse_delegated_prefix(content).is_none());
}

#[test]
fn test_parse_delegated_prefix_empty() {
    assert!(parse_delegated_prefix("").is_none());
}

#[test]
fn test_parse_delegated_prefix_trailing_whitespace() {
    let content = "X-DELEGATED-PREFIX=2001:db8::/32  \n";
    let result = parse_delegated_prefix(content);
    assert_eq!(result, Some(net6("2001:db8::/32")));
}

#[test]
fn test_parse_lease_file_nonexistent() {
    assert!(lease_event(None).is_none());
}

#[test]
fn test_parse_lease_file_with_tempfile() {
    let content = "# systemd lease\nADDRESS=2001:db8::1\nX-DELEGATED-PREFIX=2001:db8::/48\n";
    assert!(matches!(
        lease_event(Some(content)),
        Some(LeaseEvent(p)) if p == net6("2001:db8::/48")
    ));
}

#[test]
fn what_stands_behind_the_key_is_trimmed() {
    let text = delegated_prefix_text("A=1\r\nX-DELEGATED-PREFIX= \t2001:db8::/32 \u{3000}\nB=2\n");
    assert_eq!(text, Some("2001:db8::/32"));
}

#[test]
fn lease_files() {
    assert!(concerns_lease(Some("5"), 5));
    assert!(!concerns_lease(Some("15"), 5));
    assert!(!concerns_lease(None, 5));
    assert_eq!(lease_file_path(Some(12)), Some("/run/systemd/netif/leases/12".to_string()));
    assert_eq!(lease_file_path(None), None);
    assert!(matches!(
        lease_event(Some("X-DELEGATED-PREFIX=2001:db8::/48\n")),
        Some(LeaseEvent(p)) if p == net6("2001:db8::/48")
    ));
    assert!(lease_event(Some("X=1\n")).is_none());
    assert!(lease_event(None).is_none());
}

fn entry(interface: &str, address: Option<IfAddress>) -> IfAddrEntry {
    IfAddrEntry { interface: interface.to_string(), address }
}

#[test]
fn addresses_of_an_interface() {
    let iface = "eth0".to_string();
    let mac = [2u8, 0, 0, 0, 0, 7];
    let list = vec![
        entry("lo", Some(IfAddress::Inet6(v6("fe80::ffff")))),
        entry("eth0", Some(IfAddress::Link { len: 6, bytes: mac })),
        entry("eth0", Some(IfAddress::Inet6(v6("2001:db8::1")))),
        entry("eth0", Some(IfAddress::Inet6(v6("febf::1")))),
    ];
    assert_eq!(get_link_local_addr(&list, &iface), Some(v6("febf::1")));
    assert_eq!(get_mac_addr(&list, &iface), mac);
    assert_eq!(get_link_local_addr(&list, &"eth1".to_string()), None);
    assert_eq!(get_mac_addr(&list, &"eth1".to_string()), [0; 6]);
    let bare = vec![entry("eth0", None), list[3].clone()];
    assert_eq!(get_link_local_addr(&bare, &iface), Some(v6("febf::1")));
    assert_eq!(get_link_local_addr(&vec![entry("eth0", None)], &iface), None);
}

#[test]
fn identifiers() {
    let duid = new_duid(946_684_800 + 258, [1, 2, 3, 4, 5, 6]);
    assert_eq!(duid, vec![0, 1, 0, 1, 0, 0, 1, 2, 1, 2, 3, 4, 5, 6]);
    let list = vec![entry("eth0", Some(IfAddress::Link { len: 6, bytes: [1, 2, 3, 4, 5, 6] }))];
    let iface = "eth0".to_string();
    let first = load_or_create_duid(None, &list, &iface, 946_684_800 + 258);
    assert_eq!((first.bytes.clone(), first.is_new), (duid, true));
    let again = load_or_create_duid(Some(first.bytes.clone()), &vec![], &iface, 0);
    assert_eq!((again.bytes, again.is_new), (first.bytes, false));
    assert!(load_or_create_duid(Some(vec![0, 1, 0]), &list, &iface, 0).is_new);
    assert_eq!(new_duid(0, [0; 6])[4..8], [0, 0, 0, 0]);
    assert_eq!(get_iaid(Some(3)), 3);
    assert_eq!(get_iaid(None), 0);
}
