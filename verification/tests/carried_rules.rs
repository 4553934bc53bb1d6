//! Rules as an option carries them, and their port sets.

use mapecd::dhcpv6::option_mape::S46Rule;
use mapecd::mape::address::PortSet;
use mapecd::mape::error::MapeError;
use mapecd::mape::rule::MapeRule;
use mapecd::net::{Ipv4Addr, Ipv6Addr, Ipv6Net};

fn net6(text: &str) -> Ipv6Net {
    let n: ipnet::Ipv6Net = text.parse().unwrap();
    Ipv6Net::new(Ipv6Addr { bits: u128::from(n.addr()) }, n.prefix_len()).unwrap()
}

fn rule(psid_offset: Option<u8>, psid_len: Option<u8>, psid: Option<u16>) -> MapeRule {
    let bmr = S46Rule {
        is_fmr: false,
        ea_len: 16,
        ipv4_prefix_len: 24,
        ipv4_prefix: Ipv4Addr { bits: 0xc000_0264 },
        ipv6_prefix: net6("2001:db8::/32"),
        psid_offset,
        psid_len,
        psid,
    };
    MapeRule::new(bmr, net6("2001:db8:6405:1::/48"))
}

#[test]
fn ea_bits_join_address_and_psid() {
    let r = rule(Some(4), Some(8), Some(5));
    assert_eq!(r.extract_ea_bits().unwrap(), 0x6405);
    assert_eq!(r.ipv4_address(), Ipv4Addr { bits: 0xc000_0264 });
    assert_eq!((r.psid_offset(), r.psid_len(), r.psid()), (4, 8, 5));
    let bare = rule(None, None, None);
    assert_eq!((bare.psid_offset(), bare.psid_len(), bare.psid()), (6, 0, 0));
    assert_eq!(bare.extract_ea_bits().unwrap(), 0x6400);
}

#[test]
fn a_map_address_is_prefix_ea_bits_and_identifier() {
    let r = rule(Some(4), Some(8), Some(5));
    let expected = net6("2001:db8:6405::c000:264:500/128").addr;
    assert_eq!(r.map_ipv6_address().unwrap(), expected);
    // The delegated prefix has no part in it.
    let moved = MapeRule::new(r.bmr, net6("2001:db9::/48"));
    assert_eq!(moved.map_ipv6_address().unwrap(), expected);
    let mut long = r;
    long.bmr.ipv6_prefix = net6("2001:db8::/112");
    assert_eq!(long.map_ipv6_address().unwrap(), net6("2001:db8::6405/128").addr);
    // Without room for the EA bits it is the network of the delegated prefix.
    long.bmr.ipv6_prefix = net6("2001:db8::/113");
    long.ce_ipv6_prefix = net6("2001:db8:6405:ffff::/48");
    assert_eq!(long.map_ipv6_address().unwrap(), net6("2001:db8:6405::/128").addr);
    let mut bare = rule(None, None, None);
    bare.bmr.ipv6_prefix = net6("::/0");
    bare.bmr.ea_len = 0;
    assert_eq!(bare.map_ipv6_address().unwrap(), net6("::c000:264:0/128").addr);
    bare.bmr.ea_len = 128;
    bare.bmr.ipv4_prefix_len = 32;
    bare.bmr.psid = Some(7);
    assert_eq!(bare.extract_ea_bits().unwrap(), 7);
    assert_eq!(bare.map_ipv6_address().unwrap(), net6("::7/128").addr);
}

#[test]
fn an_ea_value_that_fits_stands_in_the_address() {
    let r = rule(Some(4), Some(8), Some(255));
    let bits = r.map_ipv6_address().unwrap().bits;
    assert_eq!((bits >> 80) as u64 & 0xffff, r.extract_ea_bits().unwrap());
    // A PSID wider than its room loses its first bits there.
    let mut wide = r;
    wide.bmr.ipv4_prefix_len = 32;
    wide.bmr.ea_len = 4;
    let bits = wide.map_ipv6_address().unwrap().bits;
    assert_eq!(wide.extract_ea_bits().unwrap(), 255);
    assert_eq!((bits >> 92) as u64 & 0xf, 15);
}

#[test]
fn all_ports_are_65536() {
    let set = PortSet { offset: 0, psid_len: 0, psid: 0, ranges: vec![0u16..=65535u16] };
    assert_eq!(set.total_ports(), 65536);
}

#[test]
fn a_port_set_holds_the_ports_of_its_psid() {
    let set = PortSet::from_rule(&rule(Some(4), Some(8), Some(5))).unwrap();
    assert_eq!((set.offset, set.psid_len, set.psid), (4, 8, 5));
    assert_eq!(set.total_ports(), 240);
    for r in &set.ranges {
        for p in r.clone() {
            assert_eq!(p / 16 % 256, 5);
            assert!(p >= 4096);
        }
    }
}

#[test]
fn without_a_psid_the_set_is_all_high_ports() {
    let set = PortSet::from_rule(&rule(None, None, None)).unwrap();
    assert_eq!(set.ranges, vec![1024u16..=65535u16]);
    assert_eq!(set.total_ports(), 64512);
}

#[test]
fn a_psid_must_fit_its_length() {
    let e = PortSet::from_rule(&rule(Some(4), Some(3), Some(8))).unwrap_err();
    assert!(matches!(e, MapeError::InvalidPsid { psid: 8, psid_len: 3 }));
    assert!(e.message().ends_with("psid=8, psid_len=3"));
    assert!(PortSet::from_rule(&rule(Some(4), Some(3), Some(7))).is_ok());
}

#[test]
fn error_texts() {
    let text = || "x".to_string();
    assert!(MapeError::InvalidIpv6Prefix(text()).message().ends_with(": x"));
    assert!(MapeError::InvalidIpv4Prefix(text()).message().ends_with(": x"));
    assert!(MapeError::EaBitsCalcError(text()).message().ends_with(": x"));
}
