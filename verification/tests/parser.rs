//! Rules and prefixes in replies.

use mapecd::dhcpv6::option_mape::{
    parse_portparams, MapeContainerOption, OPTION_S46_BR, OPTION_S46_CONT_MAPE,
    OPTION_S46_PORTPARAMS, OPTION_S46_RULE,
};
use mapecd::dhcpv6::packet::{parse_reply, Dhcpv6Error, MessageType};
use mapecd::dhcpv6::parser::{
    complement_timer, parse_ia_pd, parse_ia_pd_info, parse_mape_container, parse_s46_br,
    parse_s46_cont_mape, parse_s46_rule,
};
use mapecd::dhcpv6::tlv::iter_opts;
use mapecd::error::MapEError;
use mapecd::map::rule::PortParams;
use mapecd::net::{Ipv4Addr, Ipv4Net, Ipv6Addr, Ipv6Net};

fn net6(text: &str) -> Ipv6Net {
    let n: ipnet::Ipv6Net = text.parse().unwrap();
    Ipv6Net::new(Ipv6Addr { bits: u128::from(n.addr()) }, n.prefix_len()).unwrap()
}

fn net4(text: &str) -> Ipv4Net {
    let n: ipnet::Ipv4Net = text.parse().unwrap();
    Ipv4Net::new(Ipv4Addr { bits: u32::from(n.addr()) }, n.prefix_len()).unwrap()
}

fn v6(text: &str) -> Ipv6Addr {
    net6(&format!("{text}/128")).addr
}

fn opt(code: u16, data: &[u8]) -> Vec<u8> {
    let mut v = Vec::new();
    v.extend_from_slice(&code.to_be_bytes());
    v.extend_from_slice(&(data.len() as u16).to_be_bytes());
    v.extend_from_slice(data);
    v
}

fn reply_msg(options: &[u8]) -> Vec<u8> {
    let mut v = vec![0x07, 0x12, 0x34, 0x56];
    v.extend_from_slice(options);
    v
}

fn s46_br_payload(addr: Ipv6Addr) -> Vec<u8> {
    addr.bits.to_be_bytes().to_vec()
}

fn s46_portparams_payload(offset: u8, psid_len: u8, psid: u16) -> Vec<u8> {
    let psid_field = if psid_len == 0 { 0u16 } else { psid << (16 - psid_len) };
    let mut v = vec![offset, psid_len];
    v.extend_from_slice(&psid_field.to_be_bytes());
    v
}

fn s46_rule_payload(
    flags: u8,
    ea_len: u8,
    ipv4: &str,
    prefix4_len: u8,
    ipv6: &str,
    prefix6_len: u8,
    portparams: Option<Vec<u8>>,
) -> Vec<u8> {
    let ipv4_bytes = net4(&format!("{ipv4}/32")).addr.bits.to_be_bytes();
    let ipv4_bytes_len = ((prefix4_len as usize) + 7) / 8;
    let ipv6_bytes = v6(ipv6).bits.to_be_bytes();
    let ipv6_bytes_len = ((prefix6_len as usize) + 7) / 8;

    let mut v = vec![flags, ea_len, prefix4_len];
    v.extend_from_slice(&ipv4_bytes[..ipv4_bytes_len]);
    v.push(prefix6_len);
    v.extend_from_slice(&ipv6_bytes[..ipv6_bytes_len]);

    if let Some(pp) = portparams {
        v.extend_from_slice(&opt(OPTION_S46_PORTPARAMS, &pp));
    }
    v
}

fn mape_reply(br: Ipv6Addr, rules: Vec<Vec<u8>>) -> Vec<u8> {
    let mut container_payload = opt(OPTION_S46_BR, &s46_br_payload(br));
    for rule_data in rules {
        container_payload.extend_from_slice(&opt(OPTION_S46_RULE, &rule_data));
    }
    reply_msg(&opt(OPTION_S46_CONT_MAPE, &container_payload))
}

#[test]
fn test_parse_mape_single_rule() {
    let br = v6("2001:db8::1");
    let pp = s46_portparams_payload(4, 8, 0);
    let rule = s46_rule_payload(0x01, 16, "192.0.2.0", 24, "2001:db8::", 32, Some(pp));
    let msg = mape_reply(br, vec![rule]);

    let result = parse_mape_container(&msg).unwrap().unwrap();
    assert_eq!(result.len(), 1);

    let r = &result[0];
    assert_eq!(r.br_address, br);
    assert!(r.is_fmr);
    assert_eq!(r.ea_length, 16);
    assert_eq!(r.ipv4_prefix, net4("192.0.2.0/24"));
    assert_eq!(r.ipv6_prefix, net6("2001:db8::/32"));
    assert_eq!(r.port_params, PortParams { psid_offset: 4, psid_length: 8 });
}

#[test]
fn test_parse_mape_multiple_rules() {
    let br = v6("2001:db8::1");
    let rule1 = s46_rule_payload(0x01, 16, "192.0.2.0", 24, "2001:db8::", 32, None);
    let rule2 = s46_rule_payload(0x01, 8, "203.0.113.0", 24, "2001:db8:1::", 48, None);
    let msg = mape_reply(br, vec![rule1, rule2]);

    let result = parse_mape_container(&msg).unwrap().unwrap();
    assert_eq!(result.len(), 2);
}

#[test]
fn test_parse_mape_no_container_returns_none() {
    let msg = reply_msg(&[]);
    let result = parse_mape_container(&msg).unwrap();
    assert!(result.is_none());
}

#[test]
fn test_parse_mape_missing_br_returns_error() {
    let rule = s46_rule_payload(0x01, 16, "192.0.2.0", 24, "2001:db8::", 32, None);
    let rule_opt = opt(OPTION_S46_RULE, &rule);
    let cont = opt(OPTION_S46_CONT_MAPE, &rule_opt);
    let msg = reply_msg(&cont);

    let result = parse_mape_container(&msg);
    assert!(matches!(result, Err(MapEError::MissingBrAddress)));
}

#[test]
fn test_parse_mape_no_portparams_uses_default() {
    let br = v6("2001:db8::1");
    let rule = s46_rule_payload(0x00, 8, "192.0.2.0", 24, "2001:db8::", 32, None);
    let msg = mape_reply(br, vec![rule]);

    let result = parse_mape_container(&msg).unwrap().unwrap();
    assert_eq!(result[0].port_params, PortParams::default());
    assert!(!result[0].is_fmr);
}

#[test]
fn test_parse_mape_ipv4_prefix_length_boundary() {
    let br = v6("2001:db8::1");
    let rule = s46_rule_payload(0x01, 0, "192.0.2.1", 32, "2001:db8::", 32, None);
    let msg = mape_reply(br, vec![rule]);

    let result = parse_mape_container(&msg).unwrap().unwrap();
    assert_eq!(result[0].ipv4_prefix, net4("192.0.2.1/32"));
}

#[test]
fn test_parse_mape_ipv6_prefix_length_40bit() {
    let br = v6("2001:db8::1");
    let rule = s46_rule_payload(0x01, 16, "192.0.2.0", 24, "2409:250::", 40, None);
    let msg = mape_reply(br, vec![rule]);

    let result = parse_mape_container(&msg).unwrap().unwrap();
    assert_eq!(result[0].ipv6_prefix.prefix_len, 40);
}

#[test]
fn test_parse_mape_malformed_data_returns_none() {
    let result = parse_mape_container(&[0xFF, 0xAA]).unwrap();
    assert!(result.is_none());
}

fn iaprefix_opt(preferred: u32, valid: u32, prefix_len: u8, prefix: Ipv6Addr) -> Vec<u8> {
    let mut data = Vec::new();
    data.extend_from_slice(&preferred.to_be_bytes());
    data.extend_from_slice(&valid.to_be_bytes());
    data.push(prefix_len);
    data.extend_from_slice(&prefix.bits.to_be_bytes());
    opt(26, &data)
}

fn iapd_reply(iaid: u32, t1: u32, t2: u32, iaprefix: &[u8]) -> Vec<u8> {
    let mut iapd_data = Vec::new();
    iapd_data.extend_from_slice(&iaid.to_be_bytes());
    iapd_data.extend_from_slice(&t1.to_be_bytes());
    iapd_data.extend_from_slice(&t2.to_be_bytes());
    iapd_data.extend_from_slice(iaprefix);
    reply_msg(&opt(25, &iapd_data))
}

#[test]
fn test_parse_ia_pd_basic() {
    let iap = iaprefix_opt(1800, 3600, 48, v6("2001:db8:6401::"));
    let msg = iapd_reply(1, 900, 1500, &iap);

    let prefix = parse_ia_pd(&msg, None).unwrap();
    assert_eq!(prefix, net6("2001:db8:6401::/48"));
}

#[test]
fn test_parse_ia_pd_iaid_match() {
    let iap = iaprefix_opt(1800, 3600, 48, v6("2001:db8:6401::"));
    let msg = iapd_reply(42, 900, 1500, &iap);

    let prefix = parse_ia_pd(&msg, Some(42)).unwrap();
    assert_eq!(prefix.prefix_len, 48);

    let none = parse_ia_pd(&msg, Some(1));
    assert!(none.is_none());
}

#[test]
fn test_parse_ia_pd_no_iapd_returns_none() {
    let msg = reply_msg(&[]);
    assert!(parse_ia_pd(&msg, None).is_none());
}

#[test]
fn test_parse_ia_pd_info_t1_t2_zero_complemented() {
    let iap = iaprefix_opt(1800, 3600, 48, v6("2001:db8:6401::"));
    let msg = iapd_reply(1, 0, 0, &iap);

    let info = parse_ia_pd_info(&msg, None).unwrap();
    assert_eq!(info.valid_lifetime, 3600);
    assert_eq!(info.t1, 3600 / 2);
    assert_eq!(info.t2, 3600 * 4 / 5);
}

#[test]
fn test_parse_ia_pd_info_t1_t2_explicit() {
    let iap = iaprefix_opt(1800, 3600, 48, v6("2001:db8:6401::"));
    let msg = iapd_reply(1, 900, 1500, &iap);

    let info = parse_ia_pd_info(&msg, None).unwrap();
    assert_eq!(info.t1, 900);
    assert_eq!(info.t2, 1500);
}

#[test]
fn test_parse_ia_pd_info_infinite_lifetime() {
    let iap = iaprefix_opt(u32::MAX, u32::MAX, 48, v6("2001:db8:6401::"));
    let msg = iapd_reply(1, 0, 0, &iap);

    let info = parse_ia_pd_info(&msg, None).unwrap();
    assert_eq!(info.t1, u32::MAX);
    assert_eq!(info.t2, u32::MAX);
    assert_eq!(info.valid_lifetime, u32::MAX);
}

#[test]
fn a_failed_association_delegates_nothing() {
    let mut data = Vec::new();
    data.extend_from_slice(&iaprefix_opt(1800, 3600, 48, v6("2001:db8:6401::")));
    data.extend_from_slice(&opt(13, &[0, 6]));
    assert!(parse_ia_pd(&iapd_reply(1, 0, 0, &data), None).is_none());
    let mut fine = iaprefix_opt(1800, 3600, 48, v6("2001:db8:6401::"));
    fine.extend_from_slice(&opt(13, &[0, 0]));
    assert!(parse_ia_pd(&iapd_reply(1, 0, 0, &fine), None).is_some());
}

#[test]
fn timers_are_complemented_from_the_lifetime() {
    assert_eq!(complement_timer(7, 100, 2), 7);
    assert_eq!(complement_timer(0, 101, 2), 50);
    assert_eq!(complement_timer(0, u32::MAX, 2), u32::MAX);
}

#[test]
fn a_rule_that_is_cut_short_is_refused() {
    let br = v6("2001:db8::1");
    let payload = s46_rule_payload(0x01, 16, "192.0.2.0", 24, "2001:db8::", 32, None);
    assert!(parse_s46_rule(&payload, br).is_ok());
    for n in 0..payload.len() {
        assert!(parse_s46_rule(&payload[..n], br).is_err());
    }
    let mut long = payload.clone();
    long[2] = 33;
    assert!(parse_s46_rule(&long, br).is_err());
}

#[test]
fn the_first_sixteen_bytes_are_the_border_relay() {
    let br = v6("2001:db8::1");
    let mut data = s46_br_payload(br);
    assert_eq!(parse_s46_br(&data), Some(br));
    data.push(7);
    assert_eq!(parse_s46_br(&data), Some(br));
    assert_eq!(parse_s46_br(&data[..15]), None);
}

#[test]
fn rules_share_the_border_relay_of_their_container() {
    let br = v6("2001:db8::1");
    let rule = s46_rule_payload(0x01, 16, "192.0.2.0", 24, "2001:db8::", 32, None);
    let mut payload = opt(OPTION_S46_RULE, &rule);
    payload.extend_from_slice(&opt(OPTION_S46_BR, &s46_br_payload(br)));
    let rules = parse_s46_cont_mape(&payload).unwrap();
    assert_eq!(rules.len(), 1);
    assert_eq!(rules[0].br_address, br);
}

#[test]
fn options_end_at_the_first_that_is_cut_short() {
    let mut bytes = opt(1, &[9, 8]);
    bytes.extend_from_slice(&opt(2, &[]));
    bytes.extend_from_slice(&[0, 3, 0, 5, 1]);
    let found = iter_opts(&bytes);
    assert_eq!(found.len(), 2);
    assert_eq!((found[0].code, found[0].data), (1, &[9u8, 8][..]));
    assert_eq!((found[1].code, found[1].data.len()), (2, 0));
}

#[test]
fn the_fixed_part_of_a_message() {
    let p = parse_reply(&[7, 1, 2, 3, 4, 5]).unwrap();
    assert_eq!(p.msg_type, MessageType::Reply.code());
    assert_eq!(p.transaction_id, [1, 2, 3]);
    assert_eq!(p.options_raw, vec![4, 5]);
    assert!(matches!(parse_reply(&[7, 1, 2]), Err(Dhcpv6Error::Parse(_))));
    assert_eq!(MessageType::Solicit.code(), 1);
    assert_eq!(MessageType::Advertise.code(), 2);
    assert_eq!(MessageType::Request.code(), 3);
}

fn strict_rule(prefix6_len: u8, prefix6: &[u8], more: &[u8]) -> Vec<u8> {
    let mut v = vec![1, 16, 24, 192, 0, 2, 0, prefix6_len];
    v.extend_from_slice(prefix6);
    v.extend_from_slice(more);
    opt(OPTION_S46_RULE, &v)
}

#[test]
fn a_container_read_strictly() {
    let ports = opt(OPTION_S46_PORTPARAMS, &s46_portparams_payload(4, 8, 5));
    let mut data = strict_rule(32, &[0x20, 0x01, 0x0d, 0xb8], &ports);
    data.extend_from_slice(&opt(OPTION_S46_BR, &s46_br_payload(v6("2001:db8::1"))));
    let c = MapeContainerOption::parse(&data).unwrap();
    assert_eq!(c.br_addresses, vec![v6("2001:db8::1")]);
    assert_eq!(c.rules.len(), 1);
    let r = &c.rules[0];
    assert!(r.is_fmr);
    assert_eq!((r.ea_len, r.ipv4_prefix_len), (16, 24));
    assert_eq!(r.ipv4_prefix, net4("192.0.2.0/24").addr);
    assert_eq!(r.ipv6_prefix, net6("2001:db8::/32"));
    assert_eq!((r.psid_offset, r.psid_len, r.psid), (Some(4), Some(8), Some(0x500)));
}

#[test]
fn a_container_that_breaks_a_rule_is_refused() {
    assert!(MapeContainerOption::parse(&opt(OPTION_S46_RULE, &[0; 7])).is_err());
    assert!(MapeContainerOption::parse(&strict_rule(32, &[0x20, 0x01], &[])).is_err());
    assert!(MapeContainerOption::parse(&strict_rule(129, &[0; 17], &[])).is_err());
    assert!(MapeContainerOption::parse(&opt(OPTION_S46_BR, &[0; 15])).is_err());
    let cut = [0u8, 89, 0, 9, 1];
    match MapeContainerOption::parse(&cut) {
        Err(Dhcpv6Error::Parse(text)) => {
            assert!(text.ends_with("code=89, len=9, remaining=1"))
        }
        Ok(_) => panic!("an option that is cut short was read"),
    }
}

#[test]
fn port_parameters_need_four_bytes() {
    assert_eq!(parse_portparams(&opt(OPTION_S46_PORTPARAMS, &[4, 8, 5])), (None, None, None));
    assert_eq!(
        parse_portparams(&opt(OPTION_S46_PORTPARAMS, &[4, 8, 5, 0])),
        (Some(4), Some(8), Some(0x500))
    );
}
