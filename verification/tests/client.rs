//! The client and its exchange with a server.

use std::sync::Arc;

use mapecd::config::{Config, RawConfig};
use mapecd::dhcpv6::client::{
    read_answer, Answered, Client, ClientReceiver, Destination, Heard, Input, Offer, Output, Phase,
    Wait,
};
use mapecd::dhcpv6::event::DhcpV6Event;
use mapecd::dhcpv6::exchange::{
    build_rebind, build_release, build_renew, build_request, build_solicit, lease_from_contents,
    parse_advertise, parse_reply, process_reply, Association, ReplyError,
};
use mapecd::dhcpv6::wire::{
    find_option, read_message, Contents, DelegatedPrefix, Delegation, Wanted, WireOption,
};
use mapecd::net::{Ipv6Addr, Ipv6Net};

const DUID: [u8; 4] = [0, 1, 2, 3];
const SERVER: [u8; 3] = [9, 8, 7];
const XID: [u8; 3] = [1, 2, 3];

fn net6(text: &str) -> Ipv6Net {
    let n: ipnet::Ipv6Net = text.parse().unwrap();
    Ipv6Net::new(Ipv6Addr { bits: u128::from(n.addr()) }, n.prefix_len()).unwrap()
}

fn opt(code: u16, data: &[u8]) -> Vec<u8> {
    let mut v = code.to_be_bytes().to_vec();
    v.extend_from_slice(&(data.len() as u16).to_be_bytes());
    v.extend_from_slice(data);
    v
}

fn ia_pd(iaid: u32, t1: u32, t2: u32, valid: u32, prefix: Ipv6Net) -> Vec<u8> {
    let mut inner = valid.to_be_bytes().to_vec();
    inner.extend_from_slice(&valid.to_be_bytes());
    inner.push(prefix.prefix_len);
    inner.extend_from_slice(&prefix.addr.bits.to_be_bytes());
    let mut data = iaid.to_be_bytes().to_vec();
    data.extend_from_slice(&t1.to_be_bytes());
    data.extend_from_slice(&t2.to_be_bytes());
    data.extend_from_slice(&opt(26, &inner));
    opt(25, &data)
}

fn container() -> Vec<u8> {
    let mut payload = opt(90, &net6("2001:db8::1/128").addr.bits.to_be_bytes());
    payload.extend_from_slice(&opt(
        89,
        &[1, 16, 24, 192, 0, 2, 32, 0x20, 0x01, 0x0d, 0xb8],
    ));
    opt(94, &payload)
}

fn message(msg_type: u8, xid: [u8; 3], options: &[Vec<u8>]) -> Vec<u8> {
    let mut m = vec![msg_type];
    m.extend_from_slice(&xid);
    for o in options {
        m.extend_from_slice(o);
    }
    m
}

fn prefix() -> Ipv6Net {
    net6("2001:db8:6401::/48")
}

#[test]
fn a_solicit_on_the_wire() {
    let sent = build_solicit(&DUID.to_vec(), 5, XID);
    let mut expected = vec![1, 1, 2, 3];
    expected.extend_from_slice(&opt(1, &DUID));
    expected.extend_from_slice(&opt(6, &[0, 25, 0, 94]));
    expected.extend_from_slice(&opt(25, &[0, 0, 0, 5, 0, 0, 0, 0, 0, 0, 0, 0]));
    assert_eq!(sent, expected);
}

#[test]
fn later_messages_on_the_wire() {
    let a = Association { id: 5, t1: 6, t2: 7 };
    let duid = DUID.to_vec();
    let server = SERVER.to_vec();
    let ia = opt(25, &[0, 0, 0, 5, 0, 0, 0, 6, 0, 0, 0, 7]);
    let renew = build_renew(&duid, &server, XID, a);
    assert_eq!(
        renew,
        message(5, XID, &[opt(1, &DUID), opt(2, &SERVER), opt(6, &[0, 25, 0, 94]), ia.clone()])
    );
    let rebind = build_rebind(&duid, XID, a);
    assert_eq!(rebind, message(6, XID, &[opt(1, &DUID), opt(6, &[0, 25, 0, 94]), ia.clone()]));
    let release = build_release(&duid, &server, XID, a);
    assert_eq!(release, message(8, XID, &[opt(1, &DUID), opt(2, &SERVER), ia]));
}

#[test]
fn a_request_repeats_the_offer() {
    let offer = message(2, XID, &[opt(2, &SERVER), ia_pd(5, 6, 7, 100, prefix())]);
    let adv = parse_advertise(&offer, XID).unwrap();
    assert_eq!(adv.server_id(), Some(SERVER.to_vec()));
    let ia = adv.ia_pd(None).unwrap();
    let sent = build_request(&DUID.to_vec(), &SERVER.to_vec(), XID, ia).unwrap();
    assert_eq!(
        sent,
        message(
            3,
            XID,
            &[
                opt(1, &DUID),
                opt(2, &SERVER),
                opt(6, &[0, 25, 0, 94]),
                ia_pd(5, 6, 7, 100, prefix())
            ]
        )
    );
}

#[test]
fn answers_are_told_by_type_transaction_and_status() {
    let offer = message(2, XID, &[opt(2, &SERVER)]);
    assert!(parse_advertise(&offer, XID).is_some());
    assert!(parse_advertise(&offer, [1, 2, 4]).is_none());
    assert!(parse_advertise(&message(7, XID, &[]), XID).is_none());
    assert!(parse_advertise(&message(2, XID, &[opt(13, &[0, 2])]), XID).is_none());
    assert!(parse_advertise(&message(2, XID, &[opt(13, &[0, 0])]), XID).is_some());
    assert!(parse_advertise(&[2, 1], XID).is_none());
    assert!(parse_reply(&message(7, XID, &[]), XID).is_some());
    assert!(parse_reply(&message(7, XID, &[]), [0, 0, 0]).is_none());
    assert!(parse_reply(&offer, XID).is_none());
}

#[test]
fn a_lease_is_taken_out_of_a_reply() {
    let unicast = net6("2001:db8::53/128").addr;
    let reply = message(
        7,
        XID,
        &[
            ia_pd(5, 0, 0, 100, prefix()),
            container(),
            opt(12, &unicast.bits.to_be_bytes()),
        ],
    );
    let lease = process_reply(&reply, 5, SERVER.to_vec()).unwrap();
    assert_eq!(lease.prefix, prefix());
    assert_eq!((lease.t1, lease.t2, lease.valid_lifetime), (50, 80, 100));
    assert_eq!(lease.rules.len(), 1);
    assert_eq!(lease.server_duid, SERVER.to_vec());
    assert_eq!(lease.server_unicast, Some(unicast));
    assert_eq!(lease.ia_pd_for_release, Association { id: 5, t1: 50, t2: 80 });
}

#[test]
fn replies_without_a_lease() {
    let fine = ia_pd(5, 0, 0, 100, prefix());
    let refused = message(7, XID, &[fine.clone(), opt(13, &[0, 6])]);
    assert_eq!(process_reply(&refused, 5, vec![]).unwrap_err(), ReplyError::Status(6));
    let other = message(7, XID, &[fine]);
    assert_eq!(process_reply(&other, 6, vec![]).unwrap_err(), ReplyError::NoPrefix);
    assert_eq!(process_reply(&[7], 5, vec![]).unwrap_err(), ReplyError::Undecodable);
    assert!(matches!(read_answer(&refused, XID, 5, &vec![]), Answered::Refused));
    assert!(matches!(read_answer(&other, XID, 6, &vec![]), Answered::NoLease));
    assert!(matches!(read_answer(&other, [0, 0, 0], 5, &vec![]), Answered::Foreign));
    assert!(matches!(read_answer(&other, XID, 5, &vec![]), Answered::Granted(_)));
}

#[test]
fn a_message_read_and_written_is_the_same() {
    let bytes = message(7, XID, &[ia_pd(5, 6, 7, 100, prefix()), container()]);
    let m = read_message(&bytes).unwrap();
    assert_eq!((m.msg_type(), m.xid()), (7, XID));
    assert_eq!(m.unknown(94).map(|d| d.len()), Some(container().len() - 4));
    assert_eq!(m.encode(), Some(bytes));
}

#[test]
fn an_option_can_be_as_long_as_its_length_field_lets_it() {
    // The fields take 12 bytes of an association, 25 of a prefix and 4 of vendor options.
    for (code, fields) in [(25u16, 12usize), (3, 12), (26, 25), (5, 24), (4, 4), (17, 4)] {
        for room in [65511, 65535 - fields] {
            if fields + room <= 65535 {
                let mut payload = vec![0u8; fields];
                payload.extend(opt(0x1234, &vec![7u8; room - 4]));
                let bytes = message(7, XID, &[opt(code, &payload)]);
                assert_eq!(read_message(&bytes).unwrap().encode(), Some(bytes));
            }
        }
    }
    let mut payload = vec![0u8; 12];
    payload.extend(opt(0x1234, &vec![7u8; 65519]));
    let offer = message(2, XID, &[opt(25, &payload)]);
    let ia = parse_advertise(&offer, XID).unwrap().ia_pd(None).unwrap();
    assert!(build_request(&DUID.to_vec(), &SERVER.to_vec(), XID, ia).is_some());
}

#[test]
fn an_option_that_is_too_short_ends_the_options() {
    let before = opt(2, &SERVER);
    let after = container();
    let cut = message(7, XID, &[before.clone(), opt(13, &[0]), after.clone()]);
    let m = read_message(&cut).unwrap();
    assert_eq!(m.server_id(), Some(SERVER.to_vec()));
    assert_eq!(m.status(), None);
    assert_eq!(m.unknown(94), None);
    let whole = message(7, XID, &[before.clone(), opt(13, &[0, 0]), after.clone()]);
    let m = read_message(&whole).unwrap();
    assert_eq!(m.status(), Some(0));
    assert!(m.unknown(94).is_some());
    // The same inside an association: what follows the association is still read.
    let mut inner = 5u32.to_be_bytes().to_vec();
    inner.extend_from_slice(&[0; 8]);
    inner.extend_from_slice(&opt(13, &[0]));
    inner.extend_from_slice(&opt(99, &[1, 2]));
    let nested = message(7, XID, &[opt(25, &inner), after]);
    let m = read_message(&nested).unwrap();
    assert!(m.unknown(94).is_some());
    assert!(!m.contents(Some(5)).delegation.unwrap().failed);
    // A status that is no text ends the options as well.
    let broken = message(7, XID, &[before, opt(13, &[0, 0, 0xff]), opt(13, &[0])]);
    assert_eq!(read_message(&broken).unwrap().server_id(), Some(SERVER.to_vec()));
}

#[test]
fn the_preference_of_an_offer() {
    let m = read_message(&message(2, XID, &[opt(7, &[255])])).unwrap();
    assert_eq!(m.preference(), 255);
    assert_eq!(read_message(&message(2, XID, &[])).unwrap().preference(), 0);
}

fn sent(out: &Output) -> &[u8] {
    &out.send.as_ref().unwrap().data
}

/// A client that holds a lease of `valid` seconds since the start of the clock.
fn bound(valid: u32) -> (Client, Output) {
    let client = Client::new(DUID.to_vec(), 5);
    let (client, out) = client.step(Input::Timeout, 0, [1, 1, 1]);
    assert_eq!(sent(&out), &build_solicit(&DUID.to_vec(), 5, [1, 1, 1])[..]);
    assert!(matches!(out.wait, Wait::Reply { timeout: 1, jitter: true, until: None }));
    let offer =
        message(2, [1, 1, 1], &[opt(2, &SERVER), ia_pd(5, 0, 0, valid, prefix()), container()]);
    let (client, out) = client.step(Input::Datagram(offer), 0, [2, 2, 2]);
    assert!(out.send.is_none());
    assert_eq!(out.wait, Wait::Reply { timeout: 1, jitter: false, until: Some(1000) });
    let (client, out) = client.step(Input::Deadline, 1000, [9, 9, 9]);
    assert_eq!(sent(&out)[..4], [3, 2, 2, 2]);
    assert!(matches!(out.wait, Wait::Reply { timeout: 10, jitter: false, until: None }));
    let reply = message(7, [2, 2, 2], &[ia_pd(5, 0, 0, valid, prefix()), container()]);
    client.step(Input::Datagram(reply), 0, [3, 3, 3])
}

#[test]
fn the_way_to_a_lease() {
    let (client, out) = bound(100);
    let notice = out.notice.unwrap();
    assert!(notice.must_reach);
    assert!(matches!(
        notice.event,
        DhcpV6Event::Both { rules, ia_pd } if rules.len() == 1 && ia_pd == prefix()
    ));
    assert_eq!(out.wait, Wait::Until(50_000));
    assert!(out.send.is_none());
    assert!(matches!(client.phase, Phase::Bound(_)));
}

/// A client that has sent its first Solicit.
fn soliciting() -> Client {
    Client::new(DUID.to_vec(), 5).step(Input::Timeout, 0, XID).0
}

fn offer_of(server: &[u8], preference: u8) -> Input {
    Input::Datagram(message(
        2,
        XID,
        &[opt(2, server), opt(7, &[preference]), ia_pd(5, 0, 0, 100, prefix())],
    ))
}

#[test]
fn the_first_offer_is_taken_up_after_a_second() {
    let (client, out) = soliciting().step(offer_of(&[1], 3), 200, [2, 2, 2]);
    assert!(out.send.is_none());
    let (client, out) = client.step(offer_of(&[2], 200), 400, [3, 3, 3]);
    assert!(out.send.is_none());
    assert_eq!(out.wait, Wait::Resume);
    let (client, out) = client.step(Input::Datagram(vec![1, 2]), 500, [4, 4, 4]);
    assert!(out.send.is_none());
    assert_eq!(out.wait, Wait::Resume);
    let (client, out) = client.step(Input::Deadline, 1000, [5, 5, 5]);
    assert_eq!(sent(&out)[..4], [3, 2, 2, 2]);
    assert!(matches!(client.phase, Phase::Requesting { server_duid, .. } if server_duid == [1]));
}

#[test]
fn the_highest_preference_is_not_waited_for() {
    let (client, out) = soliciting().step(offer_of(&[1], 255), 200, [2, 2, 2]);
    assert_eq!(sent(&out)[..4], [3, 2, 2, 2]);
    assert!(matches!(client.phase, Phase::Requesting { server_duid, .. } if server_duid == [1]));
    let (client, _) = soliciting().step(offer_of(&[1], 0), 200, [2, 2, 2]);
    let (client, out) = client.step(offer_of(&[2], 255), 300, [3, 3, 3]);
    assert_eq!(sent(&out)[..4], [3, 3, 3, 3]);
    assert!(matches!(client.phase, Phase::Requesting { server_duid, .. } if server_duid == [2]));
}

#[test]
fn later_offers_are_taken_up_at_once() {
    let (client, _) = soliciting().step(Input::Timeout, 1000, [9, 9, 9]);
    let (_, out) = client.step(offer_of(&[1], 0), 1000, [2, 2, 2]);
    assert_eq!(sent(&out)[..4], [3, 2, 2, 2]);
}

#[test]
fn a_first_lease_without_rules_keeps_the_known_ones() {
    let (client, _) = soliciting().step(offer_of(&SERVER, 255), 0, [2, 2, 2]);
    let reply = message(7, [2, 2, 2], &[ia_pd(5, 0, 0, 100, prefix())]);
    let (_, out) = client.step(Input::Datagram(reply), 0, [3, 3, 3]);
    let notice = out.notice.unwrap();
    assert!(notice.must_reach);
    assert!(matches!(notice.event, DhcpV6Event::IaPdReceived(p) if p == prefix()));
}

#[test]
fn a_refusal_makes_the_client_start_over() {
    let (client, _) = bound(100);
    let (client, _) = client.step(Input::Deadline, 50_000, [4, 4, 4]);
    let refusal = message(7, [4, 4, 4], &[opt(13, &[0, 3])]);
    let (_, out) = client.clone().step(Input::Datagram(refusal), 51_000, [5, 5, 5]);
    assert_eq!(sent(&out)[..4], [1, 5, 5, 5]);
    let empty = message(7, [4, 4, 4], &[]);
    let (client, out) = client.step(Input::Datagram(empty.clone()), 51_000, [5, 5, 5]);
    assert!(out.send.is_none());
    assert_eq!(out.wait, Wait::Resume);
    let (client, out) = client.step(Input::Timeout, 61_000, [6, 6, 6]);
    assert_eq!(sent(&out)[..4], [5, 4, 4, 4]);
    let (client, _) = client.step(Input::Deadline, 80_000, [7, 7, 7]);
    let refusal = message(7, [7, 7, 7], &[opt(13, &[0, 3])]);
    let (_, out) = client.clone().step(Input::Datagram(refusal), 81_000, [8, 8, 8]);
    assert_eq!(sent(&out)[..4], [1, 8, 8, 8]);
    let empty = message(7, [7, 7, 7], &[]);
    let (_, out) = client.step(Input::Datagram(empty), 81_000, [8, 8, 8]);
    assert!(out.send.is_none());
    assert_eq!(out.wait, Wait::Resume);
}

#[test]
fn what_is_not_awaited_leaves_the_wait_running() {
    let reconfigure = |xid: [u8; 3]| Input::Datagram(message(10, xid, &[opt(2, &SERVER)]));
    let (requesting, _) = soliciting().step(offer_of(&SERVER, 255), 0, [2, 2, 2]);
    let (renewing, _) = bound(100).0.step(Input::Deadline, 50_000, [4, 4, 4]);
    let (rebinding, _) = renewing.clone().step(Input::Deadline, 80_000, [7, 7, 7]);
    for (client, xid, now) in [
        (soliciting(), XID, 100),
        (requesting, [2, 2, 2], 1_000),
        (renewing.clone(), [4, 4, 4], 51_000),
        (rebinding.clone(), [7, 7, 7], 81_000),
    ] {
        let before = format!("{:?}", client.phase);
        for input in [
            reconfigure(xid),
            Input::Datagram(message(7, [0, 9, 0], &[ia_pd(5, 0, 0, 100, prefix())])),
            Input::Datagram(vec![]),
        ] {
            let (after, out) = client.clone().step(input, now, [8, 8, 8]);
            assert!(out.send.is_none() && out.notice.is_none());
            assert_eq!(out.wait, Wait::Resume);
            assert_eq!(format!("{:?}", after.phase), before);
        }
    }
    // While a lease is kept, so does a failure to receive.
    for client in [renewing, rebinding] {
        let (after, out) = client.step(Input::Failure, 82_000, [8, 8, 8]);
        assert!(out.send.is_none());
        assert_eq!(out.wait, Wait::Resume);
        // Once the wait is over, the client asks again or starts over.
        assert!(after.step(Input::Timeout, 90_000, [9, 9, 9]).1.send.is_some());
    }
}

#[test]
fn solicits_back_off() {
    let mut client = Client::new(DUID.to_vec(), 5);
    let mut waits = vec![];
    for _ in 0..10 {
        let (c, out) = client.step(Input::Timeout, 0, XID);
        client = c;
        if let Wait::Reply { timeout, .. } = out.wait {
            waits.push(timeout);
        }
    }
    assert_eq!(waits, vec![1, 2, 4, 8, 16, 32, 64, 120, 120, 120]);
}

#[test]
fn a_lease_is_renewed_and_rebound() {
    let (client, _) = bound(100);
    let (client, out) = client.step(Input::Deadline, 50_000, [4, 4, 4]);
    assert_eq!(sent(&out)[..4], [5, 4, 4, 4]);
    assert_eq!(out.wait, Wait::Reply { timeout: 10, jitter: false, until: Some(80_000) });
    let (client, out) = client.step(Input::Timeout, 60_000, [5, 5, 5]);
    assert_eq!(sent(&out)[..4], [5, 4, 4, 4]);
    let renewed = message(7, [4, 4, 4], &[ia_pd(5, 0, 0, 100, prefix())]);
    let (again, out) = client.clone().step(Input::Datagram(renewed), 61_000, [6, 6, 6]);
    assert!(matches!(again.phase, Phase::Bound(_)));
    assert!(matches!(out.notice.unwrap().event, DhcpV6Event::IaPdReceived(p) if p == prefix()));
    assert_eq!(out.wait, Wait::Until(111_000));
    let (client, out) = client.step(Input::Deadline, 80_000, [7, 7, 7]);
    assert_eq!(sent(&out)[..4], [6, 7, 7, 7]);
    assert_eq!(out.wait, Wait::Reply { timeout: 10, jitter: false, until: Some(100_000) });
    let (client, out) = client.step(Input::Timeout, 90_000, [8, 8, 8]);
    assert_eq!(out.wait, Wait::Reply { timeout: 20, jitter: false, until: Some(100_000) });
    let (client, out) = client.step(Input::Deadline, 100_000, [9, 9, 9]);
    assert_eq!(sent(&out)[..4], [1, 9, 9, 9]);
    assert!(matches!(client.phase, Phase::Soliciting { rt: 1, .. }));
}

#[test]
fn a_lease_without_end_does_not_expire() {
    let (client, out) = bound(u32::MAX);
    assert_eq!(out.wait, Wait::Until(u32::MAX as u64 * 1000));
    match client.phase {
        Phase::Bound(h) => assert_eq!(h.expire_at, None),
        other => panic!("unexpected {other:?}"),
    }
}

#[test]
fn a_lease_is_given_back_at_the_end() {
    let (client, _) = bound(100);
    let (client, out) = client.step(Input::Cancelled, 10_000, [4, 4, 4]);
    assert_eq!(sent(&out)[..4], [8, 4, 4, 4]);
    assert_eq!(out.wait, Wait::Stop);
    assert_eq!(out.send.unwrap().to, Destination::AllServers);
    let (client, out) = client.step(Input::Timeout, 11_000, [5, 5, 5]);
    assert!(out.send.is_none());
    assert!(matches!(client.phase, Phase::Stopped));
    // One that has ended is not given back.
    let (client, _) = bound(100);
    let (client, out) = client.step(Input::Cancelled, 100_000, [4, 4, 4]);
    assert!(out.send.is_none());
    assert_eq!(out.wait, Wait::Stop);
    assert!(matches!(client.phase, Phase::Stopped));
}

#[test]
fn failures_pause_the_exchange() {
    let client = Client::new(DUID.to_vec(), 5);
    let (client, _) = client.step(Input::Timeout, 0, XID);
    let (client, out) = client.step(Input::Failure, 0, XID);
    assert_eq!(out.wait, Wait::Pause(5));
    let (client, out) = client.step(Input::Timeout, 5_000, XID);
    assert_eq!(sent(&out)[..4], [1, 1, 2, 3]);
    let nameless = message(2, XID, &[ia_pd(5, 0, 0, 100, prefix())]);
    let (client, out) = client.step(Input::Datagram(nameless), 5_000, XID);
    assert_eq!(out.wait, Wait::Pause(5));
    let (_, out) = client.step(Input::Cancelled, 5_000, XID);
    assert_eq!(out.wait, Wait::Stop);
}

#[test]
fn transactions_get_ids_of_their_own() {
    let mut seen: Vec<Vec<u8>> = vec![];
    for _ in 0..16 {
        let (_, out) = Client::new(DUID.to_vec(), 5).advance(Input::Timeout, 0);
        let id = sent(&out)[1..4].to_vec();
        if !seen.contains(&id) {
            seen.push(id);
        }
    }
    assert!(seen.len() > 1);
}

#[test]
fn a_receiver_keeps_its_configuration() {
    let raw = RawConfig {
        upstream_interface: "eth0".to_string(),
        tunnel_interface: "ip6tnl0".to_string(),
        tunnel_mtu: None,
        pid_file: None,
        map_rules_cache_file: None,
        duid_file: None,
        dhcpv6_mode: None,
        use_v6plus_static_rules: None,
    };
    let receiver = ClientReceiver::new(Arc::new(Config::from_raw(raw)));
    assert_eq!(receiver.config.upstream_interface, "eth0");
}

fn contents() -> Contents {
    Contents {
        status: None,
        server_unicast: Some(7),
        delegation: Some(Delegation {
            t1: 0,
            t2: 90,
            prefix: Some(DelegatedPrefix {
                valid_lifetime: 100,
                prefix_len: 48,
                prefix_ip: prefix().addr.bits + 1,
            }),
            failed: false,
        }),
        container: Some(container()[4..].to_vec()),
    }
}

#[test]
fn the_contents_of_a_reply() {
    let bytes = message(7, XID, &[ia_pd(5, 6, 7, 100, prefix()), container()]);
    let c = read_message(&bytes).unwrap().contents(Some(5));
    assert_eq!((c.status, c.server_unicast), (None, None));
    assert_eq!(c.container, Some(container()[4..].to_vec()));
    let d = c.delegation.unwrap();
    assert_eq!((d.t1, d.t2, d.failed), (6, 7, false));
    assert_eq!(d.prefix.unwrap().prefix_ip, prefix().addr.bits);
    assert!(read_message(&bytes).unwrap().contents(Some(6)).delegation.is_none());
}

#[test]
fn a_lease_is_taken_out_of_contents() {
    let lease = lease_from_contents(&contents(), 5, SERVER.to_vec()).unwrap();
    assert_eq!(lease.prefix, prefix());
    assert_eq!((lease.t1, lease.t2, lease.valid_lifetime), (50, 90, 100));
    assert_eq!(lease.server_unicast, Some(Ipv6Addr { bits: 7 }));
    assert_eq!(lease.rules.len(), 1);
    let broken = Contents { container: Some(vec![0, 89, 0, 0]), ..contents() };
    assert!(lease_from_contents(&broken, 5, vec![]).unwrap().rules.is_empty());
    let refused = Contents { status: Some(4), ..contents() };
    assert_eq!(lease_from_contents(&refused, 5, vec![]).unwrap_err(), ReplyError::Status(4));
    let fine = Contents { status: Some(0), ..contents() };
    assert!(lease_from_contents(&fine, 5, vec![]).is_ok());
    let empty = Contents { delegation: None, ..contents() };
    assert_eq!(lease_from_contents(&empty, 5, vec![]).unwrap_err(), ReplyError::NoPrefix);
    let mut long = contents();
    long.delegation.as_mut().unwrap().prefix.as_mut().unwrap().prefix_len = 129;
    assert_eq!(lease_from_contents(&long, 5, vec![]).unwrap_err(), ReplyError::NoPrefix);
}

#[test]
fn options_are_found_in_their_order() {
    let list = vec![
        (13, WireOption::Status(0)),
        (25, WireOption::IaPd { id: 1, t1: 2, t2: 3 }),
        (25, WireOption::IaPd { id: 4, t1: 5, t2: 6 }),
        (94, WireOption::Unknown(vec![])),
    ];
    assert_eq!(find_option(&list, Wanted::Status), Some(0));
    assert_eq!(find_option(&list, Wanted::Failure), None);
    assert_eq!(find_option(&list, Wanted::IaPd(None)), Some(1));
    assert_eq!(find_option(&list, Wanted::IaPd(Some(4))), Some(2));
    assert_eq!(find_option(&list, Wanted::Unknown(94)), Some(3));
    assert_eq!(find_option(&list, Wanted::Unknown(95)), None);
}

#[test]
fn the_client_reacts_to_what_it_hears() {
    let (client, _) = Client::new(DUID.to_vec(), 5).react(Heard::Timeout, 0, XID);
    let offer = Offer {
        preference: 0,
        xid: [9, 9, 9],
        server_duid: SERVER.to_vec(),
        request: vec![3, 3],
    };
    let (client, out) = client.react(Heard::Offer(Some(offer)), 1000, [9, 9, 9]);
    assert_eq!(sent(&out), &[3, 3]);
    let (client, out) = client.react(Heard::Foreign, 0, XID);
    assert!(out.send.is_none());
    assert_eq!(out.wait, Wait::Resume);
    let (client, out) = client.react(Heard::Timeout, 0, XID);
    assert_eq!(sent(&out), &[3, 3]);
    let lease = lease_from_contents(&contents(), 5, SERVER.to_vec()).unwrap();
    let granted = Heard::Answer(Answered::Granted(lease.clone()));
    let (client, out) = client.react(granted, 1_000, XID);
    assert_eq!(out.wait, Wait::Until(51_000));
    let (client, out) = client.react(Heard::Deadline, 51_000, [4, 4, 4]);
    assert_eq!(out.send.unwrap().to, Destination::Server(Ipv6Addr { bits: 7 }));
    for unawaited in [Heard::Foreign, Heard::Failure, Heard::Answer(Answered::Foreign)] {
        let (_, out) = client.clone().react(unawaited, 52_000, XID);
        assert!(out.send.is_none());
        assert_eq!(out.wait, Wait::Resume);
    }
    let unreadable = Heard::Answer(Answered::Unreadable);
    let (client, out) = client.react(unreadable, 53_000, [6, 6, 6]);
    assert_eq!(sent(&out)[..4], [6, 6, 6, 6]);
    let mut client = client;
    let mut waits = vec![];
    for _ in 0..3 {
        let (next, out) = client.react(Heard::Timeout, 54_000, XID);
        client = next;
        if let Wait::Reply { timeout, .. } = out.wait {
            waits.push(timeout);
        }
    }
    assert_eq!(waits, vec![20, 30, 30]);
    let (client, _) =
        client.react(Heard::Answer(Answered::Granted(lease)), 60_000, XID);
    let (_, out) = client.react(Heard::Cancelled, 61_000, [8, 8, 8]);
    let first = Association { id: 5, t1: 50, t2: 90 };
    assert_eq!(sent(&out), &build_release(&DUID.to_vec(), &SERVER.to_vec(), [8, 8, 8], first)[..]);
}
