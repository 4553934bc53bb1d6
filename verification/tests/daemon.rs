//! The daemon: what it computes, what it decides and what it does.

use mapecd::config::{Config, DhcpV6Mode};
use mapecd::daemon::lifecycle::{
    apply, cleanup, has_changed, startup_cleanup, step, update, Next, Op, Outcome, Sysctl,
};
use mapecd::daemon::runner::{
    begin_work, follow_up, handle_both, handle_ia_pd, initial_rules, reset, takes_rules,
    wind_down, Decision, Stage,
};
use mapecd::daemon::state::{is_supported, DaemonState};
use mapecd::error::MapEError;
use mapecd::map::rule::{CeFormat, MapRule, MapeParams, PortParams};
use mapecd::net::{Ipv4Addr, Ipv4Net, Ipv6Addr, Ipv6Net};

type State = DaemonState<()>;

fn net6(text: &str) -> Ipv6Net {
    let n: ipnet::Ipv6Net = text.parse().unwrap();
    Ipv6Net::new(Ipv6Addr { bits: u128::from(n.addr()) }, n.prefix_len()).unwrap()
}

fn net4(text: &str) -> Ipv4Net {
    let n: ipnet::Ipv4Net = text.parse().unwrap();
    Ipv4Net::new(Ipv4Addr { bits: u32::from(n.addr()) }, n.prefix_len()).unwrap()
}

fn v6(text: &str) -> Ipv6Addr {
    net6(&format!("{text}/128")).addr
}

fn v4(text: &str) -> Ipv4Addr {
    net4(&format!("{text}/32")).addr
}

fn make_rule(ipv6_prefix: &str, ipv4_prefix: &str, ea_length: u8) -> MapRule {
    MapRule {
        ipv6_prefix: net6(ipv6_prefix),
        ipv4_prefix: net4(ipv4_prefix),
        ea_length,
        is_fmr: true,
        br_address: v6("2001:db8::1"),
        port_params: PortParams { psid_offset: 4, psid_length: 8 },
    }
}

#[test]
fn test_try_compute_no_rules() {
    let mut state = State::new();
    state.pending_ia_pd = Some(net6("2001:db8:0:1::/64"));
    assert_eq!(state.try_compute(CeFormat::Rfc7597).unwrap(), false);
    assert!(state.params.is_none());
}

#[test]
fn test_try_compute_no_ia_pd() {
    let mut state = State::new();
    state.pending_map_rules = Some(vec![make_rule("2001:db8::/32", "192.0.2.0/24", 40)]);
    assert_eq!(state.try_compute(CeFormat::Rfc7597).unwrap(), false);
    assert!(state.params.is_none());
}

#[test]
fn test_try_compute_no_match() {
    let mut state = State::new();
    state.pending_map_rules = Some(vec![make_rule("2001:db8::/32", "192.0.2.0/24", 40)]);
    state.pending_ia_pd = Some(net6("2001:db9::/48"));
    assert!(matches!(state.try_compute(CeFormat::Rfc7597), Err(MapEError::NoPrefixMatch)));
}

#[test]
fn test_try_compute_success() {
    let mut state = State::new();
    state.pending_map_rules = Some(vec![make_rule("2001:db8::/32", "192.0.2.0/24", 16)]);
    state.pending_ia_pd = Some(net6("2001:db8:6405::/48"));

    assert_eq!(state.try_compute(CeFormat::Rfc7597).unwrap(), true);
    let params = state.params.as_ref().unwrap();
    assert_eq!(params.ipv4, v4("192.0.2.100"));
    assert_eq!(params.psid, 5);
    assert_eq!(params.ce_format, CeFormat::Rfc7597);
}

#[test]
fn a_rule_that_covers_but_does_not_fit_is_another_error() {
    let mut state = State::new();
    state.pending_map_rules = Some(vec![
        make_rule("2001:db9::/32", "192.0.2.0/24", 16),
        make_rule("2001:db8::/32", "192.0.2.0/24", 16),
        make_rule("2001:dba::/32", "192.0.2.0/24", 16),
    ]);
    state.pending_ia_pd = Some(net6("2001:db8:6405::/50"));
    assert!(matches!(state.try_compute(CeFormat::Rfc7597), Err(MapEError::InvalidCePrefix)));
    assert!(state.params.is_none());
}

#[test]
fn the_first_rule_that_fits_is_taken() {
    let mut state = State::new();
    let rules = vec![
        make_rule("2001:db8::/32", "192.0.2.0/24", 18),
        make_rule("2001:db8::/32", "198.51.100.0/24", 16),
        make_rule("2001:db8::/32", "203.0.113.0/24", 16),
    ];
    assert!(is_supported(&rules, net6("2001:db8:6405::/48"), CeFormat::Rfc7597));
    state.pending_map_rules = Some(rules);
    state.pending_ia_pd = Some(net6("2001:db8:6405::/48"));
    assert_eq!(state.try_compute(CeFormat::Rfc7597).unwrap(), true);
    assert_eq!(state.params.unwrap().ipv4, v4("198.51.100.100"));
}

fn make_config() -> Config {
    Config {
        upstream_interface: "eth0".to_string(),
        tunnel_interface: "ip6tnl0".to_string(),
        tunnel_mtu: None,
        pid_file: "/run/mapecd.pid".to_string(),
        map_rules_cache_file: "/run/mapecd/rules.cache".to_string(),
        duid_file: "/var/lib/mapecd/duid".to_string(),
        dhcpv6_mode: DhcpV6Mode::Capture,
        use_v6plus_static_rules: false,
    }
}

fn make_params(ce_ipv6: &str, ipv4: &str, br: &str, psid: u16) -> MapeParams {
    MapeParams {
        ce_ipv6: v6(ce_ipv6),
        ipv4: v4(ipv4),
        psid,
        port_ranges: vec![1u16..=65535u16],
        br_address: v6(br),
        rule: MapRule {
            ipv6_prefix: net6("2001:db8::/32"),
            ipv4_prefix: net4("192.0.2.0/24"),
            ea_length: 40,
            is_fmr: true,
            br_address: v6(br),
            port_params: PortParams { psid_offset: 0, psid_length: 0 },
        },
        ce_format: CeFormat::Rfc7597,
    }
}

#[test]
fn test_has_changed_same_params() {
    let p = make_params("2001:db8::1", "192.0.2.1", "2001:db8::ff", 0);
    assert!(!has_changed(&p, &p));
}

#[test]
fn test_has_changed_ce_ipv6() {
    let old = make_params("2001:db8::1", "192.0.2.1", "2001:db8::ff", 0);
    let new = make_params("2001:db8::2", "192.0.2.1", "2001:db8::ff", 0);
    assert!(has_changed(&old, &new));
}

#[test]
fn test_has_changed_ipv4() {
    let old = make_params("2001:db8::1", "192.0.2.1", "2001:db8::ff", 0);
    let new = make_params("2001:db8::1", "192.0.2.2", "2001:db8::ff", 0);
    assert!(has_changed(&old, &new));
}

#[test]
fn test_has_changed_br_address() {
    let old = make_params("2001:db8::1", "192.0.2.1", "2001:db8::ff", 0);
    let new = make_params("2001:db8::1", "192.0.2.1", "2001:db8::fe", 0);
    assert!(has_changed(&old, &new));
}

#[test]
fn changes_of_psid_and_ports_count() {
    let old = make_params("2001:db8::1", "192.0.2.1", "2001:db8::ff", 0);
    let psid = make_params("2001:db8::1", "192.0.2.1", "2001:db8::ff", 1);
    assert!(has_changed(&old, &psid));
    let mut ports = make_params("2001:db8::1", "192.0.2.1", "2001:db8::ff", 0);
    ports.port_ranges = vec![1u16..=65534u16];
    assert!(has_changed(&old, &ports));
    ports.port_ranges = vec![1u16..=10u16, 12u16..=65535u16];
    assert!(has_changed(&old, &ports));
    let mut rule = make_params("2001:db8::1", "192.0.2.1", "2001:db8::ff", 0);
    rule.rule.ea_length = 1;
    assert!(!has_changed(&old, &rule));
}

/// A system that does what it is told and notes it down.
struct System {
    ops: Vec<Op>,
    link_mtu: u32,
    link_index: u32,
    next_tunnel: u32,
    refuse: fn(&Op) -> bool,
}

impl System {
    fn new() -> System {
        System { ops: vec![], link_mtu: 1500, link_index: 3, next_tunnel: 10, refuse: |_| false }
    }

    fn run(&mut self, op: Op) -> Outcome<()> {
        self.ops.push(op.clone());
        if (self.refuse)(&op) {
            return Outcome::Failed(MapEError::NetlinkError("refused".to_string()));
        }
        match op {
            Op::ReadSysctl(_) => Outcome::Text("0\n".to_string()),
            Op::GetLinkIndex(_) => Outcome::Number(self.link_index),
            Op::GetLinkMtu(_) => Outcome::Number(self.link_mtu),
            Op::LoadTranslation(_) => Outcome::Loaded(()),
            Op::CreateTunnel { .. } => {
                self.next_tunnel += 1;
                Outcome::Number(self.next_tunnel - 1)
            }
            _ => Outcome::Done,
        }
    }

    fn drive(&mut self, first: Next, state: &mut State, config: &Config) -> Result<(), MapEError> {
        let mut next = first;
        loop {
            match next {
                Next::Finished(r) => return r,
                Next::Run(task, op) => {
                    let outcome = self.run(op);
                    next = step(task, state, config, outcome);
                }
            }
        }
    }

    /// Runs tasks until none follows; gives the stages.
    fn work(
        &mut self,
        first: Option<(Stage, Next)>,
        state: &mut State,
        config: &Config,
    ) -> Vec<Stage> {
        let mut stages = vec![];
        let mut work = first;
        while let Some((stage, next)) = work {
            stages.push(stage.clone());
            let result = self.drive(next, state, config);
            work = follow_up(state, stage, &result);
        }
        stages
    }

    fn removed_addresses(&self) -> Vec<Ipv6Addr> {
        let mut addresses = vec![];
        for op in &self.ops {
            if let Op::DelIpv6 { addr, .. } = op {
                addresses.push(*addr);
            }
        }
        addresses
    }

    fn tunnels(&self) -> Vec<String> {
        let mut names = vec![];
        for op in &self.ops {
            if let Op::CreateTunnel { name, .. } = op {
                names.push(name.clone());
            }
        }
        names
    }

    fn deleted_links(&self) -> Vec<u32> {
        let mut links = vec![];
        for op in &self.ops {
            if let Op::DeleteLink(i) = op {
                links.push(*i);
            }
        }
        links
    }

    fn added_routes(&self) -> Vec<u32> {
        let mut routes = vec![];
        for op in &self.ops {
            if let Op::AddDefaultRoute(i) = op {
                routes.push(*i);
            }
        }
        routes
    }

    fn nft(&self) -> Vec<String> {
        let mut texts = vec![];
        for op in &self.ops {
            if let Op::RunNft(text) = op {
                texts.push(text.clone());
            }
        }
        texts
    }

    fn written(&self) -> Vec<(Sysctl, String)> {
        let mut values = vec![];
        for op in &self.ops {
            if let Op::WriteSysctl(s, v) = op {
                values.push((*s, v.clone()));
            }
        }
        values
    }
}

#[test]
fn test_apply_sets_tunnel_ifindex() {
    let config = make_config();
    let params = make_params("2001:db8::1", "192.0.2.1", "2001:db8::ff", 0);
    let mut state = State::new();
    let mut system = System::new();

    system.drive(apply(&params), &mut state, &config).unwrap();

    assert_eq!(state.tunnel_ifindex, Some(10));
    assert_eq!(system.tunnels(), vec!["ip6tnl0"]);
    assert_eq!(system.added_routes(), vec![10]);
    assert!(!system.nft().is_empty());
}

#[test]
fn test_cleanup_clears_state() {
    let config = make_config();
    let params = make_params("2001:db8::1", "192.0.2.1", "2001:db8::ff", 0);
    let mut state = State::new();
    state.tunnel_ifindex = Some(10);
    state.original_ip_forward = Some("0".to_string());
    state.original_ipv6_forward = Some("0".to_string());
    let mut system = System::new();

    system.drive(cleanup(&params), &mut state, &config).unwrap();

    assert!(state.tunnel_ifindex.is_none());
    assert!(state.original_ip_forward.is_none());
    assert!(state.original_ipv6_forward.is_none());
    assert!(system.deleted_links().contains(&10));
}

#[test]
fn test_cleanup_without_tunnel_does_not_panic() {
    let config = make_config();
    let params = make_params("2001:db8::1", "192.0.2.1", "2001:db8::ff", 0);
    let mut state = State::new();
    let mut system = System::new();

    assert!(system.drive(cleanup(&params), &mut state, &config).is_ok());
    assert!(system.deleted_links().is_empty());
}

#[test]
fn test_update_ce_ipv6_change_recreates_tunnel() {
    let config = make_config();
    let old = make_params("2001:db8::1", "192.0.2.1", "2001:db8::ff", 0);
    let new = make_params("2001:db8::2", "192.0.2.2", "2001:db8::ff", 0);
    let mut state = State::new();
    state.tunnel_ifindex = Some(10);
    let mut system = System::new();

    let first = update(&state, &config, &old, &new);
    system.drive(first, &mut state, &config).unwrap();

    assert!(system.ops.iter().any(|o| matches!(o, Op::DelIpv6 { addr, .. } if *addr == old.ce_ipv6)));
    assert!(system.ops.iter().any(|o| matches!(o, Op::AddIpv6 { addr, .. } if *addr == new.ce_ipv6)));
    assert!(system.deleted_links().contains(&10));
    assert!(!system.tunnels().is_empty());
}

#[test]
fn test_update_port_ranges_only_calls_nftables() {
    let config = make_config();
    let mut old = make_params("2001:db8::1", "192.0.2.1", "2001:db8::ff", 0);
    let mut new = make_params("2001:db8::1", "192.0.2.1", "2001:db8::ff", 5);
    old.port_ranges = vec![1u16..=65535u16];
    new.port_ranges = vec![4101u16..=4356u16];
    let mut state = State::new();
    state.tunnel_ifindex = Some(10);
    let mut system = System::new();

    let first = update(&state, &config, &old, &new);
    system.drive(first, &mut state, &config).unwrap();

    assert!(system.tunnels().is_empty());
    assert!(system.deleted_links().is_empty());
    assert!(!system.nft().is_empty());
    assert_eq!(system.ops.len(), 1);
}

#[test]
fn without_a_change_nothing_is_done() {
    let config = make_config();
    let p = make_params("2001:db8::1", "192.0.2.1", "2001:db8::ff", 0);
    let mut state = State::new();
    state.tunnel_ifindex = Some(10);
    let mut system = System::new();
    system.drive(update(&state, &config, &p, &p), &mut state, &config).unwrap();
    assert!(system.ops.is_empty());
    assert_eq!(state.tunnel_ifindex, Some(10));
}

#[test]
fn the_translation_comes_before_the_rules_and_goes_after_them() {
    let config = make_config();
    let old = make_params("2001:db8::1", "192.0.2.1", "2001:db8::ff", 0);
    let mut state = State::new();
    let mut system = System::new();
    system.drive(apply(&old), &mut state, &config).unwrap();
    let n = system.ops.len();
    assert!(matches!(&system.ops[n - 4], Op::AddDefaultRoute(10)));
    assert!(matches!(&system.ops[n - 3], Op::LoadTranslation(c) if c.psid == 0));
    assert!(matches!(&system.ops[n - 2], Op::LinkTranslation(i) if i == "ip6tnl0"));
    assert!(matches!(&system.ops[n - 1], Op::RunNft(_)));
    assert_eq!(state.ebpf, Some(()));

    let psid = make_params("2001:db8::1", "192.0.2.1", "2001:db8::ff", 5);
    let mut system = System::new();
    system.drive(update(&state, &config, &old, &psid), &mut state, &config).unwrap();
    assert_eq!(system.ops.len(), 2);
    assert!(matches!(&system.ops[0], Op::RunNft(_)));
    assert!(matches!(&system.ops[1], Op::UpdateTranslation(c) if c.psid == 5));

    let relay = make_params("2001:db8::1", "192.0.2.1", "2001:db8::fe", 5);
    let mut system = System::new();
    system.drive(update(&state, &config, &psid, &relay), &mut state, &config).unwrap();
    assert!(matches!(&system.ops[0], Op::UnlinkTranslation));
    assert!(matches!(&system.ops[1], Op::RunNft(t) if t.contains("delete table")));
    assert!(matches!(&system.ops[2], Op::DelDefaultRoute(10)));
    assert!(matches!(&system.ops[3], Op::DeleteLink(10)));
    let n = system.ops.len();
    assert!(matches!(&system.ops[n - 3], Op::LoadTranslation(c) if c.psid == 5));
    assert!(matches!(&system.ops[n - 2], Op::LinkTranslation(_)));
    assert!(matches!(&system.ops[n - 1], Op::RunNft(_)));
    assert_eq!(state.ebpf, Some(()));

    let mut system = System::new();
    system.refuse = |_| true;
    system.drive(cleanup(&relay), &mut state, &config).unwrap();
    assert!(matches!(&system.ops[0], Op::RunNft(t) if t.contains("delete table")));
    assert!(matches!(&system.ops[1], Op::UnlinkTranslation));
    assert_eq!(state.ebpf, None);
}

#[test]
fn without_a_translation_no_rules_are_set() {
    let config = make_config();
    let params = make_params("2001:db8::1", "192.0.2.1", "2001:db8::ff", 0);
    let mut state = State::new();
    let mut system = System::new();
    system.refuse = |op| matches!(op, Op::LoadTranslation(_));
    assert!(system.drive(apply(&params), &mut state, &config).is_err());
    assert!(system.nft().is_empty());
    assert_eq!(state.ebpf, None);
    let mut system = System::new();
    system.refuse = |op| matches!(op, Op::LinkTranslation(_));
    assert!(system.drive(apply(&params), &mut state, &config).is_err());
    assert!(system.nft().is_empty());
    assert_eq!(state.ebpf, Some(()));
}

#[test]
fn test_apply_ruleset_propagates_executor_error() {
    let config = make_config();
    let params = make_params("2001:db8::1", "192.0.2.1", "2001:db8::ff", 0);
    let mut state = State::new();
    let mut next = apply(&params);
    let mut system = System::new();
    let result = loop {
        match next {
            Next::Finished(r) => break r,
            Next::Run(task, op) => {
                let outcome = if matches!(op, Op::RunNft(_)) {
                    Outcome::Failed(MapEError::NftError("mock error".to_string()))
                } else {
                    system.run(op)
                };
                next = step(task, &mut state, &config, outcome);
            }
        }
    };
    assert!(matches!(result, Err(MapEError::NftError(_))));
}

#[test]
fn the_steps_of_setting_up() {
    let mut config = make_config();
    let params = make_params("2001:db8::1", "192.0.2.1", "2001:db8::ff", 0);
    let mut state = State::new();
    let mut system = System::new();
    system.drive(apply(&params), &mut state, &config).unwrap();
    assert_eq!(system.ops.len(), 14);
    assert!(matches!(&system.ops[0], Op::ReadSysctl(Sysctl::Ipv4Forward)));
    assert!(matches!(&system.ops[1], Op::WriteSysctl(Sysctl::Ipv4Forward, v) if v == "1"));
    assert!(matches!(&system.ops[2], Op::ReadSysctl(Sysctl::Ipv6Forward)));
    assert!(matches!(&system.ops[3], Op::WriteSysctl(Sysctl::Ipv6Forward, v) if v == "1"));
    assert!(matches!(&system.ops[4], Op::GetLinkIndex(n) if n == "eth0"));
    assert!(matches!(&system.ops[5], Op::AddIpv6 { ifindex: 3, addr } if *addr == params.ce_ipv6));
    assert!(matches!(&system.ops[7], Op::GetLinkMtu(n) if n == "eth0"));
    assert!(matches!(
        &system.ops[8],
        Op::CreateTunnel { local, remote, link_index: 3, mtu: 1460, .. }
            if *local == params.ce_ipv6 && *remote == params.br_address
    ));
    assert!(matches!(&system.ops[9], Op::AddIpv4 { ifindex: 10, addr } if *addr == params.ipv4));
    assert_eq!(state.original_ip_forward, Some("0".to_string()));
    assert!(system.nft()[0].contains("elements = { 1-65535 }"));
    assert!(system.nft()[0].contains("masquerade to :1-65535"));
    assert_eq!(Sysctl::Ipv4Forward.path(), "/proc/sys/net/ipv4/ip_forward");
    assert_eq!(Sysctl::Ipv6Forward.path(), "/proc/sys/net/ipv6/conf/all/forwarding");

    config.tunnel_mtu = Some(1400);
    let mut fixed = System::new();
    fixed.drive(apply(&params), &mut State::new(), &config).unwrap();
    assert!(fixed.ops.iter().any(|o| matches!(o, Op::CreateTunnel { mtu: 1400, .. })));
    assert!(!fixed.ops.iter().any(|o| matches!(o, Op::GetLinkMtu(_))));

    config.tunnel_mtu = None;
    let mut small = System::new();
    small.link_mtu = 576;
    small.drive(apply(&params), &mut State::new(), &config).unwrap();
    assert!(small.ops.iter().any(|o| matches!(o, Op::CreateTunnel { mtu: 1280, .. })));
}

#[test]
fn what_was_found_is_written_back_however_far_it_came() {
    let config = make_config();
    let params = make_params("2001:db8::1", "192.0.2.1", "2001:db8::ff", 0);
    for refused in 3..14usize {
        let mut state = State::new();
        let mut system = System::new();
        let mut next = apply(&params);
        loop {
            match next {
                Next::Finished(r) => {
                    assert!(r.is_err());
                    break;
                }
                Next::Run(task, op) => {
                    let mut outcome = system.run(op);
                    if system.ops.len() == refused + 1 {
                        outcome = Outcome::Failed(MapEError::EmptyPortRanges);
                    }
                    next = step(task, &mut state, &config, outcome);
                }
            }
        }
        let mut after = System::new();
        after.refuse = |_| true;
        assert!(after.drive(cleanup(&params), &mut state, &config).is_ok());
        assert_eq!(
            after.written(),
            vec![
                (Sysctl::Ipv6Forward, "0".to_string()),
                (Sysctl::Ipv4Forward, "0".to_string())
            ]
        );
        assert!(state.tunnel_ifindex.is_none());
    }
}

#[test]
fn changes_of_relay_and_shared_address() {
    let config = make_config();
    let old = make_params("2001:db8::1", "192.0.2.1", "2001:db8::ff", 0);
    let relay = make_params("2001:db8::1", "192.0.2.1", "2001:db8::fe", 0);
    let mut state = State::new();
    state.tunnel_ifindex = Some(7);
    let mut system = System::new();
    system.drive(update(&state, &config, &old, &relay), &mut state, &config).unwrap();
    assert!(matches!(&system.ops[0], Op::DelDefaultRoute(7)));
    assert!(matches!(&system.ops[1], Op::DeleteLink(7)));
    assert_eq!(state.tunnel_ifindex, Some(10));

    let shared = make_params("2001:db8::1", "192.0.2.9", "2001:db8::ff", 0);
    let mut system = System::new();
    system.drive(update(&state, &config, &old, &shared), &mut state, &config).unwrap();
    assert!(matches!(&system.ops[0], Op::DelIpv4 { ifindex: 10, addr } if *addr == old.ipv4));
    assert!(matches!(&system.ops[1], Op::AddIpv4 { ifindex: 10, addr } if *addr == shared.ipv4));
    assert!(matches!(&system.ops[2], Op::AddDefaultRoute(10)));
    assert_eq!(system.ops.len(), 4);

    state.tunnel_ifindex = None;
    let e = System::new()
        .drive(update(&state, &config, &old, &shared), &mut state, &config)
        .unwrap_err();
    assert_eq!(e.message(), "netlink error: tunnel_ifindex not set for IPv4 addr update");
}

#[test]
fn the_steps_of_taking_down() {
    let config = make_config();
    let params = make_params("2001:db8::1", "192.0.2.1", "2001:db8::ff", 0);
    let mut state = State::new();
    System::new().drive(apply(&params), &mut state, &config).unwrap();
    state.ebpf = None;
    let mut system = System::new();
    system.drive(cleanup(&params), &mut state, &config).unwrap();
    assert_eq!(system.ops.len(), 8);
    assert!(matches!(&system.ops[0], Op::RunNft(t) if t.contains("delete table")));
    assert!(matches!(&system.ops[1], Op::DelDefaultRoute(10)));
    assert!(matches!(&system.ops[2], Op::DeleteLink(10)));
    assert!(matches!(&system.ops[3], Op::DelIpv4 { ifindex: 10, addr } if *addr == params.ipv4));
    assert!(matches!(&system.ops[4], Op::GetLinkIndex(n) if n == "eth0"));
    assert!(matches!(&system.ops[5], Op::DelIpv6 { ifindex: 3, addr } if *addr == params.ce_ipv6));
    assert!(matches!(&system.ops[6], Op::WriteSysctl(Sysctl::Ipv6Forward, v) if v == "0"));
    assert!(matches!(&system.ops[7], Op::WriteSysctl(Sysctl::Ipv4Forward, v) if v == "0"));
}

#[test]
fn leftovers_are_removed_at_the_start() {
    let addresses = vec![net6("fe80::1/64"), net6("2001:db8::1/128"), net6("2001:db8::2/128")];
    let ops = startup_cleanup(Some(7), Some(3), &addresses);
    assert_eq!(ops.len(), 5);
    assert!(matches!(&ops[0], Op::RunNft(t) if t.contains("delete table")));
    assert!(matches!(&ops[1], Op::DelDefaultRoute(7)));
    assert!(matches!(&ops[2], Op::DeleteLink(7)));
    assert!(matches!(&ops[3], Op::DelIpv6 { ifindex: 3, addr } if *addr == v6("2001:db8::1")));
    assert!(matches!(&ops[4], Op::DelIpv6 { ifindex: 3, addr } if *addr == v6("2001:db8::2")));
    assert_eq!(startup_cleanup(None, None, &addresses).len(), 1);
}

#[test]
fn a_change_keeps_the_settings_found_first() {
    let config = make_config();
    let old = make_params("2001:db8::1", "192.0.2.1", "2001:db8::ff", 0);
    let new = make_params("2001:db8::2", "192.0.2.1", "2001:db8::ff", 0);
    let mut state = State::new();
    System::new().drive(apply(&old), &mut state, &config).unwrap();
    let mut system = System::new();
    system.drive(update(&state, &config, &old, &new), &mut state, &config).unwrap();
    assert!(system.written().is_empty());
    assert_eq!(state.original_ip_forward, Some("0".to_string()));
    assert_eq!(state.original_ipv6_forward, Some("0".to_string()));
    let relay = make_params("2001:db8::2", "192.0.2.1", "2001:db8::fe", 0);
    let mut system = System::new();
    system.drive(update(&state, &config, &new, &relay), &mut state, &config).unwrap();
    assert!(!system.ops.iter().any(|o| matches!(o, Op::AddIpv6 { .. } | Op::DelIpv6 { .. })));
}

#[test]
fn port_parameters_that_do_not_fit_are_an_error() {
    let config = make_config();
    let mut params = make_params("2001:db8::1", "192.0.2.1", "2001:db8::ff", 0);
    params.rule.port_params = PortParams { psid_offset: 10, psid_length: 8 };
    let e = System::new().drive(apply(&params), &mut State::new(), &config).unwrap_err();
    assert!(matches!(e, MapEError::EbpfError(_)));
}

#[test]
fn an_outcome_of_the_wrong_sort_ends_the_task() {
    let config = make_config();
    let params = make_params("2001:db8::1", "192.0.2.1", "2001:db8::ff", 0);
    let mut state = State::new();
    match apply(&params) {
        Next::Run(task, _) => {
            let next = step(task, &mut state, &config, Outcome::Number(1));
            assert!(matches!(next, Next::Finished(Err(MapEError::NetlinkError(_)))));
        }
        Next::Finished(_) => panic!("the task ended before it began"),
    }
}

#[test]
fn events_lead_to_decisions() {
    let config = make_config();
    let rules = || vec![make_rule("2001:db8::/32", "192.0.2.0/24", 16)];
    let prefix = net6("2001:db8:6405::/48");
    let mut state = State::new();
    assert!(matches!(handle_ia_pd(&mut state, prefix, &config), Decision::Wait));
    assert!(matches!(handle_both(&mut state, rules(), prefix, &config), Decision::Apply));
    state.tunnel_ifindex = Some(10);
    assert!(matches!(handle_both(&mut state, rules(), prefix, &config), Decision::Keep));
    let other = net6("2001:db8:6505::/48");
    match handle_ia_pd(&mut state, other, &config) {
        Decision::Update(old) => assert_eq!(old.ipv4, v4("192.0.2.100")),
        d => panic!("unexpected {d:?}"),
    }
    assert_eq!(state.params.as_ref().unwrap().ipv4, v4("192.0.2.101"));
    let foreign = net6("2001:db9::/48");
    assert!(matches!(
        handle_ia_pd(&mut state, foreign, &config),
        Decision::NoRule
    ));
    assert_eq!(state.pending_ia_pd, None);
    assert_eq!(state.params.as_ref().unwrap().ipv4, v4("192.0.2.101"));
    let long = net6("2001:db8:6405::/50");
    assert!(matches!(handle_ia_pd(&mut state, long, &config), Decision::Misfit));
    assert_eq!(state.pending_ia_pd, None);
    assert!(state.pending_map_rules.is_some());
    let mut others = rules();
    others[0].port_params = PortParams { psid_offset: 6, psid_length: 8 };
    match handle_both(&mut state, others, other, &config) {
        Decision::Rebuild(Some(old)) => assert_eq!(old.rule.port_params.psid_offset, 4),
        d => panic!("unexpected {d:?}"),
    }
    assert!(matches!(handle_both(&mut state, rules(), prefix, &config), Decision::Rebuild(Some(_))));
    reset(&mut state);
    assert!(matches!(handle_ia_pd(&mut state, prefix, &config), Decision::Rebuild(None)));
    reset(&mut state);
    state.tunnel_ifindex = None;
    assert!(matches!(handle_ia_pd(&mut state, prefix, &config), Decision::Apply));
}

#[test]
fn a_failed_change_takes_down_both_mappings() {
    let config = make_config();
    let old = make_params("2001:db8::1", "192.0.2.1", "2001:db8::ff", 0);
    let new = make_params("2001:db8::2", "192.0.2.2", "2001:db8::ff", 0);
    let mut state = State::new();
    state.params = Some(old.clone());
    let mut system = System::new();
    let first = begin_work(&state, &config, Decision::Apply);
    assert!(matches!(system.work(first, &mut state, &config)[..], [Stage::SettingUp]));
    assert!(state.tunnel_ifindex.is_some());
    assert!(state.params.is_some());

    // The new address cannot be added, so the old one has not been removed.
    state.params = Some(new.clone());
    let mut system = System::new();
    system.refuse = |op| matches!(op, Op::AddIpv6 { .. });
    let first = begin_work(&state, &config, Decision::Update(old.clone()));
    let stages = system.work(first, &mut state, &config);
    assert!(matches!(
        stages[..],
        [Stage::Changing(_), Stage::Undoing(Some(_)), Stage::Undoing(None)]
    ));
    let removed = system.removed_addresses();
    assert!(removed.contains(&old.ce_ipv6) && removed.contains(&new.ce_ipv6));
    assert!(state.tunnel_ifindex.is_none());
    assert!(state.params.is_none());
}

#[test]
fn a_failed_set_up_is_taken_down_and_forgotten() {
    let config = make_config();
    let params = make_params("2001:db8::1", "192.0.2.1", "2001:db8::ff", 0);
    let mut state = State::new();
    assert!(begin_work(&state, &config, Decision::Apply).is_none());
    state.params = Some(params.clone());
    for idle in [Decision::Wait, Decision::Keep, Decision::NoRule, Decision::Misfit] {
        assert!(begin_work(&state, &config, idle).is_none());
    }
    let mut system = System::new();
    system.refuse = |op| matches!(op, Op::CreateTunnel { .. });
    let first = begin_work(&state, &config, Decision::Apply);
    let stages = system.work(first, &mut state, &config);
    assert!(matches!(stages[..], [Stage::SettingUp, Stage::Undoing(None)]));
    assert_eq!(system.removed_addresses(), vec![params.ce_ipv6]);
    assert!(state.params.is_none());
    assert!(wind_down(&state).is_none());
}

#[test]
fn a_rebuild_takes_down_and_sets_up() {
    let config = make_config();
    let old = make_params("2001:db8::1", "192.0.2.1", "2001:db8::ff", 0);
    let new = make_params("2001:db8::2", "192.0.2.2", "2001:db8::ff", 1);
    let mut state = State::new();
    System::new().drive(apply(&old), &mut state, &config).unwrap();
    state.params = Some(new.clone());
    for (decision, gone) in
        [(Decision::Rebuild(Some(old.clone())), &old), (Decision::Rebuild(None), &new)]
    {
        let mut system = System::new();
        let first = begin_work(&state, &config, decision);
        let stages = system.work(first, &mut state, &config);
        assert!(matches!(stages[..], [Stage::Clearing, Stage::SettingUp]));
        assert_eq!(system.removed_addresses(), vec![gone.ce_ipv6]);
        assert_eq!(state.tunnel_ifindex, Some(10));
    }
    let mut system = System::new();
    let stages = system.work(wind_down(&state), &mut state, &config);
    assert!(matches!(stages[..], [Stage::Undoing(None)]));
    assert_eq!(system.removed_addresses(), vec![new.ce_ipv6]);
    assert!(state.params.is_none() && state.tunnel_ifindex.is_none());
}

#[test]
fn fixed_rules_are_not_replaced() {
    let mut config = make_config();
    let fixed = vec![make_rule("2001:db8::/32", "192.0.0.0/16", 24)];
    let kept = vec![make_rule("2001:db8::/32", "198.51.0.0/16", 24)];
    let start = |c: &Config, rules: Vec<MapRule>, k| initial_rules(c, rules, k);
    assert_eq!(start(&config, fixed.clone(), Some(kept.clone())).unwrap(), Some(kept.clone()));
    assert_eq!(start(&config, fixed.clone(), None).unwrap(), None);
    assert!(takes_rules(&config));
    config.use_v6plus_static_rules = true;
    assert_eq!(start(&config, fixed.clone(), Some(kept.clone())).unwrap(), Some(fixed.clone()));
    assert!(!takes_rules(&config));
    let mut state = State::new();
    state.pending_map_rules = Some(fixed);
    let prefix = net6("2001:db8:264:500::/56");
    assert!(matches!(handle_both(&mut state, kept, prefix, &config), Decision::Apply));
    let params = state.params.as_ref().unwrap();
    assert_eq!(params.ipv4, v4("192.0.2.100"));
    assert_eq!(params.psid, 5);
    assert_eq!(params.ce_format, CeFormat::V6Plus);
    // A prefix of another length is left aside.
    let short = net6("2001:db8:6405::/48");
    assert!(matches!(handle_ia_pd(&mut state, short, &config), Decision::BadLength));
    assert!(matches!(handle_both(&mut state, vec![], short, &config), Decision::BadLength));
    assert_eq!(state.pending_ia_pd, Some(prefix));
}

#[test]
fn fixed_rules_that_cannot_be_used_stop_the_start() {
    let mut config = make_config();
    assert_eq!(initial_rules(&config, vec![], None).unwrap(), None);
    config.use_v6plus_static_rules = true;
    let e = initial_rules(&config, vec![], None).unwrap_err();
    assert_eq!(
        e.message(),
        "invalid config: use_v6plus_static_rules is set but there are no rules"
    );
    let good = make_rule("2001:db8::/32", "192.0.0.0/16", 24);
    let mut wide = good;
    wide.port_params.psid_offset = 9;
    let mut narrow = make_rule("2001:db8::/49", "192.0.0.0/16", 7);
    narrow.port_params.psid_length = 8;
    let short = make_rule("2001:db8::/32", "192.0.0.0/16", 16);
    for bad in [wide, narrow, short] {
        let e = initial_rules(&config, vec![good, bad], None).unwrap_err();
        assert!(matches!(e, MapEError::InvalidConfig(_)));
    }
    assert!(initial_rules(&config, vec![good], None).is_ok());
}
