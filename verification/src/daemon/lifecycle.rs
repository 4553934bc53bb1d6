//! Setting up, changing and taking down what a mapping needs.
//!
//! Each of the three is a task that goes from one operation to the next: a step takes the
//! outcome of the last operation, and names the next one or ends the task. An operation that
//! fails ends the setting up and most of the changing; what removes something old is carried
//! on with, and the taking down always goes on to its end.

use core::ops::RangeInclusive;
use vstd::arithmetic::power2::pow2;
use vstd::prelude::*;
use vstd::string::*;

use crate::config::Config;
use crate::daemon::state::DaemonState;
use crate::ebpf::psid::{checked_psid_config, lemma_staging_range, psid_config_for, PsidConfig};
use crate::error::{ErrorView, MapEError};
use crate::map::calc::assigned;
use crate::map::port_set::{
    assigned_ports, calc_port_ranges, lemma_merged_is_unique, merged, proper,
};
use crate::map::rule::{CeFormat, MapRule, MapeParams, PortParams};
use crate::net::{Ipv4Addr, Ipv6Addr, Ipv6Net};
use crate::nftables::{
    apply_ruleset, delete_tables, elements_of, fresh_ranges, ipv6_text, lemma_elements_of_merged,
    port_elements, ruleset, DELETE_TABLES,
};
use crate::text::{text_of, trimmed_end};

verus! {

/// What the tunnel header takes from the MTU of the upstream interface.
pub const TUNNEL_OVERHEAD: u32 = 40;

/// The smallest MTU of a tunnel.
pub const TUNNEL_MTU_MIN: u32 = 1280;

/// A setting of the kernel.
#[derive(Clone, Copy, Debug, PartialEq, Eq, Structural)]
pub enum Sysctl {
    Ipv4Forward,
    Ipv6Forward,
}

impl Sysctl {
    pub open spec fn spec_path(self) -> Seq<char> {
        match self {
            Sysctl::Ipv4Forward => "/proc/sys/net/ipv4/ip_forward"@,
            Sysctl::Ipv6Forward => "/proc/sys/net/ipv6/conf/all/forwarding"@,
        }
    }

    /// The file of the setting.
    pub fn path(self) -> (r: &'static str)
        ensures
            r@ == self.spec_path(),
    {
        match self {
            Sysctl::Ipv4Forward => "/proc/sys/net/ipv4/ip_forward",
            Sysctl::Ipv6Forward => "/proc/sys/net/ipv6/conf/all/forwarding",
        }
    }
}

/// An operation on the system.
#[derive(Clone, Debug)]
pub enum Op {
    ReadSysctl(Sysctl),
    WriteSysctl(Sysctl, String),
    /// The index of an interface.
    GetLinkIndex(String),
    /// The MTU of an interface.
    GetLinkMtu(String),
    AddIpv6 { ifindex: u32, addr: Ipv6Addr },
    DelIpv6 { ifindex: u32, addr: Ipv6Addr },
    AddIpv4 { ifindex: u32, addr: Ipv4Addr },
    DelIpv4 { ifindex: u32, addr: Ipv4Addr },
    /// Creates a tunnel; its outcome is the index of the tunnel.
    CreateTunnel { name: String, local: Ipv6Addr, remote: Ipv6Addr, link_index: u32, mtu: u32 },
    DeleteLink(u32),
    /// Replaces the IPv4 default routes by one out of the interface.
    AddDefaultRoute(u32),
    /// Removes the IPv4 default routes out of the interface.
    DelDefaultRoute(u32),
    /// Loads the packet translation with a configuration; its outcome is the handle of the
    /// translation.
    LoadTranslation(PsidConfig),
    /// Attaches the loaded translation to an interface.
    LinkTranslation(String),
    /// Hands the translation another configuration.
    UpdateTranslation(PsidConfig),
    /// Detaches the translation.
    UnlinkTranslation,
    /// Hands commands to `nft`.
    RunNft(String),
}

/// An operation, with its texts as character sequences.
pub enum OpView {
    ReadSysctl(Sysctl),
    WriteSysctl(Sysctl, Seq<char>),
    GetLinkIndex(Seq<char>),
    GetLinkMtu(Seq<char>),
    AddIpv6 { ifindex: u32, addr: Ipv6Addr },
    DelIpv6 { ifindex: u32, addr: Ipv6Addr },
    AddIpv4 { ifindex: u32, addr: Ipv4Addr },
    DelIpv4 { ifindex: u32, addr: Ipv4Addr },
    CreateTunnel { name: Seq<char>, local: Ipv6Addr, remote: Ipv6Addr, link_index: u32, mtu: u32 },
    DeleteLink(u32),
    AddDefaultRoute(u32),
    DelDefaultRoute(u32),
    LoadTranslation(PsidConfig),
    LinkTranslation(Seq<char>),
    UpdateTranslation(PsidConfig),
    UnlinkTranslation,
    RunNft(Seq<char>),
}

impl View for Op {
    type V = OpView;

    open spec fn view(&self) -> OpView {
        match *self {
            Op::ReadSysctl(s) => OpView::ReadSysctl(s),
            Op::WriteSysctl(s, v) => OpView::WriteSysctl(s, v@),
            Op::GetLinkIndex(name) => OpView::GetLinkIndex(name@),
            Op::GetLinkMtu(name) => OpView::GetLinkMtu(name@),
            Op::AddIpv6 { ifindex, addr } => OpView::AddIpv6 { ifindex, addr },
            Op::DelIpv6 { ifindex, addr } => OpView::DelIpv6 { ifindex, addr },
            Op::AddIpv4 { ifindex, addr } => OpView::AddIpv4 { ifindex, addr },
            Op::DelIpv4 { ifindex, addr } => OpView::DelIpv4 { ifindex, addr },
            Op::CreateTunnel { name, local, remote, link_index, mtu } => OpView::CreateTunnel {
                name: name@,
                local,
                remote,
                link_index,
                mtu,
            },
            Op::DeleteLink(i) => OpView::DeleteLink(i),
            Op::AddDefaultRoute(i) => OpView::AddDefaultRoute(i),
            Op::DelDefaultRoute(i) => OpView::DelDefaultRoute(i),
            Op::LoadTranslation(cfg) => OpView::LoadTranslation(cfg),
            Op::LinkTranslation(name) => OpView::LinkTranslation(name@),
            Op::UpdateTranslation(cfg) => OpView::UpdateTranslation(cfg),
            Op::UnlinkTranslation => OpView::UnlinkTranslation,
            Op::RunNft(text) => OpView::RunNft(text@),
        }
    }
}

/// The outcome of an operation: a number for an index or an MTU, the text of a setting that was
/// read, the handle of the translation that was loaded, or that it was done; or that it failed.
#[derive(Clone, Debug)]
pub enum Outcome<E> {
    Done,
    Number(u32),
    Text(String),
    Loaded(E),
    Failed(MapEError),
}

/// An outcome, with its texts as character sequences and without the handle.
pub enum OutcomeView {
    Done,
    Number(u32),
    Text(Seq<char>),
    Loaded,
    Failed(ErrorView),
}

impl<E> View for Outcome<E> {
    type V = OutcomeView;

    open spec fn view(&self) -> OutcomeView {
        match *self {
            Outcome::Done => OutcomeView::Done,
            Outcome::Number(n) => OutcomeView::Number(n),
            Outcome::Text(t) => OutcomeView::Text(t@),
            Outcome::Loaded(_) => OutcomeView::Loaded,
            Outcome::Failed(e) => OutcomeView::Failed(e@),
        }
    }
}

/// What a task does about the packet translation.
#[derive(Clone, Copy, Debug, PartialEq, Eq, Structural)]
pub enum Translation {
    /// It loads and attaches it once there is a tunnel, before the rules.
    Load,
    /// It hands it another configuration after the rules, if it is loaded.
    Update,
    /// Nothing.
    Leave,
}

/// What a task sets up.
#[derive(Clone, Copy, Debug, PartialEq, Eq, Structural)]
pub struct Target {
    pub ce_ipv6: Ipv6Addr,
    pub ipv4: Ipv4Addr,
    pub br_address: Ipv6Addr,
    pub psid: u16,
    pub port_params: PortParams,
    pub translation: Translation,
}

/// What a mapping needs to be set up.
pub open spec fn target_of(p: MapeParams) -> Target {
    Target {
        ce_ipv6: p.ce_ipv6,
        ipv4: p.ipv4,
        br_address: p.br_address,
        psid: p.psid,
        port_params: p.rule.port_params,
        translation: Translation::Load,
    }
}

/// The operation whose outcome a task awaits, with what it is needed for.
#[derive(Clone, Copy, Debug, PartialEq, Eq, Structural)]
pub enum Phase {
    // Setting up.
    ReadIpv4Forward,
    WriteIpv4Forward,
    ReadIpv6Forward,
    WriteIpv6Forward,
    IndexForAddress,
    AddAddress,
    // The tunnel and what depends on it.
    IndexForTunnel,
    MtuForTunnel { link_index: u32 },
    CreateTunnel,
    AddIpv4 { tunnel: u32 },
    AddRoute,
    LoadTranslation,
    LinkTranslation,
    Rules,
    UpdateTranslation,
    // Changing.
    IndexForChange { old: Ipv6Addr },
    DropOldIpv6 { link_index: u32 },
    AddNewIpv6,
    DropTranslation,
    DropRules,
    DropRoute { tunnel: u32 },
    DropTunnel,
    DropOldIpv4 { tunnel: u32 },
    // Taking down.
    ClearRules,
    ClearTranslation,
    ClearRoute { tunnel: u32 },
    ClearTunnel { tunnel: u32 },
    ClearIpv4,
    IndexForClear,
    ClearIpv6,
    RestoreIpv6Forward,
    RestoreIpv4Forward,
}

/// A task under way.
#[derive(Clone, Copy, Debug, PartialEq, Eq, Structural)]
pub struct Task {
    pub phase: Phase,
    pub target: Target,
}

/// What a task does next.
#[derive(Debug)]
pub enum Next {
    /// It runs an operation and goes on with its outcome.
    Run(Task, Op),
    /// It is over.
    Finished(Result<(), MapEError>),
}

/// What a task does next, with its texts as character sequences.
pub enum NextView {
    Run(Task, OpView),
    Finished(Result<(), ErrorView>),
}

impl View for Next {
    type V = NextView;

    open spec fn view(&self) -> NextView {
        match *self {
            Next::Run(task, op) => NextView::Run(task, op@),
            Next::Finished(Ok(())) => NextView::Finished(Ok(())),
            Next::Finished(Err(e)) => NextView::Finished(Err(e@)),
        }
    }
}

/// What the tasks keep in the state of the daemon.
pub struct SetUp {
    pub tunnel_ifindex: Option<u32>,
    pub original_ip_forward: Option<Seq<char>>,
    pub original_ipv6_forward: Option<Seq<char>>,
    /// Whether the packet translation is loaded.
    pub translating: bool,
}

/// What the tasks keep in the state of the daemon.
pub open spec fn set_up<E>(s: DaemonState<E>) -> SetUp {
    SetUp {
        tunnel_ifindex: s.tunnel_ifindex,
        original_ip_forward: text_of(s.original_ip_forward),
        original_ipv6_forward: text_of(s.original_ipv6_forward),
        translating: s.ebpf is Some,
    }
}

/// Whether two states agree in all but what the tasks keep.
pub open spec fn same_knowledge<E>(a: DaemonState<E>, b: DaemonState<E>) -> bool {
    &&& a.pending_map_rules == b.pending_map_rules
    &&& a.pending_ia_pd == b.pending_ia_pd
    &&& a.params == b.params
}

/// The handle of the translation after a step: it comes with the outcome of loading, and is given
/// up once the translation has been detached.
pub open spec fn handle_after<E>(p: Phase, before: Option<E>, o: Outcome<E>) -> Option<E> {
    match p {
        Phase::LoadTranslation => match o {
            Outcome::Loaded(e) => Some(e),
            _ => before,
        },
        Phase::DropTranslation => match o {
            Outcome::Failed(_) => before,
            _ => None,
        },
        Phase::ClearTranslation => None,
        _ => before,
    }
}

/// What a configuration says for the tasks.
pub struct Interfaces {
    pub upstream: Seq<char>,
    pub tunnel: Seq<char>,
    pub mtu: Option<u32>,
}

/// What a configuration says for the tasks.
pub open spec fn interfaces(c: Config) -> Interfaces {
    Interfaces {
        upstream: c.upstream_interface@,
        tunnel: c.tunnel_interface@,
        mtu: c.tunnel_mtu,
    }
}

/// The nftables rules for a target, or the error.
pub open spec fn rules_text(t: Target, tunnel: Seq<char>) -> Result<Seq<char>, ErrorView> {
    match checked_psid_config(t.port_params, t.psid) {
        Err(e) => Err(e),
        Ok(cfg) => {
            let ports = assigned_ports(
                t.port_params.psid_offset as nat,
                t.port_params.psid_length as nat,
                t.psid as int,
            );
            if ports.len() == 0 {
                Err(ErrorView::EmptyPortRanges)
            } else {
                Ok(
                    ruleset(
                        elements_of(ports),
                        tunnel,
                        ipv6_text(t.br_address.bits),
                        (cfg.staging_min, cfg.staging_max),
                    ),
                )
            }
        },
    }
}

/// The MTU of a tunnel over a link.
pub open spec fn tunnel_mtu(link_mtu: u32) -> u32 {
    if link_mtu >= TUNNEL_MTU_MIN + TUNNEL_OVERHEAD {
        (link_mtu - TUNNEL_OVERHEAD) as u32
    } else {
        TUNNEL_MTU_MIN
    }
}

pub open spec fn run(phase: Phase, t: Target, op: OpView) -> NextView {
    NextView::Run(Task { phase, target: t }, op)
}

pub open spec fn fail(e: ErrorView) -> NextView {
    NextView::Finished(Err(e))
}

/// The error of an outcome of the wrong kind.
pub open spec fn misfit() -> ErrorView {
    ErrorView::NetlinkError("unexpected outcome of an operation"@)
}

/// The number that an operation gave, or the error.
pub open spec fn number(o: OutcomeView) -> Result<u32, ErrorView> {
    match o {
        OutcomeView::Number(n) => Ok(n),
        OutcomeView::Failed(e) => Err(e),
        _ => Err(misfit()),
    }
}

/// The text that an operation gave, without white space at its end, or the error.
pub open spec fn text(o: OutcomeView) -> Result<Seq<char>, ErrorView> {
    match o {
        OutcomeView::Text(t) => Ok(trimmed_end(t)),
        OutcomeView::Failed(e) => Err(e),
        _ => Err(misfit()),
    }
}

/// That an operation was done, or the error.
pub open spec fn done(o: OutcomeView) -> Result<(), ErrorView> {
    match o {
        OutcomeView::Failed(e) => Err(e),
        _ => Ok(()),
    }
}

/// That the translation was loaded, or the error.
pub open spec fn loaded(o: OutcomeView) -> Result<(), ErrorView> {
    match o {
        OutcomeView::Loaded => Ok(()),
        OutcomeView::Failed(e) => Err(e),
        _ => Err(misfit()),
    }
}

/// The translation is loaded.
pub open spec fn go_load(t: Target) -> NextView {
    match checked_psid_config(t.port_params, t.psid) {
        Ok(cfg) => run(Phase::LoadTranslation, t, OpView::LoadTranslation(cfg)),
        Err(e) => fail(e),
    }
}

/// The translation, if it is loaded and is to be told, is told the configuration, which ends the
/// task.
pub open spec fn go_update(s: SetUp, t: Target) -> NextView {
    if t.translation == Translation::Update && s.translating {
        match checked_psid_config(t.port_params, t.psid) {
            Ok(cfg) => run(Phase::UpdateTranslation, t, OpView::UpdateTranslation(cfg)),
            Err(e) => fail(e),
        }
    } else {
        NextView::Finished(Ok(()))
    }
}

/// The rules are applied.
pub open spec fn go_rules(t: Target, c: Interfaces) -> NextView {
    match rules_text(t, c.tunnel) {
        Ok(rules) => run(Phase::Rules, t, OpView::RunNft(rules)),
        Err(e) => fail(e),
    }
}

/// The tunnel is created.
pub open spec fn go_create(t: Target, c: Interfaces, link_index: u32, mtu: u32) -> NextView {
    run(
        Phase::CreateTunnel,
        t,
        OpView::CreateTunnel {
            name: c.tunnel,
            local: t.ce_ipv6,
            remote: t.br_address,
            link_index,
            mtu,
        },
    )
}

/// The tunnel and what depends on it are replaced. A translation that is loaded is detached, the
/// rules go with it, and it is loaded again for the new tunnel.
pub open spec fn go_recreate(s: SetUp, t: Target, c: Interfaces) -> NextView {
    if s.translating {
        run(
            Phase::DropTranslation,
            Target { translation: Translation::Load, ..t },
            OpView::UnlinkTranslation,
        )
    } else {
        go_drop_tunnel(s, Target { translation: Translation::Leave, ..t }, c)
    }
}

/// The old tunnel, if there is one, makes way for a new one.
pub open spec fn go_drop_tunnel(s: SetUp, t: Target, c: Interfaces) -> NextView {
    match s.tunnel_ifindex {
        Some(tunnel) => run(Phase::DropRoute { tunnel }, t, OpView::DelDefaultRoute(tunnel)),
        None => run(Phase::IndexForTunnel, t, OpView::GetLinkIndex(c.upstream)),
    }
}

/// IPv4 forwarding is set back, if it was set.
pub open spec fn go_restore_ipv4(s: SetUp, t: Target) -> (SetUp, NextView) {
    match s.original_ip_forward {
        Some(v) => (
            SetUp { original_ip_forward: None, ..s },
            run(Phase::RestoreIpv4Forward, t, OpView::WriteSysctl(Sysctl::Ipv4Forward, v)),
        ),
        None => (s, NextView::Finished(Ok(()))),
    }
}

/// IPv6 forwarding is set back, if it was set, and then IPv4 forwarding.
pub open spec fn go_restore_ipv6(s: SetUp, t: Target) -> (SetUp, NextView) {
    match s.original_ipv6_forward {
        Some(v) => (
            SetUp { original_ipv6_forward: None, ..s },
            run(Phase::RestoreIpv6Forward, t, OpView::WriteSysctl(Sysctl::Ipv6Forward, v)),
        ),
        None => go_restore_ipv4(s, t),
    }
}

/// The setting up begins: forwarding is read, kept and set, for IPv4 and for IPv6; then come the
/// address of the CE, the tunnel, the shared address, the default route, the packet translation
/// and the rules.
pub open spec fn apply_of(t: Target) -> NextView {
    run(
        Phase::ReadIpv4Forward,
        Target { translation: Translation::Load, ..t },
        OpView::ReadSysctl(Sysctl::Ipv4Forward),
    )
}

/// The change begins, with what has changed first in this order: the address of the CE, the
/// border relay, the shared address, the ports.
pub open spec fn update_of(old: Target, t: Target, s: SetUp, c: Interfaces) -> NextView {
    if old.ce_ipv6 != t.ce_ipv6 {
        run(Phase::IndexForChange { old: old.ce_ipv6 }, t, OpView::GetLinkIndex(c.upstream))
    } else if old.br_address != t.br_address {
        go_recreate(s, t, c)
    } else if old.ipv4 != t.ipv4 {
        match s.tunnel_ifindex {
            None => fail(
                ErrorView::NetlinkError("tunnel_ifindex not set for IPv4 addr update"@),
            ),
            Some(tunnel) => run(
                Phase::DropOldIpv4 { tunnel },
                Target { translation: Translation::Update, ..t },
                OpView::DelIpv4 { ifindex: tunnel, addr: old.ipv4 },
            ),
        }
    } else {
        go_rules(Target { translation: Translation::Update, ..t }, c)
    }
}

/// A change from one mapping to another: where nothing has changed, nothing is done.
pub open spec fn update_from(old: MapeParams, new: MapeParams, s: SetUp, c: Interfaces) -> NextView {
    if changed(old, new) {
        update_of(target_of(old), target_of(new), s, c)
    } else {
        NextView::Finished(Ok(()))
    }
}

/// The taking down begins: rules, packet translation, default route, tunnel, shared address,
/// address of the CE, and forwarding as it was.
pub open spec fn cleanup_of(t: Target) -> NextView {
    run(Phase::ClearRules, t, OpView::RunNft(DELETE_TABLES@))
}

/// The tunnel, if there is one, is taken down, and then the address of the CE.
pub open spec fn go_clear_tunnel(s: SetUp, t: Target, c: Interfaces) -> NextView {
    match s.tunnel_ifindex {
        Some(tunnel) => run(Phase::ClearRoute { tunnel }, t, OpView::DelDefaultRoute(tunnel)),
        None => run(Phase::IndexForClear, t, OpView::GetLinkIndex(c.upstream)),
    }
}

/// One step of a task.
pub open spec fn step_of(task: Task, s: SetUp, c: Interfaces, o: OutcomeView) -> (SetUp, NextView) {
    let t = task.target;
    match task.phase {
        Phase::ReadIpv4Forward => match text(o) {
            Ok(v) => (
                SetUp { original_ip_forward: Some(v), ..s },
                run(Phase::WriteIpv4Forward, t, OpView::WriteSysctl(Sysctl::Ipv4Forward, "1"@)),
            ),
            Err(e) => (s, fail(e)),
        },
        Phase::WriteIpv4Forward => match done(o) {
            Ok(_) => (
                s,
                run(Phase::ReadIpv6Forward, t, OpView::ReadSysctl(Sysctl::Ipv6Forward)),
            ),
            Err(e) => (s, fail(e)),
        },
        Phase::ReadIpv6Forward => match text(o) {
            Ok(v) => (
                SetUp { original_ipv6_forward: Some(v), ..s },
                run(Phase::WriteIpv6Forward, t, OpView::WriteSysctl(Sysctl::Ipv6Forward, "1"@)),
            ),
            Err(e) => (s, fail(e)),
        },
        Phase::WriteIpv6Forward => match done(o) {
            Ok(_) => (s, run(Phase::IndexForAddress, t, OpView::GetLinkIndex(c.upstream))),
            Err(e) => (s, fail(e)),
        },
        Phase::IndexForAddress => match number(o) {
            Ok(ifindex) => (
                s,
                run(Phase::AddAddress, t, OpView::AddIpv6 { ifindex, addr: t.ce_ipv6 }),
            ),
            Err(e) => (s, fail(e)),
        },
        Phase::AddAddress => match done(o) {
            Ok(_) => (s, run(Phase::IndexForTunnel, t, OpView::GetLinkIndex(c.upstream))),
            Err(e) => (s, fail(e)),
        },
        Phase::IndexForTunnel => match number(o) {
            Ok(link_index) => match c.mtu {
                Some(mtu) => (s, go_create(t, c, link_index, mtu)),
                None => (
                    s,
                    run(Phase::MtuForTunnel { link_index }, t, OpView::GetLinkMtu(c.upstream)),
                ),
            },
            Err(e) => (s, fail(e)),
        },
        Phase::MtuForTunnel { link_index } => match number(o) {
            Ok(mtu) => (s, go_create(t, c, link_index, tunnel_mtu(mtu))),
            Err(e) => (s, fail(e)),
        },
        Phase::CreateTunnel => match number(o) {
            Ok(tunnel) => (
                SetUp { tunnel_ifindex: Some(tunnel), ..s },
                run(
                    Phase::AddIpv4 { tunnel },
                    t,
                    OpView::AddIpv4 { ifindex: tunnel, addr: t.ipv4 },
                ),
            ),
            Err(e) => (s, fail(e)),
        },
        Phase::AddIpv4 { tunnel } => match done(o) {
            Ok(_) => (s, run(Phase::AddRoute, t, OpView::AddDefaultRoute(tunnel))),
            Err(e) => (s, fail(e)),
        },
        Phase::AddRoute => match done(o) {
            Ok(_) => if t.translation == Translation::Load {
                (s, go_load(t))
            } else {
                (s, go_rules(t, c))
            },
            Err(e) => (s, fail(e)),
        },
        Phase::LoadTranslation => match loaded(o) {
            Ok(_) => (
                SetUp { translating: true, ..s },
                run(Phase::LinkTranslation, t, OpView::LinkTranslation(c.tunnel)),
            ),
            Err(e) => (s, fail(e)),
        },
        Phase::LinkTranslation => match done(o) {
            Ok(_) => (s, go_rules(t, c)),
            Err(e) => (s, fail(e)),
        },
        Phase::Rules => match done(o) {
            Ok(_) => (s, go_update(s, t)),
            Err(e) => (s, fail(e)),
        },
        Phase::UpdateTranslation => match done(o) {
            Ok(_) => (s, NextView::Finished(Ok(()))),
            Err(e) => (s, fail(e)),
        },
        Phase::IndexForChange { old } => match number(o) {
            Ok(link_index) => (
                s,
                run(
                    Phase::DropOldIpv6 { link_index },
                    t,
                    OpView::DelIpv6 { ifindex: link_index, addr: old },
                ),
            ),
            Err(e) => (s, fail(e)),
        },
        Phase::DropOldIpv6 { link_index } => (
            s,
            run(
                Phase::AddNewIpv6,
                t,
                OpView::AddIpv6 { ifindex: link_index, addr: t.ce_ipv6 },
            ),
        ),
        Phase::AddNewIpv6 => match done(o) {
            Ok(_) => (s, go_recreate(s, t, c)),
            Err(e) => (s, fail(e)),
        },
        Phase::DropTranslation => match done(o) {
            Ok(_) => (
                SetUp { translating: false, ..s },
                run(Phase::DropRules, t, OpView::RunNft(DELETE_TABLES@)),
            ),
            Err(e) => (s, fail(e)),
        },
        Phase::DropRules => match done(o) {
            Ok(_) => (s, go_drop_tunnel(s, t, c)),
            Err(e) => (s, fail(e)),
        },
        Phase::DropRoute { tunnel } => (s, run(Phase::DropTunnel, t, OpView::DeleteLink(tunnel))),
        Phase::DropTunnel => match done(o) {
            Ok(_) => (
                SetUp { tunnel_ifindex: None, ..s },
                run(Phase::IndexForTunnel, t, OpView::GetLinkIndex(c.upstream)),
            ),
            Err(e) => (s, fail(e)),
        },
        Phase::DropOldIpv4 { tunnel } => (
            s,
            run(Phase::AddIpv4 { tunnel }, t, OpView::AddIpv4 { ifindex: tunnel, addr: t.ipv4 }),
        ),
        Phase::ClearRules => if s.translating {
            (s, run(Phase::ClearTranslation, t, OpView::UnlinkTranslation))
        } else {
            (s, go_clear_tunnel(s, t, c))
        },
        Phase::ClearTranslation => (
            SetUp { translating: false, ..s },
            go_clear_tunnel(s, t, c),
        ),
        Phase::ClearRoute { tunnel } => (
            s,
            run(Phase::ClearTunnel { tunnel }, t, OpView::DeleteLink(tunnel)),
        ),
        Phase::ClearTunnel { tunnel } => (
            SetUp { tunnel_ifindex: None, ..s },
            run(Phase::ClearIpv4, t, OpView::DelIpv4 { ifindex: tunnel, addr: t.ipv4 }),
        ),
        Phase::ClearIpv4 => (s, run(Phase::IndexForClear, t, OpView::GetLinkIndex(c.upstream))),
        Phase::IndexForClear => match number(o) {
            Ok(ifindex) => (
                s,
                run(Phase::ClearIpv6, t, OpView::DelIpv6 { ifindex, addr: t.ce_ipv6 }),
            ),
            Err(_) => go_restore_ipv6(s, t),
        },
        Phase::ClearIpv6 => go_restore_ipv6(s, t),
        Phase::RestoreIpv6Forward => go_restore_ipv4(s, t),
        Phase::RestoreIpv4Forward => (s, NextView::Finished(Ok(()))),
    }
}

/// What a mapping needs to be set up.
pub fn target(p: &MapeParams) -> (r: Target)
    ensures
        r == target_of(*p),
{
    Target {
        ce_ipv6: p.ce_ipv6,
        ipv4: p.ipv4,
        br_address: p.br_address,
        psid: p.psid,
        port_params: p.rule.port_params,
        translation: Translation::Load,
    }
}

/// Merged ranges list a port just where there are ports.
proof fn lemma_ranges_of_ports(ranges: Seq<RangeInclusive<u16>>, ports: Seq<u16>)
    requires
        merged(ranges, ports),
    ensures
        ranges.len() == 0 <==> ports.len() == 0,
        fresh_ranges(ranges),
{
    if ranges.len() > 0 {
        assert(proper(ranges.last()));
    }
    assert forall|i: int| 0 <= i < ranges.len() implies !(#[trigger] ranges[i])@.exhausted by {
        assert(proper(ranges[i]));
    }
}

/// The nftables rules for a target.
pub fn rules_for(t: Target, tunnel: &str) -> (r: Result<String, MapEError>)
    ensures
        match rules_text(t, tunnel@) {
            Ok(rules) => r matches Ok(v) && v@ == rules,
            Err(e) => r matches Err(v) && v@ == e,
        },
{
    let cfg = match psid_config_for(t.port_params, t.psid) {
        Ok(c) => c,
        Err(e) => {
            return Err(e);
        },
    };
    let ranges = calc_port_ranges(&t.port_params, t.psid);
    proof {
        let ports = assigned_ports(
            t.port_params.psid_offset as nat,
            t.port_params.psid_length as nat,
            t.psid as int,
        );
        lemma_ranges_of_ports(ranges@, ports);
        lemma_elements_of_merged(ranges@, ports);
    }
    apply_ruleset(ranges.as_slice(), tunnel, t.br_address, (cfg.staging_min, cfg.staging_max))
}

fn next(phase: Phase, t: Target, op: Op) -> (r: Next)
    ensures
        r@ == run(phase, t, op@),
{
    Next::Run(Task { phase, target: t }, op)
}

fn failed(e: MapEError) -> (r: Next)
    ensures
        r@ == fail(e@),
{
    Next::Finished(Err(e))
}

fn misfit_error() -> (r: MapEError)
    ensures
        r@ == misfit(),
{
    MapEError::NetlinkError(String::from_str("unexpected outcome of an operation"))
}

impl<E> Outcome<E> {
    fn into_number(self) -> (r: Result<u32, MapEError>)
        ensures
            match number(self@) {
                Ok(n) => r == Ok::<u32, MapEError>(n),
                Err(e) => r matches Err(v) && v@ == e,
            },
    {
        match self {
            Outcome::Number(n) => Ok(n),
            Outcome::Failed(e) => Err(e),
            _ => Err(misfit_error()),
        }
    }

    fn into_text(self) -> (r: Result<String, MapEError>)
        ensures
            match text(self@) {
                Ok(t) => r matches Ok(v) && v@ == t,
                Err(e) => r matches Err(v) && v@ == e,
            },
    {
        match self {
            Outcome::Text(t) => Ok(String::from_str(t.as_str().trim_end())),
            Outcome::Failed(e) => Err(e),
            _ => Err(misfit_error()),
        }
    }

    fn into_handle(self) -> (r: Result<E, MapEError>)
        ensures
            match loaded(self@) {
                Ok(_) => r matches Ok(e) && self == Outcome::Loaded(e),
                Err(e) => r matches Err(v) && v@ == e,
            },
    {
        match self {
            Outcome::Loaded(e) => Ok(e),
            Outcome::Failed(e) => Err(e),
            _ => Err(misfit_error()),
        }
    }

    fn into_done(self) -> (r: Result<(), MapEError>)
        ensures
            match done(self@) {
                Ok(_) => r is Ok,
                Err(e) => r matches Err(v) && v@ == e,
            },
    {
        match self {
            Outcome::Failed(e) => Err(e),
            _ => Ok(()),
        }
    }
}

fn index_of(name: &String, phase: Phase, t: Target) -> (r: Next)
    ensures
        r@ == run(phase, t, OpView::GetLinkIndex(name@)),
{
    next(phase, t, Op::GetLinkIndex(name.clone()))
}

fn to_rules(t: Target, config: &Config) -> (r: Next)
    ensures
        r@ == go_rules(t, interfaces(*config)),
{
    match rules_for(t, config.tunnel_interface.as_str()) {
        Ok(rules) => next(Phase::Rules, t, Op::RunNft(rules)),
        Err(e) => failed(e),
    }
}

fn to_load(t: Target) -> (r: Next)
    ensures
        r@ == go_load(t),
{
    match psid_config_for(t.port_params, t.psid) {
        Ok(cfg) => next(Phase::LoadTranslation, t, Op::LoadTranslation(cfg)),
        Err(e) => failed(e),
    }
}

fn to_update<E>(state: &DaemonState<E>, t: Target) -> (r: Next)
    ensures
        r@ == go_update(set_up(*state), t),
{
    if t.translation != Translation::Update || state.ebpf.is_none() {
        return Next::Finished(Ok(()));
    }
    match psid_config_for(t.port_params, t.psid) {
        Ok(cfg) => next(Phase::UpdateTranslation, t, Op::UpdateTranslation(cfg)),
        Err(e) => failed(e),
    }
}

fn to_create(t: Target, config: &Config, link_index: u32, mtu: u32) -> (r: Next)
    ensures
        r@ == go_create(t, interfaces(*config), link_index, mtu),
{
    next(
        Phase::CreateTunnel,
        t,
        Op::CreateTunnel {
            name: config.tunnel_interface.clone(),
            local: t.ce_ipv6,
            remote: t.br_address,
            link_index,
            mtu,
        },
    )
}

fn to_drop_tunnel<E>(state: &DaemonState<E>, t: Target, config: &Config) -> (r: Next)
    ensures
        r@ == go_drop_tunnel(set_up(*state), t, interfaces(*config)),
{
    match state.tunnel_ifindex {
        Some(tunnel) => next(Phase::DropRoute { tunnel }, t, Op::DelDefaultRoute(tunnel)),
        None => index_of(&config.upstream_interface, Phase::IndexForTunnel, t),
    }
}

fn to_recreate<E>(state: &DaemonState<E>, t: Target, config: &Config) -> (r: Next)
    ensures
        r@ == go_recreate(set_up(*state), t, interfaces(*config)),
{
    if state.ebpf.is_some() {
        next(
            Phase::DropTranslation,
            Target { translation: Translation::Load, ..t },
            Op::UnlinkTranslation,
        )
    } else {
        to_drop_tunnel(state, Target { translation: Translation::Leave, ..t }, config)
    }
}

fn to_clear_tunnel<E>(state: &DaemonState<E>, t: Target, config: &Config) -> (r: Next)
    ensures
        r@ == go_clear_tunnel(set_up(*state), t, interfaces(*config)),
{
    match state.tunnel_ifindex {
        Some(tunnel) => next(Phase::ClearRoute { tunnel }, t, Op::DelDefaultRoute(tunnel)),
        None => index_of(&config.upstream_interface, Phase::IndexForClear, t),
    }
}

fn to_restore_ipv4<E>(state: &mut DaemonState<E>, t: Target) -> (r: Next)
    ensures
        (set_up(*final(state)), r@) == go_restore_ipv4(set_up(*old(state)), t),
        same_knowledge(*final(state), *old(state)),
        final(state).ebpf == old(state).ebpf,
{
    match state.original_ip_forward.take() {
        Some(v) => next(
            Phase::RestoreIpv4Forward,
            t,
            Op::WriteSysctl(Sysctl::Ipv4Forward, v),
        ),
        None => Next::Finished(Ok(())),
    }
}

fn to_restore_ipv6<E>(state: &mut DaemonState<E>, t: Target) -> (r: Next)
    ensures
        (set_up(*final(state)), r@) == go_restore_ipv6(set_up(*old(state)), t),
        same_knowledge(*final(state), *old(state)),
        final(state).ebpf == old(state).ebpf,
{
    match state.original_ipv6_forward.take() {
        Some(v) => next(
            Phase::RestoreIpv6Forward,
            t,
            Op::WriteSysctl(Sysctl::Ipv6Forward, v),
        ),
        None => to_restore_ipv4(state, t),
    }
}

/// Begins to set up a mapping. If the task fails, what has been set up is to be taken down.
pub fn apply(params: &MapeParams) -> (r: Next)
    ensures
        r@ == apply_of(target_of(*params)),
{
    next(Phase::ReadIpv4Forward, target(params), Op::ReadSysctl(Sysctl::Ipv4Forward))
}

/// Begins to change what is set up from one mapping to another, as little as that takes: nothing
/// at all where nothing has changed. If the task fails, what has been set up is to be taken down.
pub fn update<E>(
    state: &DaemonState<E>,
    config: &Config,
    old_params: &MapeParams,
    new_params: &MapeParams,
) -> (r: Next)
    requires
        fresh_ranges(old_params.port_ranges@),
        fresh_ranges(new_params.port_ranges@),
    ensures
        r@ == update_from(*old_params, *new_params, set_up(*state), interfaces(*config)),
{
    if !has_changed(old_params, new_params) {
        return Next::Finished(Ok(()));
    }
    let t = target(new_params);
    if old_params.ce_ipv6 != new_params.ce_ipv6 {
        index_of(
            &config.upstream_interface,
            Phase::IndexForChange { old: old_params.ce_ipv6 },
            t,
        )
    } else if old_params.br_address != new_params.br_address {
        to_recreate(state, t, config)
    } else if old_params.ipv4 != new_params.ipv4 {
        match state.tunnel_ifindex {
            None => failed(
                MapEError::NetlinkError(
                    String::from_str("tunnel_ifindex not set for IPv4 addr update"),
                ),
            ),
            Some(tunnel) => next(
                Phase::DropOldIpv4 { tunnel },
                Target { translation: Translation::Update, ..t },
                Op::DelIpv4 { ifindex: tunnel, addr: old_params.ipv4 },
            ),
        }
    } else {
        to_rules(Target { translation: Translation::Update, ..t }, config)
    }
}

/// Begins to take down what is set up.
pub fn cleanup(params: &MapeParams) -> (r: Next)
    ensures
        r@ == cleanup_of(target_of(*params)),
{
    next(Phase::ClearRules, target(params), Op::RunNft(delete_tables()))
}

/// Operations, with their texts as character sequences.
pub open spec fn shown(ops: Seq<Op>) -> Seq<OpView> {
    Seq::new(ops.len(), |i: int| ops[i]@)
}

/// The operations that remove the addresses of single hosts from an interface, in their order.
pub open spec fn drop_hosts(ifindex: u32, addresses: Seq<Ipv6Net>) -> Seq<OpView>
    decreases addresses.len(),
{
    if addresses.len() == 0 {
        Seq::empty()
    } else {
        let front = drop_hosts(ifindex, addresses.drop_last());
        if addresses.last().prefix_len == 128 {
            front.push(OpView::DelIpv6 { ifindex, addr: addresses.last().addr })
        } else {
            front
        }
    }
}

/// The operations that remove what an earlier run may have left behind: rules, default route and
/// tunnel, and the addresses of single hosts on the upstream interface.
pub open spec fn leftover_ops(
    tunnel: Option<u32>,
    upstream: Option<u32>,
    addresses: Seq<Ipv6Net>,
) -> Seq<OpView> {
    seq![OpView::RunNft(DELETE_TABLES@)] + (match tunnel {
        Some(i) => seq![OpView::DelDefaultRoute(i), OpView::DeleteLink(i)],
        None => seq![],
    }) + (match upstream {
        Some(i) => drop_hosts(i, addresses),
        None => seq![],
    })
}

/// What is to be done before anything is set up, whatever each operation comes to. `tunnel` and
/// `upstream` are the indices of interfaces that have the configured names, and `addresses` are
/// those of the upstream interface.
pub fn startup_cleanup(tunnel: Option<u32>, upstream: Option<u32>, addresses: &Vec<Ipv6Net>) -> (r: Vec<
    Op,
>)
    ensures
        shown(r@) == leftover_ops(tunnel, upstream, addresses@),
{
    let mut ops: Vec<Op> = Vec::new();
    ops.push(Op::RunNft(delete_tables()));
    if let Some(i) = tunnel {
        ops.push(Op::DelDefaultRoute(i));
        ops.push(Op::DeleteLink(i));
    }
    let ghost front = leftover_ops(tunnel, None, addresses@);
    assert(shown(ops@) =~= front);
    if let Some(ifindex) = upstream {
        let mut i: usize = 0;
        proof {
            assert(addresses@.take(0) =~= Seq::empty());
            assert(front + drop_hosts(ifindex, addresses@.take(0)) =~= front);
        }
        while i < addresses.len()
            invariant
                i <= addresses@.len(),
                shown(ops@) == front + drop_hosts(ifindex, addresses@.take(i as int)),
            decreases addresses@.len() - i,
        {
            let net = addresses[i];
            let ghost before = ops@;
            proof {
                assert(addresses@.take(i + 1).drop_last() =~= addresses@.take(i as int));
                assert(addresses@.take(i + 1).last() == net);
            }
            if net.prefix_len == 128 {
                ops.push(Op::DelIpv6 { ifindex, addr: net.addr });
                assert(shown(ops@) =~= shown(before).push(ops@.last()@));
            }
            assert(shown(ops@) =~= front + drop_hosts(ifindex, addresses@.take(i + 1)));
            i = i + 1;
        }
        assert(addresses@.take(i as int) =~= addresses@);
    }
    assert(shown(ops@) =~= leftover_ops(tunnel, upstream, addresses@));
    ops
}

/// One step of a task.
pub fn step<E>(task: Task, state: &mut DaemonState<E>, config: &Config, outcome: Outcome<E>) -> (r:
    Next)
    ensures
        (set_up(*final(state)), r@) == step_of(
            task,
            set_up(*old(state)),
            interfaces(*config),
            outcome@,
        ),
        same_knowledge(*final(state), *old(state)),
        final(state).ebpf == handle_after(task.phase, old(state).ebpf, outcome),
{
    let t = task.target;
    match task.phase {
        Phase::ReadIpv4Forward => match outcome.into_text() {
            Ok(v) => {
                state.original_ip_forward = Some(v);
                next(
                    Phase::WriteIpv4Forward,
                    t,
                    Op::WriteSysctl(Sysctl::Ipv4Forward, String::from_str("1")),
                )
            },
            Err(e) => failed(e),
        },
        Phase::WriteIpv4Forward => match outcome.into_done() {
            Ok(()) => next(Phase::ReadIpv6Forward, t, Op::ReadSysctl(Sysctl::Ipv6Forward)),
            Err(e) => failed(e),
        },
        Phase::ReadIpv6Forward => match outcome.into_text() {
            Ok(v) => {
                state.original_ipv6_forward = Some(v);
                next(
                    Phase::WriteIpv6Forward,
                    t,
                    Op::WriteSysctl(Sysctl::Ipv6Forward, String::from_str("1")),
                )
            },
            Err(e) => failed(e),
        },
        Phase::WriteIpv6Forward => match outcome.into_done() {
            Ok(()) => index_of(&config.upstream_interface, Phase::IndexForAddress, t),
            Err(e) => failed(e),
        },
        Phase::IndexForAddress => match outcome.into_number() {
            Ok(ifindex) => next(Phase::AddAddress, t, Op::AddIpv6 { ifindex, addr: t.ce_ipv6 }),
            Err(e) => failed(e),
        },
        Phase::AddAddress => match outcome.into_done() {
            Ok(()) => index_of(&config.upstream_interface, Phase::IndexForTunnel, t),
            Err(e) => failed(e),
        },
        Phase::IndexForTunnel => match outcome.into_number() {
            Ok(link_index) => match config.tunnel_mtu {
                Some(mtu) => to_create(t, config, link_index, mtu),
                None => next(
                    Phase::MtuForTunnel { link_index },
                    t,
                    Op::GetLinkMtu(config.upstream_interface.clone()),
                ),
            },
            Err(e) => failed(e),
        },
        Phase::MtuForTunnel { link_index } => match outcome.into_number() {
            Ok(link_mtu) => {
                let rest: u32 = link_mtu.saturating_sub(TUNNEL_OVERHEAD);
                let mtu: u32 = if rest < TUNNEL_MTU_MIN {
                    TUNNEL_MTU_MIN
                } else {
                    rest
                };
                to_create(t, config, link_index, mtu)
            },
            Err(e) => failed(e),
        },
        Phase::CreateTunnel => match outcome.into_number() {
            Ok(tunnel) => {
                state.tunnel_ifindex = Some(tunnel);
                next(
                    Phase::AddIpv4 { tunnel },
                    t,
                    Op::AddIpv4 { ifindex: tunnel, addr: t.ipv4 },
                )
            },
            Err(e) => failed(e),
        },
        Phase::AddIpv4 { tunnel } => match outcome.into_done() {
            Ok(()) => next(Phase::AddRoute, t, Op::AddDefaultRoute(tunnel)),
            Err(e) => failed(e),
        },
        Phase::AddRoute => match outcome.into_done() {
            Ok(()) => if t.translation == Translation::Load {
                to_load(t)
            } else {
                to_rules(t, config)
            },
            Err(e) => failed(e),
        },
        Phase::LoadTranslation => match outcome.into_handle() {
            Ok(handle) => {
                state.ebpf = Some(handle);
                next(
                    Phase::LinkTranslation,
                    t,
                    Op::LinkTranslation(config.tunnel_interface.clone()),
                )
            },
            Err(e) => failed(e),
        },
        Phase::LinkTranslation => match outcome.into_done() {
            Ok(()) => to_rules(t, config),
            Err(e) => failed(e),
        },
        Phase::Rules => match outcome.into_done() {
            Ok(()) => to_update(state, t),
            Err(e) => failed(e),
        },
        Phase::UpdateTranslation => match outcome.into_done() {
            Ok(()) => Next::Finished(Ok(())),
            Err(e) => failed(e),
        },
        Phase::IndexForChange { old: old_addr } => match outcome.into_number() {
            Ok(link_index) => next(
                Phase::DropOldIpv6 { link_index },
                t,
                Op::DelIpv6 { ifindex: link_index, addr: old_addr },
            ),
            Err(e) => failed(e),
        },
        Phase::DropOldIpv6 { link_index } => next(
            Phase::AddNewIpv6,
            t,
            Op::AddIpv6 { ifindex: link_index, addr: t.ce_ipv6 },
        ),
        Phase::AddNewIpv6 => match outcome.into_done() {
            Ok(()) => to_recreate(state, t, config),
            Err(e) => failed(e),
        },
        Phase::DropTranslation => match outcome.into_done() {
            Ok(()) => {
                state.ebpf = None;
                next(Phase::DropRules, t, Op::RunNft(delete_tables()))
            },
            Err(e) => failed(e),
        },
        Phase::DropRules => match outcome.into_done() {
            Ok(()) => to_drop_tunnel(state, t, config),
            Err(e) => failed(e),
        },
        Phase::DropRoute { tunnel } => next(Phase::DropTunnel, t, Op::DeleteLink(tunnel)),
        Phase::DropTunnel => match outcome.into_done() {
            Ok(()) => {
                state.tunnel_ifindex = None;
                index_of(&config.upstream_interface, Phase::IndexForTunnel, t)
            },
            Err(e) => failed(e),
        },
        Phase::DropOldIpv4 { tunnel } => next(
            Phase::AddIpv4 { tunnel },
            t,
            Op::AddIpv4 { ifindex: tunnel, addr: t.ipv4 },
        ),
        Phase::ClearRules => if state.ebpf.is_some() {
            next(Phase::ClearTranslation, t, Op::UnlinkTranslation)
        } else {
            to_clear_tunnel(state, t, config)
        },
        Phase::ClearTranslation => {
            state.ebpf = None;
            to_clear_tunnel(state, t, config)
        },
        Phase::ClearRoute { tunnel } => next(
            Phase::ClearTunnel { tunnel },
            t,
            Op::DeleteLink(tunnel),
        ),
        Phase::ClearTunnel { tunnel } => {
            state.tunnel_ifindex = None;
            next(Phase::ClearIpv4, t, Op::DelIpv4 { ifindex: tunnel, addr: t.ipv4 })
        },
        Phase::ClearIpv4 => index_of(&config.upstream_interface, Phase::IndexForClear, t),
        Phase::IndexForClear => match outcome.into_number() {
            Ok(ifindex) => next(Phase::ClearIpv6, t, Op::DelIpv6 { ifindex, addr: t.ce_ipv6 }),
            Err(_) => to_restore_ipv6(state, t),
        },
        Phase::ClearIpv6 => to_restore_ipv6(state, t),
        Phase::RestoreIpv6Forward => to_restore_ipv4(state, t),
        Phase::RestoreIpv4Forward => Next::Finished(Ok(())),
    }
}

/// Whether two sequences of ranges have the same bounds.
pub open spec fn same_ranges(a: Seq<RangeInclusive<u16>>, b: Seq<RangeInclusive<u16>>) -> bool {
    &&& a.len() == b.len()
    &&& forall|i: int|
        0 <= i < a.len() ==> (#[trigger] a[i])@.start == b[i]@.start && a[i]@.end == b[i]@.end
}

/// Whether two mappings differ in what is set up for them. The rule is not compared.
pub open spec fn changed(old: MapeParams, new: MapeParams) -> bool {
    ||| old.ce_ipv6 != new.ce_ipv6
    ||| old.ipv4 != new.ipv4
    ||| old.psid != new.psid
    ||| old.br_address != new.br_address
    ||| !same_ranges(old.port_ranges@, new.port_ranges@)
}

/// Whether two mappings differ in what is set up for them. The rule is not compared.
pub fn has_changed(old_params: &MapeParams, new_params: &MapeParams) -> (r: bool)
    requires
        fresh_ranges(old_params.port_ranges@),
        fresh_ranges(new_params.port_ranges@),
    ensures
        r == changed(*old_params, *new_params),
{
    if old_params.ce_ipv6 != new_params.ce_ipv6 || old_params.ipv4 != new_params.ipv4
        || old_params.psid != new_params.psid || old_params.br_address != new_params.br_address {
        return true;
    }
    let n: usize = old_params.port_ranges.len();
    if n != new_params.port_ranges.len() {
        return true;
    }
    let mut i: usize = 0;
    while i < n
        invariant
            i <= n,
            n == old_params.port_ranges@.len(),
            n == new_params.port_ranges@.len(),
            fresh_ranges(old_params.port_ranges@),
            fresh_ranges(new_params.port_ranges@),
            forall|j: int|
                0 <= j < i ==> (#[trigger] old_params.port_ranges@[j])@.start
                    == new_params.port_ranges@[j]@.start && old_params.port_ranges@[j]@.end
                    == new_params.port_ranges@[j]@.end,
        decreases n - i,
    {
        let a = &old_params.port_ranges[i];
        let b = &new_params.port_ranges[i];
        if *a.start() != *b.start() || *a.end() != *b.end() {
            assert(old_params.port_ranges@[i as int] == *a);
            assert(new_params.port_ranges@[i as int] == *b);
            return true;
        }
        i += 1;
    }
    false
}

/// Computing a mapping again from the same prefix, rule and format changes nothing.
pub proof fn lemma_computed_again_is_unchanged(
    p: MapeParams,
    q: MapeParams,
    ce_prefix: Ipv6Net,
    rule: MapRule,
    format: CeFormat,
)
    requires
        assigned(p, ce_prefix, rule, format),
        assigned(q, ce_prefix, rule, format),
    ensures
        !changed(p, q),
{
    lemma_merged_is_unique(
        p.port_ranges@,
        q.port_ranges@,
        assigned_ports(
            rule.port_params.psid_offset as nat,
            rule.port_params.psid_length as nat,
            p.psid as int,
        ),
    );
}

/// What a task comes to over a sequence of outcomes: what it keeps, what it does next, and the
/// operations that it ran, the last of which is still without its outcome unless it is over.
pub open spec fn played(
    s: SetUp,
    n: NextView,
    c: Interfaces,
    outcomes: Seq<OutcomeView>,
) -> (SetUp, NextView, Seq<OpView>)
    decreases outcomes.len(),
{
    match n {
        NextView::Finished(_) => (s, n, seq![]),
        NextView::Run(task, op) => if outcomes.len() == 0 {
            (s, n, seq![op])
        } else {
            let (s1, n1) = step_of(task, s, c, outcomes[0]);
            let (s2, n2, ops) = played(s1, n1, c, outcomes.drop_first());
            (s2, n2, seq![op] + ops)
        },
    }
}

/// How many outcomes the taking down awaits at most from a phase on; zero for other phases.
pub open spec fn left_to_clear(p: Phase) -> nat {
    match p {
        Phase::ClearRules => 9,
        Phase::ClearTranslation => 8,
        Phase::ClearRoute { .. } => 7,
        Phase::ClearTunnel { .. } => 6,
        Phase::ClearIpv4 => 5,
        Phase::IndexForClear => 4,
        Phase::ClearIpv6 => 3,
        Phase::RestoreIpv6Forward => 2,
        Phase::RestoreIpv4Forward => 1,
        _ => 0,
    }
}

/// What the taking down has done when it comes to a phase.
spec fn cleared(p: Phase, s: SetUp) -> bool {
    &&& left_to_clear(p) <= 7 ==> !s.translating
    &&& left_to_clear(p) <= 5 ==> s.tunnel_ifindex is None
    &&& left_to_clear(p) <= 2 ==> s.original_ipv6_forward is None
    &&& left_to_clear(p) <= 1 ==> s.original_ip_forward is None
    &&& p matches Phase::ClearRoute { tunnel } ==> s.tunnel_ifindex == Some(tunnel)
    &&& p matches Phase::ClearTunnel { tunnel } ==> s.tunnel_ifindex == Some(tunnel)
}

proof fn lemma_clearing(
    s: SetUp,
    task: Task,
    op: OpView,
    c: Interfaces,
    outcomes: Seq<OutcomeView>,
)
    requires
        left_to_clear(task.phase) > 0,
        cleared(task.phase, s),
        outcomes.len() >= left_to_clear(task.phase),
        task.phase matches Phase::ClearTunnel { tunnel } ==> op == OpView::DeleteLink(tunnel),
        task.phase is ClearTranslation ==> op is UnlinkTranslation,
    ensures
        ({
            let (end, next, ops) = played(s, NextView::Run(task, op), c, outcomes);
            &&& next == NextView::Finished(Ok(()))
            &&& end.tunnel_ifindex is None
            &&& end.original_ip_forward is None
            &&& end.original_ipv6_forward is None
            &&& !end.translating
            &&& s.translating ==> ops.contains(OpView::UnlinkTranslation)
            &&& s.tunnel_ifindex matches Some(tunnel) ==> ops.contains(OpView::DeleteLink(tunnel))
            &&& s.original_ip_forward matches Some(v) ==> ops.contains(
                OpView::WriteSysctl(Sysctl::Ipv4Forward, v),
            )
            &&& s.original_ipv6_forward matches Some(v) ==> ops.contains(
                OpView::WriteSysctl(Sysctl::Ipv6Forward, v),
            )
        }),
    decreases outcomes.len(),
{
    let (s1, n1) = step_of(task, s, c, outcomes[0]);
    let rest = outcomes.drop_first();
    let (s2, n2, ops) = played(s1, n1, c, rest);
    let all = seq![op] + ops;
    assert(all[0] == op);
    assert forall|o: OpView| ops.contains(o) implies all.contains(o) by {
        let i = choose|i: int| 0 <= i < ops.len() && ops[i] == o;
        assert(all[i + 1] == o);
    }
    match n1 {
        NextView::Run(t1, op1) => {
            lemma_clearing(s1, t1, op1, c, rest);
            assert(ops.len() > 0 && ops[0] == op1);
            assert(ops.contains(op1));
        },
        NextView::Finished(_) => {},
    }
}

/// Taking down always comes to its end, whatever its operations give: it detaches the packet
/// translation, deletes the tunnel, writes back the settings that were kept, and keeps nothing
/// more.
pub proof fn lemma_cleanup_restores(
    s: SetUp,
    t: Target,
    c: Interfaces,
    outcomes: Seq<OutcomeView>,
)
    requires
        outcomes.len() >= left_to_clear(Phase::ClearRules),
    ensures
        ({
            let (end, next, ops) = played(s, cleanup_of(t), c, outcomes);
            &&& next == NextView::Finished(Ok(()))
            &&& end.tunnel_ifindex is None
            &&& end.original_ip_forward is None
            &&& end.original_ipv6_forward is None
            &&& !end.translating
            &&& s.translating ==> ops.contains(OpView::UnlinkTranslation)
            &&& s.tunnel_ifindex matches Some(tunnel) ==> ops.contains(OpView::DeleteLink(tunnel))
            &&& s.original_ip_forward matches Some(v) ==> ops.contains(
                OpView::WriteSysctl(Sysctl::Ipv4Forward, v),
            )
            &&& s.original_ipv6_forward matches Some(v) ==> ops.contains(
                OpView::WriteSysctl(Sysctl::Ipv6Forward, v),
            )
        }),
{
    lemma_clearing(
        s,
        Task { phase: Phase::ClearRules, target: t },
        OpView::RunNft(DELETE_TABLES@),
        c,
        outcomes,
    );
}

/// Whether a phase belongs to the tunnel and what depends on it.
pub open spec fn building(p: Phase) -> bool {
    p is IndexForTunnel || p is MtuForTunnel || p is CreateTunnel || p is AddIpv4 || p is AddRoute
        || p is LoadTranslation || p is LinkTranslation || p is Rules || p is UpdateTranslation
}

/// What has been kept when the building of the tunnel comes to a phase.
spec fn built(n: NextView, s: SetUp) -> bool {
    match n {
        NextView::Run(task, _) => task.phase is IndexForTunnel || task.phase is MtuForTunnel
            || task.phase is CreateTunnel || s.tunnel_ifindex is Some,
        NextView::Finished(r) => r is Ok ==> s.tunnel_ifindex is Some,
    }
}

proof fn lemma_building(s: SetUp, n: NextView, c: Interfaces, outcomes: Seq<OutcomeView>)
    requires
        n matches NextView::Run(task, _) ==> building(task.phase),
        built(n, s),
    ensures
        ({
            let (end, next, ops) = played(s, n, c, outcomes);
            &&& end.original_ip_forward == s.original_ip_forward
            &&& end.original_ipv6_forward == s.original_ipv6_forward
            &&& next == NextView::Finished(Ok(())) ==> end.tunnel_ifindex is Some
        }),
    decreases outcomes.len(),
{
    if n is Run && outcomes.len() > 0 {
        let (s1, n1) = step_of(n->Run_0, s, c, outcomes[0]);
        lemma_building(s1, n1, c, outcomes.drop_first());
    }
}

/// Setting up keeps each setting that it finds before it writes it, and goes on keeping it
/// whatever follows. Where it succeeds, there is a tunnel.
pub proof fn lemma_apply_keeps_what_it_finds(
    s: SetUp,
    t: Target,
    c: Interfaces,
    outcomes: Seq<OutcomeView>,
)
    ensures
        ({
            let (end, next, ops) = played(s, apply_of(t), c, outcomes);
            &&& outcomes.len() > 0 && outcomes[0] is Text ==> end.original_ip_forward == Some(
                trimmed_end(outcomes[0]->Text_0),
            )
            &&& outcomes.len() > 2 && outcomes[0] is Text && outcomes[1] !is Failed
                && outcomes[2] is Text ==> end.original_ipv6_forward == Some(
                trimmed_end(outcomes[2]->Text_0),
            )
            &&& outcomes.len() > 0 && outcomes[0] !is Text ==> next is Finished
                && next->Finished_0 is Err && ops == seq![
                OpView::ReadSysctl(Sysctl::Ipv4Forward),
            ]
            &&& next == NextView::Finished(Ok(())) ==> end.tunnel_ifindex is Some
                && end.original_ip_forward is Some && end.original_ipv6_forward is Some
        }),
{
    reveal_with_fuel(played, 7);
    if outcomes.len() > 0 {
        let r1 = outcomes.drop_first();
        let (s1, n1) = step_of(apply_of(t)->Run_0, s, c, outcomes[0]);
        if r1.len() > 0 && n1 is Run {
            let r2 = r1.drop_first();
            assert(r1[0] == outcomes[1]);
            let (s2, n2) = step_of(n1->Run_0, s1, c, r1[0]);
            if r2.len() > 0 && n2 is Run {
                let r3 = r2.drop_first();
                assert(r2[0] == outcomes[2]);
                let (s3, n3) = step_of(n2->Run_0, s2, c, r2[0]);
                if r3.len() > 0 && n3 is Run {
                    let r4 = r3.drop_first();
                    let (s4, n4) = step_of(n3->Run_0, s3, c, r3[0]);
                    if r4.len() > 0 && n4 is Run {
                        let r5 = r4.drop_first();
                        let (s5, n5) = step_of(n4->Run_0, s4, c, r4[0]);
                        if r5.len() > 0 && n5 is Run {
                            let (s6, n6) = step_of(n5->Run_0, s5, c, r5[0]);
                            lemma_building(s6, n6, c, r5.drop_first());
                        }
                    }
                }
            }
        }
    }
}

/// What setting up found, taking down writes back: however far the setting up came and
/// whatever the taking down meets, once a setting was read it is written back.
pub proof fn lemma_cleanup_undoes_apply(
    s: SetUp,
    t: Target,
    c: Interfaces,
    outcomes: Seq<OutcomeView>,
    later: Seq<OutcomeView>,
)
    requires
        later.len() >= left_to_clear(Phase::ClearRules),
    ensures
        ({
            let kept = played(s, apply_of(t), c, outcomes).0;
            let ops = played(kept, cleanup_of(t), c, later).2;
            &&& outcomes.len() > 0 && outcomes[0] is Text ==> ops.contains(
                OpView::WriteSysctl(Sysctl::Ipv4Forward, trimmed_end(outcomes[0]->Text_0)),
            )
            &&& outcomes.len() > 2 && outcomes[0] is Text && outcomes[1] !is Failed
                && outcomes[2] is Text ==> ops.contains(
                OpView::WriteSysctl(Sysctl::Ipv6Forward, trimmed_end(outcomes[2]->Text_0)),
            )
        }),
{
    lemma_apply_keeps_what_it_finds(s, t, c, outcomes);
    lemma_cleanup_restores(played(s, apply_of(t), c, outcomes).0, t, c, later);
}

/// Whether a phase belongs to a change.
pub open spec fn changing(p: Phase) -> bool {
    building(p) || p is IndexForChange || p is DropOldIpv6 || p is AddNewIpv6
        || p is DropTranslation || p is DropRules || p is DropRoute || p is DropTunnel
        || p is DropOldIpv4
}

proof fn lemma_changing(s: SetUp, n: NextView, c: Interfaces, outcomes: Seq<OutcomeView>)
    requires
        n matches NextView::Run(task, _) ==> changing(task.phase),
    ensures
        ({
            let end = played(s, n, c, outcomes).0;
            &&& end.original_ip_forward == s.original_ip_forward
            &&& end.original_ipv6_forward == s.original_ipv6_forward
        }),
    decreases outcomes.len(),
{
    if n is Run && outcomes.len() > 0 {
        let (s1, n1) = step_of(n->Run_0, s, c, outcomes[0]);
        lemma_changing(s1, n1, c, outcomes.drop_first());
    }
}

/// A change leaves alone the settings that setting up kept, so that they can still be written
/// back.
pub proof fn lemma_update_keeps_settings(
    old: Target,
    t: Target,
    s: SetUp,
    c: Interfaces,
    outcomes: Seq<OutcomeView>,
)
    ensures
        ({
            let end = played(s, update_of(old, t, s, c), c, outcomes).0;
            &&& end.original_ip_forward == s.original_ip_forward
            &&& end.original_ipv6_forward == s.original_ipv6_forward
        }),
{
    lemma_changing(s, update_of(old, t, s, c), c, outcomes);
}

/// A change of the ports alone touches nothing but the rules, which are handed to `nft` at most
/// once, and the packet translation, if it is loaded and the rules were taken.
pub proof fn lemma_ports_change_rules_only(
    old: Target,
    t: Target,
    s: SetUp,
    c: Interfaces,
    outcomes: Seq<OutcomeView>,
)
    requires
        old.ce_ipv6 == t.ce_ipv6,
        old.br_address == t.br_address,
        old.ipv4 == t.ipv4,
    ensures
        ({
            let (end, next, ops) = played(s, update_of(old, t, s, c), c, outcomes);
            &&& end == s
            &&& match rules_text(t, c.tunnel) {
                Ok(rules) => if s.translating && outcomes.len() > 0 && outcomes[0] !is Failed {
                    ops == seq![
                        OpView::RunNft(rules),
                        OpView::UpdateTranslation(
                            checked_psid_config(t.port_params, t.psid)->Ok_0,
                        ),
                    ]
                } else {
                    ops == seq![OpView::RunNft(rules)]
                },
                Err(e) => ops.len() == 0 && next == fail(e),
            }
        }),
{
    reveal_with_fuel(played, 4);
    let ops = played(s, update_of(old, t, s, c), c, outcomes).2;
    if rules_text(t, c.tunnel) is Ok && s.translating && outcomes.len() > 0
        && outcomes[0] !is Failed {
        assert(ops =~= seq![
            OpView::RunNft(rules_text(t, c.tunnel)->Ok_0),
            OpView::UpdateTranslation(checked_psid_config(t.port_params, t.psid)->Ok_0),
        ]);
    }
}

/// Where nothing has changed, nothing is done.
pub proof fn lemma_no_change_does_nothing(
    old: MapeParams,
    new: MapeParams,
    s: SetUp,
    c: Interfaces,
    outcomes: Seq<OutcomeView>,
)
    requires
        !changed(old, new),
    ensures
        played(s, update_from(old, new, s, c), c, outcomes) == (
            s,
            NextView::Finished(Ok(())),
            Seq::<OpView>::empty(),
        ),
{
}

/// What the operations give where all of them succeed.
pub struct Findings {
    /// What forwarding was set to, for IPv4 and for IPv6.
    pub ip_forward: Seq<char>,
    pub ipv6_forward: Seq<char>,
    /// The index and the MTU of the upstream interface.
    pub upstream: u32,
    pub link_mtu: u32,
    /// The index of the tunnel.
    pub tunnel: u32,
}

/// The outcomes of building the tunnel and what depends on it, where all operations succeed.
pub open spec fn build_outcomes(f: Findings, mtu_is_set: bool) -> Seq<OutcomeView> {
    seq![OutcomeView::Number(f.upstream)] + (if mtu_is_set {
        seq![]
    } else {
        seq![OutcomeView::Number(f.link_mtu)]
    }) + seq![
        OutcomeView::Number(f.tunnel),
        OutcomeView::Done,
        OutcomeView::Done,
        OutcomeView::Loaded,
        OutcomeView::Done,
        OutcomeView::Done,
    ]
}

/// The outcomes of setting up, where all operations succeed.
pub open spec fn apply_outcomes(f: Findings, mtu_is_set: bool) -> Seq<OutcomeView> {
    seq![
        OutcomeView::Text(f.ip_forward),
        OutcomeView::Done,
        OutcomeView::Text(f.ipv6_forward),
        OutcomeView::Done,
        OutcomeView::Number(f.upstream),
        OutcomeView::Done,
    ] + build_outcomes(f, mtu_is_set)
}

/// The operations of building the tunnel and what depends on it, in their order.
pub open spec fn build_ops(t: Target, c: Interfaces, f: Findings, rules: Seq<char>) -> Seq<OpView> {
    seq![OpView::GetLinkIndex(c.upstream)] + (if c.mtu is Some {
        seq![]
    } else {
        seq![OpView::GetLinkMtu(c.upstream)]
    }) + seq![
        OpView::CreateTunnel {
            name: c.tunnel,
            local: t.ce_ipv6,
            remote: t.br_address,
            link_index: f.upstream,
            mtu: match c.mtu {
                Some(m) => m,
                None => tunnel_mtu(f.link_mtu),
            },
        },
        OpView::AddIpv4 { ifindex: f.tunnel, addr: t.ipv4 },
        OpView::AddDefaultRoute(f.tunnel),
        OpView::LoadTranslation(checked_psid_config(t.port_params, t.psid)->Ok_0),
        OpView::LinkTranslation(c.tunnel),
        OpView::RunNft(rules),
    ]
}

/// The operations of setting up, in their order.
pub open spec fn apply_ops(t: Target, c: Interfaces, f: Findings, rules: Seq<char>) -> Seq<OpView> {
    seq![
        OpView::ReadSysctl(Sysctl::Ipv4Forward),
        OpView::WriteSysctl(Sysctl::Ipv4Forward, "1"@),
        OpView::ReadSysctl(Sysctl::Ipv6Forward),
        OpView::WriteSysctl(Sysctl::Ipv6Forward, "1"@),
        OpView::GetLinkIndex(c.upstream),
        OpView::AddIpv6 { ifindex: f.upstream, addr: t.ce_ipv6 },
    ] + build_ops(t, c, f, rules)
}

/// A task that runs an operation goes on with its outcome.
proof fn lemma_played_once(
    s: SetUp,
    n: NextView,
    c: Interfaces,
    o: OutcomeView,
    rest: Seq<OutcomeView>,
)
    requires
        n is Run,
    ensures
        played(s, n, c, seq![o] + rest) == ({
            let (s1, n1) = step_of(n->Run_0, s, c, o);
            let (s2, n2, ops) = played(s1, n1, c, rest);
            (s2, n2, seq![n->Run_1] + ops)
        }),
{
    assert((seq![o] + rest)[0] == o);
    assert((seq![o] + rest).drop_first() =~= rest);
}

proof fn lemma_build_order(s: SetUp, t: Target, c: Interfaces, f: Findings, rules: Seq<char>)
    requires
        t.translation == Translation::Load,
        rules_text(t, c.tunnel) == Ok::<Seq<char>, ErrorView>(rules),
    ensures
        played(
            s,
            run(Phase::IndexForTunnel, t, OpView::GetLinkIndex(c.upstream)),
            c,
            build_outcomes(f, c.mtu is Some),
        ) == (
            SetUp { tunnel_ifindex: Some(f.tunnel), translating: true, ..s },
            NextView::Finished(Ok(())),
            build_ops(t, c, f, rules),
        ),
{
    let done = OutcomeView::Done;
    let cfg = checked_psid_config(t.port_params, t.psid)->Ok_0;
    let r0 = Seq::<OutcomeView>::empty();
    let r1 = seq![done];
    let r2 = seq![done, done];
    let r3 = seq![OutcomeView::Loaded, done, done];
    let r4 = seq![done, OutcomeView::Loaded, done, done];
    let r5 = seq![done, done, OutcomeView::Loaded, done, done];
    let r6 = seq![OutcomeView::Number(f.tunnel), done, done, OutcomeView::Loaded, done, done];
    let mid = SetUp { tunnel_ifindex: Some(f.tunnel), ..s };
    let end = SetUp { translating: true, ..mid };
    let mtu = match c.mtu {
        Some(m) => m,
        None => tunnel_mtu(f.link_mtu),
    };
    lemma_played_once(end, run(Phase::Rules, t, OpView::RunNft(rules)), c, done, r0);
    assert(r1 =~= seq![done] + r0);
    lemma_played_once(
        end,
        run(Phase::LinkTranslation, t, OpView::LinkTranslation(c.tunnel)),
        c,
        done,
        r1,
    );
    assert(r2 =~= seq![done] + r1);
    lemma_played_once(
        mid,
        run(Phase::LoadTranslation, t, OpView::LoadTranslation(cfg)),
        c,
        OutcomeView::Loaded,
        r2,
    );
    assert(r3 =~= seq![OutcomeView::Loaded] + r2);
    lemma_played_once(
        mid,
        run(Phase::AddRoute, t, OpView::AddDefaultRoute(f.tunnel)),
        c,
        done,
        r3,
    );
    assert(r4 =~= seq![done] + r3);
    lemma_played_once(
        mid,
        run(
            Phase::AddIpv4 { tunnel: f.tunnel },
            t,
            OpView::AddIpv4 { ifindex: f.tunnel, addr: t.ipv4 },
        ),
        c,
        done,
        r4,
    );
    assert(r5 =~= seq![done] + r4);
    lemma_played_once(s, go_create(t, c, f.upstream, mtu), c, OutcomeView::Number(f.tunnel), r5);
    assert(r6 =~= seq![OutcomeView::Number(f.tunnel)] + r5);
    let first = run(Phase::IndexForTunnel, t, OpView::GetLinkIndex(c.upstream));
    let rest = if c.mtu is Some {
        r6
    } else {
        lemma_played_once(
            s,
            run(
                Phase::MtuForTunnel { link_index: f.upstream },
                t,
                OpView::GetLinkMtu(c.upstream),
            ),
            c,
            OutcomeView::Number(f.link_mtu),
            r6,
        );
        seq![OutcomeView::Number(f.link_mtu)] + r6
    };
    lemma_played_once(s, first, c, OutcomeView::Number(f.upstream), rest);
    assert(build_outcomes(f, c.mtu is Some) =~= seq![OutcomeView::Number(f.upstream)] + rest);
    assert(played(s, first, c, build_outcomes(f, c.mtu is Some)).2 =~= build_ops(t, c, f, rules));
}

/// Setting up goes from the settings over the address of the CE, the tunnel, the shared address,
/// the default route and the packet translation to the rules, and succeeds where all operations
/// do.
pub proof fn lemma_apply_order(s: SetUp, target: Target, c: Interfaces, f: Findings)
    requires
        rules_text(target, c.tunnel) is Ok,
    ensures
        played(s, apply_of(target), c, apply_outcomes(f, c.mtu is Some)) == (
            SetUp {
                tunnel_ifindex: Some(f.tunnel),
                original_ip_forward: Some(trimmed_end(f.ip_forward)),
                original_ipv6_forward: Some(trimmed_end(f.ipv6_forward)),
                translating: true,
            },
            NextView::Finished(Ok(())),
            apply_ops(target, c, f, rules_text(target, c.tunnel)->Ok_0),
        ),
{
    let t = Target { translation: Translation::Load, ..target };
    let rules = rules_text(t, c.tunnel)->Ok_0;
    let s1 = SetUp { original_ip_forward: Some(trimmed_end(f.ip_forward)), ..s };
    let s2 = SetUp { original_ipv6_forward: Some(trimmed_end(f.ipv6_forward)), ..s1 };
    let build = build_outcomes(f, c.mtu is Some);
    lemma_build_order(s2, t, c, f, rules);
    lemma_played_once(
        s2,
        run(Phase::AddAddress, t, OpView::AddIpv6 { ifindex: f.upstream, addr: t.ce_ipv6 }),
        c,
        OutcomeView::Done,
        build,
    );
    let r5 = seq![OutcomeView::Done] + build;
    lemma_played_once(
        s2,
        run(Phase::IndexForAddress, t, OpView::GetLinkIndex(c.upstream)),
        c,
        OutcomeView::Number(f.upstream),
        r5,
    );
    let r4 = seq![OutcomeView::Number(f.upstream)] + r5;
    lemma_played_once(
        s2,
        run(Phase::WriteIpv6Forward, t, OpView::WriteSysctl(Sysctl::Ipv6Forward, "1"@)),
        c,
        OutcomeView::Done,
        r4,
    );
    let r3 = seq![OutcomeView::Done] + r4;
    lemma_played_once(
        s1,
        run(Phase::ReadIpv6Forward, t, OpView::ReadSysctl(Sysctl::Ipv6Forward)),
        c,
        OutcomeView::Text(f.ipv6_forward),
        r3,
    );
    let r2 = seq![OutcomeView::Text(f.ipv6_forward)] + r3;
    lemma_played_once(
        s1,
        run(Phase::WriteIpv4Forward, t, OpView::WriteSysctl(Sysctl::Ipv4Forward, "1"@)),
        c,
        OutcomeView::Done,
        r2,
    );
    let r1 = seq![OutcomeView::Done] + r2;
    lemma_played_once(s, apply_of(t), c, OutcomeView::Text(f.ip_forward), r1);
    let outcomes = apply_outcomes(f, c.mtu is Some);
    assert(outcomes =~= seq![OutcomeView::Text(f.ip_forward)] + r1);
    assert(apply_of(target) == apply_of(t));
    assert(played(s, apply_of(t), c, outcomes).2 =~= apply_ops(target, c, f, rules));
}

/// A change of the border relay replaces the tunnel. A packet translation that is loaded is
/// detached before the rules go and the tunnel is replaced, and is loaded again before the rules
/// come back.
pub proof fn lemma_recreate_order(
    old: Target,
    t: Target,
    s: SetUp,
    c: Interfaces,
    f: Findings,
    tunnel: u32,
)
    requires
        old.ce_ipv6 == t.ce_ipv6,
        old.br_address != t.br_address,
        s.translating,
        s.tunnel_ifindex == Some(tunnel),
        rules_text(t, c.tunnel) is Ok,
    ensures
        played(
            s,
            update_of(old, t, s, c),
            c,
            seq![OutcomeView::Done, OutcomeView::Done, OutcomeView::Done, OutcomeView::Done]
                + build_outcomes(f, c.mtu is Some),
        ) == (
            SetUp { tunnel_ifindex: Some(f.tunnel), ..s },
            NextView::Finished(Ok(())),
            seq![
                OpView::UnlinkTranslation,
                OpView::RunNft(DELETE_TABLES@),
                OpView::DelDefaultRoute(tunnel),
                OpView::DeleteLink(tunnel),
            ] + build_ops(t, c, f, rules_text(t, c.tunnel)->Ok_0),
        ),
{
    let done = OutcomeView::Done;
    let u = Target { translation: Translation::Load, ..t };
    let rules = rules_text(u, c.tunnel)->Ok_0;
    let s1 = SetUp { translating: false, ..s };
    let s2 = SetUp { tunnel_ifindex: None, ..s1 };
    let build = build_outcomes(f, c.mtu is Some);
    lemma_build_order(s2, u, c, f, rules);
    let r1 = seq![done] + build;
    lemma_played_once(s1, run(Phase::DropTunnel, u, OpView::DeleteLink(tunnel)), c, done, build);
    let r2 = seq![done] + r1;
    lemma_played_once(
        s1,
        run(Phase::DropRoute { tunnel }, u, OpView::DelDefaultRoute(tunnel)),
        c,
        done,
        r1,
    );
    let r3 = seq![done] + r2;
    lemma_played_once(
        s1,
        run(Phase::DropRules, u, OpView::RunNft(DELETE_TABLES@)),
        c,
        done,
        r2,
    );
    lemma_played_once(
        s,
        run(Phase::DropTranslation, u, OpView::UnlinkTranslation),
        c,
        done,
        r3,
    );
    let outcomes = seq![done, done, done, done] + build;
    assert(outcomes =~= seq![done] + r3);
    assert(played(s, update_of(old, t, s, c), c, outcomes).2 =~= seq![
        OpView::UnlinkTranslation,
        OpView::RunNft(DELETE_TABLES@),
        OpView::DelDefaultRoute(tunnel),
        OpView::DeleteLink(tunnel),
    ] + build_ops(t, c, f, rules));
}

/// Where in the taking down the index of the upstream interface is asked for.
pub open spec fn index_question(s: SetUp) -> int {
    (if s.translating {
        2int
    } else {
        1
    }) + (if s.tunnel_ifindex is Some {
        3int
    } else {
        0
    })
}

/// The operations that set forwarding back.
pub open spec fn restore_ops(s: SetUp) -> Seq<OpView> {
    (match s.original_ipv6_forward {
        Some(v) => seq![OpView::WriteSysctl(Sysctl::Ipv6Forward, v)],
        None => seq![],
    }) + (match s.original_ip_forward {
        Some(v) => seq![OpView::WriteSysctl(Sysctl::Ipv4Forward, v)],
        None => seq![],
    })
}

proof fn lemma_restore_order(s: SetUp, t: Target, c: Interfaces, outcomes: Seq<OutcomeView>)
    requires
        outcomes.len() >= 2,
    ensures
        ({
            let (s1, n1) = go_restore_ipv6(s, t);
            played(s1, n1, c, outcomes).2 == restore_ops(s)
        }),
{
    reveal_with_fuel(played, 4);
    let (s1, n1) = go_restore_ipv6(s, t);
    let rest = outcomes.drop_first();
    assert(rest.len() >= 1);
    assert(played(s1, n1, c, outcomes).2 =~= restore_ops(s));
}

/// The operations of taking down from the address of the CE on.
pub open spec fn clear_address_ops(t: Target, c: Interfaces, s: SetUp, upstream: Option<u32>) -> Seq<
    OpView,
> {
    seq![OpView::GetLinkIndex(c.upstream)] + (match upstream {
        Some(ifindex) => seq![OpView::DelIpv6 { ifindex, addr: t.ce_ipv6 }],
        None => seq![],
    }) + restore_ops(s)
}

/// A number, unless there is none.
pub open spec fn found(o: OutcomeView) -> Option<u32> {
    match number(o) {
        Ok(n) => Some(n),
        Err(_) => None,
    }
}

proof fn lemma_clear_address_order(s: SetUp, t: Target, c: Interfaces, outcomes: Seq<OutcomeView>)
    requires
        outcomes.len() >= 4,
    ensures
        played(
            s,
            run(Phase::IndexForClear, t, OpView::GetLinkIndex(c.upstream)),
            c,
            outcomes,
        ).2 == clear_address_ops(t, c, s, found(outcomes[0])),
{
    let first = run(Phase::IndexForClear, t, OpView::GetLinkIndex(c.upstream));
    let r1 = outcomes.drop_first();
    let r2 = r1.drop_first();
    lemma_restore_order(s, t, c, r1);
    lemma_restore_order(s, t, c, r2);
    reveal_with_fuel(played, 3);
    let ops = played(s, first, c, outcomes).2;
    assert(ops =~= clear_address_ops(t, c, s, found(outcomes[0])));
}

/// The operations of taking down from the tunnel on.
pub open spec fn clear_tunnel_ops(t: Target, c: Interfaces, s: SetUp, upstream: Option<u32>) -> Seq<
    OpView,
> {
    (match s.tunnel_ifindex {
        Some(tunnel) => seq![
            OpView::DelDefaultRoute(tunnel),
            OpView::DeleteLink(tunnel),
            OpView::DelIpv4 { ifindex: tunnel, addr: t.ipv4 },
        ],
        None => seq![],
    }) + clear_address_ops(t, c, s, upstream)
}

/// The operations of taking down what was set up, in their order.
pub open spec fn cleanup_ops(t: Target, c: Interfaces, s: SetUp, upstream: Option<u32>) -> Seq<OpView> {
    seq![OpView::RunNft(DELETE_TABLES@)] + (if s.translating {
        seq![OpView::UnlinkTranslation]
    } else {
        seq![]
    }) + clear_tunnel_ops(t, c, s, upstream)
}

proof fn lemma_clear_tunnel_order(s: SetUp, t: Target, c: Interfaces, outcomes: Seq<OutcomeView>)
    requires
        outcomes.len() >= 7,
    ensures
        played(s, go_clear_tunnel(s, t, c), c, outcomes).2 == clear_tunnel_ops(
            t,
            c,
            s,
            found(
                outcomes[(if s.tunnel_ifindex is Some {
                    3int
                } else {
                    0
                })],
            ),
        ),
{
    let ops = played(s, go_clear_tunnel(s, t, c), c, outcomes).2;
    match s.tunnel_ifindex {
        None => {
            lemma_clear_address_order(s, t, c, outcomes);
            assert(ops =~= clear_tunnel_ops(t, c, s, found(outcomes[0])));
        },
        Some(tunnel) => {
            let r1 = outcomes.drop_first();
            let r2 = r1.drop_first();
            let r3 = r2.drop_first();
            let gone = SetUp { tunnel_ifindex: None, ..s };
            lemma_clear_address_order(gone, t, c, r3);
            assert(r3[0] == outcomes[3]);
            let del_ipv4 = run(
                Phase::ClearIpv4,
                t,
                OpView::DelIpv4 { ifindex: tunnel, addr: t.ipv4 },
            );
            let delete = run(Phase::ClearTunnel { tunnel }, t, OpView::DeleteLink(tunnel));
            let ops2 = played(gone, del_ipv4, c, r2).2;
            let ops1 = played(s, delete, c, r1).2;
            assert(ops2 == seq![del_ipv4->Run_1] + clear_address_ops(t, c, gone, found(r3[0])));
            assert(ops1 == seq![delete->Run_1] + ops2);
            assert(ops =~= clear_tunnel_ops(t, c, s, found(outcomes[3])));
        },
    }
}

/// Taking down goes the other way round: rules, packet translation, default route, tunnel, shared
/// address, address of the CE, settings. Failures do not keep it from any of them, but where the
/// index of the upstream interface is not found its address cannot be removed.
pub proof fn lemma_cleanup_order(s: SetUp, t: Target, c: Interfaces, outcomes: Seq<OutcomeView>)
    requires
        outcomes.len() >= left_to_clear(Phase::ClearRules),
    ensures
        played(s, cleanup_of(t), c, outcomes).2 == cleanup_ops(
            t,
            c,
            s,
            found(outcomes[index_question(s)]),
        ),
{
    let r1 = outcomes.drop_first();
    let ops = played(s, cleanup_of(t), c, outcomes).2;
    if s.translating {
        let r2 = r1.drop_first();
        let off = SetUp { translating: false, ..s };
        lemma_clear_tunnel_order(off, t, c, r2);
        let unlink = run(Phase::ClearTranslation, t, OpView::UnlinkTranslation);
        let ops1 = played(s, unlink, c, r1).2;
        assert(go_clear_tunnel(off, t, c) == go_clear_tunnel(s, t, c));
        assert(ops1 == seq![unlink->Run_1] + played(off, go_clear_tunnel(off, t, c), c, r2).2);
    } else {
        lemma_clear_tunnel_order(s, t, c, r1);
    }
    assert(ops =~= cleanup_ops(t, c, s, found(outcomes[index_question(s)])));
}

/// Whether an operation touches the upstream interface or a setting.
pub open spec fn touches_upstream(op: OpView) -> bool {
    op is AddIpv6 || op is DelIpv6 || op is ReadSysctl || op is WriteSysctl
}

proof fn lemma_building_ops(s: SetUp, n: NextView, c: Interfaces, outcomes: Seq<OutcomeView>)
    requires
        n matches NextView::Run(task, op) ==> !touches_upstream(op) && (building(task.phase)
            || task.phase is DropTranslation || task.phase is DropRules || task.phase is DropRoute
            || task.phase is DropTunnel),
    ensures
        forall|i: int|
            0 <= i < played(s, n, c, outcomes).2.len() ==> !touches_upstream(
                #[trigger] played(s, n, c, outcomes).2[i],
            ),
    decreases outcomes.len(),
{
    if n is Run && outcomes.len() > 0 {
        let (s1, n1) = step_of(n->Run_0, s, c, outcomes[0]);
        lemma_building_ops(s1, n1, c, outcomes.drop_first());
        let rest = played(s1, n1, c, outcomes.drop_first()).2;
        let all = played(s, n, c, outcomes).2;
        assert(all == seq![n->Run_1] + rest);
        assert forall|i: int| 0 <= i < all.len() implies !touches_upstream(#[trigger] all[i]) by {
            if i > 0 {
                assert(all[i] == rest[i - 1]);
            }
        }
    }
}

/// A change of the border relay, as long as the address of the CE stays, leaves the upstream
/// interface and the settings alone.
pub proof fn lemma_relay_change_spares_upstream(
    old: Target,
    t: Target,
    s: SetUp,
    c: Interfaces,
    outcomes: Seq<OutcomeView>,
)
    requires
        old.ce_ipv6 == t.ce_ipv6,
        old.br_address != t.br_address,
    ensures
        forall|i: int|
            0 <= i < played(s, update_of(old, t, s, c), c, outcomes).2.len() ==> !touches_upstream(
                #[trigger] played(s, update_of(old, t, s, c), c, outcomes).2[i],
            ),
{
    lemma_building_ops(s, update_of(old, t, s, c), c, outcomes);
}

/// A change of the shared address, as long as the address of the CE and the border relay stay,
/// keeps the tunnel.
pub proof fn lemma_shared_address_change_keeps_tunnel(
    old: Target,
    t: Target,
    s: SetUp,
    c: Interfaces,
    outcomes: Seq<OutcomeView>,
)
    requires
        old.ce_ipv6 == t.ce_ipv6,
        old.br_address == t.br_address,
        old.ipv4 != t.ipv4,
    ensures
        ({
            let (end, next, ops) = played(s, update_of(old, t, s, c), c, outcomes);
            &&& end == s
            &&& forall|i: int|
                0 <= i < ops.len() ==> !(#[trigger] ops[i] is CreateTunnel || ops[i] is DeleteLink)
        }),
{
    reveal_with_fuel(played, 6);
    if outcomes.len() > 0 {
        let r1 = outcomes.drop_first();
        if r1.len() > 0 {
            let r2 = r1.drop_first();
            if r2.len() > 0 {
                let r3 = r2.drop_first();
            }
        }
    }
}

/// The outcomes of building a tunnel without the packet translation, where all operations
/// succeed.
pub open spec fn plain_build_outcomes(f: Findings, mtu_is_set: bool) -> Seq<OutcomeView> {
    seq![OutcomeView::Number(f.upstream)] + (if mtu_is_set {
        seq![]
    } else {
        seq![OutcomeView::Number(f.link_mtu)]
    }) + seq![
        OutcomeView::Number(f.tunnel),
        OutcomeView::Done,
        OutcomeView::Done,
        OutcomeView::Done,
    ]
}

/// The operations of building a tunnel without the packet translation, in their order.
pub open spec fn plain_build_ops(t: Target, c: Interfaces, f: Findings, rules: Seq<char>) -> Seq<
    OpView,
> {
    seq![OpView::GetLinkIndex(c.upstream)] + (if c.mtu is Some {
        seq![]
    } else {
        seq![OpView::GetLinkMtu(c.upstream)]
    }) + seq![
        OpView::CreateTunnel {
            name: c.tunnel,
            local: t.ce_ipv6,
            remote: t.br_address,
            link_index: f.upstream,
            mtu: match c.mtu {
                Some(m) => m,
                None => tunnel_mtu(f.link_mtu),
            },
        },
        OpView::AddIpv4 { ifindex: f.tunnel, addr: t.ipv4 },
        OpView::AddDefaultRoute(f.tunnel),
        OpView::RunNft(rules),
    ]
}

/// The MTU of a tunnel is that of the link less the forty bytes of the outer header, but never
/// less than 1280.
pub proof fn lemma_tunnel_mtu(link_mtu: u32)
    ensures
        link_mtu >= 1320 ==> tunnel_mtu(link_mtu) == link_mtu - 40,
        link_mtu < 1320 ==> tunnel_mtu(link_mtu) == 1280,
{
}

proof fn lemma_plain_build_order(s: SetUp, t: Target, c: Interfaces, f: Findings, rules: Seq<char>)
    requires
        t.translation == Translation::Leave,
        rules_text(t, c.tunnel) == Ok::<Seq<char>, ErrorView>(rules),
    ensures
        played(
            s,
            run(Phase::IndexForTunnel, t, OpView::GetLinkIndex(c.upstream)),
            c,
            plain_build_outcomes(f, c.mtu is Some),
        ) == (
            SetUp { tunnel_ifindex: Some(f.tunnel), ..s },
            NextView::Finished(Ok(())),
            plain_build_ops(t, c, f, rules),
        ),
{
    let done = OutcomeView::Done;
    let r0 = Seq::<OutcomeView>::empty();
    let r1 = seq![done];
    let r2 = seq![done, done];
    let r3 = seq![done, done, done];
    let r4 = seq![OutcomeView::Number(f.tunnel), done, done, done];
    let end = SetUp { tunnel_ifindex: Some(f.tunnel), ..s };
    let mtu = match c.mtu {
        Some(m) => m,
        None => tunnel_mtu(f.link_mtu),
    };
    lemma_played_once(end, run(Phase::Rules, t, OpView::RunNft(rules)), c, done, r0);
    assert(r1 =~= seq![done] + r0);
    lemma_played_once(
        end,
        run(Phase::AddRoute, t, OpView::AddDefaultRoute(f.tunnel)),
        c,
        done,
        r1,
    );
    assert(r2 =~= seq![done] + r1);
    lemma_played_once(
        end,
        run(
            Phase::AddIpv4 { tunnel: f.tunnel },
            t,
            OpView::AddIpv4 { ifindex: f.tunnel, addr: t.ipv4 },
        ),
        c,
        done,
        r2,
    );
    assert(r3 =~= seq![done] + r2);
    lemma_played_once(s, go_create(t, c, f.upstream, mtu), c, OutcomeView::Number(f.tunnel), r3);
    assert(r4 =~= seq![OutcomeView::Number(f.tunnel)] + r3);
    let first = run(Phase::IndexForTunnel, t, OpView::GetLinkIndex(c.upstream));
    let rest = if c.mtu is Some {
        r4
    } else {
        lemma_played_once(
            s,
            run(
                Phase::MtuForTunnel { link_index: f.upstream },
                t,
                OpView::GetLinkMtu(c.upstream),
            ),
            c,
            OutcomeView::Number(f.link_mtu),
            r4,
        );
        seq![OutcomeView::Number(f.link_mtu)] + r4
    };
    lemma_played_once(s, first, c, OutcomeView::Number(f.upstream), rest);
    assert(plain_build_outcomes(f, c.mtu is Some) =~= seq![OutcomeView::Number(f.upstream)] + rest);
    assert(played(s, first, c, plain_build_outcomes(f, c.mtu is Some)).2 =~= plain_build_ops(
        t,
        c,
        f,
        rules,
    ));
}

/// The outcomes of replacing a tunnel, where all operations succeed. What becomes of the removal
/// of the old default route does not matter.
pub open spec fn replace_outcomes(
    s: SetUp,
    f: Findings,
    mtu_is_set: bool,
    route: OutcomeView,
) -> Seq<OutcomeView> {
    (if s.translating {
        seq![OutcomeView::Done, OutcomeView::Done]
    } else {
        seq![]
    }) + (if s.tunnel_ifindex is Some {
        seq![route, OutcomeView::Done]
    } else {
        seq![]
    }) + (if s.translating {
        build_outcomes(f, mtu_is_set)
    } else {
        plain_build_outcomes(f, mtu_is_set)
    })
}

/// The operations of replacing a tunnel, in their order: a packet translation that is loaded is
/// detached and the rules removed, the default route and the old tunnel are removed, and the new
/// tunnel is built, with the packet translation if it was loaded before.
pub open spec fn replace_ops(
    s: SetUp,
    t: Target,
    c: Interfaces,
    f: Findings,
    rules: Seq<char>,
) -> Seq<OpView> {
    (if s.translating {
        seq![OpView::UnlinkTranslation, OpView::RunNft(DELETE_TABLES@)]
    } else {
        seq![]
    }) + (match s.tunnel_ifindex {
        Some(tunnel) => seq![OpView::DelDefaultRoute(tunnel), OpView::DeleteLink(tunnel)],
        None => seq![],
    }) + (if s.translating {
        build_ops(t, c, f, rules)
    } else {
        plain_build_ops(t, c, f, rules)
    })
}

proof fn lemma_drop_tunnel_order(
    s: SetUp,
    u: Target,
    c: Interfaces,
    f: Findings,
    rules: Seq<char>,
    route: OutcomeView,
    loads: bool,
)
    requires
        !s.translating,
        u.translation == (if loads {
            Translation::Load
        } else {
            Translation::Leave
        }),
        rules_text(u, c.tunnel) == Ok::<Seq<char>, ErrorView>(rules),
    ensures
        played(
            s,
            go_drop_tunnel(s, u, c),
            c,
            (if s.tunnel_ifindex is Some {
                seq![route, OutcomeView::Done]
            } else {
                seq![]
            }) + (if loads {
                build_outcomes(f, c.mtu is Some)
            } else {
                plain_build_outcomes(f, c.mtu is Some)
            }),
        ) == (
            SetUp { tunnel_ifindex: Some(f.tunnel), translating: loads, ..s },
            NextView::Finished(Ok(())),
            (match s.tunnel_ifindex {
                Some(tunnel) => seq![OpView::DelDefaultRoute(tunnel), OpView::DeleteLink(tunnel)],
                None => seq![],
            }) + (if loads {
                build_ops(u, c, f, rules)
            } else {
                plain_build_ops(u, c, f, rules)
            }),
        ),
{
    let done = OutcomeView::Done;
    let build = if loads {
        build_outcomes(f, c.mtu is Some)
    } else {
        plain_build_outcomes(f, c.mtu is Some)
    };
    let ops = if loads {
        build_ops(u, c, f, rules)
    } else {
        plain_build_ops(u, c, f, rules)
    };
    let gone = SetUp { tunnel_ifindex: None, ..s };
    if loads {
        lemma_build_order(gone, u, c, f, rules);
    } else {
        lemma_plain_build_order(gone, u, c, f, rules);
    }
    match s.tunnel_ifindex {
        None => {
            assert(gone == s);
            assert(Seq::<OutcomeView>::empty() + build =~= build);
            assert(Seq::<OpView>::empty() + ops =~= ops);
        },
        Some(tunnel) => {
            let r1 = seq![done] + build;
            lemma_played_once(
                s,
                run(Phase::DropTunnel, u, OpView::DeleteLink(tunnel)),
                c,
                done,
                build,
            );
            lemma_played_once(
                s,
                run(Phase::DropRoute { tunnel }, u, OpView::DelDefaultRoute(tunnel)),
                c,
                route,
                r1,
            );
            assert(seq![route, done] + build =~= seq![route] + r1);
            assert(played(s, go_drop_tunnel(s, u, c), c, seq![route] + r1).2 =~= seq![
                OpView::DelDefaultRoute(tunnel),
                OpView::DeleteLink(tunnel),
            ] + ops);
        },
    }
}

proof fn lemma_replace_order(
    s: SetUp,
    t: Target,
    c: Interfaces,
    f: Findings,
    route: OutcomeView,
)
    requires
        rules_text(t, c.tunnel) is Ok,
    ensures
        played(s, go_recreate(s, t, c), c, replace_outcomes(s, f, c.mtu is Some, route)) == (
            SetUp { tunnel_ifindex: Some(f.tunnel), ..s },
            NextView::Finished(Ok(())),
            replace_ops(s, t, c, f, rules_text(t, c.tunnel)->Ok_0),
        ),
{
    let done = OutcomeView::Done;
    let u = Target {
        translation: if s.translating {
            Translation::Load
        } else {
            Translation::Leave
        },
        ..t
    };
    let rules = rules_text(t, c.tunnel)->Ok_0;
    assert(rules_text(u, c.tunnel) == rules_text(t, c.tunnel));
    let off = SetUp { translating: false, ..s };
    lemma_drop_tunnel_order(off, u, c, f, rules, route, s.translating);
    let rest = (if s.tunnel_ifindex is Some {
        seq![route, done]
    } else {
        seq![]
    }) + (if s.translating {
        build_outcomes(f, c.mtu is Some)
    } else {
        plain_build_outcomes(f, c.mtu is Some)
    });
    let outcomes = replace_outcomes(s, f, c.mtu is Some, route);
    assert(build_ops(u, c, f, rules) == build_ops(t, c, f, rules));
    assert(plain_build_ops(u, c, f, rules) == plain_build_ops(t, c, f, rules));
    if s.translating {
        let r1 = seq![done] + rest;
        lemma_played_once(
            off,
            run(Phase::DropRules, u, OpView::RunNft(DELETE_TABLES@)),
            c,
            done,
            rest,
        );
        lemma_played_once(
            s,
            run(Phase::DropTranslation, u, OpView::UnlinkTranslation),
            c,
            done,
            r1,
        );
        assert(outcomes =~= seq![done] + r1);
    } else {
        assert(off == s);
        assert(outcomes =~= rest);
    }
    assert(played(s, go_recreate(s, t, c), c, outcomes).2 =~= replace_ops(s, t, c, f, rules));
}

/// Where the tunnel is replaced among the operations: it is deleted, then created anew with the
/// ends of the target, and the shared address and the default route follow at once.
proof fn lemma_where_tunnel_is_replaced(
    s: SetUp,
    t: Target,
    c: Interfaces,
    f: Findings,
    rules: Seq<char>,
    tunnel: u32,
) -> (places: (int, int))
    requires
        s.tunnel_ifindex == Some(tunnel),
    ensures
        ({
            let ops = replace_ops(s, t, c, f, rules);
            let (d, e) = places;
            &&& 0 <= d < e && e + 2 < ops.len()
            &&& ops[d] == OpView::DeleteLink(tunnel)
            &&& ops[e] == (OpView::CreateTunnel {
                name: c.tunnel,
                local: t.ce_ipv6,
                remote: t.br_address,
                link_index: f.upstream,
                mtu: match c.mtu {
                    Some(m) => m,
                    None => tunnel_mtu(f.link_mtu),
                },
            })
            &&& ops[e + 1] == (OpView::AddIpv4 { ifindex: f.tunnel, addr: t.ipv4 })
            &&& ops[e + 2] == OpView::AddDefaultRoute(f.tunnel)
        }),
{
    let d: int = (if s.translating {
        2int
    } else {
        0
    }) + 1;
    let e: int = d + 1 + (if c.mtu is Some {
        1int
    } else {
        2
    });
    (d, e)
}

/// A new CE address, as after a newly delegated prefix: the old address is removed from the
/// upstream interface, even if that fails, the new one is added, and the tunnel is replaced by one
/// that has the new address for its local end, with the shared address and the default route on
/// the new tunnel. This is so with the packet translation and without it.
#[verifier::spinoff_prover]
pub proof fn lemma_new_ce_address_order(
    old: MapeParams,
    new: MapeParams,
    s: SetUp,
    c: Interfaces,
    f: Findings,
    address: OutcomeView,
    route: OutcomeView,
)
    requires
        old.ce_ipv6 != new.ce_ipv6,
        rules_text(target_of(new), c.tunnel) is Ok,
    ensures
        ({
            let mtu = match c.mtu {
                Some(m) => m,
                None => tunnel_mtu(f.link_mtu),
            };
            let (end, next, ops) = played(
                s,
                update_from(old, new, s, c),
                c,
                seq![OutcomeView::Number(f.upstream), address, OutcomeView::Done]
                    + replace_outcomes(s, f, c.mtu is Some, route),
            );
            let n = replace_ops(
                s,
                target_of(new),
                c,
                f,
                rules_text(target_of(new), c.tunnel)->Ok_0,
            ).len();
            &&& end == SetUp { tunnel_ifindex: Some(f.tunnel), ..s }
            &&& next == NextView::Finished(Ok(()))
            &&& ops.len() == 3 + n
            &&& ops[0] == OpView::GetLinkIndex(c.upstream)
            &&& ops[1] == OpView::DelIpv6 { ifindex: f.upstream, addr: old.ce_ipv6 }
            &&& ops[2] == OpView::AddIpv6 { ifindex: f.upstream, addr: new.ce_ipv6 }
            &&& ops.skip(3) == replace_ops(
                s,
                target_of(new),
                c,
                f,
                rules_text(target_of(new), c.tunnel)->Ok_0,
            )
            &&& s.tunnel_ifindex matches Some(tunnel) ==> exists|d: int, e: int|
                2 < d < e && e + 2 < ops.len() && #[trigger] ops[d] == OpView::DeleteLink(tunnel)
                    && #[trigger] ops[e] == (OpView::CreateTunnel {
                    name: c.tunnel,
                    local: new.ce_ipv6,
                    remote: new.br_address,
                    link_index: f.upstream,
                    mtu,
                }) && ops[e + 1] == (OpView::AddIpv4 { ifindex: f.tunnel, addr: new.ipv4 })
                    && ops[e + 2] == OpView::AddDefaultRoute(f.tunnel)
        }),
{
    let t = target_of(new);
    let rules = rules_text(t, c.tunnel)->Ok_0;
    let replace = replace_outcomes(s, f, c.mtu is Some, route);
    lemma_replace_order(s, t, c, f, route);
    let r1 = seq![OutcomeView::Done] + replace;
    lemma_played_once(
        s,
        run(Phase::AddNewIpv6, t, OpView::AddIpv6 { ifindex: f.upstream, addr: t.ce_ipv6 }),
        c,
        OutcomeView::Done,
        replace,
    );
    let r2 = seq![address] + r1;
    lemma_played_once(
        s,
        run(
            Phase::DropOldIpv6 { link_index: f.upstream },
            t,
            OpView::DelIpv6 { ifindex: f.upstream, addr: old.ce_ipv6 },
        ),
        c,
        address,
        r1,
    );
    lemma_played_once(
        s,
        run(Phase::IndexForChange { old: old.ce_ipv6 }, t, OpView::GetLinkIndex(c.upstream)),
        c,
        OutcomeView::Number(f.upstream),
        r2,
    );
    let outcomes = seq![OutcomeView::Number(f.upstream), address, OutcomeView::Done] + replace;
    assert(outcomes =~= seq![OutcomeView::Number(f.upstream)] + r2);
    let ops = played(s, update_from(old, new, s, c), c, outcomes).2;
    let more = replace_ops(s, t, c, f, rules);
    assert(ops =~= seq![
        OpView::GetLinkIndex(c.upstream),
        OpView::DelIpv6 { ifindex: f.upstream, addr: old.ce_ipv6 },
        OpView::AddIpv6 { ifindex: f.upstream, addr: new.ce_ipv6 },
    ] + more);
    assert(ops.skip(3) =~= more);
    if let Some(tunnel) = s.tunnel_ifindex {
        let (d, e) = lemma_where_tunnel_is_replaced(s, t, c, f, rules, tunnel);
        assert(ops[3 + d] == more[d]);
        assert(ops[3 + e] == more[e]);
        assert(ops[3 + e + 1] == more[e + 1]);
        assert(ops[3 + e + 2] == more[e + 2]);
    }
}

/// A new border relay, with the CE address as before: the tunnel is replaced by one that leads to
/// the new relay. This is so with the packet translation and without it.
pub proof fn lemma_new_relay_order(
    old: MapeParams,
    new: MapeParams,
    s: SetUp,
    c: Interfaces,
    f: Findings,
    route: OutcomeView,
)
    requires
        old.ce_ipv6 == new.ce_ipv6,
        old.br_address != new.br_address,
        rules_text(target_of(new), c.tunnel) is Ok,
    ensures
        ({
            let mtu = match c.mtu {
                Some(m) => m,
                None => tunnel_mtu(f.link_mtu),
            };
            let (end, next, ops) = played(
                s,
                update_from(old, new, s, c),
                c,
                replace_outcomes(s, f, c.mtu is Some, route),
            );
            &&& end == SetUp { tunnel_ifindex: Some(f.tunnel), ..s }
            &&& next == NextView::Finished(Ok(()))
            &&& ops == replace_ops(
                s,
                target_of(new),
                c,
                f,
                rules_text(target_of(new), c.tunnel)->Ok_0,
            )
            &&& s.tunnel_ifindex matches Some(tunnel) ==> exists|d: int, e: int|
                0 <= d < e && e + 2 < ops.len() && #[trigger] ops[d] == OpView::DeleteLink(tunnel)
                    && #[trigger] ops[e] == (OpView::CreateTunnel {
                    name: c.tunnel,
                    local: new.ce_ipv6,
                    remote: new.br_address,
                    link_index: f.upstream,
                    mtu,
                }) && ops[e + 1] == (OpView::AddIpv4 { ifindex: f.tunnel, addr: new.ipv4 })
                    && ops[e + 2] == OpView::AddDefaultRoute(f.tunnel)
        }),
{
    let t = target_of(new);
    lemma_replace_order(s, t, c, f, route);
    assert(update_from(old, new, s, c) == go_recreate(s, t, c));
    let ops = played(
        s,
        update_from(old, new, s, c),
        c,
        replace_outcomes(s, f, c.mtu is Some, route),
    ).2;
    assert(ops == replace_ops(s, t, c, f, rules_text(t, c.tunnel)->Ok_0));
    let mtu = match c.mtu {
        Some(m) => m,
        None => tunnel_mtu(f.link_mtu),
    };
    if let Some(tunnel) = s.tunnel_ifindex {
        let d: int = (if s.translating {
            2int
        } else {
            0
        }) + 1;
        let e: int = d + 1 + (if c.mtu is Some {
            1int
        } else {
            2
        });
        assert(ops[d] == OpView::DeleteLink(tunnel));
        assert(ops[e] == (OpView::CreateTunnel {
            name: c.tunnel,
            local: new.ce_ipv6,
            remote: new.br_address,
            link_index: f.upstream,
            mtu,
        }));
        assert(ops[e + 1] == (OpView::AddIpv4 { ifindex: f.tunnel, addr: new.ipv4 }));
        assert(ops[e + 2] == OpView::AddDefaultRoute(f.tunnel));
    }
}

/// A new shared address on the same tunnel: the old one is removed, even if that fails, the new
/// one is added, the default route and the rules follow, and a packet translation that is loaded
/// is told the PSID that goes with the address.
pub proof fn lemma_new_shared_address_order(
    old: MapeParams,
    new: MapeParams,
    s: SetUp,
    c: Interfaces,
    tunnel: u32,
    address: OutcomeView,
)
    requires
        old.ce_ipv6 == new.ce_ipv6,
        old.br_address == new.br_address,
        old.ipv4 != new.ipv4,
        s.tunnel_ifindex == Some(tunnel),
        rules_text(target_of(new), c.tunnel) is Ok,
    ensures
        played(
            s,
            update_from(old, new, s, c),
            c,
            seq![
                address,
                OutcomeView::Done,
                OutcomeView::Done,
                OutcomeView::Done,
                OutcomeView::Done,
            ],
        ) == (
            s,
            NextView::Finished(Ok(())),
            seq![
                OpView::DelIpv4 { ifindex: tunnel, addr: old.ipv4 },
                OpView::AddIpv4 { ifindex: tunnel, addr: new.ipv4 },
                OpView::AddDefaultRoute(tunnel),
                OpView::RunNft(rules_text(target_of(new), c.tunnel)->Ok_0),
            ] + (if s.translating {
                seq![
                    OpView::UpdateTranslation(
                        checked_psid_config(new.rule.port_params, new.psid)->Ok_0,
                    ),
                ]
            } else {
                seq![]
            }),
        ),
{
    let done = OutcomeView::Done;
    let u = Target { translation: Translation::Update, ..target_of(new) };
    let rules = rules_text(u, c.tunnel)->Ok_0;
    let cfg = checked_psid_config(new.rule.port_params, new.psid)->Ok_0;
    let r0 = Seq::<OutcomeView>::empty();
    let r1 = seq![done];
    let r2 = seq![done, done];
    let r3 = seq![done, done, done];
    let r4 = seq![done, done, done, done];
    lemma_played_once(
        s,
        run(Phase::UpdateTranslation, u, OpView::UpdateTranslation(cfg)),
        c,
        done,
        r0,
    );
    assert(r1 =~= seq![done] + r0);
    lemma_played_once(s, run(Phase::Rules, u, OpView::RunNft(rules)), c, done, r1);
    assert(r2 =~= seq![done] + r1);
    lemma_played_once(s, run(Phase::AddRoute, u, OpView::AddDefaultRoute(tunnel)), c, done, r2);
    assert(r3 =~= seq![done] + r2);
    lemma_played_once(
        s,
        run(Phase::AddIpv4 { tunnel }, u, OpView::AddIpv4 { ifindex: tunnel, addr: new.ipv4 }),
        c,
        done,
        r3,
    );
    assert(r4 =~= seq![done] + r3);
    let first = run(
        Phase::DropOldIpv4 { tunnel },
        u,
        OpView::DelIpv4 { ifindex: tunnel, addr: old.ipv4 },
    );
    lemma_played_once(s, first, c, address, r4);
    assert(seq![address, done, done, done, done] =~= seq![address] + r4);
    assert(update_from(old, new, s, c) == first);
    assert(played(s, first, c, seq![address] + r4).2 =~= seq![
        OpView::DelIpv4 { ifindex: tunnel, addr: old.ipv4 },
        OpView::AddIpv4 { ifindex: tunnel, addr: new.ipv4 },
        OpView::AddDefaultRoute(tunnel),
        OpView::RunNft(rules),
    ] + (if s.translating {
        seq![OpView::UpdateTranslation(cfg)]
    } else {
        seq![]
    }));
}

/// A new PSID or other ports, with both addresses and the border relay as before: the rules are
/// applied anew, and a packet translation that is loaded is told the new PSID.
pub proof fn lemma_new_ports_order(
    old: MapeParams,
    new: MapeParams,
    s: SetUp,
    c: Interfaces,
)
    requires
        old.ce_ipv6 == new.ce_ipv6,
        old.br_address == new.br_address,
        old.ipv4 == new.ipv4,
        old.psid != new.psid || !same_ranges(old.port_ranges@, new.port_ranges@),
        rules_text(target_of(new), c.tunnel) is Ok,
    ensures
        played(s, update_from(old, new, s, c), c, seq![OutcomeView::Done, OutcomeView::Done]) == (
            s,
            NextView::Finished(Ok(())),
            seq![OpView::RunNft(rules_text(target_of(new), c.tunnel)->Ok_0)] + (if s.translating {
                seq![
                    OpView::UpdateTranslation(
                        checked_psid_config(new.rule.port_params, new.psid)->Ok_0,
                    ),
                ]
            } else {
                seq![]
            }),
        ),
{
    let done = OutcomeView::Done;
    let u = Target { translation: Translation::Update, ..target_of(new) };
    let rules = rules_text(u, c.tunnel)->Ok_0;
    let cfg = checked_psid_config(new.rule.port_params, new.psid)->Ok_0;
    let r0 = Seq::<OutcomeView>::empty();
    let r1 = seq![done];
    lemma_played_once(
        s,
        run(Phase::UpdateTranslation, u, OpView::UpdateTranslation(cfg)),
        c,
        done,
        r0,
    );
    assert(r1 =~= seq![done] + r0);
    lemma_played_once(s, run(Phase::Rules, u, OpView::RunNft(rules)), c, done, r1);
    assert(seq![done, done] =~= seq![done] + r1);
    assert(played(s, update_from(old, new, s, c), c, seq![done] + r1).2 =~= seq![
        OpView::RunNft(rules),
    ] + (if s.translating {
        seq![OpView::UpdateTranslation(cfg)]
    } else {
        seq![]
    }));
}

/// Mappings that agree in their addresses, their PSID and their ports are the same as far as the
/// system is concerned; a difference in any of them is a change.
pub proof fn lemma_what_counts_as_a_change(old: MapeParams, new: MapeParams)
    ensures
        old.ce_ipv6 != new.ce_ipv6 ==> changed(old, new),
        old.ipv4 != new.ipv4 ==> changed(old, new),
        old.br_address != new.br_address ==> changed(old, new),
        old.psid != new.psid ==> changed(old, new),
        old.port_ranges@.len() != new.port_ranges@.len() ==> changed(old, new),
        forall|i: int|
            0 <= i < old.port_ranges@.len() && 0 <= i < new.port_ranges@.len() && ((
            #[trigger] old.port_ranges@[i])@.start != new.port_ranges@[i]@.start
                || old.port_ranges@[i]@.end != new.port_ranges@[i]@.end) ==> changed(old, new),
        old.ce_ipv6 == new.ce_ipv6 && old.ipv4 == new.ipv4 && old.br_address == new.br_address
            && old.psid == new.psid && old.port_ranges@ == new.port_ranges@ ==> !changed(old, new),
{
}

/// What setting up a mapping does, for that mapping: the CE address on the upstream interface, a
/// tunnel from there to the border relay, the shared address and the default route on the tunnel,
/// the packet translation with the PSID of the mapping, and the rules.
pub proof fn lemma_apply_sets_up_mapping(p: MapeParams, s: SetUp, c: Interfaces, f: Findings)
    requires
        rules_text(target_of(p), c.tunnel) is Ok,
    ensures
        ({
            let mtu = match c.mtu {
                Some(m) => m,
                None => tunnel_mtu(f.link_mtu),
            };
            let (end, next, ops) = played(
                s,
                apply_of(target_of(p)),
                c,
                apply_outcomes(f, c.mtu is Some),
            );
            let e: int = if c.mtu is Some {
                7
            } else {
                8
            };
            &&& next == NextView::Finished(Ok(()))
            &&& end.tunnel_ifindex == Some(f.tunnel)
            &&& end.original_ip_forward == Some(trimmed_end(f.ip_forward))
            &&& end.original_ipv6_forward == Some(trimmed_end(f.ipv6_forward))
            &&& end.translating
            &&& ops.len() == e + 6
            &&& ops[0] == OpView::ReadSysctl(Sysctl::Ipv4Forward)
            &&& ops[1] == OpView::WriteSysctl(Sysctl::Ipv4Forward, "1"@)
            &&& ops[2] == OpView::ReadSysctl(Sysctl::Ipv6Forward)
            &&& ops[3] == OpView::WriteSysctl(Sysctl::Ipv6Forward, "1"@)
            &&& ops[4] == OpView::GetLinkIndex(c.upstream)
            &&& ops[5] == (OpView::AddIpv6 { ifindex: f.upstream, addr: p.ce_ipv6 })
            &&& ops[6] == OpView::GetLinkIndex(c.upstream)
            &&& c.mtu is None ==> ops[7] == OpView::GetLinkMtu(c.upstream)
            &&& ops[e] == (OpView::CreateTunnel {
                name: c.tunnel,
                local: p.ce_ipv6,
                remote: p.br_address,
                link_index: f.upstream,
                mtu,
            })
            &&& ops[e + 1] == (OpView::AddIpv4 { ifindex: f.tunnel, addr: p.ipv4 })
            &&& ops[e + 2] == OpView::AddDefaultRoute(f.tunnel)
            &&& ops[e + 3] == OpView::LoadTranslation(
                checked_psid_config(p.rule.port_params, p.psid)->Ok_0,
            )
            &&& ops[e + 4] == OpView::LinkTranslation(c.tunnel)
            &&& ops[e + 5] == OpView::RunNft(rules_text(target_of(p), c.tunnel)->Ok_0)
        }),
{
    lemma_apply_order(s, target_of(p), c, f);
}

/// What taking down a mapping does, for that mapping: whatever the operations give, the rules go,
/// then the packet translation, the default route, the tunnel and the shared address, and the CE
/// address where the index of the upstream interface is found.
pub proof fn lemma_cleanup_takes_down_mapping(
    p: MapeParams,
    s: SetUp,
    c: Interfaces,
    outcomes: Seq<OutcomeView>,
    upstream: u32,
)
    requires
        outcomes.len() >= 9,
        outcomes[(if s.translating {
            2int
        } else {
            1
        }) + (if s.tunnel_ifindex is Some {
            3int
        } else {
            0
        })] == OutcomeView::Number(upstream),
    ensures
        played(s, cleanup_of(target_of(p)), c, outcomes).2 == seq![OpView::RunNft(DELETE_TABLES@)]
            + (if s.translating {
            seq![OpView::UnlinkTranslation]
        } else {
            seq![]
        }) + (match s.tunnel_ifindex {
            Some(tunnel) => seq![
                OpView::DelDefaultRoute(tunnel),
                OpView::DeleteLink(tunnel),
                OpView::DelIpv4 { ifindex: tunnel, addr: p.ipv4 },
            ],
            None => seq![],
        }) + seq![
            OpView::GetLinkIndex(c.upstream),
            OpView::DelIpv6 { ifindex: upstream, addr: p.ce_ipv6 },
        ] + (match s.original_ipv6_forward {
            Some(v) => seq![OpView::WriteSysctl(Sysctl::Ipv6Forward, v)],
            None => seq![],
        }) + (match s.original_ip_forward {
            Some(v) => seq![OpView::WriteSysctl(Sysctl::Ipv4Forward, v)],
            None => seq![],
        }),
{
    lemma_cleanup_order(s, target_of(p), c, outcomes);
    assert(played(s, cleanup_of(target_of(p)), c, outcomes).2 =~= seq![
        OpView::RunNft(DELETE_TABLES@),
    ] + (if s.translating {
        seq![OpView::UnlinkTranslation]
    } else {
        seq![]
    }) + (match s.tunnel_ifindex {
        Some(tunnel) => seq![
            OpView::DelDefaultRoute(tunnel),
            OpView::DeleteLink(tunnel),
            OpView::DelIpv4 { ifindex: tunnel, addr: p.ipv4 },
        ],
        None => seq![],
    }) + seq![
        OpView::GetLinkIndex(c.upstream),
        OpView::DelIpv6 { ifindex: upstream, addr: p.ce_ipv6 },
    ] + (match s.original_ipv6_forward {
        Some(v) => seq![OpView::WriteSysctl(Sysctl::Ipv6Forward, v)],
        None => seq![],
    }) + (match s.original_ip_forward {
        Some(v) => seq![OpView::WriteSysctl(Sysctl::Ipv4Forward, v)],
        None => seq![],
    }));
}

/// Whether a failure in a phase is carried on with: what removes something old, and all of the
/// taking down.
pub open spec fn tolerates_failure(p: Phase) -> bool {
    p is DropOldIpv6 || p is DropRoute || p is DropOldIpv4 || p is ClearRules
        || p is ClearTranslation || p is ClearRoute || p is ClearTunnel || p is ClearIpv4
        || p is IndexForClear || p is ClearIpv6 || p is RestoreIpv6Forward
        || p is RestoreIpv4Forward
}

/// An operation that fails ends the setting up or the change with its error and changes nothing
/// that is kept, unless it removes something old; then the task goes on.
pub proof fn lemma_failure_ends_task(task: Task, s: SetUp, c: Interfaces, e: ErrorView)
    ensures
        !tolerates_failure(task.phase) ==> step_of(task, s, c, OutcomeView::Failed(e)) == (
            s,
            NextView::Finished(Err(e)),
        ),
        tolerates_failure(task.phase) ==> step_of(
            task,
            s,
            c,
            OutcomeView::Failed(e),
        ).1 != NextView::Finished(Err(e)),
{
}

/// What an earlier run may have left behind is removed before anything is set up: the rules, the
/// default route and the tunnel of the configured name, and just those addresses of the upstream
/// interface that are of single hosts, one operation for each.
pub proof fn lemma_leftovers_are_removed(
    tunnel: Option<u32>,
    upstream: Option<u32>,
    addresses: Seq<Ipv6Net>,
    addr: Ipv6Addr,
)
    ensures
        ({
            let ops = leftover_ops(tunnel, upstream, addresses);
            &&& ops[0] == OpView::RunNft(DELETE_TABLES@)
            &&& tunnel matches Some(i) ==> ops.len() >= 3 && ops[1] == OpView::DelDefaultRoute(i)
                && ops[2] == OpView::DeleteLink(i)
            &&& upstream matches Some(i) ==> (ops.contains(OpView::DelIpv6 { ifindex: i, addr })
                <==> addresses.contains(Ipv6Net { addr, prefix_len: 128 }))
            &&& upstream is None ==> ops.len() == (if tunnel is Some {
                3int
            } else {
                1
            })
        }),
{
    let ops = leftover_ops(tunnel, upstream, addresses);
    let front = leftover_ops(tunnel, None, addresses);
    if let Some(i) = upstream {
        lemma_hosts_are_dropped(i, addresses, addr);
        let hosts = drop_hosts(i, addresses);
        let op = OpView::DelIpv6 { ifindex: i, addr };
        assert(ops =~= front + hosts);
        if hosts.contains(op) {
            let j = choose|j: int| 0 <= j < hosts.len() && hosts[j] == op;
            assert(ops[front.len() + j] == op);
        }
        if ops.contains(op) {
            let j = choose|j: int| 0 <= j < ops.len() && ops[j] == op;
            assert(j >= front.len());
            assert(hosts[j - front.len()] == op);
        }
    }
}

proof fn lemma_hosts_are_dropped(ifindex: u32, addresses: Seq<Ipv6Net>, addr: Ipv6Addr)
    ensures
        drop_hosts(ifindex, addresses).contains(OpView::DelIpv6 { ifindex, addr })
            <==> addresses.contains(Ipv6Net { addr, prefix_len: 128 }),
    decreases addresses.len(),
{
    if addresses.len() > 0 {
        let front = addresses.drop_last();
        let n = addresses.len() - 1;
        let net = Ipv6Net { addr, prefix_len: 128 };
        let op = OpView::DelIpv6 { ifindex, addr };
        lemma_hosts_are_dropped(ifindex, front, addr);
        let before = drop_hosts(ifindex, front);
        let all = drop_hosts(ifindex, addresses);
        if front.contains(net) {
            let i = choose|i: int| 0 <= i < front.len() && front[i] == net;
            assert(addresses[i] == net);
            let j = choose|j: int| 0 <= j < before.len() && before[j] == op;
            assert(all[j] == op);
        }
        if addresses[n] == net {
            assert(all[before.len() as int] == op);
        }
        if addresses.contains(net) {
            let i = choose|i: int| 0 <= i < addresses.len() && addresses[i] == net;
            if i < n {
                assert(front[i] == net);
            }
        }
        if all.contains(op) {
            let j = choose|j: int| 0 <= j < all.len() && all[j] == op;
            if j < before.len() {
                assert(before[j] == op);
            } else {
                assert(addresses[n] == net);
            }
        }
    }
}

/// The rules for a mapping, for the ports that its PSID has: the elements are those of the merged
/// ranges, the translation is to the staging ports, which begin at `2^(16-a)` and are as many as
/// the ports outside block 0, and tunnel packets from others than the border relay are dropped.
/// Port parameters of more than sixteen bits, or of sixteen that leave no port, have no rules.
pub proof fn lemma_rules_of_a_mapping(
    t: Target,
    tunnel: Seq<char>,
    ranges: Seq<RangeInclusive<u16>>,
    first: u16,
    last: u16,
)
    requires
        merged(
            ranges,
            assigned_ports(
                t.port_params.psid_offset as nat,
                t.port_params.psid_length as nat,
                t.psid as int,
            ),
        ),
        t.port_params.psid_offset > 0 && t.port_params.psid_offset + t.port_params.psid_length <= 16
            ==> first == pow2((16 - t.port_params.psid_offset) as nat) && last - first + 1 == (pow2(
            t.port_params.psid_offset as nat,
        ) - 1) * pow2((16 - t.port_params.psid_offset - t.port_params.psid_length) as nat),
        t.port_params.psid_offset == 0 ==> first == 1 && last == 65535,
    ensures
        t.port_params.psid_offset + t.port_params.psid_length > 16 ==> rules_text(t, tunnel) is Err,
        t.port_params.psid_offset + t.port_params.psid_length <= 16 ==> (rules_text(t, tunnel)
            == if ranges.len() == 0 {
            Err(ErrorView::EmptyPortRanges)
        } else {
            Ok(ruleset(port_elements(ranges), tunnel, ipv6_text(t.br_address.bits), (first, last)))
        }),
{
    if t.port_params.psid_offset + t.port_params.psid_length <= 16 {
        lemma_staging_range(t.port_params.psid_offset, t.port_params.psid_length, t.psid);
    }
    let ports = assigned_ports(
        t.port_params.psid_offset as nat,
        t.port_params.psid_length as nat,
        t.psid as int,
    );
    lemma_elements_of_merged(ranges, ports);
    if ranges.len() > 0 {
        assert(proper(ranges[ranges.len() - 1]));
        assert(ports.len() > 0);
    }
}

} // verus!
