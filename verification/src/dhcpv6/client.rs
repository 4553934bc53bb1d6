//! The DHCPv6 client: Solicit, Request, and the renewal of what came of them.
//!
//! The client is a machine. Each step takes what happened since the last one and says what to
//! announce, what to send and what to wait for. Times are in milliseconds of a clock that only
//! goes forward; waiting times are in seconds.

use std::sync::Arc;
use vstd::prelude::*;

use crate::config::Config;
use crate::dhcpv6::event::{DhcpV6Event, EventView};
use crate::dhcpv6::exchange::{
    answers_request, answers_solicit, build_rebind, build_release, build_renew, build_request,
    build_solicit, lease_in, parse_advertise, parse_reply, process_reply, rebind_message,
    release_message, renew_message, solicit_message, Association, LeaseInfo, LeaseView, ReplyError,
    MSG_REQUEST,
};
use crate::dhcpv6::wire::{
    client_message, encoded_message, first_ia_pd, first_preference, first_server_id, message_of,
    MessageView, WireMessage,
};
use crate::map::rule::MapRule;
use crate::net::Ipv6Addr;

verus! {

/// First waiting time for an Advertise.
pub const SOL_TIMEOUT: u64 = 1;

/// The preference of an Advertise that is taken up without waiting for others.
pub const PREFERENCE_MAX: u8 = 255;

/// Longest waiting time for an Advertise.
pub const SOL_MAX_RT: u64 = 120;

/// Waiting time for the Reply to a Request.
pub const REQ_TIMEOUT: u64 = 10;

/// Waiting time for the Reply to a Renew.
pub const REN_RETRANS: u64 = 10;

/// First waiting time for the Reply to a Rebind, and its increase.
pub const REB_RETRANS_INIT: u64 = 10;

/// Longest waiting time for the Reply to a Rebind.
pub const REB_RETRANS_MAX: u64 = 30;

/// Pause after a failed exchange.
pub const RETRY_PAUSE: u64 = 5;

/// How long a Release may take to be sent.
pub const RELEASE_TIMEOUT: u64 = 2;

/// `rand::rng().random()`: three bytes, of which nothing is known.
#[verifier::external_body]
fn new_xid() -> (r: [u8; 3]) {
    rand::Rng::random(&mut rand::rng())
}

/// A receiver that is a client of its own.
#[derive(Clone, Debug)]
pub struct ClientReceiver {
    pub config: Arc<Config>,
}

impl ClientReceiver {
    pub fn new(config: Arc<Config>) -> (r: ClientReceiver)
        ensures
            r.config == config,
    {
        ClientReceiver { config }
    }
}

/// Whom a message goes to.
#[derive(Clone, Copy, Debug, PartialEq, Eq, Structural)]
pub enum Destination {
    /// All servers and relay agents on the link.
    AllServers,
    /// One server.
    Server(Ipv6Addr),
}

/// A message to send.
#[derive(Clone, Debug)]
pub struct Outgoing {
    pub to: Destination,
    pub data: Vec<u8>,
    /// Whether the exchange fails if the message cannot be sent.
    pub must_send: bool,
}

/// An event to announce.
#[derive(Clone, Debug)]
pub struct Notice {
    pub event: DhcpV6Event,
    /// Whether the client stops if nobody takes the event.
    pub must_reach: bool,
}

/// What to wait for.
#[derive(Clone, Copy, Debug, PartialEq, Eq, Structural)]
pub enum Wait {
    /// A datagram, for so many seconds, or until a point in time if there is one. With jitter
    /// the seconds are to be varied by up to a tenth.
    Reply { timeout: u64, jitter: bool, until: Option<u64> },
    /// A point in time.
    Until(u64),
    /// So many seconds.
    Pause(u64),
    /// What was waited for last, for the time that is left of it.
    Resume,
    /// Nothing more: the client has stopped.
    Stop,
}

/// What a step asks for, in this order.
#[derive(Clone, Debug)]
pub struct Output {
    pub notice: Option<Notice>,
    pub send: Option<Outgoing>,
    pub wait: Wait,
}

/// What happened while waiting.
#[derive(Clone, Debug)]
pub enum Input {
    /// A datagram came.
    Datagram(Vec<u8>),
    /// The seconds ran out.
    Timeout,
    /// The point in time was reached.
    Deadline,
    /// Sending or receiving failed.
    Failure,
    /// The daemon is shutting down.
    Cancelled,
}

/// A lease that is being kept.
#[derive(Clone, Debug)]
pub struct Holding {
    /// The server that granted the first lease.
    pub server_duid: Vec<u8>,
    /// Where that server wants to be spoken to.
    pub server_unicast: Option<Ipv6Addr>,
    /// The association of the first lease.
    pub release: Association,
    /// The association of the present lease.
    pub current: Association,
    pub t1_at: u64,
    pub t2_at: u64,
    /// When the lease ends, if it does.
    pub expire_at: Option<u64>,
}

/// Where the client stands.
#[derive(Clone, Debug)]
pub enum Phase {
    /// Between two attempts.
    Idle,
    /// Waiting for an Advertise. Until `choose_at` others may come that are better.
    Soliciting { xid: [u8; 3], rt: u64, data: Vec<u8>, choose_at: u64 },
    /// Waiting for a better Advertise than the first.
    Choosing { xid: [u8; 3], offer: Offer, choose_at: u64 },
    /// Waiting for the Reply to a Request.
    Requesting { xid: [u8; 3], server_duid: Vec<u8>, data: Vec<u8> },
    /// Waiting for the time to renew.
    Bound(Holding),
    /// Waiting for the Reply to a Renew.
    Renewing { holding: Holding, xid: [u8; 3] },
    /// Waiting for the Reply to a Rebind.
    Rebinding { holding: Holding, xid: [u8; 3], rt: u64 },
    Stopped,
}

/// The client.
#[derive(Clone, Debug)]
pub struct Client {
    pub duid: Vec<u8>,
    pub iaid: u32,
    pub phase: Phase,
}

pub struct OutgoingView {
    pub to: Destination,
    pub data: Seq<u8>,
    pub must_send: bool,
}

pub struct NoticeView {
    pub event: EventView,
    pub must_reach: bool,
}

pub struct OutputView {
    pub notice: Option<NoticeView>,
    pub send: Option<OutgoingView>,
    pub wait: Wait,
}

pub enum InputView {
    Datagram(Seq<u8>),
    Timeout,
    Deadline,
    Failure,
    Cancelled,
}

pub struct HoldingView {
    pub server_duid: Seq<u8>,
    pub server_unicast: Option<Ipv6Addr>,
    pub release: Association,
    pub current: Association,
    pub t1_at: u64,
    pub t2_at: u64,
    pub expire_at: Option<u64>,
}

pub enum PhaseView {
    Idle,
    Soliciting { xid: Seq<u8>, rt: u64, data: Seq<u8>, choose_at: u64 },
    Choosing { xid: Seq<u8>, offer: OfferView, choose_at: u64 },
    Requesting { xid: Seq<u8>, server_duid: Seq<u8>, data: Seq<u8> },
    Bound(HoldingView),
    Renewing { holding: HoldingView, xid: Seq<u8> },
    Rebinding { holding: HoldingView, xid: Seq<u8>, rt: u64 },
    Stopped,
}

pub struct ClientView {
    pub duid: Seq<u8>,
    pub iaid: u32,
    pub phase: PhaseView,
}

impl View for Outgoing {
    type V = OutgoingView;

    open spec fn view(&self) -> OutgoingView {
        OutgoingView { to: self.to, data: self.data@, must_send: self.must_send }
    }
}

impl View for Notice {
    type V = NoticeView;

    open spec fn view(&self) -> NoticeView {
        NoticeView { event: self.event@, must_reach: self.must_reach }
    }
}

impl View for Output {
    type V = OutputView;

    open spec fn view(&self) -> OutputView {
        OutputView {
            notice: match self.notice {
                Some(n) => Some(n@),
                None => None,
            },
            send: match self.send {
                Some(o) => Some(o@),
                None => None,
            },
            wait: self.wait,
        }
    }
}

impl View for Input {
    type V = InputView;

    open spec fn view(&self) -> InputView {
        match *self {
            Input::Datagram(d) => InputView::Datagram(d@),
            Input::Timeout => InputView::Timeout,
            Input::Deadline => InputView::Deadline,
            Input::Failure => InputView::Failure,
            Input::Cancelled => InputView::Cancelled,
        }
    }
}

impl View for Holding {
    type V = HoldingView;

    open spec fn view(&self) -> HoldingView {
        HoldingView {
            server_duid: self.server_duid@,
            server_unicast: self.server_unicast,
            release: self.release,
            current: self.current,
            t1_at: self.t1_at,
            t2_at: self.t2_at,
            expire_at: self.expire_at,
        }
    }
}

impl View for Phase {
    type V = PhaseView;

    open spec fn view(&self) -> PhaseView {
        match *self {
            Phase::Idle => PhaseView::Idle,
            Phase::Soliciting { xid, rt, data, choose_at } => PhaseView::Soliciting {
                xid: xid@,
                rt,
                data: data@,
                choose_at,
            },
            Phase::Choosing { xid, offer, choose_at } => PhaseView::Choosing {
                xid: xid@,
                offer: offer@,
                choose_at,
            },
            Phase::Requesting { xid, server_duid, data } => PhaseView::Requesting {
                xid: xid@,
                server_duid: server_duid@,
                data: data@,
            },
            Phase::Bound(holding) => PhaseView::Bound(holding@),
            Phase::Renewing { holding, xid } => PhaseView::Renewing {
                holding: holding@,
                xid: xid@,
            },
            Phase::Rebinding { holding, xid, rt } => PhaseView::Rebinding {
                holding: holding@,
                xid: xid@,
                rt,
            },
            Phase::Stopped => PhaseView::Stopped,
        }
    }
}

impl View for Client {
    type V = ClientView;

    open spec fn view(&self) -> ClientView {
        ClientView { duid: self.duid@, iaid: self.iaid, phase: self.phase@ }
    }
}

/// The client with another phase.
pub open spec fn in_phase(c: ClientView, phase: PhaseView) -> ClientView {
    ClientView { duid: c.duid, iaid: c.iaid, phase }
}

/// Nothing to announce, a message of an exchange that has not led to a lease yet, and so many
/// seconds for the answer.
pub open spec fn ask_all(data: Seq<u8>, timeout: u64, jitter: bool) -> OutputView {
    OutputView {
        notice: None,
        send: Some(OutgoingView { to: Destination::AllServers, data, must_send: true }),
        wait: Wait::Reply { timeout, jitter, until: None },
    }
}

/// Nothing to announce and nothing to send.
pub open spec fn just_wait(wait: Wait) -> OutputView {
    OutputView { notice: None, send: None, wait }
}

/// Nothing happens, and the wait goes on.
pub open spec fn go_on(c: ClientView) -> (ClientView, OutputView) {
    (c, just_wait(Wait::Resume))
}

/// The Solicit goes out, again or for the first time.
pub open spec fn solicit(c: ClientView, xid: Seq<u8>, rt: u64, data: Seq<u8>, choose_at: u64) -> (
    ClientView,
    OutputView,
) {
    (in_phase(c, PhaseView::Soliciting { xid, rt, data, choose_at }), ask_all(data, rt, true))
}

/// A new exchange begins. For its first waiting time, offers are collected.
pub open spec fn begin(c: ClientView, now: u64, fresh: Seq<u8>) -> (ClientView, OutputView) {
    solicit(
        c,
        fresh,
        SOL_TIMEOUT,
        solicit_message(c.duid, c.iaid, fresh),
        after(now, SOL_TIMEOUT as u32),
    )
}

/// An Advertise is kept, and a better one waited for.
pub open spec fn choose_from(c: ClientView, xid: Seq<u8>, offer: OfferView, choose_at: u64) -> (
    ClientView,
    OutputView,
) {
    (
        in_phase(c, PhaseView::Choosing { xid, offer, choose_at }),
        just_wait(
            Wait::Reply { timeout: SOL_TIMEOUT, jitter: false, until: Some(choose_at) },
        ),
    )
}

/// The exchange has failed, and the next one waits a little.
pub open spec fn pause(c: ClientView) -> (ClientView, OutputView) {
    (in_phase(c, PhaseView::Idle), just_wait(Wait::Pause(RETRY_PAUSE)))
}

/// The client stops.
pub open spec fn stop(c: ClientView) -> (ClientView, OutputView) {
    (in_phase(c, PhaseView::Stopped), just_wait(Wait::Stop))
}

/// The Request goes out, again or for the first time.
pub open spec fn request(c: ClientView, xid: Seq<u8>, server_duid: Seq<u8>, data: Seq<u8>) -> (
    ClientView,
    OutputView,
) {
    (
        in_phase(c, PhaseView::Requesting { xid, server_duid, data }),
        ask_all(data, REQ_TIMEOUT, false),
    )
}

/// What it takes to take up an Advertise: whose it is, and the Request for what it offers. One
/// without a server id, or without an association that can be sent back, cannot be taken up.
pub open spec fn offer_in(c: ClientView, m: MessageView, fresh: Seq<u8>) -> Option<OfferView> {
    match (first_server_id(m.options), first_ia_pd(m.options, None)) {
        (Some(server_duid), Some(a)) => match client_message(
            MSG_REQUEST,
            fresh,
            c.duid,
            Some(server_duid),
            true,
            a,
        ) {
            Some(request) => Some(
                OfferView {
                    preference: first_preference(m.options),
                    xid: fresh,
                    server_duid,
                    request,
                },
            ),
            None => None,
        },
        _ => None,
    }
}

/// `secs` seconds after `now`.
pub open spec fn after(now: u64, secs: u32) -> u64 {
    if now + secs * 1000 > u64::MAX {
        u64::MAX
    } else {
        (now + secs * 1000) as u64
    }
}

/// A lease begins to be kept.
pub open spec fn hold(
    server_duid: Seq<u8>,
    server_unicast: Option<Ipv6Addr>,
    release: Association,
    lease: LeaseView,
    now: u64,
) -> HoldingView {
    HoldingView {
        server_duid,
        server_unicast,
        release,
        current: lease.ia_pd_for_release,
        t1_at: after(now, lease.t1),
        t2_at: after(now, lease.t2),
        expire_at: if lease.valid_lifetime == u32::MAX {
            None
        } else {
            Some(after(now, lease.valid_lifetime))
        },
    }
}

/// A lease is announced and kept until it is time to renew.
pub open spec fn bind(c: ClientView, h: HoldingView, event: EventView, must_reach: bool) -> (
    ClientView,
    OutputView,
) {
    (
        in_phase(c, PhaseView::Bound(h)),
        OutputView {
            notice: Some(NoticeView { event, must_reach }),
            send: None,
            wait: Wait::Until(h.t1_at),
        },
    )
}

/// What a lease is announced as: with its rules if it brings any, else the prefix alone, so that
/// the rules that are known stay.
pub open spec fn news_of(lease: LeaseView) -> EventView {
    if lease.rules.len() > 0 {
        EventView::Both { rules: lease.rules, ia_pd: lease.prefix }
    } else {
        EventView::IaPdReceived(lease.prefix)
    }
}

/// The first lease: somebody has to take its announcement.
pub open spec fn bind_first(c: ClientView, lease: LeaseView, now: u64) -> (ClientView, OutputView) {
    bind(
        c,
        hold(
            lease.server_duid,
            lease.server_unicast,
            lease.ia_pd_for_release,
            lease,
            now,
        ),
        news_of(lease),
        true,
    )
}

/// A renewed lease: the server stays that of the first.
pub open spec fn bind_again(c: ClientView, h: HoldingView, lease: LeaseView, now: u64) -> (
    ClientView,
    OutputView,
) {
    bind(
        c,
        hold(h.server_duid, h.server_unicast, h.release, lease, now),
        news_of(lease),
        false,
    )
}

/// Whether the lease has ended.
pub open spec fn expired(h: HoldingView, now: u64) -> bool {
    h.expire_at matches Some(t) && now >= t
}

/// Where messages for the server go.
pub open spec fn server_of(h: HoldingView) -> Destination {
    match h.server_unicast {
        Some(a) => Destination::Server(a),
        None => Destination::AllServers,
    }
}

/// Any server is asked, unless the lease has ended.
pub open spec fn rebind(c: ClientView, h: HoldingView, xid: Seq<u8>, rt: u64, now: u64, fresh: Seq<u8>) -> (
    ClientView,
    OutputView,
) {
    if expired(h, now) {
        begin(c, now, fresh)
    } else {
        (
            in_phase(c, PhaseView::Rebinding { holding: h, xid, rt }),
            OutputView {
                notice: None,
                send: Some(
                    OutgoingView {
                        to: Destination::AllServers,
                        data: rebind_message(c.duid, xid, h.current),
                        must_send: false,
                    },
                ),
                wait: Wait::Reply { timeout: rt, jitter: false, until: h.expire_at },
            },
        )
    }
}

/// The server is asked, unless the lease has ended or it is time to ask any server.
pub open spec fn renew(c: ClientView, h: HoldingView, xid: Seq<u8>, now: u64, fresh: Seq<u8>) -> (
    ClientView,
    OutputView,
) {
    if expired(h, now) {
        begin(c, now, fresh)
    } else if now >= h.t2_at {
        rebind(c, h, fresh, REB_RETRANS_INIT, now, fresh)
    } else {
        (
            in_phase(c, PhaseView::Renewing { holding: h, xid }),
            OutputView {
                notice: None,
                send: Some(
                    OutgoingView {
                        to: server_of(h),
                        data: renew_message(c.duid, h.server_duid, xid, h.current),
                        must_send: false,
                    },
                ),
                wait: Wait::Reply { timeout: REN_RETRANS, jitter: false, until: Some(h.t2_at) },
            },
        )
    }
}

/// The lease is given back, unless it has ended, and the client stops.
pub open spec fn release(c: ClientView, h: HoldingView, now: u64, fresh: Seq<u8>) -> (
    ClientView,
    OutputView,
) {
    if expired(h, now) {
        stop(c)
    } else {
        (
            in_phase(c, PhaseView::Stopped),
            OutputView {
                notice: None,
                send: Some(
                    OutgoingView {
                        to: server_of(h),
                        data: release_message(c.duid, h.server_duid, fresh, h.release),
                        must_send: false,
                    },
                ),
                wait: Wait::Stop,
            },
        )
    }
}

/// What became of a datagram while a Reply is awaited.
pub enum Answer {
    /// It does not answer the transaction.
    Foreign,
    /// It answers, but cannot be encoded again to be read.
    Unreadable,
    /// It answers with a status other than success.
    Refused,
    /// It answers, but brings no lease.
    NoLease,
    /// It brings a lease.
    Granted(LeaseView),
}

/// What a datagram is to a client that awaits a Reply. A Reply that answers is encoded anew,
/// and the lease is read from that encoding.
pub open spec fn answer(data: Seq<u8>, xid: Seq<u8>, iaid: u32, server_duid: Seq<u8>) -> Answer {
    match message_of(data) {
        Some(m) if answers_request(m, xid) => match encoded_message(m) {
            None => Answer::Unreadable,
            Some(raw) => match lease_in(raw, iaid, server_duid) {
                Ok(lease) => Answer::Granted(lease),
                Err(ReplyError::Status(_)) => Answer::Refused,
                Err(_) => Answer::NoLease,
            },
        },
        _ => Answer::Foreign,
    }
}

/// What the client makes of what happened. A datagram is held against what the client awaits.
pub open spec fn heard(c: ClientView, input: InputView, fresh: Seq<u8>) -> HeardView {
    match input {
        InputView::Timeout => HeardView::Timeout,
        InputView::Deadline => HeardView::Deadline,
        InputView::Failure => HeardView::Failure,
        InputView::Cancelled => HeardView::Cancelled,
        InputView::Datagram(d) => match c.phase {
            PhaseView::Soliciting { xid, .. } => match message_of(d) {
                Some(m) if answers_solicit(m, xid) => HeardView::Offer(offer_in(c, m, fresh)),
                _ => HeardView::Foreign,
            },
            PhaseView::Choosing { xid, .. } => match message_of(d) {
                Some(m) if answers_solicit(m, xid) => HeardView::Offer(offer_in(c, m, fresh)),
                _ => HeardView::Foreign,
            },
            PhaseView::Requesting { xid, server_duid, .. } => HeardView::Answer(
                answer(d, xid, c.iaid, server_duid),
            ),
            PhaseView::Renewing { holding, xid } => HeardView::Answer(
                answer(d, xid, c.iaid, holding.server_duid),
            ),
            PhaseView::Rebinding { holding, xid, .. } => HeardView::Answer(
                answer(d, xid, c.iaid, holding.server_duid),
            ),
            _ => HeardView::Foreign,
        },
    }
}

/// What the client does about it. `fresh` is the id of the transaction that it may begin.
pub open spec fn react_of(c: ClientView, h: HeardView, now: u64, fresh: Seq<u8>) -> (
    ClientView,
    OutputView,
) {
    match c.phase {
        PhaseView::Stopped => stop(c),
        PhaseView::Idle => match h {
            HeardView::Cancelled => stop(c),
            _ => begin(c, now, fresh),
        },
        PhaseView::Soliciting { xid, rt, data, choose_at } => match h {
            HeardView::Cancelled => stop(c),
            HeardView::Failure | HeardView::Offer(None) => pause(c),
            HeardView::Timeout | HeardView::Deadline => solicit(
                c,
                xid,
                if rt * 2 <= SOL_MAX_RT {
                    (rt * 2) as u64
                } else {
                    SOL_MAX_RT
                },
                data,
                choose_at,
            ),
            HeardView::Offer(Some(o)) => if o.preference == PREFERENCE_MAX || now >= choose_at {
                request(c, o.xid, o.server_duid, o.request)
            } else {
                choose_from(c, xid, o, choose_at)
            },
            HeardView::Foreign | HeardView::Answer(_) => go_on(c),
        },
        PhaseView::Choosing { xid, offer, choose_at } => match h {
            HeardView::Cancelled => stop(c),
            HeardView::Failure => pause(c),
            HeardView::Timeout | HeardView::Deadline => request(
                c,
                offer.xid,
                offer.server_duid,
                offer.request,
            ),
            HeardView::Offer(Some(o)) if o.preference == PREFERENCE_MAX => request(
                c,
                o.xid,
                o.server_duid,
                o.request,
            ),
            _ => go_on(c),
        },
        PhaseView::Requesting { xid, server_duid, data } => match h {
            HeardView::Cancelled => stop(c),
            HeardView::Failure => pause(c),
            HeardView::Answer(Answer::Unreadable) => pause(c),
            HeardView::Answer(Answer::Refused) | HeardView::Answer(Answer::NoLease) => pause(c),
            HeardView::Answer(Answer::Granted(lease)) => bind_first(c, lease, now),
            HeardView::Timeout | HeardView::Deadline => request(c, xid, server_duid, data),
            _ => go_on(c),
        },
        PhaseView::Bound(held) => match h {
            HeardView::Cancelled => release(c, held, now, fresh),
            HeardView::Timeout | HeardView::Deadline => renew(c, held, fresh, now, fresh),
            _ => (c, just_wait(Wait::Until(held.t1_at))),
        },
        PhaseView::Renewing { holding: held, xid } => match h {
            HeardView::Cancelled => release(c, held, now, fresh),
            HeardView::Deadline | HeardView::Answer(Answer::Unreadable) => rebind(
                c,
                held,
                fresh,
                REB_RETRANS_INIT,
                now,
                fresh,
            ),
            HeardView::Answer(Answer::Refused) => begin(c, now, fresh),
            HeardView::Answer(Answer::Granted(lease)) => bind_again(c, held, lease, now),
            HeardView::Timeout => renew(c, held, xid, now, fresh),
            _ => go_on(c),
        },
        PhaseView::Rebinding { holding: held, xid, rt } => match h {
            HeardView::Cancelled => release(c, held, now, fresh),
            HeardView::Deadline => begin(c, now, fresh),
            HeardView::Answer(Answer::Unreadable) => begin(c, now, fresh),
            HeardView::Answer(Answer::Refused) => begin(c, now, fresh),
            HeardView::Timeout => rebind(
                c,
                held,
                xid,
                if rt + REB_RETRANS_INIT <= REB_RETRANS_MAX {
                    (rt + REB_RETRANS_INIT) as u64
                } else {
                    REB_RETRANS_MAX
                },
                now,
                fresh,
            ),
            HeardView::Answer(Answer::Granted(lease)) => bind_again(c, held, lease, now),
            _ => go_on(c),
        },
    }
}

/// One step of the client. `fresh` is the id of the transaction that the step may begin.
pub open spec fn step_of(c: ClientView, input: InputView, now: u64, fresh: Seq<u8>) -> (
    ClientView,
    OutputView,
) {
    react_of(c, heard(c, input, fresh), now, fresh)
}

/// Copies bytes.
fn copied(bytes: &Vec<u8>) -> (r: Vec<u8>)
    ensures
        r@ == bytes@,
{
    vstd::slice::slice_to_vec(bytes.as_slice())
}

/// Copies rules.
fn copied_rules(rules: &Vec<MapRule>) -> (r: Vec<MapRule>)
    ensures
        r@ == rules@,
{
    vstd::slice::slice_to_vec(rules.as_slice())
}

/// `secs` seconds after `now`.
fn time_after(now: u64, secs: u32) -> (r: u64)
    ensures
        r == after(now, secs),
{
    now.saturating_add(secs as u64 * 1000)
}

/// What came of a datagram while a Reply is awaited.
#[derive(Clone, Debug)]
pub enum Answered {
    Foreign,
    Unreadable,
    Refused,
    NoLease,
    Granted(LeaseInfo),
}

impl View for Answered {
    type V = Answer;

    open spec fn view(&self) -> Answer {
        match *self {
            Answered::Foreign => Answer::Foreign,
            Answered::Unreadable => Answer::Unreadable,
            Answered::Refused => Answer::Refused,
            Answered::NoLease => Answer::NoLease,
            Answered::Granted(lease) => Answer::Granted(lease@),
        }
    }
}

/// What it takes to take up an Advertise.
#[derive(Clone, Debug)]
pub struct Offer {
    /// How much the server wants to be chosen.
    pub preference: u8,
    /// The transaction of the Request.
    pub xid: [u8; 3],
    /// The server that made it.
    pub server_duid: Vec<u8>,
    /// The Request for what it offers.
    pub request: Vec<u8>,
}

/// What the client makes of what happened.
#[derive(Clone, Debug)]
pub enum Heard {
    Timeout,
    Deadline,
    Failure,
    Cancelled,
    /// An Advertise answers; it may be one that cannot be taken up.
    Offer(Option<Offer>),
    /// A datagram came while a Reply is awaited.
    Answer(Answered),
    /// A datagram came that answers nothing.
    Foreign,
}

pub struct OfferView {
    pub preference: u8,
    pub xid: Seq<u8>,
    pub server_duid: Seq<u8>,
    pub request: Seq<u8>,
}

pub enum HeardView {
    Timeout,
    Deadline,
    Failure,
    Cancelled,
    Offer(Option<OfferView>),
    Answer(Answer),
    Foreign,
}

impl View for Offer {
    type V = OfferView;

    open spec fn view(&self) -> OfferView {
        OfferView {
            preference: self.preference,
            xid: self.xid@,
            server_duid: self.server_duid@,
            request: self.request@,
        }
    }
}

impl View for Heard {
    type V = HeardView;

    open spec fn view(&self) -> HeardView {
        match *self {
            Heard::Timeout => HeardView::Timeout,
            Heard::Deadline => HeardView::Deadline,
            Heard::Failure => HeardView::Failure,
            Heard::Cancelled => HeardView::Cancelled,
            Heard::Offer(Some(o)) => HeardView::Offer(Some(o@)),
            Heard::Offer(None) => HeardView::Offer(None),
            Heard::Answer(a) => HeardView::Answer(a@),
            Heard::Foreign => HeardView::Foreign,
        }
    }
}

/// Reads a datagram while a Reply is awaited.
pub fn read_answer(data: &Vec<u8>, xid: [u8; 3], iaid: u32, server_duid: &Vec<u8>) -> (r: Answered)
    ensures
        r@ == answer(data@, xid@, iaid, server_duid@),
{
    let msg = match parse_reply(data.as_slice(), xid) {
        Some(m) => m,
        None => {
            return Answered::Foreign;
        },
    };
    let raw = match msg.encode() {
        Some(raw) => raw,
        None => {
            return Answered::Unreadable;
        },
    };
    match process_reply(raw.as_slice(), iaid, copied(server_duid)) {
        Ok(lease) => Answered::Granted(lease),
        Err(ReplyError::Status(_)) => Answered::Refused,
        Err(_) => Answered::NoLease,
    }
}

/// What a lease is announced as.
fn lease_news(lease: &LeaseInfo) -> (r: DhcpV6Event)
    ensures
        r@ == news_of(lease@),
{
    if lease.rules.len() > 0 {
        DhcpV6Event::Both { rules: copied_rules(&lease.rules), ia_pd: lease.prefix }
    } else {
        DhcpV6Event::IaPdReceived(lease.prefix)
    }
}

fn wait_only(wait: Wait) -> (r: Output)
    ensures
        r@ == just_wait(wait),
{
    Output { notice: None, send: None, wait }
}

fn hold_lease(
    server_duid: Vec<u8>,
    server_unicast: Option<Ipv6Addr>,
    release: Association,
    lease: &LeaseInfo,
    now: u64,
) -> (r: Holding)
    ensures
        r@ == hold(server_duid@, server_unicast, release, lease@, now),
{
    Holding {
        server_duid,
        server_unicast,
        release,
        current: lease.ia_pd_for_release,
        t1_at: time_after(now, lease.t1),
        t2_at: time_after(now, lease.t2),
        expire_at: if lease.valid_lifetime == u32::MAX {
            None
        } else {
            Some(time_after(now, lease.valid_lifetime))
        },
    }
}

impl Holding {
    fn has_expired(&self, now: u64) -> (r: bool)
        ensures
            r == expired(self@, now),
    {
        match self.expire_at {
            Some(t) => now >= t,
            None => false,
        }
    }

    fn server(&self) -> (r: Destination)
        ensures
            r == server_of(self@),
    {
        match self.server_unicast {
            Some(a) => Destination::Server(a),
            None => Destination::AllServers,
        }
    }
}

impl Client {
    /// A client that has not asked for anything yet.
    pub fn new(duid: Vec<u8>, iaid: u32) -> (r: Client)
        ensures
            r@ == (ClientView { duid: duid@, iaid, phase: PhaseView::Idle }),
    {
        Client { duid, iaid, phase: Phase::Idle }
    }

    fn to_go_on(self, phase: Phase) -> (r: (Client, Output))
        ensures
            (r.0@, r.1@) == go_on(in_phase(self@, phase@)),
    {
        (Client { phase, ..self }, wait_only(Wait::Resume))
    }

    fn to_solicit(self, xid: [u8; 3], rt: u64, data: Vec<u8>, choose_at: u64) -> (r: (
        Client,
        Output,
    ))
        ensures
            (r.0@, r.1@) == solicit(self@, xid@, rt, data@, choose_at),
    {
        let send = Outgoing { to: Destination::AllServers, data: copied(&data), must_send: true };
        (
            Client { phase: Phase::Soliciting { xid, rt, data, choose_at }, ..self },
            Output {
                notice: None,
                send: Some(send),
                wait: Wait::Reply { timeout: rt, jitter: true, until: None },
            },
        )
    }

    fn to_begin(self, now: u64, fresh: [u8; 3]) -> (r: (Client, Output))
        ensures
            (r.0@, r.1@) == begin(self@, now, fresh@),
    {
        let data = build_solicit(&self.duid, self.iaid, fresh);
        self.to_solicit(fresh, SOL_TIMEOUT, data, time_after(now, SOL_TIMEOUT as u32))
    }

    fn to_choose(self, xid: [u8; 3], offer: Offer, choose_at: u64) -> (r: (Client, Output))
        ensures
            (r.0@, r.1@) == choose_from(self@, xid@, offer@, choose_at),
    {
        (
            Client { phase: Phase::Choosing { xid, offer, choose_at }, ..self },
            wait_only(
                Wait::Reply { timeout: SOL_TIMEOUT, jitter: false, until: Some(choose_at) },
            ),
        )
    }

    fn to_pause(self) -> (r: (Client, Output))
        ensures
            (r.0@, r.1@) == pause(self@),
    {
        (Client { phase: Phase::Idle, ..self }, wait_only(Wait::Pause(RETRY_PAUSE)))
    }

    fn to_stop(self) -> (r: (Client, Output))
        ensures
            (r.0@, r.1@) == stop(self@),
    {
        (Client { phase: Phase::Stopped, ..self }, wait_only(Wait::Stop))
    }

    fn to_request(self, xid: [u8; 3], server_duid: Vec<u8>, data: Vec<u8>) -> (r: (Client, Output))
        ensures
            (r.0@, r.1@) == request(self@, xid@, server_duid@, data@),
    {
        let send = Outgoing { to: Destination::AllServers, data: copied(&data), must_send: true };
        (
            Client { phase: Phase::Requesting { xid, server_duid, data }, ..self },
            Output {
                notice: None,
                send: Some(send),
                wait: Wait::Reply { timeout: REQ_TIMEOUT, jitter: false, until: None },
            },
        )
    }

    fn take_up(&self, msg: WireMessage, fresh: [u8; 3]) -> (r: Option<Offer>)
        ensures
            match offer_in(self@, msg@, fresh@) {
                Some(o) => r matches Some(v) && v@ == o,
                None => r is None,
            },
    {
        let server_duid = match msg.server_id() {
            Some(id) => id,
            None => {
                return None;
            },
        };
        let association = match msg.ia_pd(None) {
            Some(a) => a,
            None => {
                return None;
            },
        };
        match build_request(&self.duid, &server_duid, fresh, association) {
            Some(request) => Some(
                Offer { preference: msg.preference(), xid: fresh, server_duid, request },
            ),
            None => None,
        }
    }

    fn to_bind_first(self, lease: LeaseInfo, now: u64) -> (r: (Client, Output))
        ensures
            (r.0@, r.1@) == bind_first(self@, lease@, now),
    {
        let holding = hold_lease(
            copied(&lease.server_duid),
            lease.server_unicast,
            lease.ia_pd_for_release,
            &lease,
            now,
        );
        let wait = Wait::Until(holding.t1_at);
        let event = lease_news(&lease);
        (
            Client { phase: Phase::Bound(holding), ..self },
            Output { notice: Some(Notice { event, must_reach: true }), send: None, wait },
        )
    }

    fn to_bind_again(self, held: Holding, lease: LeaseInfo, now: u64) -> (r: (Client, Output))
        ensures
            (r.0@, r.1@) == bind_again(self@, held@, lease@, now),
    {
        let holding = hold_lease(held.server_duid, held.server_unicast, held.release, &lease, now);
        let wait = Wait::Until(holding.t1_at);
        let event = lease_news(&lease);
        (
            Client { phase: Phase::Bound(holding), ..self },
            Output { notice: Some(Notice { event, must_reach: false }), send: None, wait },
        )
    }

    fn to_rebind(self, holding: Holding, xid: [u8; 3], rt: u64, now: u64, fresh: [u8; 3]) -> (r: (
        Client,
        Output,
    ))
        ensures
            (r.0@, r.1@) == rebind(self@, holding@, xid@, rt, now, fresh@),
    {
        if holding.has_expired(now) {
            return self.to_begin(now, fresh);
        }
        let send = Outgoing {
            to: Destination::AllServers,
            data: build_rebind(&self.duid, xid, holding.current),
            must_send: false,
        };
        let wait = Wait::Reply { timeout: rt, jitter: false, until: holding.expire_at };
        (
            Client { phase: Phase::Rebinding { holding, xid, rt }, ..self },
            Output { notice: None, send: Some(send), wait },
        )
    }

    fn to_renew(self, holding: Holding, xid: [u8; 3], now: u64, fresh: [u8; 3]) -> (r: (
        Client,
        Output,
    ))
        ensures
            (r.0@, r.1@) == renew(self@, holding@, xid@, now, fresh@),
    {
        if holding.has_expired(now) {
            return self.to_begin(now, fresh);
        }
        if now >= holding.t2_at {
            return self.to_rebind(holding, fresh, REB_RETRANS_INIT, now, fresh);
        }
        let send = Outgoing {
            to: holding.server(),
            data: build_renew(&self.duid, &holding.server_duid, xid, holding.current),
            must_send: false,
        };
        let wait = Wait::Reply { timeout: REN_RETRANS, jitter: false, until: Some(holding.t2_at) };
        (
            Client { phase: Phase::Renewing { holding, xid }, ..self },
            Output { notice: None, send: Some(send), wait },
        )
    }

    fn to_release(self, holding: Holding, now: u64, fresh: [u8; 3]) -> (r: (Client, Output))
        ensures
            (r.0@, r.1@) == release(self@, holding@, now, fresh@),
    {
        if holding.has_expired(now) {
            return self.to_stop();
        }
        let send = Outgoing {
            to: holding.server(),
            data: build_release(&self.duid, &holding.server_duid, fresh, holding.release),
            must_send: false,
        };
        (
            Client { phase: Phase::Stopped, ..self },
            Output { notice: None, send: Some(send), wait: Wait::Stop },
        )
    }

    /// What the client makes of what happened.
    pub fn hear(&self, input: Input, fresh: [u8; 3]) -> (r: Heard)
        ensures
            r@ == heard(self@, input@, fresh@),
    {
        let d = match input {
            Input::Timeout => {
                return Heard::Timeout;
            },
            Input::Deadline => {
                return Heard::Deadline;
            },
            Input::Failure => {
                return Heard::Failure;
            },
            Input::Cancelled => {
                return Heard::Cancelled;
            },
            Input::Datagram(d) => d,
        };
        match &self.phase {
            Phase::Soliciting { xid, .. } => match parse_advertise(d.as_slice(), *xid) {
                Some(msg) => Heard::Offer(self.take_up(msg, fresh)),
                None => Heard::Foreign,
            },
            Phase::Choosing { xid, .. } => match parse_advertise(d.as_slice(), *xid) {
                Some(msg) => Heard::Offer(self.take_up(msg, fresh)),
                None => Heard::Foreign,
            },
            Phase::Requesting { xid, server_duid, .. } => Heard::Answer(
                read_answer(&d, *xid, self.iaid, server_duid),
            ),
            Phase::Renewing { holding, xid } => Heard::Answer(
                read_answer(&d, *xid, self.iaid, &holding.server_duid),
            ),
            Phase::Rebinding { holding, xid, .. } => Heard::Answer(
                read_answer(&d, *xid, self.iaid, &holding.server_duid),
            ),
            _ => Heard::Foreign,
        }
    }

    /// What the client does about what it heard. `fresh` is the id of the transaction that it
    /// may begin.
    pub fn react(self, h: Heard, now: u64, fresh: [u8; 3]) -> (r: (Client, Output))
        ensures
            (r.0@, r.1@) == react_of(self@, h@, now, fresh@),
    {
        let Client { duid, iaid, phase } = self;
        let client = Client { duid, iaid, phase: Phase::Idle };
        match phase {
            Phase::Stopped => client.to_stop(),
            Phase::Idle => match h {
                Heard::Cancelled => client.to_stop(),
                _ => client.to_begin(now, fresh),
            },
            Phase::Soliciting { xid, rt, data, choose_at } => match h {
                Heard::Cancelled => client.to_stop(),
                Heard::Failure | Heard::Offer(None) => client.to_pause(),
                Heard::Timeout | Heard::Deadline => {
                    let longer: u64 = if rt <= SOL_MAX_RT / 2 {
                        rt * 2
                    } else {
                        SOL_MAX_RT
                    };
                    client.to_solicit(xid, longer, data, choose_at)
                },
                Heard::Offer(Some(o)) => if o.preference == PREFERENCE_MAX || now >= choose_at {
                    client.to_request(o.xid, o.server_duid, o.request)
                } else {
                    client.to_choose(xid, o, choose_at)
                },
                Heard::Foreign | Heard::Answer(_) => client.to_go_on(
                    Phase::Soliciting { xid, rt, data, choose_at },
                ),
            },
            Phase::Choosing { xid, offer, choose_at } => match h {
                Heard::Cancelled => client.to_stop(),
                Heard::Failure => client.to_pause(),
                Heard::Timeout | Heard::Deadline => client.to_request(
                    offer.xid,
                    offer.server_duid,
                    offer.request,
                ),
                Heard::Offer(Some(o)) => if o.preference == PREFERENCE_MAX {
                    client.to_request(o.xid, o.server_duid, o.request)
                } else {
                    client.to_go_on(Phase::Choosing { xid, offer, choose_at })
                },
                _ => client.to_go_on(Phase::Choosing { xid, offer, choose_at }),
            },
            Phase::Requesting { xid, server_duid, data } => match h {
                Heard::Cancelled => client.to_stop(),
                Heard::Failure => client.to_pause(),
                Heard::Answer(Answered::Unreadable) => client.to_pause(),
                Heard::Answer(Answered::Refused) | Heard::Answer(Answered::NoLease) => {
                    client.to_pause()
                },
                Heard::Answer(Answered::Granted(lease)) => client.to_bind_first(lease, now),
                Heard::Timeout | Heard::Deadline => client.to_request(xid, server_duid, data),
                _ => client.to_go_on(Phase::Requesting { xid, server_duid, data }),
            },
            Phase::Bound(holding) => match h {
                Heard::Cancelled => client.to_release(holding, now, fresh),
                Heard::Timeout | Heard::Deadline => client.to_renew(holding, fresh, now, fresh),
                _ => {
                    let wait = Wait::Until(holding.t1_at);
                    (Client { phase: Phase::Bound(holding), ..client }, wait_only(wait))
                },
            },
            Phase::Renewing { holding, xid } => match h {
                Heard::Cancelled => client.to_release(holding, now, fresh),
                Heard::Deadline | Heard::Answer(Answered::Unreadable) => {
                    client.to_rebind(holding, fresh, REB_RETRANS_INIT, now, fresh)
                },
                Heard::Answer(Answered::Granted(lease)) => client.to_bind_again(
                    holding,
                    lease,
                    now,
                ),
                Heard::Answer(Answered::Refused) => client.to_begin(now, fresh),
                Heard::Timeout => client.to_renew(holding, xid, now, fresh),
                _ => client.to_go_on(Phase::Renewing { holding, xid }),
            },
            Phase::Rebinding { holding, xid, rt } => match h {
                Heard::Cancelled => client.to_release(holding, now, fresh),
                Heard::Deadline => client.to_begin(now, fresh),
                Heard::Answer(Answered::Unreadable) => client.to_begin(now, fresh),
                Heard::Answer(Answered::Refused) => client.to_begin(now, fresh),
                Heard::Timeout => {
                    let longer: u64 = if rt <= REB_RETRANS_MAX - REB_RETRANS_INIT {
                        rt + REB_RETRANS_INIT
                    } else {
                        REB_RETRANS_MAX
                    };
                    client.to_rebind(holding, xid, longer, now, fresh)
                },
                Heard::Answer(Answered::Granted(lease)) => client.to_bind_again(
                    holding,
                    lease,
                    now,
                ),
                _ => client.to_go_on(Phase::Rebinding { holding, xid, rt }),
            },
        }
    }

    /// One step of the client. `fresh` is the id of the transaction that the step may begin.
    pub fn step(self, input: Input, now: u64, fresh: [u8; 3]) -> (r: (Client, Output))
        ensures
            (r.0@, r.1@) == step_of(self@, input@, now, fresh@),
    {
        let h = self.hear(input, fresh);
        self.react(h, now, fresh)
    }

    /// One step of the client, with a transaction id drawn at random.
    pub fn advance(self, input: Input, now: u64) -> (r: (Client, Output))
        ensures
            exists|fresh: Seq<u8>|
                fresh.len() == 3 && (r.0@, r.1@) == #[trigger] step_of(self@, input@, now, fresh),
    {
        let fresh = new_xid();
        let ghost id = fresh@;
        proof {
            assert(id.len() == 3);
        }
        self.step(input, now, fresh)
    }
}

/// Whether what the client holds on to belongs together: the message it repeats is that of its
/// transaction, and its waiting times are within their bounds.
pub open spec fn consistent(c: ClientView) -> bool {
    match c.phase {
        PhaseView::Soliciting { xid, rt, data, .. } => {
            &&& SOL_TIMEOUT <= rt <= SOL_MAX_RT
            &&& data == solicit_message(c.duid, c.iaid, xid)
        },
        PhaseView::Rebinding { rt, .. } => REB_RETRANS_INIT <= rt <= REB_RETRANS_MAX,
        _ => true,
    }
}

/// Every step keeps the client consistent and leaves its identity alone.
pub proof fn lemma_step_keeps_consistent(c: ClientView, input: InputView, now: u64, fresh: Seq<u8>)
    requires
        consistent(c),
    ensures
        consistent(step_of(c, input, now, fresh).0),
        step_of(c, input, now, fresh).0.duid == c.duid,
        step_of(c, input, now, fresh).0.iaid == c.iaid,
{
}

/// A shutdown always stops the client, and gives back the lease if it keeps one that has not
/// ended.
pub proof fn lemma_cancel_stops(c: ClientView, now: u64, fresh: Seq<u8>)
    ensures
        ({
            let (after, out) = step_of(c, InputView::Cancelled, now, fresh);
            &&& after.phase == PhaseView::Stopped
            &&& out.wait == Wait::Stop
            &&& out.notice is None
            &&& match c.phase {
                PhaseView::Bound(h)
                | PhaseView::Renewing { holding: h, .. }
                | PhaseView::Rebinding { holding: h, .. } => out.send == (if expired(h, now) {
                    None
                } else {
                    Some(
                        OutgoingView {
                            to: server_of(h),
                            data: release_message(c.duid, h.server_duid, fresh, h.release),
                            must_send: false,
                        },
                    )
                }),
                _ => out.send is None,
            }
        }),
{
}

/// A stopped client does nothing more.
pub proof fn lemma_stopped_for_good(c: ClientView, input: InputView, now: u64, fresh: Seq<u8>)
    requires
        c.phase == PhaseView::Stopped,
    ensures
        step_of(c, input, now, fresh) == (c, just_wait(Wait::Stop)),
{
}

/// The transaction whose answer the client awaits.
pub open spec fn awaited(c: ClientView) -> Option<Seq<u8>> {
    match c.phase {
        PhaseView::Soliciting { xid, .. } => Some(xid),
        PhaseView::Choosing { xid, .. } => Some(xid),
        PhaseView::Requesting { xid, .. } => Some(xid),
        PhaseView::Renewing { xid, .. } => Some(xid),
        PhaseView::Rebinding { xid, .. } => Some(xid),
        _ => None,
    }
}

/// Only an answer to the awaited transaction leads to an announcement.
pub proof fn lemma_foreign_messages_announce_nothing(
    c: ClientView,
    input: InputView,
    now: u64,
    fresh: Seq<u8>,
)
    requires
        match input {
            InputView::Datagram(d) => match message_of(d) {
                Some(m) => awaited(c) != Some(m.xid),
                None => true,
            },
            _ => true,
        },
    ensures
        step_of(c, input, now, fresh).1.notice is None,
{
}

/// Whether the client hears what it does not wait for: a datagram that does not answer its
/// transaction or, while it keeps a lease, an answer without a lease or a failure to receive.
pub open spec fn unawaited(c: ClientView, input: InputView) -> bool {
    match (c.phase, input) {
        (PhaseView::Soliciting { xid, .. }, InputView::Datagram(d))
        | (PhaseView::Choosing { xid, .. }, InputView::Datagram(d)) => !(message_of(d) matches Some(m)
            && answers_solicit(m, xid)),
        (PhaseView::Requesting { xid, .. }, InputView::Datagram(d)) => !(message_of(d) matches Some(m)
            && answers_request(m, xid)),
        (PhaseView::Renewing { holding, xid }, InputView::Datagram(d))
        | (PhaseView::Rebinding { holding, xid, .. }, InputView::Datagram(d)) => answer(
            d,
            xid,
            c.iaid,
            holding.server_duid,
        ) is Foreign || answer(d, xid, c.iaid, holding.server_duid) is NoLease,
        (PhaseView::Renewing { .. }, InputView::Failure)
        | (PhaseView::Rebinding { .. }, InputView::Failure) => true,
        _ => false,
    }
}

/// What the client does not wait for makes it send nothing, and leaves it as it is and its wait
/// running.
pub proof fn lemma_unawaited_changes_nothing(
    c: ClientView,
    input: InputView,
    now: u64,
    fresh: Seq<u8>,
)
    requires
        unawaited(c, input),
    ensures
        step_of(c, input, now, fresh) == (c, just_wait(Wait::Resume)),
{
}

/// A wait goes on only where the client awaits an answer, and then nothing else happens.
pub proof fn lemma_only_a_wait_goes_on(c: ClientView, input: InputView, now: u64, fresh: Seq<u8>)
    requires
        step_of(c, input, now, fresh).1.wait == Wait::Resume,
    ensures
        awaited(c) is Some,
        step_of(c, input, now, fresh) == go_on(c),
        input is Datagram || input is Failure,
{
}

/// A lease that has ended is not asked to be prolonged: once the wait for an answer is over, the
/// client starts over.
pub proof fn lemma_ended_lease_starts_over(
    c: ClientView,
    input: InputView,
    now: u64,
    fresh: Seq<u8>,
)
    requires
        match c.phase {
            PhaseView::Renewing { holding, .. } => expired(holding, now),
            PhaseView::Rebinding { holding, .. } => expired(holding, now),
            _ => false,
        },
        input is Timeout || input is Deadline,
    ensures
        step_of(c, input, now, fresh) == begin(c, now, fresh),
{
}

/// The client after `n` timeouts in a row.
pub open spec fn after_timeouts(c: ClientView, n: nat, now: u64, fresh: Seq<u8>) -> ClientView
    decreases n,
{
    if n == 0 {
        c
    } else {
        step_of(
            after_timeouts(c, (n - 1) as nat, now, fresh),
            InputView::Timeout,
            now,
            fresh,
        ).0
    }
}

/// The waiting time for an Advertise after `n` timeouts: it doubles from the first up to
/// the longest.
pub open spec fn backoff(n: nat) -> int
    decreases n,
{
    if n == 0 {
        SOL_TIMEOUT as int
    } else if 2 * backoff((n - 1) as nat) <= SOL_MAX_RT {
        2 * backoff((n - 1) as nat)
    } else {
        SOL_MAX_RT as int
    }
}

/// An unanswered Solicit is repeated in the same transaction, with waiting times that double
/// from the first up to the longest.
pub proof fn lemma_solicit_backs_off(
    c: ClientView,
    start: u64,
    xid: Seq<u8>,
    n: nat,
    now: u64,
    fresh: Seq<u8>,
)
    ensures
        ({
            let last = after_timeouts(begin(c, start, xid).0, n, now, fresh);
            last.phase == (PhaseView::Soliciting {
                xid,
                rt: backoff(n) as u64,
                data: solicit_message(c.duid, c.iaid, xid),
                choose_at: after(start, SOL_TIMEOUT as u32),
            })
        }),
        1 <= backoff(n) <= SOL_MAX_RT,
    decreases n,
{
    if n > 0 {
        lemma_solicit_backs_off(c, start, xid, (n - 1) as nat, now, fresh);
    }
}

/// The lease that the client keeps.
pub open spec fn held(c: ClientView) -> Option<HoldingView> {
    match c.phase {
        PhaseView::Bound(h) => Some(h),
        PhaseView::Renewing { holding, .. } => Some(holding),
        PhaseView::Rebinding { holding, .. } => Some(holding),
        _ => None,
    }
}

/// Whether an event would take the known rules away and bring none.
pub open spec fn forgets_rules(e: EventView) -> bool {
    e matches EventView::Both { rules, .. } && rules.len() == 0
}

/// A lease without rules does not take away those that are known.
pub proof fn lemma_known_rules_stay(c: ClientView, input: InputView, now: u64, fresh: Seq<u8>)
    ensures
        step_of(c, input, now, fresh).1.notice matches Some(n) ==> !forgets_rules(n.event),
{
}

/// The first offer of the first waiting time is taken up at its end, unless one of the highest
/// preference comes before, which is taken up at once. Later offers are taken up at once.
pub proof fn lemma_which_offer_is_taken_up(
    c: ClientView,
    h: HeardView,
    offer: OfferView,
    now: u64,
    fresh: Seq<u8>,
)
    requires
        h == HeardView::Offer(Some(offer)),
        c.phase is Soliciting || c.phase is Choosing,
    ensures
        ({
            let after = react_of(c, h, now, fresh).0;
            let taken = request(c, offer.xid, offer.server_duid, offer.request).0;
            let (xid, choose_at) = match c.phase {
                PhaseView::Soliciting { xid, choose_at, .. } => (xid, choose_at),
                PhaseView::Choosing { xid, choose_at, .. } => (xid, choose_at),
                _ => (fresh, now),
            };
            let kept = match c.phase {
                PhaseView::Choosing { offer: first, .. } => first,
                _ => offer,
            };
            let waiting = in_phase(c, PhaseView::Choosing { xid, offer: kept, choose_at });
            &&& offer.preference == PREFERENCE_MAX ==> after == taken
            &&& c.phase is Soliciting && now >= choose_at ==> after == taken
            &&& offer.preference != PREFERENCE_MAX && (c.phase is Choosing || now < choose_at)
                ==> after == waiting && react_of(waiting, HeardView::Deadline, choose_at, fresh).0
                == request(c, kept.xid, kept.server_duid, kept.request).0
        }),
{
}

/// A server that refuses to prolong a lease makes the client start over.
pub proof fn lemma_refusal_starts_over(c: ClientView, now: u64, fresh: Seq<u8>)
    requires
        c.phase is Renewing || c.phase is Rebinding,
    ensures
        react_of(c, HeardView::Answer(Answer::Refused), now, fresh) == begin(c, now, fresh),
{
}

/// While a lease is kept, the server that granted it is asked until it is time to ask any
/// server, and any server is asked until the lease ends; both wait no longer than that. Unless
/// the client only goes on waiting, it asks.
pub proof fn lemma_who_is_asked_when(c: ClientView, input: InputView, now: u64, fresh: Seq<u8>)
    ensures
        ({
            let (after, out) = step_of(c, input, now, fresh);
            out.wait != Wait::Resume ==> match after.phase {
                PhaseView::Renewing { holding, xid } => {
                    &&& held(c) == Some(holding)
                    &&& now < holding.t2_at && !expired(holding, now)
                    &&& out.send == Some(
                        OutgoingView {
                            to: server_of(holding),
                            data: renew_message(c.duid, holding.server_duid, xid, holding.current),
                            must_send: false,
                        },
                    )
                    &&& out.wait == (Wait::Reply {
                        timeout: REN_RETRANS,
                        jitter: false,
                        until: Some(holding.t2_at),
                    })
                },
                PhaseView::Rebinding { holding, xid, rt } => {
                    &&& held(c) == Some(holding)
                    &&& !expired(holding, now)
                    &&& out.send == Some(
                        OutgoingView {
                            to: Destination::AllServers,
                            data: rebind_message(c.duid, xid, holding.current),
                            must_send: false,
                        },
                    )
                    &&& out.wait == (Wait::Reply {
                        timeout: rt,
                        jitter: false,
                        until: holding.expire_at,
                    })
                },
                _ => true,
            }
        }),
{
}

/// However often a lease is renewed, the server and the association that are given back at the
/// end are those of the first.
pub proof fn lemma_release_is_of_first_lease(
    c: ClientView,
    input: InputView,
    now: u64,
    fresh: Seq<u8>,
)
    ensures
        ({
            let after = step_of(c, input, now, fresh).0;
            held(c) matches Some(h) ==> held(after) matches Some(k) ==> {
                &&& k.server_duid == h.server_duid
                &&& k.server_unicast == h.server_unicast
                &&& k.release == h.release
            }
        }),
{
}

/// The waiting time for the Reply to a Rebind after `n` timeouts: it grows from the first by
/// its increase up to the longest.
pub open spec fn rebind_backoff(n: nat) -> int {
    if (n + 1) * REB_RETRANS_INIT <= REB_RETRANS_MAX {
        (n + 1) * REB_RETRANS_INIT
    } else {
        REB_RETRANS_MAX as int
    }
}

/// An unanswered Rebind is repeated in the same transaction until the lease ends, with waiting
/// times that grow from the first up to the longest.
pub proof fn lemma_rebind_backs_off(
    c: ClientView,
    h: HoldingView,
    xid: Seq<u8>,
    n: nat,
    now: u64,
    fresh: Seq<u8>,
)
    requires
        !expired(h, now),
    ensures
        after_timeouts(rebind(c, h, xid, REB_RETRANS_INIT, now, fresh).0, n, now, fresh).phase == (
        PhaseView::Rebinding { holding: h, xid, rt: rebind_backoff(n) as u64 }),
    decreases n,
{
    if n > 0 {
        lemma_rebind_backs_off(c, h, xid, (n - 1) as nat, now, fresh);
    }
}

/// A point in time so many seconds after another, on a clock of milliseconds that has an end.
pub open spec fn later(now: u64, secs: u32, at: u64) -> bool {
    at == now + secs * 1000 || (now + secs * 1000 > 0xffff_ffff_ffff_ffff && at
        == 0xffff_ffff_ffff_ffff)
}

/// Whether the client awaits the Reply of that transaction, from the server with that identifier.
pub open spec fn awaits_reply(c: ClientView, xid: Seq<u8>, server: Seq<u8>) -> bool {
    match c.phase {
        PhaseView::Requesting { xid: x, server_duid, .. } => x == xid && server_duid == server,
        PhaseView::Renewing { holding, xid: x } => x == xid && holding.server_duid == server,
        PhaseView::Rebinding { holding, xid: x, .. } => x == xid && holding.server_duid == server,
        _ => false,
    }
}

/// A Reply that grants a lease is announced, be it to a Request, a Renew or a Rebind: with its
/// rules if it brings any, else with its prefix alone. From then on the lease is kept: T1 and T2
/// are counted from now, and so is its end, unless its lifetime has none.
pub proof fn lemma_granted_lease_is_announced(
    c: ClientView,
    d: Seq<u8>,
    m: MessageView,
    server: Seq<u8>,
    raw: Seq<u8>,
    lease: LeaseView,
    now: u64,
    fresh: Seq<u8>,
)
    requires
        message_of(d) == Some(m),
        m.msg_type == 7,
        awaits_reply(c, m.xid, server),
        encoded_message(m) == Some(raw),
        lease_in(raw, c.iaid, server) == Ok::<LeaseView, ReplyError>(lease),
    ensures
        ({
            let (next, out) = step_of(c, InputView::Datagram(d), now, fresh);
            &&& out.notice matches Some(n) && {
                &&& lease.rules.len() > 0 ==> n.event == (EventView::Both {
                    rules: lease.rules,
                    ia_pd: lease.prefix,
                })
                &&& lease.rules.len() == 0 ==> n.event == EventView::IaPdReceived(lease.prefix)
                &&& n.must_reach == (c.phase is Requesting)
            }
            &&& out.send is None
            &&& next.phase matches PhaseView::Bound(h) && {
                &&& out.wait == Wait::Until(h.t1_at)
                &&& later(now, lease.t1, h.t1_at)
                &&& later(now, lease.t2, h.t2_at)
                &&& lease.valid_lifetime == 0xffff_ffff ==> h.expire_at is None
                &&& lease.valid_lifetime < 0xffff_ffff ==> (h.expire_at matches Some(end) && later(
                    now,
                    lease.valid_lifetime,
                    end,
                ))
                &&& h.current == lease.ia_pd_for_release
                &&& h.server_duid == (if c.phase is Requesting {
                    lease.server_duid
                } else {
                    server
                })
                &&& c.phase is Requesting ==> h.release == lease.ia_pd_for_release
                    && h.server_unicast == lease.server_unicast
                &&& held(c) matches Some(k) ==> h.release == k.release && h.server_unicast
                    == k.server_unicast
            }
        }),
{
}

/// What is no lease: a Reply to a Request that refuses or brings none makes the client pause for
/// five seconds and start over; one to a Renew or a Rebind that refuses makes it start over at
/// once.
pub proof fn lemma_reply_without_lease(
    c: ClientView,
    d: Seq<u8>,
    m: MessageView,
    server: Seq<u8>,
    raw: Seq<u8>,
    e: ReplyError,
    now: u64,
    fresh: Seq<u8>,
)
    requires
        message_of(d) == Some(m),
        m.msg_type == 7,
        awaits_reply(c, m.xid, server),
        encoded_message(m) == Some(raw),
        lease_in(raw, c.iaid, server) == Err::<LeaseView, ReplyError>(e),
    ensures
        ({
            let (next, out) = step_of(c, InputView::Datagram(d), now, fresh);
            &&& out.notice is None
            &&& c.phase is Requesting ==> out.send is None && out.wait == Wait::Pause(5)
                && next.phase is Idle
            &&& c.phase !is Requesting && e is Status ==> next.phase is Soliciting && (out.send
                matches Some(o) && o.data == solicit_message(c.duid, c.iaid, fresh))
            &&& c.phase !is Requesting && e !is Status ==> next == c && out.send is None
                && out.wait == Wait::Resume
        }),
{
}

/// The first Solicit: it goes to all servers, with an id of its own, and its answer is waited for
/// about a second.
pub proof fn lemma_first_solicit(c: ClientView, input: InputView, now: u64, fresh: Seq<u8>)
    requires
        c.phase is Idle,
        input !is Cancelled,
    ensures
        ({
            let (next, out) = step_of(c, input, now, fresh);
            let data = solicit_message(c.duid, c.iaid, fresh);
            &&& out.notice is None
            &&& out.send == Some(
                OutgoingView { to: Destination::AllServers, data, must_send: true },
            )
            &&& out.wait == (Wait::Reply { timeout: 1, jitter: true, until: None })
            &&& next.duid == c.duid && next.iaid == c.iaid
            &&& next.phase matches PhaseView::Soliciting { xid, rt, data: d, choose_at } && xid
                == fresh && rt == 1 && d == data && later(now, 1, choose_at)
        }),
{
}

/// A Solicit without an answer goes out again, in the same transaction, and is waited for twice as
/// long, but never for more than two minutes.
pub proof fn lemma_solicit_goes_out_again(
    c: ClientView,
    input: InputView,
    now: u64,
    fresh: Seq<u8>,
)
    requires
        c.phase is Soliciting,
        input is Timeout || input is Deadline,
    ensures
        ({
            let (next, out) = step_of(c, input, now, fresh);
            let rt = if c.phase->Soliciting_rt <= 60 {
                (2 * c.phase->Soliciting_rt) as u64
            } else {
                120
            };
            &&& out.notice is None
            &&& out.send == Some(
                OutgoingView {
                    to: Destination::AllServers,
                    data: c.phase->Soliciting_data,
                    must_send: true,
                },
            )
            &&& out.wait == (Wait::Reply { timeout: rt, jitter: true, until: None })
            &&& next == ClientView {
                phase: PhaseView::Soliciting {
                    xid: c.phase->Soliciting_xid,
                    rt,
                    data: c.phase->Soliciting_data,
                    choose_at: c.phase->Soliciting_choose_at,
                },
                ..c
            }
        }),
{
}

/// An Advertise that answers the Solicit and can be taken up is: at once if its preference is 255
/// or a second has passed since the first Solicit, else at the end of that second. Taken up means
/// that its association is asked for from its server, in a transaction of its own.
pub proof fn lemma_advertise_is_taken_up(
    c: ClientView,
    d: Seq<u8>,
    m: MessageView,
    server: Seq<u8>,
    a: crate::dhcpv6::wire::IaPdView,
    wanted: Seq<u8>,
    now: u64,
    fresh: Seq<u8>,
)
    requires
        message_of(d) == Some(m),
        m.msg_type == 2,
        c.phase matches PhaseView::Soliciting { xid, .. } && xid == m.xid,
        crate::dhcpv6::wire::first_status(m.options) is None || crate::dhcpv6::wire::first_status(
            m.options,
        ) == Some(0u16),
        first_server_id(m.options) == Some(server),
        first_ia_pd(m.options, None) == Some(a),
        client_message(3, fresh, c.duid, Some(server), true, a) == Some(wanted),
    ensures
        ({
            let (next, out) = step_of(c, InputView::Datagram(d), now, fresh);
            let choose_at = c.phase->Soliciting_choose_at;
            let at_once = first_preference(m.options) == 255 || now >= choose_at;
            &&& out.notice is None
            &&& next.duid == c.duid && next.iaid == c.iaid
            &&& at_once ==> {
                &&& out.send == Some(
                    OutgoingView { to: Destination::AllServers, data: wanted, must_send: true },
                )
                &&& out.wait == (Wait::Reply { timeout: 10, jitter: false, until: None })
                &&& next.phase == (PhaseView::Requesting {
                    xid: fresh,
                    server_duid: server,
                    data: wanted,
                })
            }
            &&& !at_once ==> {
                &&& out.send is None
                &&& out.wait matches Wait::Reply { until, .. } && until == Some(choose_at)
                &&& next.phase matches PhaseView::Choosing { xid, offer, choose_at: at } && {
                    &&& xid == m.xid && at == choose_at
                    &&& offer.xid == fresh && offer.server_duid == server && offer.request == wanted
                }
            }
        }),
{
}

/// An Advertise that cannot be taken up, for want of a server identifier or of an association,
/// makes the client pause for five seconds and start over.
pub proof fn lemma_useless_advertise(
    c: ClientView,
    d: Seq<u8>,
    m: MessageView,
    now: u64,
    fresh: Seq<u8>,
)
    requires
        message_of(d) == Some(m),
        m.msg_type == 2,
        c.phase matches PhaseView::Soliciting { xid, .. } && xid == m.xid,
        crate::dhcpv6::wire::first_status(m.options) is None || crate::dhcpv6::wire::first_status(
            m.options,
        ) == Some(0u16),
        first_server_id(m.options) is None || first_ia_pd(m.options, None) is None,
    ensures
        step_of(c, InputView::Datagram(d), now, fresh).0.phase is Idle,
        step_of(c, InputView::Datagram(d), now, fresh).1.wait == Wait::Pause(5),
        step_of(c, InputView::Datagram(d), now, fresh).1.send is None,
{
}

/// The offer that was kept is asked for at the end of its second.
pub proof fn lemma_kept_offer_is_asked_for(
    c: ClientView,
    input: InputView,
    now: u64,
    fresh: Seq<u8>,
)
    requires
        c.phase is Choosing,
        input is Timeout || input is Deadline,
    ensures
        ({
            let (next, out) = step_of(c, input, now, fresh);
            let offer = c.phase->offer;
            &&& out.notice is None
            &&& out.send == Some(
                OutgoingView {
                    to: Destination::AllServers,
                    data: offer.request,
                    must_send: true,
                },
            )
            &&& out.wait == (Wait::Reply { timeout: 10, jitter: false, until: None })
            &&& next == ClientView {
                phase: PhaseView::Requesting {
                    xid: offer.xid,
                    server_duid: offer.server_duid,
                    data: offer.request,
                },
                ..c
            }
        }),
{
}

/// A Request without an answer goes out again as it is, every ten seconds.
pub proof fn lemma_request_goes_out_again(
    c: ClientView,
    input: InputView,
    now: u64,
    fresh: Seq<u8>,
)
    requires
        c.phase is Requesting,
        input is Timeout || input is Deadline,
    ensures
        ({
            let (next, out) = step_of(c, input, now, fresh);
            &&& next == c
            &&& out.notice is None
            &&& out.send == Some(
                OutgoingView {
                    to: Destination::AllServers,
                    data: c.phase->Requesting_data,
                    must_send: true,
                },
            )
            &&& out.wait == (Wait::Reply { timeout: 10, jitter: false, until: None })
        }),
{
}

/// Whether a lease has ended: it has an end, and that is not later than now.
pub open spec fn has_ended(h: HoldingView, now: u64) -> bool {
    h.expire_at matches Some(end) && end <= now
}

/// Where the server of a lease is spoken to: at the address that it gave, or through all servers
/// where it gave none.
pub open spec fn speaks_to(h: HoldingView, to: Destination) -> bool {
    match h.server_unicast {
        Some(a) => to == Destination::Server(a),
        None => to == Destination::AllServers,
    }
}

/// When the time to renew has come, the server that granted the lease is asked to prolong it, in a
/// new transaction. If T2 has come too, any server is; if the lease has ended, the client starts
/// over. Each answer is waited for ten seconds, and not beyond T2, or beyond the end of the lease.
pub proof fn lemma_when_t1_has_come(c: ClientView, input: InputView, now: u64, fresh: Seq<u8>)
    requires
        c.phase is Bound,
        input is Timeout || input is Deadline,
    ensures
        ({
            let (next, out) = step_of(c, input, now, fresh);
            let h = c.phase->Bound_0;
            &&& out.notice is None
            &&& has_ended(h, now) ==> next.phase is Soliciting && (out.send matches Some(o)
                && o.data == solicit_message(c.duid, c.iaid, fresh) && o.to
                == Destination::AllServers)
            &&& !has_ended(h, now) && now < h.t2_at ==> {
                &&& next == ClientView {
                    phase: PhaseView::Renewing { holding: h, xid: fresh },
                    ..c
                }
                &&& out.send matches Some(o) && speaks_to(h, o.to) && !o.must_send && o.data
                    == renew_message(c.duid, h.server_duid, fresh, h.current)
                &&& out.wait == (Wait::Reply { timeout: 10, jitter: false, until: Some(h.t2_at) })
            }
            &&& !has_ended(h, now) && now >= h.t2_at ==> {
                &&& next == ClientView {
                    phase: PhaseView::Rebinding { holding: h, xid: fresh, rt: 10 },
                    ..c
                }
                &&& out.send matches Some(o) && o.to == Destination::AllServers && !o.must_send
                    && o.data == rebind_message(c.duid, fresh, h.current)
                &&& out.wait == (Wait::Reply { timeout: 10, jitter: false, until: h.expire_at })
            }
        }),
{
}

/// A Renew without an answer goes out again in its transaction after ten seconds, as long as
/// neither T2 nor the end of the lease has come. At T2 any server is asked, in a new transaction.
pub proof fn lemma_renew_without_answer(c: ClientView, input: InputView, now: u64, fresh: Seq<u8>)
    requires
        c.phase is Renewing,
        input is Timeout || input is Deadline,
    ensures
        ({
            let (next, out) = step_of(c, input, now, fresh);
            let h = c.phase->Renewing_holding;
            let xid = c.phase->Renewing_xid;
            &&& out.notice is None
            &&& has_ended(h, now) ==> next.phase is Soliciting && (out.send matches Some(o)
                && o.data == solicit_message(c.duid, c.iaid, fresh))
            &&& !has_ended(h, now) && input is Timeout && now < h.t2_at ==> {
                &&& next == c
                &&& out.send matches Some(o) && speaks_to(h, o.to) && !o.must_send && o.data
                    == renew_message(c.duid, h.server_duid, xid, h.current)
                &&& out.wait == (Wait::Reply { timeout: 10, jitter: false, until: Some(h.t2_at) })
            }
            &&& !has_ended(h, now) && (input is Deadline || now >= h.t2_at) ==> {
                &&& next == ClientView {
                    phase: PhaseView::Rebinding { holding: h, xid: fresh, rt: 10 },
                    ..c
                }
                &&& out.send matches Some(o) && o.to == Destination::AllServers && !o.must_send
                    && o.data == rebind_message(c.duid, fresh, h.current)
                &&& out.wait == (Wait::Reply { timeout: 10, jitter: false, until: h.expire_at })
            }
        }),
{
}

/// A Rebind without an answer goes out again in its transaction, and is waited for ten seconds
/// longer each time, up to thirty, until the lease ends. Then the client starts over.
pub proof fn lemma_rebind_without_answer(c: ClientView, input: InputView, now: u64, fresh: Seq<u8>)
    requires
        c.phase is Rebinding,
        input is Timeout || input is Deadline,
    ensures
        ({
            let (next, out) = step_of(c, input, now, fresh);
            let h = c.phase->Rebinding_holding;
            let xid = c.phase->Rebinding_xid;
            let rt = if c.phase->Rebinding_rt <= 20 {
                (c.phase->Rebinding_rt + 10) as u64
            } else {
                30
            };
            &&& out.notice is None
            &&& has_ended(h, now) || input is Deadline ==> next.phase is Soliciting && (out.send
                matches Some(o) && o.data == solicit_message(c.duid, c.iaid, fresh))
            &&& !has_ended(h, now) && input is Timeout ==> {
                &&& next == ClientView {
                    phase: PhaseView::Rebinding { holding: h, xid, rt },
                    ..c
                }
                &&& out.send matches Some(o) && o.to == Destination::AllServers && !o.must_send
                    && o.data == rebind_message(c.duid, xid, h.current)
                &&& out.wait == (Wait::Reply { timeout: rt, jitter: false, until: h.expire_at })
            }
        }),
{
}

/// A shutdown gives back a lease that has not ended: its server is told so, in a new transaction,
/// with the association of the first lease. Otherwise nothing is sent. Either way the client
/// stops.
pub proof fn lemma_shutdown_gives_back(c: ClientView, now: u64, fresh: Seq<u8>)
    ensures
        ({
            let (next, out) = step_of(c, InputView::Cancelled, now, fresh);
            let kept = match c.phase {
                PhaseView::Bound(h) => Some(h),
                PhaseView::Renewing { holding, .. } => Some(holding),
                PhaseView::Rebinding { holding, .. } => Some(holding),
                _ => None,
            };
            &&& next.phase is Stopped
            &&& out.wait == Wait::Stop
            &&& out.notice is None
            &&& kept is Some && !has_ended(kept->Some_0, now) ==> (out.send matches Some(o)
                && speaks_to(kept->Some_0, o.to) && o.data == release_message(
                c.duid,
                kept->Some_0.server_duid,
                fresh,
                kept->Some_0.release,
            ))
            &&& kept is None || has_ended(kept->Some_0, now) ==> out.send is None
        }),
{
}

/// A failure to send or to receive while there is no lease makes the client pause for five seconds
/// and start over.
pub proof fn lemma_failure_without_lease(c: ClientView, now: u64, fresh: Seq<u8>)
    requires
        c.phase is Soliciting || c.phase is Choosing || c.phase is Requesting,
    ensures
        step_of(c, InputView::Failure, now, fresh).0.phase is Idle,
        step_of(c, InputView::Failure, now, fresh).1.send is None,
        step_of(c, InputView::Failure, now, fresh).1.wait == Wait::Pause(5),
{
}

} // verus!
