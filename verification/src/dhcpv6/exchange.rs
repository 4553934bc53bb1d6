//! The messages of the exchange with a server, and what a reply brings.

use vstd::arithmetic::power2::pow2;
use vstd::prelude::*;

use crate::dhcpv6::parser::{
    container_of, info_from_contents, info_in, lemma_delegated_prefix, lemma_timers_of_a_lease,
    rules_from_contents, rules_in,
};
use crate::dhcpv6::tlv::{options, Tlv};
use crate::dhcpv6::wire::{
    association_wire, be32_bytes, build_client_message, bytes_of, client_message, client_options,
    contents_of, encodable, first_status, four_bytes, ia_pd_view, lemma_client_message_reads_back,
    message_of, option_bytes, read_message, wire_of, Contents, ContentsView, IaPd, IaPdView, MessageView, WireMessage,
};
use crate::map::rule::MapRule;
use crate::net::{Ipv6Addr, Ipv6Net};

verus! {

pub const MSG_SOLICIT: u8 = 1;

pub const MSG_ADVERTISE: u8 = 2;

pub const MSG_REQUEST: u8 = 3;

pub const MSG_RENEW: u8 = 5;

pub const MSG_REBIND: u8 = 6;

pub const MSG_REPLY: u8 = 7;

pub const MSG_RELEASE: u8 = 8;

/// An identity association without its prefixes.
#[derive(Clone, Copy, Debug, PartialEq, Eq, Structural)]
pub struct Association {
    pub id: u32,
    pub t1: u32,
    pub t2: u32,
}

/// The encoding of an association without prefixes.
pub open spec fn bare_association(a: Association) -> Seq<u8> {
    option_bytes(25, be32_bytes(a.id as int) + be32_bytes(a.t1 as int) + be32_bytes(a.t2 as int))
}

proof fn lemma_bare_association(a: Association)
    ensures
        association_wire((IaPdView { id: a.id, t1: a.t1, t2: a.t2, options: Seq::empty() })) == Some(
            bare_association(a),
        ),
{
    let ia = ia_pd_view(a.id, a.t1, a.t2, Seq::empty());
    let list = seq![ia];
    assert(list[list.len() - 1] == ia);
    assert(encodable(ia.nested));
    assert(wire_of(ia.nested) == Some(Seq::<u8>::empty()));
    assert(encodable(list.subrange(0, list.len() - 1)));
    assert(encodable(list));
    let payload = be32_bytes(a.id as int) + be32_bytes(a.t1 as int) + be32_bytes(a.t2 as int);
    assert(payload + Seq::<u8>::empty() =~= payload);
}

/// A message with an association that has no prefixes.
pub open spec fn bare_message(
    msg_type: u8,
    xid: Seq<u8>,
    duid: Seq<u8>,
    server: Option<Seq<u8>>,
    asks: bool,
    a: Association,
) -> Seq<u8> {
    seq![msg_type] + xid + client_options(duid, server, asks, bare_association(a))
}

/// Builds a message with an association that has no prefixes.
fn build_bare(
    msg_type: u8,
    xid: [u8; 3],
    duid: &Vec<u8>,
    server: Option<&Vec<u8>>,
    asks: bool,
    a: Association,
) -> (r: Vec<u8>)
    ensures
        r@ == bare_message(
            msg_type,
            xid@,
            duid@,
            match server {
                Some(id) => Some(id@),
                None => None,
            },
            asks,
            a,
        ),
{
    proof {
        lemma_bare_association(a);
    }
    let built = build_client_message(
        msg_type,
        xid,
        duid,
        server,
        asks,
        IaPd::bare(a.id, a.t1, a.t2),
    );
    built.unwrap()
}

/// The Solicit message: client id, requested options and an empty association.
pub open spec fn solicit_message(duid: Seq<u8>, iaid: u32, xid: Seq<u8>) -> Seq<u8> {
    bare_message(MSG_SOLICIT, xid, duid, None, true, Association { id: iaid, t1: 0, t2: 0 })
}

pub fn build_solicit(duid: &Vec<u8>, iaid: u32, xid: [u8; 3]) -> (r: Vec<u8>)
    ensures
        r@ == solicit_message(duid@, iaid, xid@),
{
    build_bare(MSG_SOLICIT, xid, duid, None, true, Association { id: iaid, t1: 0, t2: 0 })
}

/// The Request message: client id, server id, requested options and the association that
/// the server offered. `None` if that association cannot be encoded.
pub fn build_request(
    duid: &Vec<u8>,
    server_duid: &Vec<u8>,
    xid: [u8; 3],
    ia_pd_from_adv: IaPd,
) -> (r: Option<Vec<u8>>)
    ensures
        bytes_of(r) == client_message(
            MSG_REQUEST,
            xid@,
            duid@,
            Some(server_duid@),
            true,
            ia_pd_from_adv@,
        ),
{
    build_client_message(MSG_REQUEST, xid, duid, Some(server_duid), true, ia_pd_from_adv)
}

/// The Renew message: client id, server id, requested options and the association.
pub open spec fn renew_message(duid: Seq<u8>, server: Seq<u8>, xid: Seq<u8>, a: Association) -> Seq<u8> {
    bare_message(MSG_RENEW, xid, duid, Some(server), true, a)
}

pub fn build_renew(duid: &Vec<u8>, server_duid: &Vec<u8>, xid: [u8; 3], ia_pd: Association) -> (r: Vec<u8>)
    ensures
        r@ == renew_message(duid@, server_duid@, xid@, ia_pd),
{
    build_bare(MSG_RENEW, xid, duid, Some(server_duid), true, ia_pd)
}

/// The Rebind message: client id, requested options and the association, to no server in
/// particular.
pub open spec fn rebind_message(duid: Seq<u8>, xid: Seq<u8>, a: Association) -> Seq<u8> {
    bare_message(MSG_REBIND, xid, duid, None, true, a)
}

pub fn build_rebind(duid: &Vec<u8>, xid: [u8; 3], ia_pd: Association) -> (r: Vec<u8>)
    ensures
        r@ == rebind_message(duid@, xid@, ia_pd),
{
    build_bare(MSG_REBIND, xid, duid, None, true, ia_pd)
}

/// The Release message: client id, server id and the association.
pub open spec fn release_message(
    duid: Seq<u8>,
    server: Seq<u8>,
    xid: Seq<u8>,
    a: Association,
) -> Seq<u8> {
    bare_message(MSG_RELEASE, xid, duid, Some(server), false, a)
}

pub fn build_release(duid: &Vec<u8>, server_duid: &Vec<u8>, xid: [u8; 3], ia_pd: Association) -> (r: Vec<
    u8,
>)
    ensures
        r@ == release_message(duid@, server_duid@, xid@, ia_pd),
{
    build_bare(MSG_RELEASE, xid, duid, Some(server_duid), false, ia_pd)
}

/// Whether a message carries no status, or that of success.
pub open spec fn succeeded(m: MessageView) -> bool {
    first_status(m.options) matches Some(s) ==> s == 0
}

/// Whether a message is an Advertise that answers the transaction.
pub open spec fn answers_solicit(m: MessageView, xid: Seq<u8>) -> bool {
    m.msg_type == MSG_ADVERTISE && m.xid == xid && succeeded(m)
}

/// Whether a message is a Reply that answers the transaction.
pub open spec fn answers_request(m: MessageView, xid: Seq<u8>) -> bool {
    m.msg_type == MSG_REPLY && m.xid == xid
}

/// Whether two transaction ids are the same.
fn same_xid(a: [u8; 3], b: [u8; 3]) -> (r: bool)
    ensures
        r == (a@ == b@),
{
    let same = a[0] == b[0] && a[1] == b[1] && a[2] == b[2];
    proof {
        if same {
            assert(a@ =~= b@);
        }
    }
    same
}

/// The Advertise in a datagram, if it answers the transaction.
pub fn parse_advertise(data: &[u8], xid: [u8; 3]) -> (r: Option<WireMessage>)
    ensures
        match message_of(data@) {
            Some(m) if answers_solicit(m, xid@) => r matches Some(w) && w@ == m,
            _ => r is None,
        },
{
    let msg = match read_message(data) {
        Some(m) => m,
        None => {
            return None;
        },
    };
    if msg.msg_type() != MSG_ADVERTISE || !same_xid(msg.xid(), xid) {
        return None;
    }
    match msg.status() {
        Some(s) if s != 0 => None,
        _ => Some(msg),
    }
}

/// The Reply in a datagram, if it answers the transaction.
pub fn parse_reply(data: &[u8], xid: [u8; 3]) -> (r: Option<WireMessage>)
    ensures
        match message_of(data@) {
            Some(m) if answers_request(m, xid@) => r matches Some(w) && w@ == m,
            _ => r is None,
        },
{
    let msg = match read_message(data) {
        Some(m) => m,
        None => {
            return None;
        },
    };
    if msg.msg_type() != MSG_REPLY || !same_xid(msg.xid(), xid) {
        return None;
    }
    Some(msg)
}

/// What a reply brings.
#[derive(Clone, Debug)]
pub struct LeaseInfo {
    /// The delegated prefix.
    pub prefix: Ipv6Net,
    /// Seconds until the lease is renewed.
    pub t1: u32,
    /// Seconds until any server is asked.
    pub t2: u32,
    /// Seconds until the lease ends.
    pub valid_lifetime: u32,
    /// Mapping rules; none where the reply brings none that can be read.
    pub rules: Vec<MapRule>,
    /// The server.
    pub server_duid: Vec<u8>,
    /// Where the server wants to be spoken to.
    pub server_unicast: Option<Ipv6Addr>,
    /// The association to renew and to release.
    pub ia_pd_for_release: Association,
}

/// What a reply brings, with its lists as sequences.
pub struct LeaseView {
    pub prefix: Ipv6Net,
    pub t1: u32,
    pub t2: u32,
    pub valid_lifetime: u32,
    pub rules: Seq<MapRule>,
    pub server_duid: Seq<u8>,
    pub server_unicast: Option<Ipv6Addr>,
    pub ia_pd_for_release: Association,
}

impl View for LeaseInfo {
    type V = LeaseView;

    open spec fn view(&self) -> LeaseView {
        LeaseView {
            prefix: self.prefix,
            t1: self.t1,
            t2: self.t2,
            valid_lifetime: self.valid_lifetime,
            rules: self.rules@,
            server_duid: self.server_duid@,
            server_unicast: self.server_unicast,
            ia_pd_for_release: self.ia_pd_for_release,
        }
    }
}

/// Why a reply brings nothing.
#[derive(Clone, Copy, Debug, PartialEq, Eq, Structural)]
pub enum ReplyError {
    /// It is no message.
    Undecodable,
    /// It reports this status.
    Status(u16),
    /// It has no prefix for the association, or reports a failure for it.
    NoPrefix,
}

/// The rules of a container; none where it brings none that can be read.
pub open spec fn usable_rules(container: Option<Seq<u8>>) -> Seq<MapRule> {
    match rules_in(container) {
        Ok(Some(rules)) => rules,
        _ => Seq::empty(),
    }
}

/// What the contents of a reply bring for the association.
pub open spec fn lease_of(c: ContentsView, iaid: u32, server_duid: Seq<u8>) -> Result<
    LeaseView,
    ReplyError,
> {
    match (c.status, info_in(c)) {
        (Some(status), _) if status != 0 => Err(ReplyError::Status(status)),
        (_, None) => Err(ReplyError::NoPrefix),
        (_, Some(info)) => Ok(
            LeaseView {
                prefix: info.prefix,
                t1: info.t1,
                t2: info.t2,
                valid_lifetime: info.valid_lifetime,
                rules: usable_rules(c.container),
                server_duid,
                server_unicast: match c.server_unicast {
                    Some(bits) => Some(Ipv6Addr { bits }),
                    None => None,
                },
                ia_pd_for_release: Association { id: iaid, t1: info.t1, t2: info.t2 },
            },
        ),
    }
}

/// What an encoded reply brings for the association.
pub open spec fn lease_in(raw: Seq<u8>, iaid: u32, server_duid: Seq<u8>) -> Result<
    LeaseView,
    ReplyError,
> {
    match message_of(raw) {
        Some(m) => lease_of(contents_of(m, Some(iaid)), iaid, server_duid),
        None => Err(ReplyError::Undecodable),
    }
}

/// Whether a result holds the expected lease or error.
pub open spec fn lease_matches(
    r: Result<LeaseInfo, ReplyError>,
    e: Result<LeaseView, ReplyError>,
) -> bool {
    match e {
        Ok(lease) => r matches Ok(v) && v@ == lease,
        Err(x) => r matches Err(v) && v == x,
    }
}

/// Takes the lease out of the contents of a reply.
pub fn lease_from_contents(c: &Contents, iaid: u32, server_duid: Vec<u8>) -> (r: Result<
    LeaseInfo,
    ReplyError,
>)
    ensures
        lease_matches(r, lease_of(c@, iaid, server_duid@)),
{
    match c.status {
        Some(s) if s != 0 => {
            return Err(ReplyError::Status(s));
        },
        _ => {},
    }
    let server_unicast = match c.server_unicast {
        Some(bits) => Some(Ipv6Addr { bits }),
        None => None,
    };
    let info = match info_from_contents(c) {
        Some(info) => info,
        None => {
            return Err(ReplyError::NoPrefix);
        },
    };
    let rules = match rules_from_contents(c) {
        Ok(Some(rules)) => rules,
        _ => Vec::new(),
    };
    Ok(
        LeaseInfo {
            prefix: info.prefix,
            t1: info.t1,
            t2: info.t2,
            valid_lifetime: info.valid_lifetime,
            rules,
            server_duid,
            server_unicast,
            ia_pd_for_release: Association { id: iaid, t1: info.t1, t2: info.t2 },
        },
    )
}

/// Takes the lease out of an encoded reply.
pub fn process_reply(raw_data: &[u8], iaid: u32, server_duid: Vec<u8>) -> (r: Result<
    LeaseInfo,
    ReplyError,
>)
    ensures
        lease_matches(r, lease_in(raw_data@, iaid, server_duid@)),
{
    match read_message(raw_data) {
        Some(msg) => lease_from_contents(&msg.contents(Some(iaid)), iaid, server_duid),
        None => Err(ReplyError::Undecodable),
    }
}

/// What the messages of the client say, read as options: a Solicit (1) and a Rebind (6) name the
/// client, ask for the prefix and the container, and carry the association; a Renew (5) names the
/// server too; a Release (8) names client and server and carries the association. Each carries
/// its transaction id behind its type.
pub proof fn lemma_messages_read_back(
    duid: Seq<u8>,
    server: Seq<u8>,
    xid: Seq<u8>,
    iaid: u32,
    a: Association,
)
    requires
        xid.len() == 3,
        duid.len() <= 0xffff,
        server.len() <= 0xffff,
    ensures
        ({
            let client = Tlv { code: 1, data: duid };
            let named = Tlv { code: 2, data: server };
            let asked = Tlv { code: 6, data: seq![0u8, 25, 0, 94] };
            let kept = Tlv {
                code: 25,
                data: four_bytes(a.id) + four_bytes(a.t1) + four_bytes(a.t2),
            };
            let empty = Tlv {
                code: 25,
                data: four_bytes(iaid) + seq![0u8, 0, 0, 0, 0, 0, 0, 0],
            };
            &&& says(solicit_message(duid, iaid, xid), 1, xid, seq![client, asked, empty])
            &&& says(renew_message(duid, server, xid, a), 5, xid, seq![client, named, asked, kept])
            &&& says(rebind_message(duid, xid, a), 6, xid, seq![client, asked, kept])
            &&& says(release_message(duid, server, xid, a), 8, xid, seq![client, named, kept])
        }),
{
    let zero = Association { id: iaid, t1: 0, t2: 0 };
    lemma_bare_message_reads_back(1, xid, duid, None, true, zero);
    lemma_bare_message_reads_back(5, xid, duid, Some(server), true, a);
    lemma_bare_message_reads_back(6, xid, duid, None, true, a);
    lemma_bare_message_reads_back(8, xid, duid, Some(server), false, a);
    let client = Tlv { code: 1, data: duid };
    let named = Tlv { code: 2, data: server };
    let asked = Tlv { code: 6, data: seq![0u8, 25, 0, 94] };
    let kept = Tlv { code: 25, data: four_bytes(a.id) + four_bytes(a.t1) + four_bytes(a.t2) };
    let zeros = seq![0u8, 0, 0, 0, 0, 0, 0, 0];
    assert(four_bytes(iaid) + four_bytes(0) + four_bytes(0) =~= four_bytes(iaid) + zeros);
    let empty = Tlv { code: 25, data: four_bytes(iaid) + zeros };
    let none = Seq::<Tlv>::empty();
    assert(seq![client] + none + seq![asked] + seq![empty] =~= seq![client, asked, empty]);
    assert(seq![client] + seq![named] + seq![asked] + seq![kept] =~= seq![
        client,
        named,
        asked,
        kept,
    ]);
    assert(seq![client] + none + seq![asked] + seq![kept] =~= seq![client, asked, kept]);
    assert(seq![client] + seq![named] + none + seq![kept] =~= seq![client, named, kept]);
}

/// Whether bytes are a message of that type and transaction with those options.
pub open spec fn says(bytes: Seq<u8>, msg_type: u8, xid: Seq<u8>, opts: Seq<Tlv>) -> bool {
    &&& bytes.len() >= 4
    &&& bytes[0] == msg_type
    &&& bytes.subrange(1, 4) == xid
    &&& options(bytes.subrange(4, bytes.len() as int)) == opts
}

proof fn lemma_bare_message_reads_back(
    msg_type: u8,
    xid: Seq<u8>,
    duid: Seq<u8>,
    server: Option<Seq<u8>>,
    asks: bool,
    a: Association,
)
    requires
        xid.len() == 3,
        duid.len() <= 0xffff,
        server matches Some(id) ==> id.len() <= 0xffff,
    ensures
        says(
            bare_message(msg_type, xid, duid, server, asks, a),
            msg_type,
            xid,
            seq![Tlv { code: 1, data: duid }] + (match server {
                Some(id) => seq![Tlv { code: 2, data: id }],
                None => seq![],
            }) + (if asks {
                seq![Tlv { code: 6, data: seq![0u8, 25, 0, 94] }]
            } else {
                seq![]
            }) + seq![
                Tlv { code: 25, data: four_bytes(a.id) + four_bytes(a.t1) + four_bytes(a.t2) },
            ],
        ),
{
    let view = IaPdView { id: a.id, t1: a.t1, t2: a.t2, options: Seq::empty() };
    let inner = Seq::<u8>::empty();
    lemma_bare_association(a);
    assert(wire_of(view.options) == Some(inner));
    assert(encodable(view.options));
    lemma_client_message_reads_back(msg_type, xid, duid, server, asks, view, inner);
    assert(four_bytes(a.id) + four_bytes(a.t1) + four_bytes(a.t2) + inner =~= four_bytes(a.id)
        + four_bytes(a.t1) + four_bytes(a.t2));
}

/// What the contents of a Reply bring. A status other than zero counts first; then a prefix is
/// needed, in an association without a failure. The lease has that prefix without host bits, the
/// timers, the rules of the container, or none where there is no container or it cannot be read,
/// and the association with the id that was asked for and the timers of the lease.
pub proof fn lemma_what_a_reply_brings(c: ContentsView, iaid: u32, server: Seq<u8>)
    ensures
        ({
            let r = lease_of(c, iaid, server);
            let refused = c.status is Some && c.status->Some_0 != 0;
            let usable = c.delegation is Some && !c.delegation->Some_0.failed
                && c.delegation->Some_0.prefix is Some
                && c.delegation->Some_0.prefix->Some_0.prefix_len <= 128;
            &&& refused ==> r == Err::<LeaseView, ReplyError>(
                ReplyError::Status(c.status->Some_0),
            )
            &&& !refused && !usable ==> r == Err::<LeaseView, ReplyError>(ReplyError::NoPrefix)
            &&& !refused && usable ==> {
                let lease = r->Ok_0;
                let d = c.delegation->Some_0;
                let p = d.prefix->Some_0;
                let host = pow2((128 - p.prefix_len) as nat) as int;
                &&& r is Ok
                &&& lease.prefix.prefix_len == p.prefix_len
                &&& lease.prefix.addr.bits == p.prefix_ip as int / host * host
                &&& lease.valid_lifetime == p.valid_lifetime
                &&& d.t1 != 0 ==> lease.t1 == d.t1
                &&& d.t2 != 0 ==> lease.t2 == d.t2
                &&& d.t1 == 0 && p.valid_lifetime < 0xffff_ffff ==> 2 * lease.t1
                    <= p.valid_lifetime < 2 * lease.t1 + 2
                &&& d.t2 == 0 && p.valid_lifetime < 0xffff_ffff ==> 5 * lease.t2 <= 4
                    * p.valid_lifetime < 5 * lease.t2 + 5
                &&& d.t1 == 0 && p.valid_lifetime == 0xffff_ffff ==> lease.t1 == 0xffff_ffff
                &&& d.t2 == 0 && p.valid_lifetime == 0xffff_ffff ==> lease.t2 == 0xffff_ffff
                &&& c.container is None ==> lease.rules.len() == 0
                &&& c.container matches Some(payload) ==> match container_of(payload) {
                    Ok(rules) => lease.rules == rules,
                    Err(_) => lease.rules.len() == 0,
                }
                &&& lease.server_duid == server
                &&& c.server_unicast is None ==> lease.server_unicast is None
                &&& c.server_unicast matches Some(bits) ==> (lease.server_unicast matches Some(a)
                    && a.bits == bits)
                &&& lease.ia_pd_for_release == (Association { id: iaid, t1: lease.t1, t2: lease.t2 })
            }
        }),
{
    if let Some(d) = c.delegation {
        lemma_delegated_prefix(d);
        if let Some(p) = d.prefix {
            lemma_timers_of_a_lease(d.t1, d.t2, p.valid_lifetime);
        }
    }
}

/// What answers a Solicit is an Advertise, which has the number 2, of the same transaction whose
/// status, if it has one, is zero. What answers any other message is a Reply, which has the number
/// 7, of the same transaction, whatever its status is.
pub proof fn lemma_what_answers(m: MessageView, xid: Seq<u8>)
    ensures
        m.msg_type != 2 ==> !answers_solicit(m, xid),
        m.xid != xid ==> !answers_solicit(m, xid) && !answers_request(m, xid),
        first_status(m.options) matches Some(s) ==> s != 0 ==> !answers_solicit(m, xid),
        m.msg_type == 2 && m.xid == xid && (first_status(m.options) is None || first_status(
            m.options,
        ) == Some(0u16)) ==> answers_solicit(m, xid),
        m.msg_type != 7 ==> !answers_request(m, xid),
        m.msg_type == 7 && m.xid == xid ==> answers_request(m, xid),
{
}

} // verus!
