//! Mapping rules and delegated prefixes from a DHCPv6 reply.

use vstd::arithmetic::div_mod::{
    lemma_div_by_multiple, lemma_div_denominator, lemma_fundamental_div_mod,
    lemma_mod_multiples_basic, lemma_mod_pos_bound,
};
use vstd::arithmetic::power2::{
    lemma2_to64, lemma2_to64_rest, lemma_pow2_adds, lemma_pow2_pos, pow2,
};
use vstd::prelude::*;
use vstd::slice::slice_subrange;
use vstd::string::*;

use crate::dhcpv6::option_mape::{
    prefix_bytes, OPTION_S46_BR, OPTION_S46_CONT_MAPE, OPTION_S46_PORTPARAMS, OPTION_S46_RULE,
};
use crate::dhcpv6::tlv::{
    all_spelled, holds, iter_opts, lemma_bytes_spell_number, lemma_first_bytes_spell_number,
    lemma_option_reads_back, lemma_options_read_back, lemma_pow256_is_pow2, options, pow256,
    read_padded, spelled, zero_padded, RawOption, Tlv,
};
use crate::dhcpv6::wire::{
    contents_of, first_unknown, message_of, read_message, Contents, ContentsView, DelegatedPrefix,
    Delegation, MessageView,
};
use crate::error::{ErrorView, MapEError};
use crate::map::rule::{MapRule, PortParams};
use crate::net::{be_value, lemma_pow2_128, truncated, Ipv4Addr, Ipv4Net, Ipv6Addr, Ipv6Net};
use crate::text::{around_number, decimal};

verus! {

/// A delegated prefix and its timers.
#[derive(Clone, Copy, Debug, PartialEq, Eq, Structural)]
pub struct IaPdInfo {
    /// The delegated prefix.
    pub prefix: Ipv6Net,
    /// Seconds until the server is asked to renew.
    pub t1: u32,
    /// Seconds until any server is asked.
    pub t2: u32,
    /// Seconds until the prefix is no longer valid.
    pub valid_lifetime: u32,
}

/// The port parameters of the last port parameter option with all four bytes.
pub open spec fn last_port_params(opts: Seq<Tlv>) -> PortParams
    decreases opts.len(),
{
    if opts.len() == 0 {
        PortParams { psid_offset: 0, psid_length: 0 }
    } else if opts.last().code == OPTION_S46_PORTPARAMS && opts.last().data.len() >= 4 {
        PortParams { psid_offset: opts.last().data[0], psid_length: opts.last().data[1] }
    } else {
        last_port_params(opts.drop_last())
    }
}

/// The rule that a payload spells, or the error.
///
/// The payload is flags, EA length, IPv4 prefix length, IPv4 prefix, IPv6 prefix length, IPv6
/// prefix and further options. A prefix takes as many bytes as its length needs, and its host
/// bits are cleared.
pub open spec fn rule_of(p: Seq<u8>, br: Ipv6Addr) -> Result<MapRule, ErrorView> {
    if p.len() < 3 {
        Err(ErrorView::InvalidConfig("S46_RULE payload too short"@))
    } else if p[2] > 32 {
        Err(
            ErrorView::InvalidConfig(
                "S46_RULE prefix4-len "@ + decimal(p[2] as nat) + " > 32"@,
            ),
        )
    } else {
        let n4 = prefix_bytes(p[2] as int);
        if p.len() < 3 + n4 {
            Err(ErrorView::InvalidConfig("S46_RULE payload truncated at IPv4 prefix"@))
        } else if p.len() == 3 + n4 {
            Err(ErrorView::InvalidConfig("S46_RULE payload truncated at prefix6-len"@))
        } else if p[3 + n4] > 128 {
            Err(
                ErrorView::InvalidConfig(
                    "S46_RULE prefix6-len "@ + decimal(p[3 + n4] as nat) + " > 128"@,
                ),
            )
        } else {
            let n6 = prefix_bytes(p[3 + n4] as int);
            let end = 4 + n4 + n6;
            if p.len() < end {
                Err(ErrorView::InvalidConfig("S46_RULE payload truncated at IPv6 prefix"@))
            } else {
                let v4 = be_value(zero_padded(p.subrange(3, 3 + n4), 4));
                let v6 = be_value(zero_padded(p.subrange(4 + n4, end), 16));
                Ok(
                    MapRule {
                        ipv6_prefix: Ipv6Net {
                            addr: Ipv6Addr { bits: truncated(v6, 128, p[3 + n4] as int) as u128 },
                            prefix_len: p[3 + n4],
                        },
                        ipv4_prefix: Ipv4Net {
                            addr: Ipv4Addr { bits: truncated(v4, 32, p[2] as int) as u32 },
                            prefix_len: p[2],
                        },
                        ea_length: p[1],
                        is_fmr: p[0] % 2 == 1,
                        br_address: br,
                        port_params: last_port_params(options(p.subrange(end, p.len() as int))),
                    },
                )
            }
        }
    }
}

/// The address in the first border relay option with at least sixteen bytes.
pub open spec fn first_relay(opts: Seq<Tlv>) -> Option<Ipv6Addr>
    decreases opts.len(),
{
    if opts.len() == 0 {
        None
    } else {
        match first_relay(opts.drop_last()) {
            Some(a) => Some(a),
            None => relay_of(opts.last()),
        }
    }
}

/// The address that an option gives for the border relay.
pub open spec fn relay_of(opt: Tlv) -> Option<Ipv6Addr> {
    if opt.code == OPTION_S46_BR && opt.data.len() >= 16 {
        Some(Ipv6Addr { bits: be_value(opt.data.subrange(0, 16)) as u128 })
    } else {
        None
    }
}

/// The rules of the rule options in their order, or the error of the first that has one.
pub open spec fn rules_of(opts: Seq<Tlv>, br: Ipv6Addr) -> Result<Seq<MapRule>, ErrorView>
    decreases opts.len(),
{
    if opts.len() == 0 {
        Ok(Seq::empty())
    } else {
        match rules_of(opts.drop_last(), br) {
            Err(e) => Err(e),
            Ok(rules) => if opts.last().code == OPTION_S46_RULE {
                match rule_of(opts.last().data, br) {
                    Ok(rule) => Ok(rules.push(rule)),
                    Err(e) => Err(e),
                }
            } else {
                Ok(rules)
            },
        }
    }
}

/// The rules of a MAP-E container, or the error.
pub open spec fn container_of(payload: Seq<u8>) -> Result<Seq<MapRule>, ErrorView> {
    match first_relay(options(payload)) {
        None => Err(ErrorView::MissingBrAddress),
        Some(br) => rules_of(options(payload), br),
    }
}

/// Whether a result with a list holds the expected list or error.
pub open spec fn rules_match(r: Result<Vec<MapRule>, MapEError>, e: Result<Seq<MapRule>, ErrorView>) -> bool {
    match e {
        Ok(rules) => r matches Ok(v) && v@ == rules,
        Err(x) => r matches Err(v) && v@ == x,
    }
}

/// The rules that a container brings, if there is one.
pub open spec fn rules_in(container: Option<Seq<u8>>) -> Result<Option<Seq<MapRule>>, ErrorView> {
    match container {
        None => Ok(None),
        Some(payload) => match container_of(payload) {
            Ok(rules) => Ok(Some(rules)),
            Err(e) => Err(e),
        },
    }
}

/// The rules that a message brings: none without a MAP-E container, else those of the first.
pub open spec fn rules_in_message(m: MessageView) -> Result<Option<Seq<MapRule>>, ErrorView> {
    rules_in(first_unknown(m.options, OPTION_S46_CONT_MAPE))
}

/// Whether a result holds the expected rules, their absence, or the expected error.
pub open spec fn found_rules_match(
    r: Result<Option<Vec<MapRule>>, MapEError>,
    e: Result<Option<Seq<MapRule>>, ErrorView>,
) -> bool {
    match e {
        Ok(Some(rules)) => r matches Ok(Some(v)) && v@ == rules,
        Ok(None) => r matches Ok(None),
        Err(x) => r matches Err(v) && v@ == x,
    }
}

/// A timer that a server left at zero: half, or four fifths, of the valid lifetime, and without
/// end for a lifetime without end.
pub open spec fn completed_timer(timer: u32, valid_lifetime: u32, divisor: u32) -> u32 {
    if timer != 0 {
        timer
    } else if valid_lifetime == u32::MAX {
        u32::MAX
    } else if divisor == 2 {
        valid_lifetime / 2
    } else {
        (valid_lifetime * 4 / 5) as u32
    }
}

/// The prefix and timers of an association with a given first prefix.
pub open spec fn info_of(t1: u32, t2: u32, p: DelegatedPrefix) -> Option<IaPdInfo> {
    if p.prefix_len > 128 {
        None
    } else {
        Some(
            IaPdInfo {
                prefix: Ipv6Net {
                    addr: Ipv6Addr {
                        bits: truncated(p.prefix_ip as int, 128, p.prefix_len as int) as u128,
                    },
                    prefix_len: p.prefix_len,
                },
                t1: completed_timer(t1, p.valid_lifetime, 2),
                t2: completed_timer(t2, p.valid_lifetime, 5),
                valid_lifetime: p.valid_lifetime,
            },
        )
    }
}

/// The prefix and timers that an association brings: none if it has no prefix, or a status that
/// says that something failed.
pub open spec fn delegation_info(d: Delegation) -> Option<IaPdInfo> {
    match d.prefix {
        None => None,
        Some(p) => if d.failed {
            None
        } else {
            info_of(d.t1, d.t2, p)
        },
    }
}

/// The prefix and timers in the contents of a message.
pub open spec fn info_in(c: ContentsView) -> Option<IaPdInfo> {
    match c.delegation {
        Some(d) => delegation_info(d),
        None => None,
    }
}

/// The prefix and timers that a message brings in its first association, or the first with
/// the given id.
pub open spec fn info_in_message(m: MessageView, iaid: Option<u32>) -> Option<IaPdInfo> {
    info_in(contents_of(m, iaid))
}

/// The mapping rules of a reply, from the first MAP-E container in it.
///
/// A reply without a container, and a datagram that is no message, bring none.
pub fn parse_mape_container(data: &[u8]) -> (r: Result<Option<Vec<MapRule>>, MapEError>)
    ensures
        match message_of(data@) {
            Some(m) => found_rules_match(r, rules_in_message(m)),
            None => r matches Ok(None),
        },
{
    match read_message(data) {
        None => Ok(None),
        Some(msg) => rules_from_contents(&msg.contents(None)),
    }
}

/// The mapping rules in the contents of a message.
pub fn rules_from_contents(c: &Contents) -> (r: Result<Option<Vec<MapRule>>, MapEError>)
    ensures
        found_rules_match(r, rules_in(c@.container)),
{
    match &c.container {
        None => Ok(None),
        Some(payload) => match parse_s46_cont_mape(payload.as_slice()) {
            Ok(rules) => Ok(Some(rules)),
            Err(e) => Err(e),
        },
    }
}

/// The delegated prefix of a reply, from its first association or the first with the given id.
pub fn parse_ia_pd(data: &[u8], iaid: Option<u32>) -> (r: Option<Ipv6Net>)
    ensures
        match message_of(data@) {
            Some(m) => match info_in_message(m, iaid) {
                Some(info) => r == Some(info.prefix),
                None => r is None,
            },
            None => r is None,
        },
{
    match parse_ia_pd_info(data, iaid) {
        Some(info) => Some(info.prefix),
        None => None,
    }
}

/// The delegated prefix of a reply with its timers, from its first association or the first
/// with the given id.
pub fn parse_ia_pd_info(data: &[u8], iaid: Option<u32>) -> (r: Option<IaPdInfo>)
    ensures
        r == (match message_of(data@) {
            Some(m) => info_in_message(m, iaid),
            None => None,
        }),
{
    match read_message(data) {
        None => None,
        Some(msg) => info_from_contents(&msg.contents(iaid)),
    }
}

/// The delegated prefix with its timers in the contents of a message.
pub fn info_from_contents(c: &Contents) -> (r: Option<IaPdInfo>)
    ensures
        r == info_in(c@),
{
    match &c.delegation {
        None => None,
        Some(d) => match d.prefix {
            None => None,
            Some(p) => if d.failed {
                None
            } else {
                delegated_info(d.t1, d.t2, p)
            },
        },
    }
}

/// The prefix and timers of an association with a given first prefix.
fn delegated_info(t1: u32, t2: u32, prefix: DelegatedPrefix) -> (r: Option<IaPdInfo>)
    ensures
        r == info_of(t1, t2, prefix),
{
    match build_ia_prefix(prefix) {
        None => None,
        Some(net) => Some(
            IaPdInfo {
                prefix: net,
                t1: complement_timer(t1, prefix.valid_lifetime, 2),
                t2: complement_timer(t2, prefix.valid_lifetime, 5),
                valid_lifetime: prefix.valid_lifetime,
            },
        ),
    }
}

/// The prefix without host bits; `None` if and only if its length exceeds 128.
fn build_ia_prefix(prefix: DelegatedPrefix) -> (r: Option<Ipv6Net>)
    ensures
        prefix.prefix_len > 128 ==> r is None,
        prefix.prefix_len <= 128 ==> r == Some(
            (Ipv6Net {
                addr: Ipv6Addr {
                    bits: truncated(prefix.prefix_ip as int, 128, prefix.prefix_len as int) as u128,
                },
                prefix_len: prefix.prefix_len,
            }),
        ),
{
    match Ipv6Net::new(Ipv6Addr { bits: prefix.prefix_ip }, prefix.prefix_len) {
        Some(net) => Some(net.trunc()),
        None => None,
    }
}

/// A timer that a server may have left at zero.
pub fn complement_timer(timer: u32, valid_lifetime: u32, divisor: u32) -> (r: u32)
    ensures
        r == completed_timer(timer, valid_lifetime, divisor),
{
    if timer != 0 {
        return timer;
    }
    if valid_lifetime == u32::MAX {
        return u32::MAX;
    }
    if divisor == 2 {
        valid_lifetime / 2
    } else {
        (valid_lifetime as u64 * 4 / 5) as u32
    }
}

/// The rules of a MAP-E container.
pub fn parse_s46_cont_mape(payload: &[u8]) -> (r: Result<Vec<MapRule>, MapEError>)
    ensures
        rules_match(r, container_of(payload@)),
{
    let opts = iter_opts(payload);
    let br = match find_relay(&opts, Ghost(options(payload@))) {
        Some(a) => a,
        None => {
            return Err(MapEError::MissingBrAddress);
        },
    };
    let ghost all = options(payload@);
    let mut rules: Vec<MapRule> = Vec::new();
    let mut i: usize = 0;
    proof {
        assert(all.take(0) =~= Seq::empty());
    }
    while i < opts.len()
        invariant
            i <= opts.len(),
            holds(opts@, all),
            all == options(payload@),
            first_relay(all) == Some(br),
            rules_of(all.take(i as int), br) == Ok::<Seq<MapRule>, ErrorView>(rules@),
        decreases opts.len() - i,
    {
        let opt = opts[i];
        proof {
            assert(all.take(i + 1).drop_last() =~= all.take(i as int));
            assert(all.take(i + 1).last() == all[i as int]);
            assert(opt@ == all[i as int]);
        }
        if opt.code == OPTION_S46_RULE {
            match parse_s46_rule(opt.data, br) {
                Ok(rule) => {
                    rules.push(rule);
                },
                Err(e) => {
                    proof {
                        lemma_first_rule_error(all, br, i + 1);
                    }
                    return Err(e);
                },
            }
        }
        i = i + 1;
    }
    proof {
        assert(all.take(i as int) =~= all);
    }
    Ok(rules)
}

proof fn lemma_first_rule_error(opts: Seq<Tlv>, br: Ipv6Addr, n: int)
    requires
        0 <= n <= opts.len(),
        rules_of(opts.take(n), br) is Err,
    ensures
        rules_of(opts, br) == rules_of(opts.take(n), br),
    decreases opts.len() - n,
{
    if n < opts.len() {
        assert(opts.take(n + 1).drop_last() =~= opts.take(n));
        lemma_first_rule_error(opts, br, n + 1);
    } else {
        assert(opts.take(n) =~= opts);
    }
}

proof fn lemma_first_relay(opts: Seq<Tlv>, n: int)
    requires
        0 <= n <= opts.len(),
        first_relay(opts.take(n)) is Some,
    ensures
        first_relay(opts) == first_relay(opts.take(n)),
    decreases opts.len() - n,
{
    if n < opts.len() {
        assert(opts.take(n + 1).drop_last() =~= opts.take(n));
        lemma_first_relay(opts, n + 1);
    } else {
        assert(opts.take(n) =~= opts);
    }
}

/// The address in the first border relay option that holds one.
fn find_relay<'a>(opts: &Vec<RawOption<'a>>, Ghost(all): Ghost<Seq<Tlv>>) -> (r: Option<Ipv6Addr>)
    requires
        holds(opts@, all),
    ensures
        r == first_relay(all),
{
    let mut i: usize = 0;
    proof {
        assert(all.take(0) =~= Seq::empty());
    }
    while i < opts.len()
        invariant
            i <= opts.len(),
            holds(opts@, all),
            first_relay(all.take(i as int)) is None,
        decreases opts.len() - i,
    {
        let opt = opts[i];
        proof {
            assert(all.take(i + 1).drop_last() =~= all.take(i as int));
            assert(all.take(i + 1).last() == all[i as int]);
            assert(opt@ == all[i as int]);
        }
        if opt.code == OPTION_S46_BR {
            match parse_s46_br(opt.data) {
                Some(a) => {
                    proof {
                        lemma_first_relay(all, i + 1);
                    }
                    return Some(a);
                },
                None => {},
            }
        }
        i = i + 1;
    }
    proof {
        assert(all.take(i as int) =~= all);
    }
    None
}

/// The address of a border relay payload; `None` if and only if it is shorter than an address.
pub fn parse_s46_br(data: &[u8]) -> (r: Option<Ipv6Addr>)
    ensures
        data@.len() < 16 ==> r is None,
        data@.len() >= 16 ==> r == Some(
            (Ipv6Addr { bits: be_value(data@.subrange(0, 16)) as u128 }),
        ),
{
    if data.len() < 16 {
        return None;
    }
    let address = slice_subrange(data, 0, 16);
    proof {
        assert(zero_padded(address@, 16) =~= address@);
    }
    Some(Ipv6Addr { bits: read_padded(address, 16) })
}

/// An error in a rule.
fn rule_error(text: &str) -> (r: Result<MapRule, MapEError>)
    ensures
        r matches Err(e) && e@ == ErrorView::InvalidConfig(text@),
{
    Err(MapEError::InvalidConfig(String::from_str(text)))
}

/// Whether a result holds the expected rule or error.
pub open spec fn rule_matches(r: Result<MapRule, MapEError>, e: Result<MapRule, ErrorView>) -> bool {
    match e {
        Ok(rule) => r == Ok::<MapRule, MapEError>(rule),
        Err(x) => r matches Err(v) && v@ == x,
    }
}

/// The rule of a rule payload.
pub fn parse_s46_rule(payload: &[u8], br_addr: Ipv6Addr) -> (r: Result<MapRule, MapEError>)
    ensures
        rule_matches(r, rule_of(payload@, br_addr)),
{
    if payload.len() < 3 {
        return rule_error("S46_RULE payload too short");
    }
    let prefix4_len: u8 = payload[2];
    if prefix4_len > 32 {
        return Err(
            MapEError::InvalidConfig(
                around_number("S46_RULE prefix4-len ", prefix4_len as u64, " > 32"),
            ),
        );
    }
    let n4: usize = (prefix4_len as usize + 7) / 8;
    if payload.len() < 3 + n4 {
        return rule_error("S46_RULE payload truncated at IPv4 prefix");
    }
    let v4: u128 = read_padded(slice_subrange(payload, 3, 3 + n4), 4);
    let ipv4 = Ipv4Net { addr: Ipv4Addr { bits: v4 as u32 }, prefix_len: prefix4_len };
    let ipv4_prefix = ipv4.trunc();
    if payload.len() == 3 + n4 {
        return rule_error("S46_RULE payload truncated at prefix6-len");
    }
    let prefix6_len: u8 = payload[3 + n4];
    if prefix6_len > 128 {
        return Err(
            MapEError::InvalidConfig(
                around_number("S46_RULE prefix6-len ", prefix6_len as u64, " > 128"),
            ),
        );
    }
    let n6: usize = (prefix6_len as usize + 7) / 8;
    let end: usize = 4 + n4 + n6;
    if payload.len() < end {
        return rule_error("S46_RULE payload truncated at IPv6 prefix");
    }
    let v6: u128 = read_padded(slice_subrange(payload, 4 + n4, end), 16);
    let ipv6 = Ipv6Net { addr: Ipv6Addr { bits: v6 }, prefix_len: prefix6_len };
    let port_params = find_port_params(slice_subrange(payload, end, payload.len()));
    Ok(
        MapRule {
            ipv6_prefix: ipv6.trunc(),
            ipv4_prefix,
            ea_length: payload[1],
            is_fmr: payload[0] % 2 == 1,
            br_address: br_addr,
            port_params,
        },
    )
}

/// The port parameters of the last port parameter option with all four bytes.
fn find_port_params(data: &[u8]) -> (r: PortParams)
    ensures
        r == last_port_params(options(data@)),
{
    let opts = iter_opts(data);
    let ghost all = options(data@);
    let mut found: PortParams = PortParams::default();
    let mut i: usize = 0;
    proof {
        assert(all.take(0) =~= Seq::empty());
    }
    while i < opts.len()
        invariant
            i <= opts.len(),
            holds(opts@, all),
            found == last_port_params(all.take(i as int)),
        decreases opts.len() - i,
    {
        let opt = opts[i];
        proof {
            assert(all.take(i + 1).drop_last() =~= all.take(i as int));
            assert(all.take(i + 1).last() == all[i as int]);
            assert(opt@ == all[i as int]);
        }
        if opt.code == OPTION_S46_PORTPARAMS && opt.data.len() >= 4 {
            found = PortParams { psid_offset: opt.data[0], psid_length: opt.data[1] };
        }
        i = i + 1;
    }
    proof {
        assert(all.take(i as int) =~= all);
    }
    found
}

/// Whether `n` is the fewest bytes that hold so many bits.
pub open spec fn fewest_bytes(n: int, bits: int) -> bool {
    n >= 0 && 8 * n >= bits && 8 * (n - 1) < bits
}

/// Whether a payload is that of a rule up to its further options, as RFC 7598 lays it out: flags,
/// of which the last is that of a forwarding rule, the EA length, the length of the IPv4 prefix,
/// the fewest bytes that hold it, the length of the IPv6 prefix and the fewest bytes that hold
/// it. The bytes of the prefixes are the first ones of the addresses `v4` and `v6`.
pub open spec fn lays_out_rule(
    p: Seq<u8>,
    is_fmr: bool,
    ea_length: u8,
    v4: u32,
    len4: u8,
    n4: int,
    v6: u128,
    len6: u8,
    n6: int,
) -> bool {
    &&& fewest_bytes(n4, len4 as int)
    &&& fewest_bytes(n6, len6 as int)
    &&& p.len() >= 4 + n4 + n6
    &&& (p[0] % 2 == 1) == is_fmr
    &&& p[1] == ea_length
    &&& p[2] == len4
    &&& forall|i: int|
        0 <= i < n4 ==> #[trigger] p[3 + i] == v4 as int / (pow2((8 * (3 - i)) as nat) as int) % 256
    &&& p[3 + n4] == len6
    &&& forall|i: int|
        0 <= i < n6 ==> #[trigger] p[4 + n4 + i] == v6 as int / (pow2(
            (8 * (15 - i)) as nat,
        ) as int) % 256
}

/// The number of bytes that a prefix takes is the fewest that hold its bits, and no other.
proof fn lemma_prefix_bytes_are_fewest(n: int, bits: int)
    requires
        fewest_bytes(n, bits),
    ensures
        prefix_bytes(bits) == n,
{
}

/// The bytes of a prefix, padded with zeros, spell the address without the bits that stand behind
/// those bytes; the first bits, as many as the prefix is long, are all among them.
proof fn lemma_prefix_is_read(bytes: Seq<u8>, width: int, v: int, len: int)
    requires
        width == 4 || width == 16,
        0 <= len <= 8 * width,
        fewest_bytes(bytes.len() as int, len),
        0 <= v < pow2((8 * width) as nat),
        forall|i: int|
            0 <= i < bytes.len() ==> #[trigger] bytes[i] == v / (pow2(
                (8 * (width - 1 - i)) as nat,
            ) as int) % 256,
    ensures
        ({
            let n = pow2((8 * width - len) as nat) as int;
            truncated(be_value(zero_padded(bytes, width)), 8 * width, len) == v / n * n
        }),
{
    let n = bytes.len() as int;
    let d = (width - n) as nat;
    let m = pow2((8 * d) as nat) as int;
    lemma_pow256_is_pow2(d);
    lemma_pow256_is_pow2(width as nat);
    lemma_pow2_pos((8 * d) as nat);
    let w = v / m * m;
    lemma_fundamental_div_mod(v, m);
    lemma_mod_pos_bound(v, m);
    let q = v / m;
    assert(m * q == q * m) by (nonlinear_arith);
    lemma_mod_multiples_basic(q, m);
    assert(0 <= w) by (nonlinear_arith)
        requires
            w == q * m,
            0 <= q,
            0 < m,
    ;
    assert forall|i: int| 0 <= i < bytes.len() implies #[trigger] bytes[i] == w / (pow256(
        (width - 1 - i) as nat,
    ) as int) % 256 by {
        lemma_pow256_is_pow2((width - 1 - i) as nat);
        assert(8 * (width - 1 - i) as nat == (8 * (width - 1 - i)) as nat);
        let c = (n - 1 - i) as nat;
        lemma_pow2_adds((8 * d) as nat, 8 * c);
        assert(8 * d + 8 * c == 8 * (width - 1 - i));
        let k = pow2(8 * c) as int;
        lemma_pow2_pos(8 * c);
        lemma_div_denominator(v, m, k);
        lemma_div_denominator(w, m, k);
        lemma_div_by_multiple(q, m);
    }
    lemma_first_bytes_spell_number(bytes, width, w);
    // The prefix cuts off no less.
    let h = (8 * width - len) as nat;
    let big = pow2(h) as int;
    let extra = (h - 8 * d) as nat;
    lemma_pow2_adds((8 * d) as nat, extra);
    lemma_pow2_pos(h);
    lemma_pow2_pos(extra);
    crate::net::lemma_truncated_keeps_first_bits(w, 8 * width, len);
    lemma_div_denominator(v, m, pow2(extra) as int);
    lemma_div_denominator(w, m, pow2(extra) as int);
    lemma_div_by_multiple(q, m);
}

/// A rule is read as what it is: whatever addresses stand behind its prefixes, the rule has as
/// many of their first bits as the prefixes are long, and no others.
pub proof fn lemma_rule_is_read(
    p: Seq<u8>,
    br: Ipv6Addr,
    is_fmr: bool,
    ea_length: u8,
    v4: u32,
    len4: u8,
    n4: int,
    v6: u128,
    len6: u8,
    n6: int,
)
    requires
        len4 <= 32,
        len6 <= 128,
        lays_out_rule(p, is_fmr, ea_length, v4, len4, n4, v6, len6, n6),
    ensures
        rule_of(p, br) matches Ok(rule) && {
            let h4 = pow2((32 - len4) as nat) as int;
            let h6 = pow2((128 - len6) as nat) as int;
            &&& rule.is_fmr == is_fmr
            &&& rule.ea_length == ea_length
            &&& rule.br_address == br
            &&& rule.ipv4_prefix.prefix_len == len4
            &&& rule.ipv4_prefix.addr.bits == v4 as int / h4 * h4
            &&& rule.ipv6_prefix.prefix_len == len6
            &&& rule.ipv6_prefix.addr.bits == v6 as int / h6 * h6
            &&& rule.port_params == last_port_params(
                options(p.subrange(4 + n4 + n6, p.len() as int)),
            )
        },
{
    lemma_prefix_bytes_are_fewest(n4, len4 as int);
    lemma_prefix_bytes_are_fewest(n6, len6 as int);
    lemma2_to64();
    lemma2_to64_rest();
    lemma_pow2_128();
    let b4 = p.subrange(3, 3 + n4);
    let b6 = p.subrange(4 + n4, 4 + n4 + n6);
    assert forall|i: int| 0 <= i < b4.len() implies #[trigger] b4[i] == v4 as int / (pow2(
        (8 * (4 - 1 - i)) as nat,
    ) as int) % 256 by {
        assert(b4[i] == p[3 + i]);
    }
    assert forall|i: int| 0 <= i < b6.len() implies #[trigger] b6[i] == v6 as int / (pow2(
        (8 * (16 - 1 - i)) as nat,
    ) as int) % 256 by {
        assert(b6[i] == p[4 + n4 + i]);
    }
    lemma_prefix_is_read(b4, 4, v4 as int, len4 as int);
    lemma_prefix_is_read(b6, 16, v6 as int, len6 as int);
    let h4 = pow2((32 - len4) as nat) as int;
    let h6 = pow2((128 - len6) as nat) as int;
    lemma_multiple_below(v4 as int, h4, (32 - len4) as nat);
    lemma_multiple_below(v6 as int, h6, (128 - len6) as nat);
}

proof fn lemma_multiple_below(v: int, n: int, h: nat)
    requires
        0 <= v,
        n == pow2(h),
    ensures
        0 <= v / n * n <= v,
{
    lemma_pow2_pos(h);
    lemma_fundamental_div_mod(v, n);
    lemma_mod_pos_bound(v, n);
    let q = v / n;
    assert(n * q == q * n) by (nonlinear_arith);
    assert(0 <= q * n) by (nonlinear_arith)
        requires
            0 <= q,
            0 < n,
    ;
}

/// A rule without host bits in its prefixes reads back from its payload. The port parameters are
/// in an option of their own, number 93, with offset, length and two bytes of a PSID; without
/// that option they are zero.
pub proof fn lemma_rule_reads_back(p: Seq<u8>, rule: MapRule, n4: int, n6: int, psid: u16)
    requires
        rule.ipv4_prefix.prefix_len <= 32,
        rule.ipv6_prefix.prefix_len <= 128,
        rule.ipv4_prefix.addr.bits as int % (pow2((32 - rule.ipv4_prefix.prefix_len) as nat) as int)
            == 0,
        rule.ipv6_prefix.addr.bits as int % (pow2(
            (128 - rule.ipv6_prefix.prefix_len) as nat,
        ) as int) == 0,
        lays_out_rule(
            p,
            rule.is_fmr,
            rule.ea_length,
            rule.ipv4_prefix.addr.bits,
            rule.ipv4_prefix.prefix_len,
            n4,
            rule.ipv6_prefix.addr.bits,
            rule.ipv6_prefix.prefix_len,
            n6,
        ),
        p.subrange(4 + n4 + n6, p.len() as int) == seq![
            0u8,
            93,
            0,
            4,
            rule.port_params.psid_offset,
            rule.port_params.psid_length,
            (psid / 256) as u8,
            (psid % 256) as u8,
        ] || (p.len() == 4 + n4 + n6 && rule.port_params.psid_offset == 0
            && rule.port_params.psid_length == 0),
    ensures
        rule_of(p, rule.br_address) == Ok::<MapRule, ErrorView>(rule),
{
    lemma_rule_is_read(
        p,
        rule.br_address,
        rule.is_fmr,
        rule.ea_length,
        rule.ipv4_prefix.addr.bits,
        rule.ipv4_prefix.prefix_len,
        n4,
        rule.ipv6_prefix.addr.bits,
        rule.ipv6_prefix.prefix_len,
        n6,
    );
    let h4 = pow2((32 - rule.ipv4_prefix.prefix_len) as nat) as int;
    let h6 = pow2((128 - rule.ipv6_prefix.prefix_len) as nat) as int;
    lemma_pow2_pos((32 - rule.ipv4_prefix.prefix_len) as nat);
    lemma_pow2_pos((128 - rule.ipv6_prefix.prefix_len) as nat);
    let v4 = rule.ipv4_prefix.addr.bits as int;
    let v6 = rule.ipv6_prefix.addr.bits as int;
    lemma_fundamental_div_mod(v4, h4);
    lemma_fundamental_div_mod(v6, h6);
    let (q4, q6) = (v4 / h4, v6 / h6);
    assert(h4 * q4 == q4 * h4) by (nonlinear_arith);
    assert(h6 * q6 == q6 * h6) by (nonlinear_arith);
    let tail = p.subrange(4 + n4 + n6, p.len() as int);
    if p.len() == 4 + n4 + n6 {
        assert(options(tail) =~= Seq::empty());
    } else {
        let data = seq![
            rule.port_params.psid_offset,
            rule.port_params.psid_length,
            (psid / 256) as u8,
            (psid % 256) as u8,
        ];
        let t = Tlv { code: 93, data };
        assert(tail =~= spelled(t) + Seq::empty());
        lemma_option_reads_back(t, Seq::empty());
        assert(options(Seq::<u8>::empty()) =~= Seq::empty());
        assert(options(tail) =~= seq![t]);
        assert(options(tail).last() == t);
    }
}

/// What is no rule is refused: a payload that ends before the IPv6 prefix does, and prefix lengths
/// that no address has.
pub proof fn lemma_what_is_no_rule(p: Seq<u8>, br: Ipv6Addr, n4: int, n6: int)
    ensures
        p.len() < 4 ==> rule_of(p, br) is Err,
        p.len() >= 3 && p[2] > 32 ==> rule_of(p, br) is Err,
        p.len() >= 3 && fewest_bytes(n4, p[2] as int) && p.len() <= 3 + n4 ==> rule_of(p, br) is Err,
        p.len() >= 3 && fewest_bytes(n4, p[2] as int) && p.len() > 3 + n4 && p[3 + n4] > 128
            ==> rule_of(p, br) is Err,
        p.len() >= 3 && fewest_bytes(n4, p[2] as int) && p.len() > 3 + n4 && fewest_bytes(
            n6,
            p[3 + n4] as int,
        ) && p.len() < 4 + n4 + n6 ==> rule_of(p, br) is Err,
{
}

/// The port parameters are those of the last option 93 that has all four bytes.
pub proof fn lemma_last_port_parameters_count(opts: Seq<Tlv>, b: int)
    requires
        0 <= b < opts.len(),
        opts[b].code == 93,
        opts[b].data.len() >= 4,
        forall|i: int|
            b < i < opts.len() ==> (#[trigger] opts[i]).code != 93 || opts[i].data.len() < 4,
    ensures
        last_port_params(opts).psid_offset == opts[b].data[0],
        last_port_params(opts).psid_length == opts[b].data[1],
    decreases opts.len(),
{
    if b < opts.len() - 1 {
        let n = opts.len() - 1;
        assert(opts[n].code != 93 || opts[n].data.len() < 4);
        let front = opts.drop_last();
        assert forall|i: int| b < i < front.len() implies (#[trigger] front[i]).code != 93
            || front[i].data.len() < 4 by {
            assert(front[i] == opts[i]);
        }
        lemma_last_port_parameters_count(front, b);
    }
}

/// The options of a container that are rules: those with number 89.
pub open spec fn rule_options(opts: Seq<Tlv>) -> Seq<Tlv> {
    opts.filter(|t: Tlv| t.code == 89)
}

/// A container is read as what it holds: one rule for each option 89, in their order, all with the
/// address in the first option 90 that has one for their border relay.
pub proof fn lemma_container_reads_back(
    opts: Seq<Tlv>,
    b: int,
    br: Ipv6Addr,
    rules: Seq<MapRule>,
)
    requires
        forall|i: int| 0 <= i < opts.len() ==> (#[trigger] opts[i]).data.len() <= 0xffff,
        0 <= b < opts.len(),
        opts[b].code == 90,
        opts[b].data.len() >= 16,
        forall|i: int| 0 <= i < b ==> (#[trigger] opts[i]).code != 90 || opts[i].data.len() < 16,
        forall|i: int|
            0 <= i < 16 ==> #[trigger] opts[b].data[i] == br.bits as int / (pow2(
                (8 * (15 - i)) as nat,
            ) as int) % 256,
        rules.len() == rule_options(opts).len(),
        forall|i: int|
            0 <= i < rules.len() ==> rule_of(rule_options(opts)[i].data, br) == Ok::<
                MapRule,
                ErrorView,
            >(#[trigger] rules[i]),
    ensures
        container_of(all_spelled(opts)) == Ok::<Seq<MapRule>, ErrorView>(rules),
{
    lemma_options_read_back(opts);
    let first16 = opts[b].data.subrange(0, 16);
    lemma_pow256_is_pow2(16);
    lemma_pow2_128();
    assert forall|i: int| 0 <= i < first16.len() implies #[trigger] first16[i] == br.bits as int / (
    pow256((first16.len() - 1 - i) as nat) as int) % 256 by {
        assert(first16[i] == opts[b].data[i]);
        lemma_pow256_is_pow2((15 - i) as nat);
        assert(8 * (15 - i) as nat == (8 * (15 - i)) as nat);
    }
    lemma_bytes_spell_number(first16, br.bits as int);
    lemma_first_relay_at(opts, b);
    lemma_rules_of_options(opts, br, rules);
}

proof fn lemma_first_relay_at(opts: Seq<Tlv>, b: int)
    requires
        0 <= b < opts.len(),
        opts[b].code == 90,
        opts[b].data.len() >= 16,
        forall|i: int| 0 <= i < b ==> (#[trigger] opts[i]).code != 90 || opts[i].data.len() < 16,
    ensures
        first_relay(opts) == relay_of(opts[b]),
{
    let front = opts.take(b);
    assert forall|i: int| 0 <= i < front.len() implies (#[trigger] front[i]).code != 90
        || front[i].data.len() < 16 by {
        assert(front[i] == opts[i]);
    }
    lemma_no_relay(front);
    let upto = opts.take(b + 1);
    assert(upto.drop_last() =~= front);
    assert(upto.last() == opts[b]);
    lemma_first_relay(opts, b + 1);
}

proof fn lemma_no_relay(opts: Seq<Tlv>)
    requires
        forall|i: int|
            0 <= i < opts.len() ==> (#[trigger] opts[i]).code != 90 || opts[i].data.len() < 16,
    ensures
        first_relay(opts) is None,
    decreases opts.len(),
{
    if opts.len() > 0 {
        let n = opts.len() - 1;
        assert(opts[n].code != 90 || opts[n].data.len() < 16);
        let front = opts.drop_last();
        assert forall|i: int| 0 <= i < front.len() implies (#[trigger] front[i]).code != 90
            || front[i].data.len() < 16 by {
            assert(front[i] == opts[i]);
        }
        lemma_no_relay(front);
    }
}

/// A container without a border relay is refused for that.
pub proof fn lemma_container_needs_relay(opts: Seq<Tlv>)
    requires
        forall|i: int| 0 <= i < opts.len() ==> (#[trigger] opts[i]).data.len() <= 0xffff,
        forall|i: int|
            0 <= i < opts.len() ==> (#[trigger] opts[i]).code != 90 || opts[i].data.len() < 16,
    ensures
        container_of(all_spelled(opts)) == Err::<Seq<MapRule>, ErrorView>(
            ErrorView::MissingBrAddress,
        ),
{
    lemma_options_read_back(opts);
    lemma_no_relay(opts);
}

proof fn lemma_rules_of_options(opts: Seq<Tlv>, br: Ipv6Addr, rules: Seq<MapRule>)
    requires
        rules.len() == rule_options(opts).len(),
        forall|i: int|
            0 <= i < rules.len() ==> rule_of(rule_options(opts)[i].data, br) == Ok::<
                MapRule,
                ErrorView,
            >(#[trigger] rules[i]),
    ensures
        rules_of(opts, br) == Ok::<Seq<MapRule>, ErrorView>(rules),
    decreases opts.len(),
{
    reveal(Seq::filter);
    if opts.len() > 0 {
        let front = opts.drop_last();
        if opts.last().code == 89 {
            let fewer = rules.drop_last();
            assert(rule_options(opts) == rule_options(front).push(opts.last()));
            assert forall|i: int| 0 <= i < fewer.len() implies rule_of(
                rule_options(front)[i].data,
                br,
            ) == Ok::<MapRule, ErrorView>(#[trigger] fewer[i]) by {
                assert(rule_options(front)[i] == rule_options(opts)[i]);
                assert(rules[i] == fewer[i]);
            }
            lemma_rules_of_options(front, br, fewer);
            assert(rule_of(rule_options(opts)[rules.len() - 1].data, br) == Ok::<
                MapRule,
                ErrorView,
            >(rules[rules.len() - 1]));
            assert(fewer.push(rules.last()) =~= rules);
        } else {
            assert(rule_options(opts) == rule_options(front));
            lemma_rules_of_options(front, br, rules);
        }
    } else {
        assert(rules =~= Seq::empty());
    }
}

/// A container with a rule that is none is refused, even if its other rules are fine.
pub proof fn lemma_one_bad_rule_is_enough(opts: Seq<Tlv>, br: Ipv6Addr, b: int)
    requires
        0 <= b < opts.len(),
        opts[b].code == 89,
        rule_of(opts[b].data, br) is Err,
    ensures
        rules_of(opts, br) is Err,
    decreases opts.len(),
{
    if b < opts.len() - 1 {
        assert(opts.drop_last()[b] == opts[b]);
        lemma_one_bad_rule_is_enough(opts.drop_last(), br, b);
    }
}

/// A timer that the server gave is kept. One that it left at zero is half of the valid lifetime
/// for T1 and four fifths for T2, rounded down, and without end for a lifetime without end, so
/// that T1, T2 and the end of the lease come in this order.
pub proof fn lemma_timers_of_a_lease(t1: u32, t2: u32, valid: u32)
    ensures
        ({
            let first = completed_timer(t1, valid, 2);
            let second = completed_timer(t2, valid, 5);
            &&& t1 != 0 ==> first == t1
            &&& t2 != 0 ==> second == t2
            &&& valid == 0xffff_ffff && t1 == 0 ==> first == 0xffff_ffff
            &&& valid == 0xffff_ffff && t2 == 0 ==> second == 0xffff_ffff
            &&& valid < 0xffff_ffff && t1 == 0 ==> 2 * first <= valid < 2 * first + 2
            &&& valid < 0xffff_ffff && t2 == 0 ==> 5 * second <= 4 * valid < 5 * second + 5
            &&& t1 == 0 && t2 == 0 ==> first <= second <= valid
        }),
{
}

/// What an association delegates: its first prefix, without host bits, with the lifetime that the
/// server gave it. Nothing where it has none, where the length is none, or where a status says
/// that something failed.
pub proof fn lemma_delegated_prefix(d: Delegation)
    ensures
        d.failed ==> delegation_info(d) is None,
        d.prefix is None ==> delegation_info(d) is None,
        d.prefix matches Some(p) ==> {
            &&& p.prefix_len > 128 ==> delegation_info(d) is None
            &&& p.prefix_len <= 128 && !d.failed ==> {
                let host = pow2((128 - p.prefix_len) as nat) as int;
                let info = delegation_info(d)->Some_0;
                &&& delegation_info(d) is Some
                &&& info.prefix.prefix_len == p.prefix_len
                &&& info.prefix.addr.bits == p.prefix_ip as int / host * host
                &&& info.valid_lifetime == p.valid_lifetime
                &&& info.t1 == completed_timer(d.t1, p.valid_lifetime, 2)
                &&& info.t2 == completed_timer(d.t2, p.valid_lifetime, 5)
            }
        },
{
    if let Some(p) = d.prefix {
        if p.prefix_len <= 128 {
            crate::net::lemma_truncated_keeps_first_bits(
                p.prefix_ip as int,
                128,
                p.prefix_len as int,
            );
            lemma_multiple_below(
                p.prefix_ip as int,
                pow2((128 - p.prefix_len) as nat) as int,
                (128 - p.prefix_len) as nat,
            );
        }
    }
}

} // verus!
