//! The MAP-E container option, read strictly.

use vstd::arithmetic::power2::{lemma2_to64, lemma2_to64_rest, pow2};
use vstd::prelude::*;
use vstd::slice::slice_subrange;
use vstd::string::*;

use crate::dhcpv6::packet::Dhcpv6Error;
use crate::dhcpv6::tlv::{
    be16, holds, iter_opts, leftover, lemma_bytes_spell_number, lemma_first_bytes_spell_number,
    lemma_option_reads_back, lemma_pow256_is_pow2, options, pow256, read_padded, read_u16, spelled,
    split_options, zero_padded, Tlv,
};
use crate::net::{be_value, Ipv4Addr, Ipv6Addr, Ipv6Net};
use crate::text::{decimal, push_decimal, with_number};

verus! {

/// The MAP-E container.
pub const OPTION_S46_CONT_MAPE: u16 = 94;

/// A mapping rule.
pub const OPTION_S46_RULE: u16 = 89;

/// Border relay addresses.
pub const OPTION_S46_BR: u16 = 90;

/// Port parameters of a rule.
pub const OPTION_S46_PORTPARAMS: u16 = 93;

/// The contents of a MAP-E container.
#[derive(Clone, Debug)]
pub struct MapeContainerOption {
    pub rules: Vec<S46Rule>,
    pub br_addresses: Vec<Ipv6Addr>,
}

/// A mapping rule as it is carried in the option.
#[derive(Clone, Copy, Debug, PartialEq, Eq, Structural)]
pub struct S46Rule {
    /// Whether the rule is also a forwarding rule.
    pub is_fmr: bool,
    /// Number of embedded address bits.
    pub ea_len: u8,
    /// Length of the IPv4 prefix.
    pub ipv4_prefix_len: u8,
    /// IPv4 prefix.
    pub ipv4_prefix: Ipv4Addr,
    /// IPv6 prefix.
    pub ipv6_prefix: Ipv6Net,
    /// PSID offset, if the rule has port parameters.
    pub psid_offset: Option<u8>,
    /// PSID length, if the rule has port parameters.
    pub psid_len: Option<u8>,
    /// PSID, if the rule has port parameters.
    pub psid: Option<u16>,
}

/// The offset, length and PSID of the first port parameter option with all four bytes.
pub open spec fn portparams(opts: Seq<Tlv>) -> (Option<u8>, Option<u8>, Option<u16>)
    decreases opts.len(),
{
    if opts.len() == 0 {
        (None, None, None)
    } else {
        let first = opts[0];
        if first.code == OPTION_S46_PORTPARAMS && first.data.len() >= 4 {
            (Some(first.data[0]), Some(first.data[1]), Some(be16(first.data[2], first.data[3])))
        } else {
            portparams(opts.drop_first())
        }
    }
}

/// The number of bytes that a prefix of `len` bits takes.
pub open spec fn prefix_bytes(len: int) -> int {
    (len + 7) / 8
}

/// The rule that a payload spells, or the text of the error.
///
/// The payload is flags, EA length, IPv4 prefix length, IPv4 prefix in four bytes, IPv6 prefix
/// length, IPv6 prefix in as many bytes as the length takes, and further options.
pub open spec fn s46_rule(data: Seq<u8>) -> Result<S46Rule, Seq<char>> {
    if data.len() < 8 {
        Err("OPTION_S46_RULE のデータが短すぎます: "@ + decimal(data.len()))
    } else {
        let n = prefix_bytes(data[7] as int);
        if data.len() < 8 + n {
            Err("OPTION_S46_RULE の IPv6 プレフィックスデータが不足しています"@)
        } else if data[7] > 128 {
            Err("IPv6 プレフィックスが不正: invalid IP prefix length"@)
        } else {
            let ports = portparams(options(data.subrange(8 + n, data.len() as int)));
            Ok(
                S46Rule {
                    is_fmr: data[0] % 2 == 1,
                    ea_len: data[1],
                    ipv4_prefix_len: data[2],
                    ipv4_prefix: Ipv4Addr { bits: be_value(data.subrange(3, 7)) as u32 },
                    ipv6_prefix: Ipv6Net {
                        addr: Ipv6Addr {
                            bits: be_value(zero_padded(data.subrange(8, 8 + n), 16)) as u128,
                        },
                        prefix_len: data[7],
                    },
                    psid_offset: ports.0,
                    psid_len: ports.1,
                    psid: ports.2,
                },
            )
        }
    }
}

/// The text of the error that an option of the container causes, if it causes one.
pub open spec fn option_error(opt: Tlv) -> Option<Seq<char>> {
    if opt.code == OPTION_S46_RULE {
        match s46_rule(opt.data) {
            Ok(_) => None,
            Err(text) => Some(text),
        }
    } else if opt.code == OPTION_S46_BR && opt.data.len() % 16 != 0 {
        Some("OPTION_S46_BR の長さが不正です: "@ + decimal(opt.data.len()))
    } else {
        None
    }
}

/// The text of the error that a cut-short option causes.
pub open spec fn truncation_error(rest: Seq<u8>) -> Seq<char> {
    "オプションデータが不足しています: code="@ + decimal(be16(rest[0], rest[1]) as nat) + ", len="@
        + decimal(be16(rest[2], rest[3]) as nat) + ", remaining="@ + decimal((rest.len() - 4) as nat)
}

/// The rules of a container, in the order of their options.
pub open spec fn container_rules(opts: Seq<Tlv>) -> Seq<S46Rule>
    decreases opts.len(),
{
    if opts.len() == 0 {
        Seq::empty()
    } else if opts.last().code == OPTION_S46_RULE {
        container_rules(opts.drop_last()).push(s46_rule(opts.last().data)->Ok_0)
    } else {
        container_rules(opts.drop_last())
    }
}

/// The addresses in a border relay payload, sixteen bytes each.
pub open spec fn relay_addresses(data: Seq<u8>) -> Seq<Ipv6Addr> {
    Seq::new(
        data.len() / 16,
        |i: int| Ipv6Addr { bits: be_value(data.subrange(16 * i, 16 * i + 16)) as u128 },
    )
}

/// The border relays of a container, in the order of their options.
pub open spec fn container_relays(opts: Seq<Tlv>) -> Seq<Ipv6Addr>
    decreases opts.len(),
{
    if opts.len() == 0 {
        Seq::empty()
    } else if opts.last().code == OPTION_S46_BR {
        container_relays(opts.drop_last()) + relay_addresses(opts.last().data)
    } else {
        container_relays(opts.drop_last())
    }
}

/// The error text of the first option that causes one.
pub open spec fn first_option_error(opts: Seq<Tlv>) -> Option<Seq<char>>
    decreases opts.len(),
{
    if opts.len() == 0 {
        None
    } else {
        match first_option_error(opts.drop_last()) {
            Some(text) => Some(text),
            None => option_error(opts.last()),
        }
    }
}

/// The error text of a container: that of the first option in error, or that of the end if an
/// option is cut short there.
pub open spec fn container_error(data: Seq<u8>) -> Option<Seq<char>> {
    match first_option_error(options(data)) {
        Some(text) => Some(text),
        None => if leftover(data).len() >= 4 {
            Some(truncation_error(leftover(data)))
        } else {
            None
        },
    }
}

proof fn lemma_first_error_sticks(opts: Seq<Tlv>, n: int)
    requires
        0 <= n <= opts.len(),
        first_option_error(opts.take(n)) is Some,
    ensures
        first_option_error(opts) == first_option_error(opts.take(n)),
    decreases opts.len() - n,
{
    if n < opts.len() {
        assert(opts.take(n + 1).drop_last() =~= opts.take(n));
        lemma_first_error_sticks(opts, n + 1);
    } else {
        assert(opts.take(n) =~= opts);
    }
}

impl MapeContainerOption {
    /// Reads the payload of a MAP-E container.
    ///
    /// Options of other kinds are skipped. Fails on the first option that is in error, or where
    /// the last option is cut short.
    pub fn parse(data: &[u8]) -> (r: Result<MapeContainerOption, Dhcpv6Error>)
        ensures
            r is Ok <==> container_error(data@) is None,
            r matches Ok(c) ==> {
                &&& c.rules@ == container_rules(options(data@))
                &&& c.br_addresses@ == container_relays(options(data@))
            },
            r matches Err(e) ==> container_error(data@) == Some(e@),
    {
        let (opts, rest) = split_options(data);
        let ghost all = options(data@);
        let mut rules: Vec<S46Rule> = Vec::new();
        let mut br_addresses: Vec<Ipv6Addr> = Vec::new();
        let mut i: usize = 0;
        proof {
            assert(all.take(0) =~= Seq::empty());
        }
        while i < opts.len()
            invariant
                i <= opts.len(),
                all == options(data@),
                holds(opts@, all),
                rules@ == container_rules(all.take(i as int)),
                br_addresses@ == container_relays(all.take(i as int)),
                first_option_error(all.take(i as int)) is None,
            decreases opts.len() - i,
        {
            let opt = opts[i];
            proof {
                assert(all.take(i + 1).drop_last() =~= all.take(i as int));
                assert(all.take(i + 1).last() == all[i as int]);
                assert(opt@ == all[i as int]);
                if option_error(opt@) is Some {
                    lemma_first_error_sticks(all, i + 1);
                }
            }
            if opt.code == OPTION_S46_RULE {
                match S46Rule::parse(opt.data) {
                    Ok(rule) => {
                        rules.push(rule);
                    },
                    Err(e) => {
                        return Err(e);
                    },
                }
            } else if opt.code == OPTION_S46_BR {
                if opt.data.len() % 16 != 0 {
                    return Err(
                        Dhcpv6Error::Parse(
                            with_number(
                                "OPTION_S46_BR の長さが不正です: ",
                                opt.data.len() as u64,
                            ),
                        ),
                    );
                }
                push_relays(&mut br_addresses, opt.data);
            }
            i = i + 1;
        }
        proof {
            assert(all.take(opts.len() as int) =~= all);
        }
        if rest.len() >= 4 {
            let mut text = String::from_str("オプションデータが不足しています: code=");
            push_decimal(&mut text, read_u16(rest[0], rest[1]) as u64);
            text.append(", len=");
            push_decimal(&mut text, read_u16(rest[2], rest[3]) as u64);
            text.append(", remaining=");
            push_decimal(&mut text, (rest.len() - 4) as u64);
            return Err(Dhcpv6Error::Parse(text));
        }
        Ok(MapeContainerOption { rules, br_addresses })
    }
}

/// Appends the addresses of a border relay payload.
fn push_relays(out: &mut Vec<Ipv6Addr>, data: &[u8])
    requires
        data@.len() % 16 == 0,
    ensures
        final(out)@ == old(out)@ + relay_addresses(data@),
{
    let ghost start = out@;
    let n: usize = data.len() / 16;
    let mut i: usize = 0;
    while i < n
        invariant
            i <= n,
            n == data@.len() / 16,
            16 * n <= data@.len() <= usize::MAX,
            out@ == start + relay_addresses(data@).take(i as int),
        decreases n - i,
    {
        let chunk = slice_subrange(data, 16 * i, 16 * i + 16);
        let bits: u128 = read_padded(chunk, 16);
        proof {
            assert(zero_padded(chunk@, 16) =~= chunk@);
            assert(relay_addresses(data@).take(i + 1) =~= relay_addresses(data@).take(
                i as int,
            ).push(Ipv6Addr { bits }));
        }
        out.push(Ipv6Addr { bits });
        i = i + 1;
    }
    proof {
        assert(relay_addresses(data@).take(n as int) =~= relay_addresses(data@));
    }
}

impl S46Rule {
    /// Reads the payload of a rule option.
    pub fn parse(data: &[u8]) -> (r: Result<S46Rule, Dhcpv6Error>)
        ensures
            match s46_rule(data@) {
                Ok(rule) => r == Ok::<S46Rule, Dhcpv6Error>(rule),
                Err(text) => r matches Err(e) && e@ == text,
            },
    {
        if data.len() < 8 {
            return Err(
                Dhcpv6Error::Parse(
                    with_number("OPTION_S46_RULE のデータが短すぎます: ", data.len() as u64),
                ),
            );
        }
        let len: u8 = data[7];
        let n: usize = (len as usize + 7) / 8;
        if data.len() < 8 + n {
            return Err(
                Dhcpv6Error::Parse(
                    String::from_str(
                        "OPTION_S46_RULE の IPv6 プレフィックスデータが不足しています",
                    ),
                ),
            );
        }
        if len > 128 {
            return Err(
                Dhcpv6Error::Parse(
                    String::from_str("IPv6 プレフィックスが不正: invalid IP prefix length"),
                ),
            );
        }
        let v4 = slice_subrange(data, 3, 7);
        let ipv4_bits: u128 = read_padded(v4, 4);
        proof {
            assert(zero_padded(v4@, 4) =~= v4@);
        }
        let bits: u128 = read_padded(slice_subrange(data, 8, 8 + n), 16);
        let (psid_offset, psid_len, psid) = parse_portparams(
            slice_subrange(data, 8 + n, data.len()),
        );
        Ok(
            S46Rule {
                is_fmr: data[0] % 2 == 1,
                ea_len: data[1],
                ipv4_prefix_len: data[2],
                ipv4_prefix: Ipv4Addr { bits: ipv4_bits as u32 },
                ipv6_prefix: Ipv6Net { addr: Ipv6Addr { bits }, prefix_len: len },
                psid_offset,
                psid_len,
                psid,
            },
        )
    }
}

/// The offset, length and PSID of the first port parameter option with all four bytes.
pub fn parse_portparams(data: &[u8]) -> (r: (Option<u8>, Option<u8>, Option<u16>))
    ensures
        r == portparams(options(data@)),
{
    let opts = iter_opts(data);
    let ghost all = options(data@);
    let mut i: usize = 0;
    proof {
        assert(all.skip(0) =~= all);
    }
    while i < opts.len()
        invariant
            i <= opts.len(),
            all == options(data@),
            holds(opts@, all),
            portparams(all.skip(i as int)) == portparams(all),
        decreases opts.len() - i,
    {
        let opt = opts[i];
        proof {
            assert(opt@ == all[i as int]);
            assert(all.skip(i as int).drop_first() =~= all.skip(i + 1));
        }
        if opt.code == OPTION_S46_PORTPARAMS && opt.data.len() >= 4 {
            return (
                Some(opt.data[0]),
                Some(opt.data[1]),
                Some(read_u16(opt.data[2], opt.data[3])),
            );
        }
        i = i + 1;
    }
    (None, None, None)
}

/// A rule reads back from its payload: flags, of which the last is that of a forwarding rule, the
/// EA length, the length of the IPv4 prefix, the four bytes of the prefix, the length of the IPv6
/// prefix, the fewest bytes that hold it, and, if the rule has port parameters, an option 93 with
/// offset, length and PSID.
pub proof fn lemma_carried_rule_reads_back(data: Seq<u8>, rule: S46Rule, n: int)
    requires
        rule.ipv6_prefix.prefix_len <= 128,
        8 * n >= rule.ipv6_prefix.prefix_len,
        8 * (n - 1) < rule.ipv6_prefix.prefix_len,
        0 <= n <= 16,
        rule.ipv6_prefix.addr.bits as int % (pow2((8 * (16 - n)) as nat) as int) == 0,
        data.len() >= 8 + n,
        (data[0] % 2 == 1) == rule.is_fmr,
        data[1] == rule.ea_len,
        data[2] == rule.ipv4_prefix_len,
        forall|i: int|
            0 <= i < 4 ==> #[trigger] data[3 + i] == rule.ipv4_prefix.bits as int / (pow2(
                (8 * (3 - i)) as nat,
            ) as int) % 256,
        data[7] == rule.ipv6_prefix.prefix_len,
        forall|i: int|
            0 <= i < n ==> #[trigger] data[8 + i] == rule.ipv6_prefix.addr.bits as int / (pow2(
                (8 * (15 - i)) as nat,
            ) as int) % 256,
        match (rule.psid_offset, rule.psid_len, rule.psid) {
            (Some(offset), Some(len), Some(psid)) => data.subrange(8 + n, data.len() as int)
                == seq![
                0u8,
                93,
                0,
                4,
                offset,
                len,
                (psid / 256) as u8,
                (psid % 256) as u8,
            ],
            (None, None, None) => data.len() == 8 + n,
            _ => false,
        },
    ensures
        s46_rule(data) == Ok::<S46Rule, Seq<char>>(rule),
{
    lemma2_to64();
    lemma2_to64_rest();
    crate::net::lemma_pow2_128();
    assert(prefix_bytes(rule.ipv6_prefix.prefix_len as int) == n);
    let b4 = data.subrange(3, 7);
    lemma_pow256_is_pow2(4);
    assert forall|i: int| 0 <= i < b4.len() implies #[trigger] b4[i] == rule.ipv4_prefix.bits as int
        / (pow256((b4.len() - 1 - i) as nat) as int) % 256 by {
        assert(b4[i] == data[3 + i]);
        lemma_pow256_is_pow2((3 - i) as nat);
        assert(8 * (3 - i) as nat == (8 * (3 - i)) as nat);
    }
    lemma_bytes_spell_number(b4, rule.ipv4_prefix.bits as int);
    let b6 = data.subrange(8, 8 + n);
    lemma_pow256_is_pow2(16);
    lemma_pow256_is_pow2((16 - n) as nat);
    assert(8 * (16 - n) as nat == (8 * (16 - n)) as nat);
    assert forall|i: int| 0 <= i < b6.len() implies #[trigger] b6[i]
        == rule.ipv6_prefix.addr.bits as int / (pow256((16 - 1 - i) as nat) as int) % 256 by {
        assert(b6[i] == data[8 + i]);
        lemma_pow256_is_pow2((15 - i) as nat);
        assert(8 * (15 - i) as nat == (8 * (15 - i)) as nat);
    }
    lemma_first_bytes_spell_number(b6, 16, rule.ipv6_prefix.addr.bits as int);
    let tail = data.subrange(8 + n, data.len() as int);
    if let Some(psid) = rule.psid {
        let ports = seq![
            rule.psid_offset->Some_0,
            rule.psid_len->Some_0,
            (psid / 256) as u8,
            (psid % 256) as u8,
        ];
        let t = Tlv { code: 93, data: ports };
        assert(tail =~= spelled(t) + Seq::empty());
        lemma_option_reads_back(t, Seq::empty());
        assert(options(tail)[0] == t);
    } else {
        assert(options(tail) =~= Seq::empty());
    }
}

/// What is no rule is refused: a payload that ends before the IPv6 prefix does, and a prefix length
/// that no address has.
pub proof fn lemma_what_is_no_carried_rule(data: Seq<u8>)
    ensures
        data.len() < 8 ==> s46_rule(data) is Err,
        data.len() >= 8 && data[7] > 128 ==> s46_rule(data) is Err,
        data.len() >= 8 && 8 * (data.len() - 8) < data[7] ==> s46_rule(data) is Err,
{
}

/// What a single option brings to a container: a rule if its code is 89, border relays if it is 90,
/// sixteen bytes each, and nothing otherwise.
pub proof fn lemma_single_option(t: Tlv, rule: S46Rule, i: int, relay: Ipv6Addr)
    requires
        0 <= i,
        16 * i + 16 <= t.data.len(),
        forall|j: int|
            0 <= j < 16 ==> #[trigger] t.data[16 * i + j] == relay.bits as int / (pow2(
                (8 * (15 - j)) as nat,
            ) as int) % 256,
    ensures
        t.code == 89 && s46_rule(t.data) == Ok::<S46Rule, Seq<char>>(rule) ==> container_rules(
            seq![t],
        ) == seq![rule],
        t.code != 89 ==> container_rules(seq![t]) == Seq::<S46Rule>::empty(),
        t.code == 90 ==> container_relays(seq![t]).len() == t.data.len() / 16 && container_relays(
            seq![t],
        )[i] == relay,
        t.code != 90 ==> container_relays(seq![t]) == Seq::<Ipv6Addr>::empty(),
        t.code == 90 ==> (first_option_error(seq![t]) is Some <==> t.data.len() % 16 != 0),
        t.code == 89 ==> (first_option_error(seq![t]) is Some <==> s46_rule(t.data) is Err),
        t.code != 89 && t.code != 90 ==> first_option_error(seq![t]) is None,
{
    let one = seq![t];
    assert(one.drop_last() =~= Seq::empty());
    assert(one.last() == t);
    reveal_with_fuel(container_rules, 2);
    reveal_with_fuel(container_relays, 2);
    reveal_with_fuel(first_option_error, 2);
    assert(container_rules(one.drop_last()) =~= Seq::empty());
    if t.code == 89 && s46_rule(t.data) == Ok::<S46Rule, Seq<char>>(rule) {
        assert(container_rules(one) =~= seq![rule]);
    }
    if t.code == 90 {
        let relays = relay_addresses(t.data);
        assert(container_relays(one) =~= relays);
        let bytes = t.data.subrange(16 * i, 16 * i + 16);
        lemma_pow256_is_pow2(16);
        crate::net::lemma_pow2_128();
        assert forall|j: int| 0 <= j < bytes.len() implies #[trigger] bytes[j] == relay.bits as int
            / (pow256((bytes.len() - 1 - j) as nat) as int) % 256 by {
            assert(bytes[j] == t.data[16 * i + j]);
            lemma_pow256_is_pow2((15 - j) as nat);
            assert(8 * (15 - j) as nat == (8 * (15 - j)) as nat);
        }
        lemma_bytes_spell_number(bytes, relay.bits as int);
    }
}

/// What the options of a container bring together is what the first ones bring and then what the
/// others do; the error is that of the first option in error.
pub proof fn lemma_options_add_up(a: Seq<Tlv>, b: Seq<Tlv>)
    ensures
        container_rules(a + b) == container_rules(a) + container_rules(b),
        container_relays(a + b) == container_relays(a) + container_relays(b),
        first_option_error(a + b) == (match first_option_error(a) {
            Some(text) => Some(text),
            None => first_option_error(b),
        }),
    decreases b.len(),
{
    if b.len() == 0 {
        assert(a + b =~= a);
        assert(container_rules(a) + container_rules(b) =~= container_rules(a));
        assert(container_relays(a) + container_relays(b) =~= container_relays(a));
    } else {
        let front = b.drop_last();
        lemma_options_add_up(a, front);
        assert((a + b).drop_last() =~= a + front);
        assert((a + b).last() == b.last());
        assert(container_rules(a + b) =~= container_rules(a) + container_rules(b));
        assert(container_relays(a + b) =~= container_relays(a) + container_relays(b));
    }
}

} // verus!
