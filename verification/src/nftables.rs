//! The nftables rules of the daemon.

use core::ops::RangeInclusive;
use vstd::prelude::*;
use vstd::string::*;

use crate::error::{ErrorView, MapEError};
use crate::map::port_set::{lemma_merged_is_unique, merged};
use crate::net::Ipv6Addr;
use crate::text::{decimal, join2, push_decimal};

verus! {

/// Both tables, emptied, and the set of ports up to its elements.
pub const RULES_PORTS: &'static str = "add table ip mapecd\nflush table ip mapecd\nadd table ip6 mapecd\nflush table ip6 mapecd\n\ntable ip mapecd {\n    set port_ranges {\n        type inet_service\n        flags interval\n        elements = { ";

/// The chain that translates, up to the tunnel.
pub const RULES_POSTROUTING: &'static str = " }\n    }\n\n    chain postrouting {\n        type nat hook postrouting priority srcnat;\n        oifname \"";

/// The translation, up to the ports.
pub const RULES_MASQUERADE: &'static str = "\" meta l4proto { tcp, udp, icmp } masquerade to :";

/// The chain that clamps the segment size, up to the tunnel.
pub const RULES_FORWARD: &'static str = "\n    }\n\n    chain forward {\n        type filter hook forward priority filter;\n        oifname \"";

/// The clamp on the way out, up to the tunnel on the way in.
pub const RULES_CLAMP: &'static str = "\" tcp flags syn tcp option maxseg size set rt mtu\n        iifname \"";

/// The clamp on the way in and the chain that drops packets of other relays, up to the relay.
pub const RULES_PREROUTING: &'static str = "\" tcp flags syn tcp option maxseg size set rt mtu\n    }\n}\n\ntable ip6 mapecd {\n    chain prerouting {\n        type filter hook prerouting priority filter;\n        ip6 saddr != ";

/// The end of the rules.
pub const RULES_END: &'static str = " ip6 nexthdr 4 drop\n    }\n}\n";

/// The commands that remove the tables.
pub const DELETE_TABLES: &'static str = "delete table ip mapecd\ndelete table ip6 mapecd\n";

/// The notation of an IPv6 address.
pub uninterp spec fn ipv6_text(bits: u128) -> Seq<char>;

/// `Ipv6Addr` as `Display` writes it, by way of an `ipnet::Ipv6Net` that holds the address: the
/// notation depends on the address alone.
#[verifier::external_body]
fn format_ipv6(bits: u128) -> (r: String)
    ensures
        r@ == ipv6_text(bits),
{
    ipnet::Ipv6Net::new_assert(bits.into(), 128).addr().to_string()
}

/// A port, or two ports with a dash.
pub open spec fn port_element(r: RangeInclusive<u16>) -> Seq<char> {
    if r@.start == r@.end {
        decimal(r@.start as nat)
    } else {
        decimal(r@.start as nat) + "-"@ + decimal(r@.end as nat)
    }
}

/// The elements, with commas between them.
pub open spec fn port_elements(ranges: Seq<RangeInclusive<u16>>) -> Seq<char>
    decreases ranges.len(),
{
    if ranges.len() == 0 {
        Seq::empty()
    } else if ranges.len() == 1 {
        port_element(ranges[0])
    } else {
        port_elements(ranges.drop_last()) + ", "@ + port_element(ranges.last())
    }
}

/// The elements for a sequence of ports: those of its merged ranges.
pub open spec fn elements_of(ports: Seq<u16>) -> Seq<char> {
    port_elements(choose|ranges: Seq<RangeInclusive<u16>>| merged(ranges, ports))
}

/// The elements of merged ranges are those of the ports that they list.
pub proof fn lemma_elements_of_merged(ranges: Seq<RangeInclusive<u16>>, ports: Seq<u16>)
    requires
        merged(ranges, ports),
    ensures
        port_elements(ranges) == elements_of(ports),
{
    let chosen = choose|r: Seq<RangeInclusive<u16>>| merged(r, ports);
    lemma_merged_is_unique(ranges, chosen, ports);
    lemma_same_elements(ranges, chosen);
}

/// Ranges with the same bounds have the same elements.
proof fn lemma_same_elements(a: Seq<RangeInclusive<u16>>, b: Seq<RangeInclusive<u16>>)
    requires
        a.len() == b.len(),
        forall|i: int|
            0 <= i < a.len() ==> (#[trigger] a[i])@.start == b[i]@.start && a[i]@.end == b[i]@.end,
    ensures
        port_elements(a) == port_elements(b),
    decreases a.len(),
{
    if a.len() > 0 {
        let n = a.len() - 1;
        assert(a[n]@.start == b[n]@.start);
        assert forall|i: int| 0 <= i < a.drop_last().len() implies (#[trigger] a.drop_last()[i])@.start
            == b.drop_last()[i]@.start && a.drop_last()[i]@.end == b.drop_last()[i]@.end by {
            assert(a[i]@.start == b[i]@.start);
        }
        lemma_same_elements(a.drop_last(), b.drop_last());
    }
}

/// Whether no range has been iterated to its end.
pub open spec fn fresh_ranges(ranges: Seq<RangeInclusive<u16>>) -> bool {
    forall|i: int| 0 <= i < ranges.len() ==> !(#[trigger] ranges[i])@.exhausted
}

/// The rules with the given pieces filled in.
pub open spec fn ruleset(
    elements: Seq<char>,
    tunnel: Seq<char>,
    br: Seq<char>,
    staging: (u16, u16),
) -> Seq<char> {
    RULES_PORTS@ + elements + RULES_POSTROUTING@ + tunnel + RULES_MASQUERADE@ + decimal(
        staging.0 as nat,
    ) + "-"@ + decimal(staging.1 as nat) + RULES_FORWARD@ + tunnel + RULES_CLAMP@ + tunnel
        + RULES_PREROUTING@ + br + RULES_END@
}

/// Appends a port, or two ports with a dash.
fn push_element(out: &mut String, r: &RangeInclusive<u16>)
    requires
        !r@.exhausted,
    ensures
        final(out)@ == old(out)@ + port_element(*r),
{
    let ghost start = out@;
    let first: u16 = *r.start();
    let last: u16 = *r.end();
    push_decimal(out, first as u64);
    if first != last {
        out.append("-");
        push_decimal(out, last as u64);
    }
    proof {
        assert(out@ =~= start + port_element(*r));
    }
}

/// The elements of the port set.
pub fn format_port_elements(port_ranges: &[RangeInclusive<u16>]) -> (r: String)
    requires
        fresh_ranges(port_ranges@),
    ensures
        r@ == port_elements(port_ranges@),
{
    let mut out = String::new();
    let mut i: usize = 0;
    proof {
        assert(port_ranges@.take(0) =~= Seq::empty());
    }
    while i < port_ranges.len()
        invariant
            i <= port_ranges@.len(),
            fresh_ranges(port_ranges@),
            out@ == port_elements(port_ranges@.take(i as int)),
        decreases port_ranges@.len() - i,
    {
        let ghost before = out@;
        if i > 0 {
            out.append(", ");
        }
        push_element(&mut out, &port_ranges[i]);
        proof {
            let next = port_ranges@.take(i + 1);
            assert(next.drop_last() =~= port_ranges@.take(i as int));
            assert(next.last() == port_ranges@[i as int]);
            if i == 0 {
                assert(out@ =~= port_element(port_ranges@[0]));
            }
        }
        i = i + 1;
    }
    proof {
        assert(port_ranges@.take(i as int) =~= port_ranges@);
    }
    out
}

/// The rules, with the notation of the border relay given.
pub fn render_ruleset(
    port_ranges: &[RangeInclusive<u16>],
    tunnel_interface: &str,
    br_text: &str,
    staging_range: (u16, u16),
) -> (r: String)
    requires
        fresh_ranges(port_ranges@),
    ensures
        r@ == ruleset(port_elements(port_ranges@), tunnel_interface@, br_text@, staging_range),
{
    let elements = format_port_elements(port_ranges);
    let mut out = String::from_str(RULES_PORTS);
    out.append(elements.as_str());
    out.append(RULES_POSTROUTING);
    out.append(tunnel_interface);
    out.append(RULES_MASQUERADE);
    push_decimal(&mut out, staging_range.0 as u64);
    out.append("-");
    push_decimal(&mut out, staging_range.1 as u64);
    out.append(RULES_FORWARD);
    out.append(tunnel_interface);
    out.append(RULES_CLAMP);
    out.append(tunnel_interface);
    out.append(RULES_PREROUTING);
    out.append(br_text);
    out.append(RULES_END);
    out
}

/// The rules: the set of ports, the translation to the staging ports, the clamp of the segment
/// size, and the drop of tunnel packets that are not from the border relay.
pub fn generate_ruleset(
    port_ranges: &[RangeInclusive<u16>],
    tunnel_interface: &str,
    br_address: Ipv6Addr,
    staging_range: (u16, u16),
) -> (r: String)
    requires
        fresh_ranges(port_ranges@),
    ensures
        r@ == ruleset(
            port_elements(port_ranges@),
            tunnel_interface@,
            ipv6_text(br_address.bits),
            staging_range,
        ),
{
    let br = format_ipv6(br_address.bits);
    render_ruleset(port_ranges, tunnel_interface, br.as_str(), staging_range)
}

/// The rules to hand to `nft`. Fails with `EmptyPortRanges` if and only if there are no ports.
pub fn apply_ruleset(
    port_ranges: &[RangeInclusive<u16>],
    tunnel_interface: &str,
    br_address: Ipv6Addr,
    staging_range: (u16, u16),
) -> (r: Result<String, MapEError>)
    requires
        fresh_ranges(port_ranges@),
    ensures
        if port_ranges@.len() == 0 {
            r matches Err(e) && e@ == ErrorView::EmptyPortRanges
        } else {
            r matches Ok(text) && text@ == ruleset(
                port_elements(port_ranges@),
                tunnel_interface@,
                ipv6_text(br_address.bits),
                staging_range,
            )
        },
{
    if port_ranges.len() == 0 {
        return Err(MapEError::EmptyPortRanges);
    }
    Ok(generate_ruleset(port_ranges, tunnel_interface, br_address, staging_range))
}

/// The commands to hand to `nft` to remove the tables.
pub fn delete_tables() -> (r: String)
    ensures
        r@ == DELETE_TABLES@,
{
    String::from_str(DELETE_TABLES)
}

/// What came of `nft`: it fails if and only if it does not exit with success.
pub fn nft_result(success: bool, status: &str, stderr: &str) -> (r: Result<(), MapEError>)
    ensures
        success ==> r is Ok,
        !success ==> (r matches Err(e) && e@ == ErrorView::NftError(
            "nft exited with "@ + status@ + ": "@ + stderr@,
        )),
{
    if success {
        return Ok(());
    }
    let mut text = join2("nft exited with ", status);
    text.append(": ");
    text.append(stderr);
    Err(MapEError::NftError(text))
}

/// The rules, as they are written: both tables emptied, the set of ports, the translation of what
/// leaves by the tunnel to the staging ports, the clamp of the segment size in both directions,
/// and the drop of tunnel packets that are not from the border relay.
pub proof fn lemma_rules_as_written(
    elements: Seq<char>,
    tunnel: Seq<char>,
    br: Seq<char>,
    first: u16,
    last: u16,
)
    ensures
        ruleset(elements, tunnel, br, (first, last))
            == "add table ip mapecd\nflush table ip mapecd\nadd table ip6 mapecd\nflush table ip6 mapecd\n\ntable ip mapecd {\n    set port_ranges {\n        type inet_service\n        flags interval\n        elements = { "@
            + elements
            + " }\n    }\n\n    chain postrouting {\n        type nat hook postrouting priority srcnat;\n        oifname \""@
            + tunnel + "\" meta l4proto { tcp, udp, icmp } masquerade to :"@ + decimal(
            first as nat,
        ) + "-"@ + decimal(last as nat)
            + "\n    }\n\n    chain forward {\n        type filter hook forward priority filter;\n        oifname \""@
            + tunnel
            + "\" tcp flags syn tcp option maxseg size set rt mtu\n        iifname \""@ + tunnel
            + "\" tcp flags syn tcp option maxseg size set rt mtu\n    }\n}\n\ntable ip6 mapecd {\n    chain prerouting {\n        type filter hook prerouting priority filter;\n        ip6 saddr != "@
            + br + " ip6 nexthdr 4 drop\n    }\n}\n"@,
        DELETE_TABLES@ == "delete table ip mapecd\ndelete table ip6 mapecd\n"@,
{
}

/// A range of one port is written as that port, and any other as its first port, a dash and its
/// last.
pub proof fn lemma_single_element(r: RangeInclusive<u16>)
    ensures
        r@.start == r@.end ==> port_elements(seq![r]) == decimal(r@.end as nat),
        r@.start != r@.end ==> port_elements(seq![r]) == decimal(r@.start as nat) + "-"@ + decimal(
            r@.end as nat,
        ),
{
}

/// The elements of ranges and of more ranges are those of the first, a comma with a space, and
/// those of the others.
pub proof fn lemma_elements_are_listed(a: Seq<RangeInclusive<u16>>, b: Seq<RangeInclusive<u16>>)
    requires
        a.len() > 0,
        b.len() > 0,
    ensures
        port_elements(a + b) == port_elements(a) + ", "@ + port_elements(b),
    decreases b.len(),
{
    let all = a + b;
    assert(all.drop_last() =~= a + b.drop_last());
    assert(all.last() == b.last());
    if b.len() == 1 {
        assert(all.drop_last() =~= a);
        assert(b[0] == b.last());
    } else {
        lemma_elements_are_listed(a, b.drop_last());
        assert(port_elements(all) =~= port_elements(a) + ", "@ + port_elements(b));
    }
}

} // verus!
