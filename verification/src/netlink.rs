//! What the daemon tells the kernel over netlink, and reads from its answers.

use netlink_packet_utils::nla::DefaultNla;
use netlink_packet_utils::Emitable;
use vstd::endian::{endianness, Endian};
use vstd::prelude::*;
use vstd::string::*;

use crate::dhcpv6::tlv::{lemma_pow256_pos, pow256};
use crate::dhcpv6::wire::{be16_bytes, be32_bytes};
use crate::error::{ErrorView, MapEError};
use crate::net::Ipv6Addr;
use crate::text::{contains, join2, occurs};

verus! {

/// The underlying device of a tunnel.
pub const IFLA_IPTUN_LINK: u16 = 1;

/// The address of this end of a tunnel.
pub const IFLA_IPTUN_LOCAL: u16 = 2;

/// The address of the other end of a tunnel.
pub const IFLA_IPTUN_REMOTE: u16 = 3;

/// How deep packets may be encapsulated.
pub const IFLA_IPTUN_ENCAP_LIMIT: u16 = 6;

/// The protocol inside a tunnel.
pub const IFLA_IPTUN_PROTO: u16 = 9;

/// IPv4 inside a tunnel.
pub const IPPROTO_IPIP: u8 = 4;

/// Two bytes in the byte order of the machine.
pub open spec fn native16(v: int) -> Seq<u8> {
    if endianness() == Endian::Little {
        be16_bytes(v).reverse()
    } else {
        be16_bytes(v)
    }
}

/// Four bytes in the byte order of the machine.
pub open spec fn native32(v: int) -> Seq<u8> {
    if endianness() == Endian::Little {
        be32_bytes(v).reverse()
    } else {
        be32_bytes(v)
    }
}

/// A netlink attribute: length without padding, kind, value, and zeros up to a multiple of four.
pub open spec fn attribute(kind: u16, value: Seq<u8>) -> Seq<u8> {
    native16((value.len() + 4) as int) + native16(kind as int) + value + Seq::new(
        ((4 - value.len() % 4) % 4) as nat,
        |i: int| 0u8,
    )
}

/// `u32::to_ne_bytes`: the bytes in the byte order of the machine.
#[verifier::external_body]
fn native_bytes(x: u32) -> (r: [u8; 4])
    ensures
        r@ == native32(x as int),
{
    x.to_ne_bytes()
}

/// `DefaultNla::emit`: length and kind in the byte order of the machine, the value, and zeros up
/// to a multiple of four. The two highest bits of the kind are flags and are left out, and so are
/// values that are too long for the length.
#[verifier::external_body]
fn emit_attribute(kind: u16, value: Vec<u8>) -> (r: Vec<u8>)
    requires
        kind < 0x4000,
        value@.len() + 4 <= 0xffff,
    ensures
        r@ == attribute(kind, value@),
{
    let nla = DefaultNla::new(kind, value);
    let mut buf = vec![0u8; nla.buffer_len()];
    nla.emit(&mut buf);
    buf
}

/// The sixteen bytes of an address.
pub open spec fn address_bytes(a: Ipv6Addr) -> Seq<u8> {
    Seq::new(16, |i: int| (a.bits as int / (pow256((15 - i) as nat) as int) % 256) as u8)
}

/// The sixteen bytes of an address.
fn octets(a: Ipv6Addr) -> (r: Vec<u8>)
    ensures
        r@ == address_bytes(a),
{
    let mut out: Vec<u8> = Vec::new();
    let mut i: usize = 0;
    let mut unit: u128 = 0x100_0000_0000_0000_0000_0000_0000_0000;
    proof {
        reveal_with_fuel(pow256, 17);
    }
    while i < 16
        invariant
            i <= 16,
            out@ == address_bytes(a).take(i as int),
            i < 16 ==> unit == pow256((15 - i) as nat),
        decreases 16 - i,
    {
        proof {
            lemma_pow256_pos((15 - i) as nat);
        }
        let byte: u8 = (a.bits / unit % 256) as u8;
        out.push(byte);
        proof {
            assert(address_bytes(a).take(i + 1) =~= address_bytes(a).take(i as int).push(byte));
        }
        if i < 15 {
            unit = unit / 256;
        }
        i = i + 1;
    }
    proof {
        assert(address_bytes(a).take(16) =~= address_bytes(a));
    }
    out
}

/// The attributes of an ip6tnl tunnel for IPv4: device, both ends, protocol and limit.
pub open spec fn ip6tnl_data(local: Ipv6Addr, remote: Ipv6Addr, link_index: u32, encaplimit: u8) -> Seq<
    u8,
> {
    attribute(IFLA_IPTUN_LINK, native32(link_index as int)) + attribute(
        IFLA_IPTUN_LOCAL,
        address_bytes(local),
    ) + attribute(IFLA_IPTUN_REMOTE, address_bytes(remote)) + attribute(
        IFLA_IPTUN_PROTO,
        seq![IPPROTO_IPIP],
    ) + attribute(IFLA_IPTUN_ENCAP_LIMIT, seq![encaplimit])
}

/// The attributes of an ip6tnl tunnel for IPv4.
pub fn encode_ip6tnl_data(local: Ipv6Addr, remote: Ipv6Addr, link_index: u32, encaplimit: u8) -> (r: Vec<
    u8,
>)
    ensures
        r@ == ip6tnl_data(local, remote, link_index, encaplimit),
        r@.len() == 64,
{
    let index = native_bytes(link_index);
    let link: Vec<u8> = vec![index[0], index[1], index[2], index[3]];
    proof {
        assert(link@ =~= native32(link_index as int));
    }
    let mut data = emit_attribute(IFLA_IPTUN_LINK, link);
    let mut local_end = emit_attribute(IFLA_IPTUN_LOCAL, octets(local));
    let mut remote_end = emit_attribute(IFLA_IPTUN_REMOTE, octets(remote));
    let proto_value: Vec<u8> = vec![IPPROTO_IPIP];
    let limit_value: Vec<u8> = vec![encaplimit];
    proof {
        assert(proto_value@ =~= seq![IPPROTO_IPIP]);
        assert(limit_value@ =~= seq![encaplimit]);
    }
    let mut proto = emit_attribute(IFLA_IPTUN_PROTO, proto_value);
    let mut limit = emit_attribute(IFLA_IPTUN_ENCAP_LIMIT, limit_value);
    data.append(&mut local_end);
    data.append(&mut remote_end);
    data.append(&mut proto);
    data.append(&mut limit);
    data
}

/// A route, as far as it matters here.
#[derive(Clone, Debug)]
pub struct RouteEntry {
    /// Length of the destination prefix.
    pub dst_prefix_len: u8,
    /// Whether the route has universe scope.
    pub universe: bool,
    /// The interfaces it leads out of.
    pub oifs: Vec<u32>,
}

/// The interfaces of the default routes with universe scope, in the order of the routes.
pub open spec fn default_oifs(routes: Seq<RouteEntry>) -> Seq<u32>
    decreases routes.len(),
{
    if routes.len() == 0 {
        Seq::empty()
    } else {
        let rest = default_oifs(routes.drop_last());
        if routes.last().dst_prefix_len == 0 && routes.last().universe {
            rest + routes.last().oifs@
        } else {
            rest
        }
    }
}

/// The interfaces of the default routes.
pub fn get_ipv4_default_routes(routes: &Vec<RouteEntry>) -> (r: Vec<u32>)
    ensures
        r@ == default_oifs(routes@),
{
    let mut oifs: Vec<u32> = Vec::new();
    let mut i: usize = 0;
    proof {
        assert(routes@.take(0) =~= Seq::empty());
    }
    while i < routes.len()
        invariant
            i <= routes.len(),
            oifs@ == default_oifs(routes@.take(i as int)),
        decreases routes.len() - i,
    {
        proof {
            assert(routes@.take(i + 1).drop_last() =~= routes@.take(i as int));
            assert(routes@.take(i + 1).last() == routes@[i as int]);
        }
        if routes[i].dst_prefix_len == 0 && routes[i].universe {
            let mut more = vstd::slice::slice_to_vec(routes[i].oifs.as_slice());
            oifs.append(&mut more);
        }
        i = i + 1;
    }
    proof {
        assert(routes@.take(i as int) =~= routes@);
    }
    oifs
}

/// Whether a route is a default route out of the interface.
pub open spec fn default_via(route: RouteEntry, oif: u32) -> bool {
    route.dst_prefix_len == 0 && route.oifs@.contains(oif)
}

fn is_default_route_via(route: &RouteEntry, oif: u32) -> (r: bool)
    ensures
        r == default_via(*route, oif),
{
    if route.dst_prefix_len != 0 {
        return false;
    }
    let mut i: usize = 0;
    while i < route.oifs.len()
        invariant
            i <= route.oifs@.len(),
            route.dst_prefix_len == 0,
            forall|j: int| 0 <= j < i ==> route.oifs@[j] != oif,
        decreases route.oifs@.len() - i,
    {
        if route.oifs[i] == oif {
            return true;
        }
        i = i + 1;
    }
    false
}

/// The routes that go when the default routes out of the interface are removed: their places, in
/// order.
pub fn del_ipv4_default_route_by_oif(routes: &Vec<RouteEntry>, oif: u32) -> (r: Vec<usize>)
    ensures
        forall|i: int, j: int| 0 <= i < j < r@.len() ==> r@[i] < r@[j],
        forall|i: usize|
            #[trigger] r@.contains(i) <==> i < routes@.len() && default_via(routes@[i as int], oif),
{
    let mut places: Vec<usize> = Vec::new();
    let mut i: usize = 0;
    while i < routes.len()
        invariant
            i <= routes@.len(),
            forall|a: int, b: int| 0 <= a < b < places@.len() ==> places@[a] < places@[b],
            forall|a: int| 0 <= a < places@.len() ==> places@[a] < i,
            forall|j: usize|
                #[trigger] places@.contains(j) <==> j < i && default_via(routes@[j as int], oif),
        decreases routes@.len() - i,
    {
        let ghost before = places@;
        let via = is_default_route_via(&routes[i], oif);
        if via {
            places.push(i);
        }
        proof {
            assert forall|j: usize| #[trigger]
                places@.contains(j) <==> before.contains(j) || (via && j == i) by {
                if before.contains(j) {
                    let k = choose|k: int| 0 <= k < before.len() && before[k] == j;
                    assert(places@[k] == j);
                }
                if via && j == i {
                    assert(places@[before.len() as int] == j);
                }
                if places@.contains(j) {
                    let k = choose|k: int| 0 <= k < places@.len() && places@[k] == j;
                    assert(k < before.len() ==> before[k] == j);
                }
            }
        }
        i = i + 1;
    }
    places
}

/// A change of the routes.
#[derive(Clone, Copy, Debug, PartialEq, Eq, Structural)]
pub enum RouteChange {
    /// The default routes out of the interface are removed; a failure is passed over.
    Delete(u32),
    /// A default route out of the interface is added.
    Add(u32),
}

/// The changes after which the only default route leads out of the interface: all others are
/// removed first.
pub fn add_ipv4_default_route(routes: &Vec<RouteEntry>, oif: u32) -> (r: Vec<RouteChange>)
    ensures
        r@ == default_oifs(routes@).map_values(|o: u32| RouteChange::Delete(o)).push(
            RouteChange::Add(oif),
        ),
{
    let existing = get_ipv4_default_routes(routes);
    let mut changes: Vec<RouteChange> = Vec::new();
    let mut i: usize = 0;
    while i < existing.len()
        invariant
            i <= existing@.len(),
            changes@ == existing@.take(i as int).map_values(|o: u32| RouteChange::Delete(o)),
        decreases existing@.len() - i,
    {
        changes.push(RouteChange::Delete(existing[i]));
        i = i + 1;
        proof {
            assert(changes@ =~= existing@.take(i as int).map_values(
                |o: u32| RouteChange::Delete(o),
            ));
        }
    }
    proof {
        assert(existing@.take(i as int) =~= existing@);
    }
    changes.push(RouteChange::Add(oif));
    changes
}

/// Whether an error of the kernel says that the device is gone.
pub fn device_is_gone(text: &str) -> (r: bool)
    ensures
        r == (occurs(text@, "No such device"@) || occurs(text@, "(os error 19)"@)),
{
    contains(text, "No such device") || contains(text, "(os error 19)")
}

/// The MTU of a link. Fails if and only if the kernel did not give one.
pub fn link_mtu(name: &str, mtu: Option<u32>) -> (r: Result<u32, MapEError>)
    ensures
        match mtu {
            Some(m) => r == Ok::<u32, MapEError>(m),
            None => r matches Err(e) && e@ == ErrorView::NetlinkError(
                "interface "@ + name@ + ": MTU attribute not found in RTM_GETLINK response"@,
            ),
        },
{
    match mtu {
        Some(m) => Ok(m),
        None => {
            let mut text = join2("interface ", name);
            text.append(": MTU attribute not found in RTM_GETLINK response");
            Err(MapEError::NetlinkError(text))
        },
    }
}

/// The tunnel attributes byte by byte: link index, both ends, protocol 4 and limit, with the kinds
/// 1, 2, 3, 9 and 6. Each begins with its length and its kind, and takes a multiple of four bytes.
pub proof fn lemma_tunnel_attributes(
    local: Ipv6Addr,
    remote: Ipv6Addr,
    link_index: u32,
    encaplimit: u8,
    i: int,
)
    requires
        0 <= i < 16,
    ensures
        ({
            let d = ip6tnl_data(local, remote, link_index, encaplimit);
            let little = endianness() == Endian::Little;
            let low: int = if little {
                0
            } else {
                1
            };
            &&& d.len() == 64
            &&& d[low] == 8 && d[1 - low] == 0 && d[2 + low] == 1 && d[3 - low] == 0
            &&& i < 4 ==> d[4 + i] == link_index as int / (pow256(
                if little {
                    i as nat
                } else {
                    (3 - i) as nat
                },
            ) as int) % 256
            &&& d[8 + low] == 20 && d[9 - low] == 0 && d[10 + low] == 2 && d[11 - low] == 0
            &&& d[12 + i] == local.bits as int / (pow256((15 - i) as nat) as int) % 256
            &&& d[28 + low] == 20 && d[29 - low] == 0 && d[30 + low] == 3 && d[31 - low] == 0
            &&& d[32 + i] == remote.bits as int / (pow256((15 - i) as nat) as int) % 256
            &&& d[48 + low] == 5 && d[49 - low] == 0 && d[50 + low] == 9 && d[51 - low] == 0
            &&& d[52] == 4 && d[53] == 0 && d[54] == 0 && d[55] == 0
            &&& d[56 + low] == 5 && d[57 - low] == 0 && d[58 + low] == 6 && d[59 - low] == 0
            &&& d[60] == encaplimit && d[61] == 0 && d[62] == 0 && d[63] == 0
        }),
{
    reveal_with_fuel(pow256, 5);
    let d = ip6tnl_data(local, remote, link_index, encaplimit);
    let link = attribute(IFLA_IPTUN_LINK, native32(link_index as int));
    let near = attribute(IFLA_IPTUN_LOCAL, address_bytes(local));
    let far = attribute(IFLA_IPTUN_REMOTE, address_bytes(remote));
    let proto = attribute(IFLA_IPTUN_PROTO, seq![IPPROTO_IPIP]);
    let limit = attribute(IFLA_IPTUN_ENCAP_LIMIT, seq![encaplimit]);
    assert(link.len() == 8 && near.len() == 20 && far.len() == 20);
    assert(proto.len() == 8 && limit.len() == 8);
    assert(d.subrange(0, 8) =~= link);
    assert(d.subrange(8, 28) =~= near);
    assert(d.subrange(28, 48) =~= far);
    assert(d.subrange(48, 56) =~= proto);
    assert(d.subrange(56, 64) =~= limit);
    assert(forall|k: int| 0 <= k < 8 ==> #[trigger] d[k] == link[k]);
    assert(forall|k: int| 8 <= k < 28 ==> #[trigger] d[k] == near[k - 8]);
    assert(forall|k: int| 28 <= k < 48 ==> #[trigger] d[k] == far[k - 28]);
    assert(forall|k: int| 48 <= k < 56 ==> #[trigger] d[k] == proto[k - 48]);
    assert(forall|k: int| 56 <= k < 64 ==> #[trigger] d[k] == limit[k - 56]);
    if i < 4 {
        let v = link_index as int;
        assert(link[4 + i] == native32(v)[i]);
        assert(be32_bytes(v)[0] == v / 16777216 % 256 && be32_bytes(v)[1] == v / 65536 % 256);
        assert(be32_bytes(v)[2] == v / 256 % 256 && be32_bytes(v)[3] == v % 256);
        assert(pow256(0) == 1 && pow256(1) == 256 && pow256(2) == 65536 && pow256(3) == 16777216);
        assert(be32_bytes(v)[i] == v / (pow256((3 - i) as nat) as int) % 256);
        assert(be32_bytes(v)[3 - i] == v / (pow256(i as nat) as int) % 256);
    }
    assert(near[4 + i] == address_bytes(local)[i]);
    assert(far[4 + i] == address_bytes(remote)[i]);
    assert(proto[4] == IPPROTO_IPIP);
    assert(limit[4] == encaplimit);
}

/// A route alone: its interfaces if it has universe scope and no destination bits, else none.
pub proof fn lemma_single_route(route: RouteEntry)
    ensures
        route.dst_prefix_len == 0 && route.universe ==> default_oifs(seq![route]) == route.oifs@,
        route.dst_prefix_len != 0 || !route.universe ==> default_oifs(seq![route]) == Seq::<
            u32,
        >::empty(),
{
    let one = seq![route];
    assert(one.drop_last() =~= Seq::empty());
    assert(one.last() == route);
    reveal_with_fuel(default_oifs, 2);
    assert(Seq::<u32>::empty() + route.oifs@ =~= route.oifs@);
}

/// The interfaces of routes and of more routes are those of the first, followed by those of the
/// others.
pub proof fn lemma_routes_add_up(a: Seq<RouteEntry>, b: Seq<RouteEntry>)
    ensures
        default_oifs(a + b) == default_oifs(a) + default_oifs(b),
    decreases b.len(),
{
    if b.len() == 0 {
        assert(a + b =~= a);
        assert(default_oifs(a) + default_oifs(b) =~= default_oifs(a));
    } else {
        lemma_routes_add_up(a, b.drop_last());
        assert((a + b).drop_last() =~= a + b.drop_last());
        assert((a + b).last() == b.last());
        assert(default_oifs(a + b) =~= default_oifs(a) + default_oifs(b));
    }
}

/// Which routes go with an interface: those without destination bits, of any scope, that lead out
/// of it.
pub proof fn lemma_which_routes_go(route: RouteEntry, oif: u32, i: int)
    ensures
        route.dst_prefix_len != 0 ==> !default_via(route, oif),
        route.dst_prefix_len == 0 && 0 <= i < route.oifs@.len() && route.oifs@[i] == oif
            ==> default_via(route, oif),
        (forall|j: int| 0 <= j < route.oifs@.len() ==> route.oifs@[j] != oif) ==> !default_via(
            route,
            oif,
        ),
{
}

} // verus!
