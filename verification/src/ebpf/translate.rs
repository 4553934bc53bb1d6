//! Where in an IPv4 packet the translated port stands, and what becomes of it.

use vstd::prelude::*;

use crate::dhcpv6::tlv::{be16, read_u16};
use crate::ebpf::psid::{
    lemma_other_ports_are_left_alone, lemma_ports_counted_through, lemma_staging_round_trip,
    psid_config, psid_port, staging_port, PsidConfig,
};
use vstd::arithmetic::power2::pow2;

verus! {

pub const IPPROTO_ICMP: u8 = 1;

pub const IPPROTO_TCP: u8 = 6;

pub const IPPROTO_UDP: u8 = 17;

pub const ICMP_ECHO_REPLY: u8 = 0;

pub const ICMP_ECHO_REQUEST: u8 = 8;

/// The way a packet takes through the tunnel.
#[derive(Clone, Copy, Debug, PartialEq, Eq, Structural)]
pub enum Direction {
    /// To the border relay: the source port, or the identifier of an echo request.
    Egress,
    /// From the border relay: the destination port, or the identifier of an echo reply.
    Ingress,
}

/// A change to one port or identifier of a packet.
#[derive(Clone, Copy, Debug, PartialEq, Eq, Structural)]
pub struct Rewrite {
    /// Where the port stands, counted from the start of the IPv4 header.
    pub port_offset: usize,
    /// Where the checksum stands.
    pub csum_offset: usize,
    /// The port before.
    pub old_port: u16,
    /// The port after.
    pub new_port: u16,
    /// Whether the checksum is that of TCP or UDP, which covers a pseudo header.
    pub pseudo_header: bool,
}

/// Length of the IPv4 header.
pub open spec fn header_len(packet: Seq<u8>) -> int {
    (packet[0] % 16) * 4
}

/// Where the port or identifier stands and where the checksum stands, if the packet has one
/// that is translated on this way.
pub open spec fn translated_field(packet: Seq<u8>, dir: Direction) -> Option<(int, int)> {
    let l4 = header_len(packet);
    if packet.len() < 10 {
        None
    } else if packet[9] == IPPROTO_TCP || packet[9] == IPPROTO_UDP {
        let at = if dir == Direction::Egress {
            l4
        } else {
            l4 + 2
        };
        let csum = if packet[9] == IPPROTO_TCP {
            l4 + 16
        } else {
            l4 + 6
        };
        if at + 2 <= packet.len() {
            Some((at, csum))
        } else {
            None
        }
    } else if packet[9] == IPPROTO_ICMP {
        let echo = if dir == Direction::Egress {
            ICMP_ECHO_REQUEST
        } else {
            ICMP_ECHO_REPLY
        };
        if l4 + 6 <= packet.len() && packet[l4] == echo {
            Some((l4 + 4, l4 + 2))
        } else {
            None
        }
    } else {
        None
    }
}

/// What a port becomes on this way.
pub open spec fn translated_port(cfg: PsidConfig, dir: Direction, port: u16) -> Option<u16> {
    match dir {
        Direction::Egress => psid_port(cfg, port),
        Direction::Ingress => staging_port(cfg, port),
    }
}

/// The change to a packet, or `None` for a packet that passes as it is.
pub open spec fn translation(packet: Seq<u8>, cfg: Option<PsidConfig>, dir: Direction) -> Option<
    Rewrite,
> {
    match (cfg, translated_field(packet, dir)) {
        (Some(c), Some((at, csum))) => {
            let old_port = be16(packet[at], packet[at + 1]);
            match translated_port(c, dir, old_port) {
                Some(new_port) => Some(
                    Rewrite {
                        port_offset: at as usize,
                        csum_offset: csum as usize,
                        old_port,
                        new_port,
                        pseudo_header: packet[9] != IPPROTO_ICMP,
                    },
                ),
                None => None,
            }
        },
        _ => None,
    }
}

/// The change to a packet on its way, or `None` for a packet that passes as it is.
fn translate(packet: &[u8], cfg: &Option<PsidConfig>, dir: Direction) -> (r: Option<Rewrite>)
    requires
        cfg matches Some(c) ==> c.wf(),
    ensures
        r == translation(packet@, *cfg, dir),
{
    let c = match cfg {
        Some(c) => *c,
        None => {
            return None;
        },
    };
    if packet.len() < 10 {
        return None;
    }
    let l4: usize = (packet[0] % 16) as usize * 4;
    let proto: u8 = packet[9];
    let at: usize;
    let csum: usize;
    if proto == IPPROTO_TCP || proto == IPPROTO_UDP {
        at = match dir {
            Direction::Egress => l4,
            Direction::Ingress => l4 + 2,
        };
        csum = if proto == IPPROTO_TCP {
            l4 + 16
        } else {
            l4 + 6
        };
        if packet.len() < at + 2 {
            return None;
        }
    } else if proto == IPPROTO_ICMP {
        let echo: u8 = match dir {
            Direction::Egress => ICMP_ECHO_REQUEST,
            Direction::Ingress => ICMP_ECHO_REPLY,
        };
        if packet.len() < l4 + 6 || packet[l4] != echo {
            return None;
        }
        at = l4 + 4;
        csum = l4 + 2;
    } else {
        return None;
    }
    let old_port: u16 = read_u16(packet[at], packet[at + 1]);
    let changed = match dir {
        Direction::Egress => c.to_psid_port(old_port),
        Direction::Ingress => c.to_staging_port(old_port),
    };
    match changed {
        Some(new_port) => Some(
            Rewrite {
                port_offset: at,
                csum_offset: csum,
                old_port,
                new_port,
                pseudo_header: proto != IPPROTO_ICMP,
            },
        ),
        None => None,
    }
}

/// The change to a packet that goes out: its staging port becomes a port of the PSID.
pub fn try_egress(packet: &[u8], cfg: &Option<PsidConfig>) -> (r: Option<Rewrite>)
    requires
        cfg matches Some(c) ==> c.wf(),
    ensures
        r == translation(packet@, *cfg, Direction::Egress),
{
    translate(packet, cfg, Direction::Egress)
}

/// The change to a packet that comes in: its port, if of the PSID, becomes the staging port.
pub fn try_ingress(packet: &[u8], cfg: &Option<PsidConfig>) -> (r: Option<Rewrite>)
    requires
        cfg matches Some(c) ==> c.wf(),
    ensures
        r == translation(packet@, *cfg, Direction::Ingress),
{
    translate(packet, cfg, Direction::Ingress)
}

/// Whether a packet is TCP or UDP with a header of `h` bytes, and has both of its ports.
pub open spec fn has_ports(packet: Seq<u8>, h: int) -> bool {
    &&& packet.len() >= 10
    &&& h == (packet[0] % 16) * 4
    &&& packet.len() >= h + 4
    &&& packet[9] == 6 || packet[9] == 17
}

/// Whether a packet is an echo of the given ICMP type with a header of `h` bytes, and has its
/// identifier.
pub open spec fn is_echo(packet: Seq<u8>, h: int, kind: u8) -> bool {
    &&& packet.len() >= 10
    &&& h == (packet[0] % 16) * 4
    &&& packet.len() >= h + 6
    &&& packet[9] == 1
    &&& packet[h] == kind
}

/// On the way in, the destination port of a TCP or UDP packet, which stands two bytes behind the
/// IPv4 header, goes from the port of the PSID with block `r` and position `j` to its staging
/// port. The checksum is that of the protocol: sixteen bytes behind the header for TCP, six for
/// UDP.
pub proof fn lemma_incoming_destination_port(
    packet: Seq<u8>,
    h: int,
    a: u8,
    k: u8,
    psid: u16,
    r: int,
    j: int,
)
    requires
        has_ports(packet, h),
        1 <= a,
        a + k <= 16,
        psid < pow2(k as nat),
        1 <= r < pow2(a as nat),
        0 <= j < pow2((16 - a - k) as nat),
        packet[h + 2] * 256 + packet[h + 3] == r * pow2((16 - a) as nat) + psid * pow2(
            (16 - a - k) as nat,
        ) + j,
    ensures
        translation(packet, Some(psid_config(a, k, psid)), Direction::Ingress) == Some(
            Rewrite {
                port_offset: (h + 2) as usize,
                csum_offset: if packet[9] == 6 {
                    (h + 16) as usize
                } else {
                    (h + 6) as usize
                },
                old_port: (packet[h + 2] * 256 + packet[h + 3]) as u16,
                new_port: (pow2((16 - a) as nat) + (r - 1) * pow2((16 - a - k) as nat) + j) as u16,
                pseudo_header: true,
            },
        ),
{
    lemma_ports_counted_through(a, k, psid, r, j);
}

/// On the way out, the source port of a TCP or UDP packet, which stands right behind the IPv4
/// header, goes from a staging port to the port of the PSID with block `r` and position `j`.
pub proof fn lemma_outgoing_source_port(
    packet: Seq<u8>,
    h: int,
    a: u8,
    k: u8,
    psid: u16,
    r: int,
    j: int,
)
    requires
        has_ports(packet, h),
        1 <= a,
        a + k <= 16,
        psid < pow2(k as nat),
        1 <= r < pow2(a as nat),
        0 <= j < pow2((16 - a - k) as nat),
        packet[h] * 256 + packet[h + 1] == pow2((16 - a) as nat) + (r - 1) * pow2(
            (16 - a - k) as nat,
        ) + j,
    ensures
        translation(packet, Some(psid_config(a, k, psid)), Direction::Egress) == Some(
            Rewrite {
                port_offset: h as usize,
                csum_offset: if packet[9] == 6 {
                    (h + 16) as usize
                } else {
                    (h + 6) as usize
                },
                old_port: (packet[h] * 256 + packet[h + 1]) as u16,
                new_port: (r * pow2((16 - a) as nat) + psid * pow2((16 - a - k) as nat) + j) as u16,
                pseudo_header: true,
            },
        ),
{
    lemma_ports_counted_through(a, k, psid, r, j);
}

/// The identifier of an echo, four bytes behind the IPv4 header, is translated like a port: that
/// of a request on the way out, that of a reply on the way in. The checksum is that of ICMP, two
/// bytes behind the header, which covers no pseudo header.
pub proof fn lemma_echo_identifier(
    packet: Seq<u8>,
    h: int,
    a: u8,
    k: u8,
    psid: u16,
    r: int,
    j: int,
)
    requires
        1 <= a,
        a + k <= 16,
        psid < pow2(k as nat),
        1 <= r < pow2(a as nat),
        0 <= j < pow2((16 - a - k) as nat),
    ensures
        ({
            let cfg = psid_config(a, k, psid);
            let id = packet[h + 4] * 256 + packet[h + 5];
            let port = r * pow2((16 - a) as nat) + psid * pow2((16 - a - k) as nat) + j;
            let staging = pow2((16 - a) as nat) + (r - 1) * pow2((16 - a - k) as nat) + j;
            let change = |from: int, to: int|
                Rewrite {
                    port_offset: (h + 4) as usize,
                    csum_offset: (h + 2) as usize,
                    old_port: from as u16,
                    new_port: to as u16,
                    pseudo_header: false,
                };
            &&& is_echo(packet, h, 8) && id == staging ==> translation(
                packet,
                Some(cfg),
                Direction::Egress,
            ) == Some(change(staging, port))
            &&& is_echo(packet, h, 0) && id == port ==> translation(
                packet,
                Some(cfg),
                Direction::Ingress,
            ) == Some(change(port, staging))
        }),
{
    lemma_ports_counted_through(a, k, psid, r, j);
}

/// What passes as it is: everything while there is no configuration, packets of other protocols,
/// ICMP other than an echo request on the way out and an echo reply on the way in, and ports that
/// do not belong: outside the staging range on the way out, in block 0 or of another PSID on the
/// way in.
pub proof fn lemma_what_passes_unchanged(packet: Seq<u8>, h: int, a: u8, k: u8, psid: u16)
    requires
        packet.len() >= 10,
        h == (packet[0] % 16) * 4,
        a + k <= 16,
    ensures
        ({
            let cfg = psid_config(a, k, psid);
            let out = translation(packet, Some(cfg), Direction::Egress);
            let back = translation(packet, Some(cfg), Direction::Ingress);
            let source = packet[h] * 256 + packet[h + 1];
            let destination = packet[h + 2] * 256 + packet[h + 3];
            let first = pow2((16 - a) as nat) as int;
            let block = pow2((16 - a - k) as nat) as int;
            &&& a == 0 ==> out is None && back is None
            &&& packet[9] != 1 && packet[9] != 6 && packet[9] != 17 ==> out is None && back is None
            &&& packet[9] == 1 && packet.len() > h && packet[h] != 8 ==> out is None
            &&& packet[9] == 1 && packet.len() > h && packet[h] != 0 ==> back is None
            &&& has_ports(packet, h) && a > 0 && (source < first || source >= first + (pow2(
                a as nat,
            ) - 1) * block) ==> out is None
            &&& has_ports(packet, h) && a > 0 && (destination < first || destination / block % (
            pow2(k as nat) as int) != psid) ==> back is None
        }),
        translation(packet, None, Direction::Egress) is None,
        translation(packet, None, Direction::Ingress) is None,
{
    if packet.len() >= h + 2 {
        lemma_other_ports_are_left_alone(a, k, psid, be16(packet[h], packet[h + 1]));
    }
    if packet.len() >= h + 4 {
        lemma_other_ports_are_left_alone(a, k, psid, be16(packet[h + 2], packet[h + 3]));
    }
    if packet.len() >= h + 6 {
        lemma_other_ports_are_left_alone(a, k, psid, be16(packet[h + 4], packet[h + 5]));
    }
}

/// A packet too short for its protocol field, or for its port, passes as it is.
pub proof fn lemma_short_packets_pass(packet: Seq<u8>, cfg: Option<PsidConfig>)
    ensures
        packet.len() < 10 ==> translation(packet, cfg, Direction::Egress) is None && translation(
            packet,
            cfg,
            Direction::Ingress,
        ) is None,
        packet.len() >= 10 && packet.len() < (packet[0] % 16) * 4 + 2 ==> translation(
            packet,
            cfg,
            Direction::Egress,
        ) is None,
        packet.len() >= 10 && packet.len() < (packet[0] % 16) * 4 + 4 ==> translation(
            packet,
            cfg,
            Direction::Ingress,
        ) is None,
{
}

/// An answer to a translated packet finds its way back: it is addressed to the port that
/// the packet went out with, and is changed to the port that the packet had before.
pub proof fn lemma_answer_is_translated_back(packet: Seq<u8>, answer: Seq<u8>, cfg: PsidConfig)
    requires
        cfg.wf(),
        cfg.psid < pow2(cfg.length as nat),
        translation(packet, Some(cfg), Direction::Egress) is Some,
        translated_field(answer, Direction::Ingress) is Some,
        ({
            let at = translated_field(answer, Direction::Ingress)->Some_0.0;
            be16(answer[at], answer[at + 1]) == translation(
                packet,
                Some(cfg),
                Direction::Egress,
            )->Some_0.new_port
        }),
    ensures
        translation(answer, Some(cfg), Direction::Ingress) is Some,
        translation(answer, Some(cfg), Direction::Ingress)->Some_0.new_port == translation(
            packet,
            Some(cfg),
            Direction::Egress,
        )->Some_0.old_port,
{
    lemma_staging_round_trip(
        cfg,
        translation(packet, Some(cfg), Direction::Egress)->Some_0.old_port,
    );
}

/// An answer to a translated packet finds its way back. A TCP or UDP packet with staging port
/// `staging` as its source leaves with another port; what comes back to that port as its
/// destination, over the same protocol and with whatever header, is changed to `staging`.
pub proof fn lemma_swapped_ports_are_translated_back(
    packet: Seq<u8>,
    h: int,
    answer: Seq<u8>,
    g: int,
    a: u8,
    k: u8,
    psid: u16,
)
    requires
        1 <= a,
        a + k <= 16,
        psid < pow2(k as nat),
        has_ports(packet, h),
        has_ports(answer, g),
        answer[9] == packet[9],
        translation(packet, Some(psid_config(a, k, psid)), Direction::Egress) matches Some(change)
            && answer[g + 2] * 256 + answer[g + 3] == change.new_port,
    ensures
        translation(answer, Some(psid_config(a, k, psid)), Direction::Ingress) matches Some(back)
            && back.port_offset == g + 2 && back.new_port == packet[h] * 256 + packet[h + 1]
            && back.old_port == answer[g + 2] * 256 + answer[g + 3],
{
    lemma_staging_round_trip(psid_config(a, k, psid), be16(packet[h], packet[h + 1]));
}

/// The reply to a translated echo request finds its way back: its identifier, the one that the
/// request left with, is changed to that which the request had before.
pub proof fn lemma_echo_reply_is_translated_back(
    request: Seq<u8>,
    h: int,
    reply: Seq<u8>,
    g: int,
    a: u8,
    k: u8,
    psid: u16,
)
    requires
        1 <= a,
        a + k <= 16,
        psid < pow2(k as nat),
        is_echo(request, h, 8),
        is_echo(reply, g, 0),
        translation(request, Some(psid_config(a, k, psid)), Direction::Egress) matches Some(change)
            && reply[g + 4] * 256 + reply[g + 5] == change.new_port,
    ensures
        translation(reply, Some(psid_config(a, k, psid)), Direction::Ingress) matches Some(back)
            && back.port_offset == g + 4 && back.new_port == request[h + 4] * 256 + request[h + 5],
{
    lemma_staging_round_trip(psid_config(a, k, psid), be16(request[h + 4], request[h + 5]));
}

} // verus!
