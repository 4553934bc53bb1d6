//! Listening to the replies that another DHCPv6 client on the interface receives.

use vstd::arithmetic::power2::pow2;
use vstd::prelude::*;
use vstd::slice::slice_subrange;

use crate::dhcpv6::event::{DhcpV6Event, EventView};
use crate::dhcpv6::exchange::MSG_REPLY;
use crate::dhcpv6::parser::{
    container_of, info_from_contents, info_in, lemma_delegated_prefix, rules_from_contents,
    rules_in,
};
use crate::dhcpv6::tlv::{
    be16, lemma_bytes_spell_number, lemma_pow256_is_pow2, pow256, read_padded, zero_padded,
};
use crate::dhcpv6::wire::{contents_of, message_of, read_message, Contents, ContentsView};
use crate::net::{be_value, lemma_be_value_of_bytes, lemma_pow2_128, Ipv6Addr, Ipv6Net};

verus! {

/// Where the payload of a DHCPv6 datagram starts in an Ethernet frame.
pub const PAYLOAD_OFFSET: usize = 62;

/// A receiver that listens on an interface.
#[derive(Clone, Debug)]
pub struct CaptureReceiver {
    pub upstream_interface: String,
}

impl CaptureReceiver {
    pub fn new(upstream_interface: String) -> (r: CaptureReceiver)
        ensures
            r.upstream_interface@ == upstream_interface@,
    {
        CaptureReceiver { upstream_interface }
    }
}

/// An instruction of the packet filter.
#[derive(Clone, Copy, Debug, PartialEq, Eq, Structural)]
pub struct FilterInsn {
    pub code: u16,
    pub jt: u8,
    pub jf: u8,
    pub k: u32,
}

/// Load two bytes at `k`.
pub const BPF_LDH: u16 = 0x28;

/// Load the byte at `k`.
pub const BPF_LDB: u16 = 0x30;

/// Skip `jt` instructions if the value is `k`, else `jf`.
pub const BPF_JEQ: u16 = 0x15;

/// Return `k`.
pub const BPF_RET: u16 = 0x06;

/// The number of bytes of a frame that a filter lets through, run from instruction `pc` on with
/// the value `acc`. A load beyond the end of the frame, or a jump beyond that of the filter,
/// rejects it.
pub open spec fn run_filter(prog: Seq<FilterInsn>, pc: int, acc: u32, frame: Seq<u8>) -> u32
    decreases prog.len() - pc,
{
    if pc < 0 || pc >= prog.len() {
        0
    } else {
        let i = prog[pc];
        if i.code == BPF_LDH {
            if i.k + 2 > frame.len() {
                0
            } else {
                run_filter(
                    prog,
                    pc + 1,
                    be16(frame[i.k as int], frame[i.k + 1]) as u32,
                    frame,
                )
            }
        } else if i.code == BPF_LDB {
            if i.k + 1 > frame.len() {
                0
            } else {
                run_filter(prog, pc + 1, frame[i.k as int] as u32, frame)
            }
        } else if i.code == BPF_JEQ {
            let next = pc + 1 + if acc == i.k {
                i.jt as int
            } else {
                i.jf as int
            };
            if next < prog.len() {
                run_filter(prog, next, acc, frame)
            } else {
                0
            }
        } else {
            i.k
        }
    }
}

/// The filter of the capture socket.
pub open spec fn capture_filter_program() -> Seq<FilterInsn> {
    seq![
        FilterInsn { code: BPF_LDH, jt: 0, jf: 0, k: 12 },
        FilterInsn { code: BPF_JEQ, jt: 0, jf: 5, k: 0x86DD },
        FilterInsn { code: BPF_LDB, jt: 0, jf: 0, k: 20 },
        FilterInsn { code: BPF_JEQ, jt: 0, jf: 3, k: 17 },
        FilterInsn { code: BPF_LDH, jt: 0, jf: 0, k: 56 },
        FilterInsn { code: BPF_JEQ, jt: 0, jf: 1, k: 546 },
        FilterInsn { code: BPF_RET, jt: 0, jf: 0, k: 65535 },
        FilterInsn { code: BPF_RET, jt: 0, jf: 0, k: 0 },
    ]
}

/// The filter of the capture socket.
pub fn capture_filter() -> (r: Vec<FilterInsn>)
    ensures
        r@ == capture_filter_program(),
{
    let program: Vec<FilterInsn> = vec![
        FilterInsn { code: BPF_LDH, jt: 0, jf: 0, k: 12 },
        FilterInsn { code: BPF_JEQ, jt: 0, jf: 5, k: 0x86DD },
        FilterInsn { code: BPF_LDB, jt: 0, jf: 0, k: 20 },
        FilterInsn { code: BPF_JEQ, jt: 0, jf: 3, k: 17 },
        FilterInsn { code: BPF_LDH, jt: 0, jf: 0, k: 56 },
        FilterInsn { code: BPF_JEQ, jt: 0, jf: 1, k: 546 },
        FilterInsn { code: BPF_RET, jt: 0, jf: 0, k: 65535 },
        FilterInsn { code: BPF_RET, jt: 0, jf: 0, k: 0 },
    ];
    proof {
        assert(program@ =~= capture_filter_program());
    }
    program
}

/// Whether a frame is an IPv6 packet with a UDP datagram for the DHCPv6 client port.
pub open spec fn is_client_datagram(frame: Seq<u8>) -> bool {
    &&& frame.len() >= 58
    &&& be16(frame[12], frame[13]) == 0x86DD
    &&& frame[20] == 17
    &&& be16(frame[56], frame[57]) == 546
}

/// The filter lets through datagrams for the DHCPv6 client port, whole, and nothing else.
pub proof fn lemma_filter_passes_client_datagrams(frame: Seq<u8>)
    ensures
        run_filter(capture_filter_program(), 0, 0, frame) == (if is_client_datagram(frame) {
            65535u32
        } else {
            0u32
        }),
{
    reveal_with_fuel(run_filter, 9);
}

/// Whether a frame is for this host: the address of the host is not known, or the frame is for
/// that address or for a multicast group. A frame too short for an address is not.
pub open spec fn is_for_host(frame: Seq<u8>, ll: Option<Ipv6Addr>) -> bool {
    frame.len() >= 54 && match ll {
        None => true,
        Some(a) => frame[38] == 0xff || be_value(frame.subrange(38, 54)) == a.bits,
    }
}

/// Whether a frame is for this host.
pub fn passes_dst_filter(frame: &[u8], our_ll_addr: &Option<Ipv6Addr>) -> (r: bool)
    ensures
        r == is_for_host(frame@, *our_ll_addr),
{
    if frame.len() < 54 {
        return false;
    }
    match our_ll_addr {
        None => true,
        Some(ll) => {
            let dst = slice_subrange(frame, 38, 54);
            proof {
                assert(zero_padded(dst@, 16) =~= dst@);
            }
            frame[38] == 0xff || read_padded(dst, 16) == ll.bits
        },
    }
}

/// A frame that claims to be a Reply and cannot be decoded.
#[derive(Clone, Copy, Debug, PartialEq, Eq, Structural)]
pub struct UndecodableReply;

/// What the contents of a Reply announce: nothing unless it is successful and has a delegated
/// prefix, and the rules with the prefix if it brings rules that can be read.
pub open spec fn announced(c: ContentsView) -> Option<EventView> {
    match (c.status, info_in(c)) {
        (Some(status), _) if status != 0 => None,
        (_, None) => None,
        (_, Some(info)) => match rules_in(c.container) {
            Ok(Some(rules)) => Some(EventView::Both { rules, ia_pd: info.prefix }),
            _ => Some(EventView::IaPdReceived(info.prefix)),
        },
    }
}

/// What a frame announces. Frames that are too short, not for this host or not a Reply announce
/// nothing.
pub open spec fn frame_news(frame: Seq<u8>, ll: Option<Ipv6Addr>) -> Result<
    Option<EventView>,
    UndecodableReply,
> {
    if frame.len() < 63 || !is_for_host(frame, ll) || frame[62] != MSG_REPLY {
        Ok(None)
    } else {
        match message_of(frame.subrange(62, frame.len() as int)) {
            None => Err(UndecodableReply),
            Some(m) => Ok(announced(contents_of(m, None))),
        }
    }
}

/// Whether a result holds the expected news.
pub open spec fn news_matches(
    r: Result<Option<DhcpV6Event>, UndecodableReply>,
    e: Result<Option<EventView>, UndecodableReply>,
) -> bool {
    match e {
        Ok(Some(event)) => r matches Ok(Some(v)) && v@ == event,
        Ok(None) => r matches Ok(None),
        Err(_) => r is Err,
    }
}

/// Reads what a frame announces.
pub fn process_frame(frame: &[u8], our_ll_addr: &Option<Ipv6Addr>) -> (r: Result<
    Option<DhcpV6Event>,
    UndecodableReply,
>)
    ensures
        news_matches(r, frame_news(frame@, *our_ll_addr)),
{
    if frame.len() < 63 {
        return Ok(None);
    }
    if !passes_dst_filter(frame, our_ll_addr) {
        return Ok(None);
    }
    if frame[PAYLOAD_OFFSET] != MSG_REPLY {
        return Ok(None);
    }
    let msg = match read_message(slice_subrange(frame, PAYLOAD_OFFSET, frame.len())) {
        Some(m) => m,
        None => {
            return Err(UndecodableReply);
        },
    };
    Ok(news_from_contents(&msg.contents(None)))
}

/// Reads what the contents of a Reply announce.
pub fn news_from_contents(c: &Contents) -> (r: Option<DhcpV6Event>)
    ensures
        match announced(c@) {
            Some(event) => r matches Some(v) && v@ == event,
            None => r is None,
        },
{
    match c.status {
        Some(s) if s != 0 => {
            return None;
        },
        _ => {},
    }
    let ia_pd = match info_from_contents(c) {
        Some(info) => info.prefix,
        None => {
            return None;
        },
    };
    match rules_from_contents(c) {
        Ok(Some(rules)) => Some(DhcpV6Event::Both { rules, ia_pd }),
        _ => Some(DhcpV6Event::IaPdReceived(ia_pd)),
    }
}

/// A capture in progress.
#[derive(Clone, Copy, Debug)]
pub struct Capture {
    /// The link-local address of the host, once it is known.
    pub our_ll_addr: Option<Ipv6Addr>,
}

impl Capture {
    /// Handles a frame. `lookup` is the link-local address that the interface has now, which
    /// is taken over while none is known.
    pub fn handle_frame(&mut self, frame: &[u8], lookup: Option<Ipv6Addr>) -> (r: Result<
        Option<DhcpV6Event>,
        UndecodableReply,
    >)
        ensures
            final(self).our_ll_addr == (match old(self).our_ll_addr {
                Some(a) => Some(a),
                None => lookup,
            }),
            news_matches(r, frame_news(frame@, final(self).our_ll_addr)),
    {
        if self.our_ll_addr.is_none() {
            self.our_ll_addr = lookup;
        }
        process_frame(frame, &self.our_ll_addr)
    }
}

/// A reply to another host announces nothing, once the address of this host is known.
pub proof fn lemma_replies_to_others_announce_nothing(frame: Seq<u8>, ll: Ipv6Addr)
    requires
        !is_for_host(frame, Some(ll)),
    ensures
        frame_news(frame, Some(ll)) == Ok::<Option<EventView>, UndecodableReply>(None),
{
}

/// Whether sixteen bytes of a frame, from byte 38 on, are those of an address.
pub open spec fn is_sent_to(frame: Seq<u8>, a: Ipv6Addr) -> bool {
    forall|i: int|
        0 <= i < 16 ==> #[trigger] frame[38 + i] == a.bits as int / (pow2(
            (8 * (15 - i)) as nat,
        ) as int) % 256
}

/// What a frame is taken for. The destination address stands in bytes 38 to 53 and the message
/// from byte 62 on. A Reply, which is message type 7, to the address of this host or to a
/// multicast group is read; other messages, and those to other hosts, are passed over. While the
/// address of this host is not known, all frames are taken for its own.
pub proof fn lemma_which_frames_are_read(frame: Seq<u8>, ll: Ipv6Addr)
    ensures
        frame.len() < 63 ==> frame_news(frame, Some(ll)) == Ok::<
            Option<EventView>,
            UndecodableReply,
        >(None) && frame_news(frame, None) == Ok::<Option<EventView>, UndecodableReply>(None),
        frame.len() >= 63 && frame[62] != 7 ==> frame_news(frame, Some(ll)) == Ok::<
            Option<EventView>,
            UndecodableReply,
        >(None) && frame_news(frame, None) == Ok::<Option<EventView>, UndecodableReply>(None),
        frame.len() >= 63 && frame[38] != 0xff && !is_sent_to(frame, ll) ==> frame_news(
            frame,
            Some(ll),
        ) == Ok::<Option<EventView>, UndecodableReply>(None),
        frame.len() >= 63 && frame[62] == 7 ==> {
            let message = frame.subrange(62, frame.len() as int);
            let read = match message_of(message) {
                Some(m) => Ok(announced(contents_of(m, None))),
                None => Err(UndecodableReply),
            };
            &&& frame_news(frame, None) == read
            &&& frame[38] == 0xff || is_sent_to(frame, ll) ==> frame_news(frame, Some(ll)) == read
        },
{
    if frame.len() >= 63 {
        let dst = frame.subrange(38, 54);
        lemma_pow256_is_pow2(16);
        lemma_pow2_128();
        if is_sent_to(frame, ll) {
            assert forall|i: int| 0 <= i < dst.len() implies #[trigger] dst[i] == ll.bits as int / (
            pow256((dst.len() - 1 - i) as nat) as int) % 256 by {
                assert(dst[i] == frame[38 + i]);
                lemma_pow256_is_pow2((15 - i) as nat);
                assert(8 * (15 - i) as nat == (8 * (15 - i)) as nat);
            }
            lemma_bytes_spell_number(dst, ll.bits as int);
        } else {
            let i = choose|i: int|
                0 <= i < 16 && #[trigger] frame[38 + i] != ll.bits as int / (pow2(
                    (8 * (15 - i)) as nat,
                ) as int) % 256;
            lemma_be_value_of_bytes(dst, i);
            lemma_pow256_is_pow2((15 - i) as nat);
            assert(8 * (15 - i) as nat == (8 * (15 - i)) as nat);
            assert(dst[i] == frame[38 + i]);
        }
    }
}

/// What the contents of a Reply announce: nothing with a status other than zero or without a
/// prefix, in an association without a failure; else the prefix, without host bits, and with it
/// the rules of the container if there is one that can be read.
pub proof fn lemma_what_is_announced(c: ContentsView)
    ensures
        ({
            let refused = c.status is Some && c.status->Some_0 != 0;
            let usable = c.delegation is Some && !c.delegation->Some_0.failed
                && c.delegation->Some_0.prefix is Some
                && c.delegation->Some_0.prefix->Some_0.prefix_len <= 128;
            &&& refused || !usable ==> announced(c) is None
            &&& !refused && usable ==> {
                let p = c.delegation->Some_0.prefix->Some_0;
                let host = pow2((128 - p.prefix_len) as nat) as int;
                let net = Ipv6Net {
                    addr: Ipv6Addr { bits: (p.prefix_ip as int / host * host) as u128 },
                    prefix_len: p.prefix_len,
                };
                let readable = c.container is Some && container_of(c.container->Some_0) is Ok;
                &&& readable ==> announced(c) == Some(
                    EventView::Both {
                        rules: container_of(c.container->Some_0)->Ok_0,
                        ia_pd: net,
                    },
                )
                &&& !readable ==> announced(c) == Some(EventView::IaPdReceived(net))
            }
        }),
{
    if let Some(d) = c.delegation {
        lemma_delegated_prefix(d);
    }
}

} // verus!
