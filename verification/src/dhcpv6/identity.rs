//! Who the client is: addresses of its interface, its association and its identifier.

use vstd::arithmetic::power2::{lemma2_to64, lemma2_to64_rest, lemma_pow2_adds, pow2};
use vstd::prelude::*;

use crate::dhcpv6::wire::{be16_bytes, be32_bytes};
use crate::net::Ipv6Addr;

verus! {

/// The start of the clock in an identifier, in seconds of Unix time: the year 2000.
pub const DUID_LLT_EPOCH: u64 = 946_684_800;

/// An address of an interface.
#[derive(Clone, Copy, Debug)]
pub enum IfAddress {
    /// An IPv6 address.
    Inet6(Ipv6Addr),
    /// A link-layer address: its length and its first six bytes.
    Link { len: usize, bytes: [u8; 6] },
    /// An address of another kind.
    Other,
}

/// An entry in the list of interface addresses.
#[derive(Clone, Debug)]
pub struct IfAddrEntry {
    pub interface: String,
    pub address: Option<IfAddress>,
}

/// Whether an address is link-local: in `fe80::/10`.
pub open spec fn is_link_local(a: Ipv6Addr) -> bool {
    a.bits / 0x40_0000_0000_0000_0000_0000_0000_0000 == 0x3fa
}

/// The first link-local address of the interface.
pub open spec fn link_local_in(list: Seq<IfAddrEntry>, iface: Seq<char>) -> Option<Ipv6Addr>
    decreases list.len(),
{
    if list.len() == 0 {
        None
    } else if list[0].interface@ != iface {
        link_local_in(list.drop_first(), iface)
    } else {
        match list[0].address {
            Some(IfAddress::Inet6(a)) if is_link_local(a) => Some(a),
            _ => link_local_in(list.drop_first(), iface),
        }
    }
}

/// Whether two texts are the same.
fn same_text(a: &String, b: &String) -> (r: bool)
    ensures
        r == (a@ == b@),
{
    *a == *b
}

/// The first link-local address of the interface.
pub fn get_link_local_addr(list: &Vec<IfAddrEntry>, iface: &String) -> (r: Option<Ipv6Addr>)
    ensures
        r == link_local_in(list@, iface@),
{
    let mut i: usize = 0;
    proof {
        assert(list@.skip(0) =~= list@);
    }
    while i < list.len()
        invariant
            i <= list.len(),
            link_local_in(list@.skip(i as int), iface@) == link_local_in(list@, iface@),
        decreases list.len() - i,
    {
        proof {
            assert(list@.skip(i as int).drop_first() =~= list@.skip(i + 1));
        }
        if same_text(&list[i].interface, iface) {
            match list[i].address {
                Some(IfAddress::Inet6(a)) => {
                    if a.bits / 0x40_0000_0000_0000_0000_0000_0000_0000 == 0x3fa {
                        return Some(a);
                    }
                },
                _ => {},
            }
        }
        i = i + 1;
    }
    None
}

/// The first six-byte link-layer address of the interface, or zeros.
pub open spec fn mac_in(list: Seq<IfAddrEntry>, iface: Seq<char>) -> [u8; 6]
    decreases list.len(),
{
    if list.len() == 0 {
        [0u8, 0, 0, 0, 0, 0]
    } else {
        match list[0].address {
            Some(IfAddress::Link { len, bytes }) if list[0].interface@ == iface && len == 6 => bytes,
            _ => mac_in(list.drop_first(), iface),
        }
    }
}

/// The first six-byte link-layer address of the interface, or zeros.
pub fn get_mac_addr(list: &Vec<IfAddrEntry>, iface: &String) -> (r: [u8; 6])
    ensures
        r@ == mac_in(list@, iface@)@,
{
    let mut i: usize = 0;
    proof {
        assert(list@.skip(0) =~= list@);
    }
    while i < list.len()
        invariant
            i <= list.len(),
            mac_in(list@.skip(i as int), iface@) == mac_in(list@, iface@),
        decreases list.len() - i,
    {
        proof {
            assert(list@.skip(i as int).drop_first() =~= list@.skip(i + 1));
        }
        if same_text(&list[i].interface, iface) {
            match list[i].address {
                Some(IfAddress::Link { len, bytes }) => {
                    if len == 6 {
                        return bytes;
                    }
                },
                _ => {},
            }
        }
        i = i + 1;
    }
    [0, 0, 0, 0, 0, 0]
}

/// The id of the association: the index of the interface, or 0 where it has none.
pub fn get_iaid(ifindex: Option<u32>) -> (r: u32)
    ensures
        r == (match ifindex {
            Some(idx) => idx,
            None => 0,
        }),
{
    match ifindex {
        Some(idx) => idx,
        None => 0,
    }
}

/// Whether a stored identifier can be used.
fn is_usable_duid(data: &[u8]) -> (r: bool)
    ensures
        r == (data@.len() >= 4),
{
    data.len() >= 4
}

/// The seconds since the year 2000, kept to thirty-two bits.
pub open spec fn duid_time(unix_secs: u64) -> int {
    (if unix_secs >= DUID_LLT_EPOCH {
        unix_secs - DUID_LLT_EPOCH
    } else {
        0
    }) % 0x1_0000_0000
}

/// An identifier made of a link-layer address and a time: type 1, hardware type Ethernet, time
/// and address.
pub fn new_duid(unix_secs: u64, mac: [u8; 6]) -> (r: Vec<u8>)
    ensures
        r@ == be16_bytes(1) + be16_bytes(1) + be32_bytes(duid_time(unix_secs)) + mac@,
{
    let time: u64 = unix_secs.saturating_sub(DUID_LLT_EPOCH) % 0x1_0000_0000;
    let duid: Vec<u8> = vec![
        0,
        1,
        0,
        1,
        (time / 0x100_0000 % 256) as u8,
        (time / 0x1_0000 % 256) as u8,
        (time / 0x100 % 256) as u8,
        (time % 256) as u8,
        mac[0],
        mac[1],
        mac[2],
        mac[3],
        mac[4],
        mac[5],
    ];
    proof {
        assert(duid@ =~= be16_bytes(1) + be16_bytes(1) + be32_bytes(duid_time(unix_secs)) + mac@);
    }
    duid
}

/// An identifier, and whether it is new and is to be stored.
#[derive(Clone, Debug)]
pub struct Duid {
    pub bytes: Vec<u8>,
    pub is_new: bool,
}

/// An identifier made of the link-layer address of the interface and a time.
pub open spec fn generated_duid(list: Seq<IfAddrEntry>, iface: Seq<char>, unix_secs: u64) -> Seq<u8> {
    be16_bytes(1) + be16_bytes(1) + be32_bytes(duid_time(unix_secs)) + mac_in(list, iface)@
}

/// The stored identifier if it can be used, and else a new one; and whether it is new.
pub open spec fn chosen_duid(
    stored: Option<Seq<u8>>,
    list: Seq<IfAddrEntry>,
    iface: Seq<char>,
    unix_secs: u64,
) -> (Seq<u8>, bool) {
    match stored {
        Some(data) if data.len() >= 4 => (data, false),
        _ => (generated_duid(list, iface, unix_secs), true),
    }
}

/// The stored identifier if it can be used, and else a new one.
pub fn load_or_create_duid(
    stored: Option<Vec<u8>>,
    list: &Vec<IfAddrEntry>,
    iface: &String,
    unix_secs: u64,
) -> (r: Duid)
    ensures
        (r.bytes@, r.is_new) == chosen_duid(
            match stored {
                Some(data) => Some(data@),
                None => None,
            },
            list@,
            iface@,
            unix_secs,
        ),
{
    if let Some(data) = stored {
        if is_usable_duid(data.as_slice()) {
            return Duid { bytes: data, is_new: false };
        }
    }
    Duid { bytes: new_duid(unix_secs, get_mac_addr(list, iface)), is_new: true }
}

/// An identifier, once it is stored, is used from then on, whatever becomes of clock and
/// addresses.
pub proof fn lemma_stored_duid_is_kept(
    stored: Option<Seq<u8>>,
    list: Seq<IfAddrEntry>,
    later_list: Seq<IfAddrEntry>,
    iface: Seq<char>,
    unix_secs: u64,
    later_secs: u64,
)
    ensures
        ({
            let duid = chosen_duid(stored, list, iface, unix_secs).0;
            chosen_duid(Some(duid), later_list, iface, later_secs) == (duid, false)
        }),
{
}

/// Whether an entry is a link-local address of the interface: an IPv6 address whose first ten bits
/// are `1111111010`.
pub open spec fn is_link_local_of(e: IfAddrEntry, iface: Seq<char>) -> bool {
    &&& e.interface@ == iface
    &&& e.address matches Some(IfAddress::Inet6(a)) && a.bits as int / (pow2(118) as int)
        == 0b1111111010
}

/// The link-local address that is found is the first that the interface has; none is found only
/// where there is none.
pub proof fn lemma_first_link_local_is_found(list: Seq<IfAddrEntry>, iface: Seq<char>, i: int)
    requires
        0 <= i <= list.len(),
        forall|j: int| 0 <= j < i ==> !is_link_local_of(#[trigger] list[j], iface),
    ensures
        i < list.len() && is_link_local_of(list[i], iface) ==> link_local_in(list, iface) == Some(
            list[i].address->Some_0->Inet6_0,
        ),
        i == list.len() ==> link_local_in(list, iface) is None,
    decreases list.len(),
{
    lemma2_to64();
    lemma2_to64_rest();
    lemma_pow2_adds(54, 64);
    if list.len() > 0 && i > 0 {
        let rest = list.drop_first();
        assert forall|j: int| 0 <= j < i - 1 implies !is_link_local_of(#[trigger] rest[j], iface) by {
            assert(rest[j] == list[j + 1]);
        }
        assert(!is_link_local_of(list[0], iface));
        lemma_first_link_local_is_found(rest, iface, i - 1);
    }
}

/// Whether an entry is a link-layer address of the interface with six bytes.
pub open spec fn is_mac_of(e: IfAddrEntry, iface: Seq<char>) -> bool {
    &&& e.interface@ == iface
    &&& e.address matches Some(IfAddress::Link { len, .. }) && len == 6
}

/// The link-layer address that is found is the first with six bytes that the interface has, or
/// zeros where it has none.
pub proof fn lemma_first_mac_is_found(list: Seq<IfAddrEntry>, iface: Seq<char>, i: int)
    requires
        0 <= i <= list.len(),
        forall|j: int| 0 <= j < i ==> !is_mac_of(#[trigger] list[j], iface),
    ensures
        i < list.len() && is_mac_of(list[i], iface) ==> mac_in(list, iface)
            == list[i].address->Some_0->bytes,
        i == list.len() ==> mac_in(list, iface)@ == seq![0u8, 0, 0, 0, 0, 0],
    decreases list.len(),
{
    if list.len() > 0 && i > 0 {
        let rest = list.drop_first();
        assert forall|j: int| 0 <= j < i - 1 implies !is_mac_of(#[trigger] rest[j], iface) by {
            assert(rest[j] == list[j + 1]);
        }
        assert(!is_mac_of(list[0], iface));
        lemma_first_mac_is_found(rest, iface, i - 1);
    } else if list.len() == 0 {
        assert(mac_in(list, iface)@ =~= seq![0u8, 0, 0, 0, 0, 0]);
    }
}

/// A new identifier, byte by byte: type 1, hardware type 1, the seconds since the start of the year
/// 2000, and the link-layer address. A stored one with at least four bytes is kept.
pub proof fn lemma_identifier_bytes(
    list: Seq<IfAddrEntry>,
    iface: Seq<char>,
    unix_secs: u64,
    secs: u32,
    stored: Seq<u8>,
)
    requires
        unix_secs == 946_684_800 + secs,
    ensures
        chosen_duid(None, list, iface, unix_secs) == (
            seq![
                0u8,
                1,
                0,
                1,
                (secs / 0x100_0000) as u8,
                (secs / 0x1_0000 % 256) as u8,
                (secs / 0x100 % 256) as u8,
                (secs % 256) as u8,
            ] + mac_in(list, iface)@,
            true,
        ),
        stored.len() >= 4 ==> chosen_duid(Some(stored), list, iface, unix_secs) == (stored, false),
        stored.len() < 4 ==> chosen_duid(Some(stored), list, iface, unix_secs) == chosen_duid(
            None,
            list,
            iface,
            unix_secs,
        ),
{
    assert(duid_time(unix_secs) == secs);
    assert(chosen_duid(None, list, iface, unix_secs).0 =~= seq![
        0u8,
        1,
        0,
        1,
        (secs / 0x100_0000) as u8,
        (secs / 0x1_0000 % 256) as u8,
        (secs / 0x100 % 256) as u8,
        (secs % 256) as u8,
    ] + mac_in(list, iface)@);
}

} // verus!
