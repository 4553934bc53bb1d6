//! IPv4 and IPv6 addresses and prefixes.

use vstd::prelude::*;
use vstd::arithmetic::power2::pow2;

use crate::bits::power_of_two;

verus! {

/// An IPv4 address, as the number its four octets spell in network order.
#[derive(Clone, Copy, Debug, PartialEq, Eq, Structural)]
pub struct Ipv4Addr {
    pub bits: u32,
}

/// An IPv6 address, as the number its sixteen octets spell in network order.
#[derive(Clone, Copy, Debug, PartialEq, Eq, Structural)]
pub struct Ipv6Addr {
    pub bits: u128,
}

/// An IPv4 address with a prefix length. A length of 32 or more covers the whole address.
#[derive(Clone, Copy, Debug, PartialEq, Eq, Structural)]
pub struct Ipv4Net {
    pub addr: Ipv4Addr,
    pub prefix_len: u8,
}

/// An IPv6 address with a prefix length. A length of 128 or more covers the whole address.
#[derive(Clone, Copy, Debug, PartialEq, Eq, Structural)]
pub struct Ipv6Net {
    pub addr: Ipv6Addr,
    pub prefix_len: u8,
}

/// `bits` of a `width`-bit address with everything after the first `prefix_len` bits cleared.
pub open spec fn truncated(bits: int, width: int, prefix_len: int) -> int {
    if prefix_len >= width {
        bits
    } else {
        bits - bits % (pow2((width - prefix_len) as nat) as int)
    }
}

/// The number that big-endian bytes spell.
pub open spec fn be_value(bytes: Seq<u8>) -> int
    decreases bytes.len(),
{
    if bytes.len() == 0 {
        0
    } else {
        be_value(bytes.drop_last()) * 256 + bytes.last()
    }
}

impl Ipv4Net {
    /// The address with its host bits cleared.
    pub open spec fn spec_network(self) -> Ipv4Addr {
        Ipv4Addr { bits: truncated(self.addr.bits as int, 32, self.prefix_len as int) as u32 }
    }

    /// A prefix of `addr`; `None` if and only if the length exceeds 32.
    pub fn new(addr: Ipv4Addr, prefix_len: u8) -> (r: Option<Ipv4Net>)
        ensures
            prefix_len <= 32 ==> r == Some((Ipv4Net { addr, prefix_len })),
            prefix_len > 32 ==> r is None,
    {
        if prefix_len > 32 {
            None
        } else {
            Some(Ipv4Net { addr, prefix_len })
        }
    }

    /// The address with its host bits cleared.
    pub fn network(&self) -> (r: Ipv4Addr)
        ensures
            r == self.spec_network(),
            r.bits as int == truncated(self.addr.bits as int, 32, self.prefix_len as int),
    {
        if self.prefix_len >= 32 {
            return self.addr;
        }
        let step: u128 = power_of_two(32 - self.prefix_len as u32);
        let bits: u128 = self.addr.bits as u128;
        let rest: u128 = bits % step;
        proof {
            vstd::arithmetic::div_mod::lemma_mod_decreases(bits as nat, step as nat);
        }
        Ipv4Addr { bits: (bits - rest) as u32 }
    }

    /// The prefix with its host bits cleared.
    pub fn trunc(&self) -> (r: Ipv4Net)
        ensures
            r == (Ipv4Net { addr: self.spec_network(), prefix_len: self.prefix_len }),
    {
        Ipv4Net { addr: self.network(), prefix_len: self.prefix_len }
    }
}

impl Ipv6Net {
    /// Whether the length is one that an IPv6 prefix can have.
    pub open spec fn valid(self) -> bool {
        self.prefix_len <= 128
    }

    /// The address with its host bits cleared.
    pub open spec fn spec_network(self) -> Ipv6Addr {
        Ipv6Addr { bits: truncated(self.addr.bits as int, 128, self.prefix_len as int) as u128 }
    }

    /// Whether `addr` agrees with the prefix in its first `prefix_len` bits.
    pub open spec fn spec_contains(self, addr: Ipv6Addr) -> bool {
        truncated(addr.bits as int, 128, self.prefix_len as int) == truncated(
            self.addr.bits as int,
            128,
            self.prefix_len as int,
        )
    }

    /// A prefix of `addr`; `None` if and only if the length exceeds 128.
    pub fn new(addr: Ipv6Addr, prefix_len: u8) -> (r: Option<Ipv6Net>)
        ensures
            prefix_len <= 128 ==> r == Some((Ipv6Net { addr, prefix_len })),
            prefix_len > 128 ==> r is None,
    {
        if prefix_len > 128 {
            None
        } else {
            Some(Ipv6Net { addr, prefix_len })
        }
    }

    /// The address with its host bits cleared.
    pub fn network(&self) -> (r: Ipv6Addr)
        ensures
            r == self.spec_network(),
            r.bits as int == truncated(self.addr.bits as int, 128, self.prefix_len as int),
    {
        if self.prefix_len >= 128 {
            return self.addr;
        }
        if self.prefix_len == 0 {
            proof {
                lemma_pow2_128();
                vstd::arithmetic::div_mod::lemma_small_mod(self.addr.bits as nat, pow2(128));
            }
            return Ipv6Addr { bits: 0 };
        }
        let step: u128 = power_of_two(128 - self.prefix_len as u32);
        let rest: u128 = self.addr.bits % step;
        proof {
            vstd::arithmetic::div_mod::lemma_mod_decreases(self.addr.bits as nat, step as nat);
        }
        Ipv6Addr { bits: self.addr.bits - rest }
    }

    /// The prefix with its host bits cleared.
    pub fn trunc(&self) -> (r: Ipv6Net)
        ensures
            r == (Ipv6Net { addr: self.spec_network(), prefix_len: self.prefix_len }),
    {
        Ipv6Net { addr: self.network(), prefix_len: self.prefix_len }
    }

    /// Whether `addr` lies in the prefix.
    pub fn contains(&self, addr: Ipv6Addr) -> (r: bool)
        ensures
            r == self.spec_contains(addr),
    {
        let other = Ipv6Net { addr, prefix_len: self.prefix_len };
        self.network().bits == other.network().bits
    }
}

/// Clearing the host bits keeps the first bits and leaves zeros: what is left is the largest
/// multiple of the size of the host part that is not larger.
pub proof fn lemma_truncated_keeps_first_bits(bits: int, width: int, len: int)
    requires
        0 <= bits,
        0 <= len <= width,
    ensures
        truncated(bits, width, len) == bits / (pow2((width - len) as nat) as int) * pow2(
            (width - len) as nat,
        ),
        truncated(bits, width, len) / (pow2((width - len) as nat) as int) == bits / (pow2(
            (width - len) as nat,
        ) as int),
        truncated(bits, width, len) <= bits < truncated(bits, width, len) + pow2(
            (width - len) as nat,
        ),
{
    let n = pow2((width - len) as nat) as int;
    vstd::arithmetic::power2::lemma_pow2_pos((width - len) as nat);
    vstd::arithmetic::power2::lemma2_to64();
    vstd::arithmetic::div_mod::lemma_fundamental_div_mod(bits, n);
    vstd::arithmetic::div_mod::lemma_mod_pos_bound(bits, n);
    let q = bits / n;
    assert(n * q == q * n) by (nonlinear_arith);
    vstd::arithmetic::div_mod::lemma_div_by_multiple(q, n);
}

/// An address lies in a prefix just where the two agree in the first bits, as many as the prefix
/// is long.
pub proof fn lemma_contains_compares_first_bits(net: Ipv6Net, addr: Ipv6Addr)
    requires
        net.prefix_len <= 128,
    ensures
        net.spec_contains(addr) <==> addr.bits as int / (pow2((128 - net.prefix_len) as nat) as int)
            == net.addr.bits as int / (pow2((128 - net.prefix_len) as nat) as int),
{
    lemma_truncated_keeps_first_bits(addr.bits as int, 128, net.prefix_len as int);
    lemma_truncated_keeps_first_bits(net.addr.bits as int, 128, net.prefix_len as int);
}

/// A prefix with its host bits cleared has the same first bits and zeros behind them.
pub proof fn lemma_networks_have_no_host_bits(v4: Ipv4Net, v6: Ipv6Net)
    requires
        v4.prefix_len <= 32,
        v6.prefix_len <= 128,
    ensures
        v4.spec_network().bits == v4.addr.bits as int / (pow2((32 - v4.prefix_len) as nat) as int)
            * pow2((32 - v4.prefix_len) as nat),
        v6.spec_network().bits == v6.addr.bits as int / (pow2((128 - v6.prefix_len) as nat) as int)
            * pow2((128 - v6.prefix_len) as nat),
{
    lemma_truncated_keeps_first_bits(v4.addr.bits as int, 32, v4.prefix_len as int);
    lemma_truncated_keeps_first_bits(v6.addr.bits as int, 128, v6.prefix_len as int);
    assert(0 <= truncated(v4.addr.bits as int, 32, v4.prefix_len as int)) by {
        vstd::arithmetic::power2::lemma_pow2_pos((32 - v4.prefix_len) as nat);
        let n = pow2((32 - v4.prefix_len) as nat) as int;
        let q = v4.addr.bits as int / n;
        assert(0 <= q * n) by (nonlinear_arith)
            requires
                0 <= q,
                0 < n,
        ;
    }
    assert(0 <= truncated(v6.addr.bits as int, 128, v6.prefix_len as int)) by {
        vstd::arithmetic::power2::lemma_pow2_pos((128 - v6.prefix_len) as nat);
        let n = pow2((128 - v6.prefix_len) as nat) as int;
        let q = v6.addr.bits as int / n;
        assert(0 <= q * n) by (nonlinear_arith)
            requires
                0 <= q,
                0 < n,
        ;
    }
}

/// The number that big-endian bytes spell is made of the bytes in their places: the last is its
/// remainder by 256, and each byte before weighs 256 times as much as the next.
pub proof fn lemma_be_value_of_bytes(bytes: Seq<u8>, i: int)
    requires
        0 <= i < bytes.len(),
    ensures
        0 <= be_value(bytes) < crate::dhcpv6::tlv::pow256(bytes.len()),
        be_value(bytes) / (crate::dhcpv6::tlv::pow256((bytes.len() - 1 - i) as nat) as int) % 256
            == bytes[i],
    decreases bytes.len(),
{
    let n = bytes.len();
    let front = bytes.drop_last();
    let v = be_value(bytes);
    let w = be_value(front);
    if front.len() > 0 {
        lemma_be_value_of_bytes(front, if i < n - 1 { i } else { 0 });
    } else {
        assert(w == 0);
        reveal_with_fuel(crate::dhcpv6::tlv::pow256, 2);
    }
    assert(0 <= w < crate::dhcpv6::tlv::pow256((n - 1) as nat));
    assert(v == w * 256 + bytes.last());
    if i == n - 1 {
        reveal_with_fuel(crate::dhcpv6::tlv::pow256, 1);
        assert(crate::dhcpv6::tlv::pow256(0) == 1);
        assert(v / 1 == v);
    } else {
        let m = crate::dhcpv6::tlv::pow256((n - 2 - i) as nat) as int;
        crate::dhcpv6::tlv::lemma_pow256_pos((n - 1 - i) as nat);
        crate::dhcpv6::tlv::lemma_pow256_pos((n - 2 - i) as nat);
        vstd::arithmetic::div_mod::lemma_div_denominator(v, 256, m);
        assert(v / 256 == w);
        assert(front[i] == bytes[i]);
    }
}

pub proof fn lemma_pow2_128()
    ensures
        pow2(128) == 0x1_0000_0000_0000_0000_0000_0000_0000_0000,
{
    vstd::arithmetic::power2::lemma2_to64();
    vstd::arithmetic::power2::lemma2_to64_rest();
    vstd::arithmetic::power2::lemma_pow2_adds(64, 64);
}

} // verus!
