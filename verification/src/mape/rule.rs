//! A carried rule together with the prefix of the customer edge.

use vstd::arithmetic::div_mod::{
    lemma_basic_div, lemma_fundamental_div_mod, lemma_fundamental_div_mod_converse,
    lemma_mod_decreases, lemma_mod_multiples_basic, lemma_mod_pos_bound, lemma_small_mod,
};
use vstd::arithmetic::power2::{
    lemma2_to64, lemma2_to64_rest, lemma_pow2_adds, lemma_pow2_pos, lemma_pow2_strictly_increases,
    pow2,
};
use vstd::bits::lemma_u64_shr_is_div;
use vstd::prelude::*;

use crate::bits::power_of_two;
use crate::dhcpv6::option_mape::S46Rule;
use crate::map::calc::lemma_truncated_is_multiple;
use crate::mape::error::MapeError;
use crate::net::{lemma_pow2_128, truncated, Ipv4Addr, Ipv6Addr, Ipv6Net};

verus! {

/// A basic mapping rule applied to a delegated prefix.
#[derive(Clone, Copy, Debug, PartialEq, Eq, Structural)]
pub struct MapeRule {
    /// The basic mapping rule.
    pub bmr: S46Rule,
    /// The prefix delegated to the customer edge.
    pub ce_ipv6_prefix: Ipv6Net,
}

/// The number of PSID bits in the EA bits: those that the host part of the IPv4 address does
/// not take.
pub open spec fn ea_psid_len(bmr: S46Rule) -> int {
    let suffix_len = 32 - bmr.ipv4_prefix_len;
    if bmr.ea_len >= suffix_len {
        bmr.ea_len - suffix_len
    } else {
        0
    }
}

/// The host part of the IPv4 address.
pub open spec fn ipv4_suffix(bmr: S46Rule) -> int {
    bmr.ipv4_prefix.bits as int % (pow2((32 - bmr.ipv4_prefix_len) as nat) as int)
}

/// The host part of the IPv4 address, moved past the PSID bits within sixty-four bits, together
/// with the PSID.
pub open spec fn carried_ea_bits(bmr: S46Rule) -> u64 {
    let psid = match bmr.psid {
        Some(p) => p,
        None => 0,
    };
    ((ipv4_suffix(bmr) * pow2(ea_psid_len(bmr) as nat) % 0x1_0000_0000_0000_0000) as u64) | (
    psid as u64)
}

/// Whether the widths of a rule can be worked with: an IPv4 prefix of 1 to 32 bits.
pub open spec fn widths_fit(bmr: S46Rule) -> bool {
    1 <= bmr.ipv4_prefix_len <= 32
}

/// Whether the rule's IPv6 prefix and the EA bits fit into an address.
pub open spec fn has_room(bmr: S46Rule) -> bool {
    bmr.ipv6_prefix.prefix_len + bmr.ea_len <= 128
}

/// A PSID of the given length aligned to the left in sixteen bits.
pub open spec fn aligned_psid(psid: u16, psid_len: u8) -> int {
    if psid_len >= 16 {
        psid as int
    } else {
        psid * pow2((16 - psid_len) as nat) % 0x1_0000
    }
}

/// The interface identifier of RFC 7597: the IPv4 address, and the PSID in the last sixteen bits.
pub open spec fn rule_interface_id(rule: MapeRule) -> int {
    rule.bmr.ipv4_prefix.bits * 0x1_0000 + aligned_psid(rule.spec_psid(), rule.spec_psid_len())
}

/// The MAP address: the rule's IPv6 prefix, the EA bits in as many bits as the rule gives them,
/// and the interface identifier in what is left.
pub open spec fn map_address(rule: MapeRule) -> int {
    let r = rule.bmr.ipv6_prefix.prefix_len;
    let e = rule.bmr.ea_len;
    let rest = pow2((128 - r - e) as nat) as int;
    truncated(rule.bmr.ipv6_prefix.addr.bits as int, 128, r as int) + carried_ea_bits(rule.bmr) as int
        % (pow2(e as nat) as int) * rest + rule_interface_id(rule) % rest
}

/// Whether the EA value can be told from the EA bits: the host part of the IPv4 address finds
/// room in them, and the PSID in what it leaves.
pub open spec fn ea_value_fits(bmr: S46Rule) -> bool {
    &&& bmr.ea_len >= 32 - bmr.ipv4_prefix_len
    &&& bmr.psid matches Some(p) ==> p < pow2(ea_psid_len(bmr) as nat)
}

/// An EA value whose parts find room in the EA bits fits into them as a whole, so that the MAP
/// address holds it unchanged.
pub proof fn lemma_ea_value_fits(bmr: S46Rule)
    requires
        widths_fit(bmr),
        ea_value_fits(bmr),
    ensures
        carried_ea_bits(bmr) < pow2(bmr.ea_len as nat),
{
    let e = bmr.ea_len as nat;
    let k = ea_psid_len(bmr) as nat;
    let n = (32 - bmr.ipv4_prefix_len) as nat;
    lemma2_to64_rest();
    if e >= 64 {
        if e > 64 {
            lemma_pow2_strictly_increases(64, e);
        }
    } else {
        let suffix = ipv4_suffix(bmr);
        let moved = (suffix * pow2(k) % 0x1_0000_0000_0000_0000) as u64;
        let psid: u16 = match bmr.psid {
            Some(p) => p,
            None => 0,
        };
        lemma_pow2_pos(n);
        lemma_pow2_pos(k);
        lemma_pow2_pos(e);
        lemma_pow2_adds(n, k);
        lemma_mod_pos_bound(bmr.ipv4_prefix.bits as int, pow2(n) as int);
        assert(0 <= suffix * pow2(k) < pow2(n) * pow2(k)) by (nonlinear_arith)
            requires
                0 <= suffix < pow2(n),
                pow2(k) > 0,
        ;
        lemma_pow2_strictly_increases(e, 64);
        lemma_small_mod((suffix * pow2(k)) as nat, 0x1_0000_0000_0000_0000);
        if n > 0 {
            lemma_pow2_strictly_increases(k, e);
        }
        let w: u64 = e as u64;
        lemma_u64_shr_is_div(moved, w);
        lemma_u64_shr_is_div(psid as u64, w);
        lemma_u64_shr_is_div(moved | (psid as u64), w);
        lemma_basic_div(moved as int, pow2(e) as int);
        lemma_basic_div(psid as int, pow2(e) as int);
        let low = psid as u64;
        assert((moved | low) >> w == 0) by (bit_vector)
            requires
                moved >> w == 0,
                low >> w == 0,
                w < 64,
        ;
        let x = (moved | low) as int;
        lemma_fundamental_div_mod(x, pow2(e) as int);
        lemma_mod_pos_bound(x, pow2(e) as int);
        assert(pow2(e) * (x / (pow2(e) as int)) == 0) by (nonlinear_arith)
            requires
                x / (pow2(e) as int) == 0,
        ;
    }
}

impl MapeRule {
    pub fn new(bmr: S46Rule, ce_ipv6_prefix: Ipv6Net) -> (r: MapeRule)
        ensures
            r == (MapeRule { bmr, ce_ipv6_prefix }),
    {
        MapeRule { bmr, ce_ipv6_prefix }
    }

    /// The MAP address of the customer edge: the rule's IPv6 prefix, the EA bits and the
    /// interface identifier. Where prefix and EA bits leave no room for that, the network of the
    /// delegated prefix.
    pub fn map_ipv6_address(&self) -> (r: Result<Ipv6Addr, MapeError>)
        requires
            widths_fit(self.bmr),
        ensures
            r is Ok,
            has_room(self.bmr) ==> {
                let a = r->Ok_0;
                let field = a.bits as int / (pow2(
                    (128 - self.bmr.ipv6_prefix.prefix_len - self.bmr.ea_len) as nat,
                ) as int) % (pow2(self.bmr.ea_len as nat) as int);
                &&& a.bits as int == map_address(*self)
                &&& self.bmr.ipv6_prefix.spec_contains(a)
                &&& field == carried_ea_bits(self.bmr) as int % (pow2(
                    self.bmr.ea_len as nat,
                ) as int)
                &&& ea_value_fits(self.bmr) ==> field == carried_ea_bits(self.bmr)
            },
            !has_room(self.bmr) ==> r->Ok_0 == self.ce_ipv6_prefix.spec_network(),
    {
        let ea_bits: u64 = match self.extract_ea_bits() {
            Ok(v) => v,
            Err(e) => {
                return Err(e);
            },
        };
        let r: u32 = self.bmr.ipv6_prefix.prefix_len as u32;
        let e: u32 = self.bmr.ea_len as u32;
        if r + e > 128 {
            return Ok(self.ce_ipv6_prefix.network());
        }
        let s: u32 = 128 - r - e;
        let prefix: u128 = self.bmr.ipv6_prefix.network().bits;
        let field: u128 = if e >= 64 {
            proof {
                lemma2_to64_rest();
                if e > 64 {
                    lemma_pow2_strictly_increases(64, e as nat);
                }
                lemma_small_mod(ea_bits as nat, pow2(e as nat));
            }
            ea_bits as u128
        } else {
            ea_bits as u128 % power_of_two(e)
        };
        let id: u128 = self.interface_id();
        proof {
            lemma_address_fields(*self, field as int, id as int);
            if ea_value_fits(self.bmr) {
                lemma_ea_value_fits(self.bmr);
                lemma_small_mod(ea_bits as nat, pow2(e as nat));
            }
        }
        let low: u128 = if s == 128 {
            proof {
                lemma_pow2_128();
                lemma_small_mod(id as nat, pow2(128));
                lemma2_to64();
            }
            id
        } else {
            let rest: u128 = power_of_two(s);
            field * rest + id % rest
        };
        Ok(Ipv6Addr { bits: prefix + low })
    }

    /// The interface identifier of RFC 7597.
    fn interface_id(&self) -> (r: u128)
        ensures
            r == rule_interface_id(*self),
            r < 0x1_0000_0000_0000_0000,
    {
        let psid: u16 = self.psid();
        let len: u32 = self.psid_len() as u32;
        let low: u128 = if len >= 16 {
            psid as u128
        } else {
            proof {
                lemma2_to64();
                if len > 0 {
                    lemma_pow2_strictly_increases((16 - len) as nat, 16);
                }
                assert(psid * pow2((16 - len) as nat) <= 0xffff * 0x1_0000) by (nonlinear_arith)
                    requires
                        psid <= 0xffff,
                        pow2((16 - len) as nat) <= 0x1_0000,
                ;
            }
            psid as u128 * power_of_two(16 - len) % 0x1_0000
        };
        self.bmr.ipv4_prefix.bits as u128 * 0x1_0000 + low
    }

    /// The EA bits: the host part of the IPv4 address and the PSID.
    pub fn extract_ea_bits(&self) -> (r: Result<u64, MapeError>)
        requires
            widths_fit(self.bmr),
        ensures
            r == Ok::<u64, MapeError>(carried_ea_bits(self.bmr)),
    {
        let suffix_len: u32 = 32 - self.bmr.ipv4_prefix_len as u32;
        let psid_len: u32 = (self.bmr.ea_len as u32).saturating_sub(suffix_len);
        let suffix: u128 = self.bmr.ipv4_prefix.bits as u128 % power_of_two(suffix_len);
        proof {
            lemma_mod_decreases(
                self.bmr.ipv4_prefix.bits as nat,
                pow2(suffix_len as nat),
            );
        }
        let psid: u16 = match self.bmr.psid {
            Some(p) => p,
            None => 0,
        };
        if psid_len >= 64 {
            proof {
                let n = pow2((psid_len - 64) as nat) as int;
                lemma2_to64_rest();
                lemma_pow2_adds((psid_len - 64) as nat, 64);
                assert(suffix * (n * 0x1_0000_0000_0000_0000) == (suffix * n)
                    * 0x1_0000_0000_0000_0000) by (nonlinear_arith);
                lemma_mod_multiples_basic(suffix * n, 0x1_0000_0000_0000_0000);
                assert(0u64 | psid as u64 == psid as u64) by (bit_vector);
            }
            return Ok(psid as u64);
        }
        let step: u128 = power_of_two(psid_len);
        proof {
            lemma2_to64();
            lemma2_to64_rest();
            lemma_pow2_strictly_increases(psid_len as nat, 64);
            assert(suffix * step <= 0xffff_ffff * 0x1_0000_0000_0000_0000) by (nonlinear_arith)
                requires
                    suffix <= 0xffff_ffff,
                    step <= 0x1_0000_0000_0000_0000,
            ;
        }
        let moved: u128 = suffix * step;
        assert(moved as u64 == moved % 0x1_0000_0000_0000_0000) by (bit_vector);
        Ok(moved as u64 | psid as u64)
    }

    /// The IPv4 address of the rule.
    pub fn ipv4_address(&self) -> (r: Ipv4Addr)
        ensures
            r == self.bmr.ipv4_prefix,
    {
        self.bmr.ipv4_prefix
    }

    pub open spec fn spec_psid_offset(self) -> u8 {
        match self.bmr.psid_offset {
            Some(v) => v,
            None => 6,
        }
    }

    pub open spec fn spec_psid_len(self) -> u8 {
        match self.bmr.psid_len {
            Some(v) => v,
            None => 0,
        }
    }

    pub open spec fn spec_psid(self) -> u16 {
        match self.bmr.psid {
            Some(v) => v,
            None => 0,
        }
    }

    /// The PSID offset, 6 where the rule has none.
    pub fn psid_offset(&self) -> (r: u8)
        ensures
            r == self.spec_psid_offset(),
    {
        match self.bmr.psid_offset {
            Some(v) => v,
            None => 6,
        }
    }

    /// The PSID length, 0 where the rule has none.
    pub fn psid_len(&self) -> (r: u8)
        ensures
            r == self.spec_psid_len(),
    {
        match self.bmr.psid_len {
            Some(v) => v,
            None => 0,
        }
    }

    /// The PSID, 0 where the rule has none.
    pub fn psid(&self) -> (r: u16)
        ensures
            r == self.spec_psid(),
    {
        match self.bmr.psid {
            Some(v) => v,
            None => 0,
        }
    }
}

/// The EA bits read the way a border relay reads them: with a PSID that fits its bits and no
/// more than thirty-two of them, the low bits are the PSID and the rest is the host part.
pub proof fn lemma_carried_ea_bits_read_back(bmr: S46Rule)
    requires
        widths_fit(bmr),
        ea_psid_len(bmr) <= 32,
        bmr.psid matches Some(p) ==> p < pow2(ea_psid_len(bmr) as nat),
    ensures
        ({
            let n = pow2(ea_psid_len(bmr) as nat) as int;
            &&& carried_ea_bits(bmr) as int / n == ipv4_suffix(bmr)
            &&& carried_ea_bits(bmr) as int % n == (match bmr.psid {
                Some(p) => p as int,
                None => 0,
            })
        }),
{
    let h = ea_psid_len(bmr) as u64;
    let n = pow2(h as nat) as int;
    let psid = (match bmr.psid {
        Some(p) => p,
        None => 0,
    }) as u64;
    lemma2_to64();
    lemma_pow2_pos(h as nat);
    if h < 32 {
        lemma_pow2_strictly_increases(h as nat, 32);
    }
    lemma_pow2_pos((32 - bmr.ipv4_prefix_len) as nat);
    lemma_mod_decreases(
        bmr.ipv4_prefix.bits as nat,
        pow2((32 - bmr.ipv4_prefix_len) as nat),
    );
    let suffix = ipv4_suffix(bmr) as u64;
    assert(suffix * n <= 0xffff_ffff * 0x1_0000_0000) by (nonlinear_arith)
        requires
            suffix <= 0xffff_ffff,
            n <= 0x1_0000_0000,
            n >= 0,
    ;
    lemma_small_mod((suffix * n) as nat, 0x1_0000_0000_0000_0000);
    vstd::bits::lemma_u64_shl_is_mul(suffix, h);
    vstd::bits::lemma_u64_shl_is_mul(1, h);
    let moved = (suffix * n) as u64;
    lemma_or_is_sum(suffix, psid, h);
    lemma_fundamental_div_mod_converse(
        suffix * n + psid,
        n,
        suffix as int,
        psid as int,
    );
}

/// The fields of a MAP address fill it without overlap.
proof fn lemma_address_fields(rule: MapeRule, field: int, id: int)
    requires
        has_room(rule.bmr),
        field == carried_ea_bits(rule.bmr) as int % (pow2(rule.bmr.ea_len as nat) as int),
        id == rule_interface_id(rule),
        0 <= id,
    ensures
        ({
            let r = rule.bmr.ipv6_prefix.prefix_len;
            let e = rule.bmr.ea_len;
            let rest = pow2((128 - r - e) as nat) as int;
            let low = field * rest + id % rest;
            &&& 0 <= field * rest <= low
            &&& 0 <= low
            &&& 0 <= map_address(rule) < 0x1_0000_0000_0000_0000_0000_0000_0000_0000
            &&& map_address(rule) == truncated(
                rule.bmr.ipv6_prefix.addr.bits as int,
                128,
                r as int,
            ) + low
            &&& truncated(rule.bmr.ipv6_prefix.addr.bits as int, 128, r as int) >= 0
            &&& map_address(rule) / rest % (pow2(e as nat) as int) == field
            &&& rule.bmr.ipv6_prefix.spec_contains(Ipv6Addr { bits: map_address(rule) as u128 })
        }),
{
    let r = rule.bmr.ipv6_prefix.prefix_len as int;
    let e = rule.bmr.ea_len as nat;
    let s = (128 - r - e) as nat;
    let rest = pow2(s) as int;
    let width = pow2(e) as int;
    let n = pow2((128 - r) as nat) as int;
    let bits = rule.bmr.ipv6_prefix.addr.bits as int;
    let prefix = truncated(bits, 128, r);
    let low = field * rest + id % rest;
    lemma_pow2_128();
    lemma2_to64();
    lemma_pow2_pos(s);
    lemma_pow2_pos(e);
    lemma_pow2_pos((128 - r) as nat);
    lemma_pow2_adds(e, s);
    lemma_mod_pos_bound(carried_ea_bits(rule.bmr) as int, width);
    lemma_mod_pos_bound(id, rest);
    lemma_fundamental_div_mod(bits, n);
    let q = bits / n;
    assert(prefix == q * n) by {
        if r < 128 {
            lemma_truncated_is_multiple(bits, 128, r);
        }
        assert(q * n == n * q) by (nonlinear_arith);
    }
    assert(0 <= field * rest && field * rest + rest <= width * rest) by (nonlinear_arith)
        requires
            0 <= field < width,
            rest > 0,
    ;
    assert(n == width * rest);
    lemma_pow2_adds(r as nat, (128 - r) as nat);
    let top = pow2(r as nat) as int;
    assert(0 <= q < top) by (nonlinear_arith)
        requires
            0 <= bits < top * n,
            bits == n * q + bits % n,
            0 <= bits % n < n,
            n > 0,
    ;
    assert(0 <= q * n && q * n + n <= top * n) by (nonlinear_arith)
        requires
            0 <= q < top,
            n > 0,
    ;
    let all = prefix + low;
    // The EA bits.
    let m = q * width + field;
    assert(all == m * rest + id % rest) by (nonlinear_arith)
        requires
            all == q * n + field * rest + id % rest,
            n == width * rest,
            m == q * width + field,
    ;
    lemma_fundamental_div_mod_converse(all, rest, m, id % rest);
    lemma_fundamental_div_mod_converse(m, width, q, field);
    // The prefix.
    lemma_fundamental_div_mod_converse(all, n, q, low);
}

proof fn lemma_or_is_sum(x: u64, y: u64, h: u64)
    requires
        h <= 32,
        x <= 0xffff_ffff,
        y < (1u64 << h),
    ensures
        (x << h) | y == (x << h) + y,
{
    assert((x << h) | y == (x << h) + y) by (bit_vector)
        requires
            h <= 32,
            x <= 0xffff_ffff,
            y < (1u64 << h),
    ;
}

/// The MAP address field by field, as long as prefix and EA bits leave room: the first bits are
/// those of the rule prefix, then come the low bits of the EA value, as many as there are EA bits,
/// and what is left has the low bits of the identifier, which is the IPv4 address followed by
/// sixteen bits with the PSID at their left.
pub proof fn lemma_map_address_bits(rule: MapeRule)
    requires
        1 <= rule.bmr.ipv4_prefix_len <= 32,
        rule.bmr.ipv6_prefix.prefix_len + rule.bmr.ea_len <= 128,
    ensures
        ({
            let a = map_address(rule);
            let r = rule.bmr.ipv6_prefix.prefix_len as int;
            let e = rule.bmr.ea_len as int;
            let rest = pow2((128 - r - e) as nat) as int;
            let head = pow2((128 - r) as nat) as int;
            let psid = match rule.bmr.psid {
                Some(p) => p as int,
                None => 0,
            };
            let len = match rule.bmr.psid_len {
                Some(n) => n as int,
                None => 0,
            };
            let aligned = if len >= 16 {
                psid
            } else {
                psid * pow2((16 - len) as nat) % 0x1_0000
            };
            &&& 0 <= a < 0x1_0000_0000_0000_0000_0000_0000_0000_0000
            &&& a / head == rule.bmr.ipv6_prefix.addr.bits as int / head
            &&& a / rest % (pow2(e as nat) as int) == carried_ea_bits(rule.bmr) as int % (pow2(
                e as nat,
            ) as int)
            &&& a % rest == (rule.bmr.ipv4_prefix.bits * 0x1_0000 + aligned) % rest
        }),
{
    let r = rule.bmr.ipv6_prefix.prefix_len as int;
    let e = rule.bmr.ea_len as nat;
    let s = (128 - r - e) as nat;
    let rest = pow2(s) as int;
    let id = rule_interface_id(rule);
    let field = carried_ea_bits(rule.bmr) as int % (pow2(e) as int);
    lemma_pow2_pos(s);
    lemma_pow2_pos(e);
    lemma_pow2_pos((128 - r) as nat);
    lemma_mod_pos_bound(
        rule.spec_psid() * pow2((16 - rule.spec_psid_len()) as nat),
        0x1_0000,
    );
    assert(0 <= id);
    lemma_address_fields(rule, field, id);
    let a = map_address(rule);
    crate::net::lemma_contains_compares_first_bits(
        rule.bmr.ipv6_prefix,
        Ipv6Addr { bits: a as u128 },
    );
    // What is left of the address behind the EA bits.
    let bits = rule.bmr.ipv6_prefix.addr.bits as int;
    crate::net::lemma_truncated_keeps_first_bits(bits, 128, r);
    lemma_pow2_adds(e, s);
    let q = bits / (pow2((128 - r) as nat) as int);
    let width = pow2(e) as int;
    let m = q * width + field;
    assert(a == m * rest + id % rest) by (nonlinear_arith)
        requires
            a == q * (width * rest) + field * rest + id % rest,
            m == q * width + field,
    ;
    lemma_mod_pos_bound(id, rest);
    lemma_fundamental_div_mod_converse(a, rest, m, id % rest);
}

/// The EA value of a carried rule whose parts find room in the EA bits is the host part of the IPv4
/// address followed by the PSID.
pub proof fn lemma_carried_ea_value(bmr: S46Rule, k: nat, psid: int)
    requires
        1 <= bmr.ipv4_prefix_len <= 32,
        bmr.ea_len == 32 - bmr.ipv4_prefix_len + k,
        k <= 32,
        bmr.psid is None ==> psid == 0,
        bmr.psid matches Some(p) ==> psid == p,
        psid < pow2(k),
    ensures
        carried_ea_bits(bmr) == bmr.ipv4_prefix.bits as int % (pow2(
            (32 - bmr.ipv4_prefix_len) as nat,
        ) as int) * pow2(k) + psid,
{
    lemma_pow2_pos(k);
    lemma_carried_ea_bits_read_back(bmr);
    let n = pow2(k) as int;
    lemma_fundamental_div_mod(carried_ea_bits(bmr) as int, n);
    let q = carried_ea_bits(bmr) as int / n;
    assert(n * q == q * n) by (nonlinear_arith);
}

} // verus!
