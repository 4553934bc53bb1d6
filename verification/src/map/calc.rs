//! From a delegated prefix and a rule to an address and a port set.

use vstd::arithmetic::div_mod::{lemma_fundamental_div_mod, lemma_mod_pos_bound};
use vstd::arithmetic::power2::{lemma2_to64, lemma2_to64_rest, lemma_pow2_pos, pow2};
use vstd::prelude::*;

use crate::bits::power_of_two;
use crate::error::{ErrorView, MapEError};
use crate::map::port_set::{assigned_ports, calc_port_ranges, merged};
use crate::map::rule::{CeFormat, MapRule, MapeParams};
use crate::net::{truncated, Ipv4Addr, Ipv6Addr, Ipv6Net};

verus! {

/// Whether the delegated prefix is as long as the rule prefix and the EA bits together.
pub open spec fn lengths_agree(ce_prefix: Ipv6Net, rule: MapRule) -> bool {
    ce_prefix.prefix_len == rule.ipv6_prefix.prefix_len + rule.ea_length
}

/// The `ea_length` bits of the delegated prefix that follow the rule prefix, kept to
/// sixty-four bits.
pub open spec fn ea_bits_of(ce_prefix: Ipv6Net, rule: MapRule) -> int {
    let network = truncated(ce_prefix.addr.bits as int, 128, ce_prefix.prefix_len as int);
    (network / (pow2((128 - ce_prefix.prefix_len) as nat) as int)) % (pow2(
        rule.ea_length as nat,
    ) as int) % 0x1_0000_0000_0000_0000
}

/// The low `k` bits of the EA bits.
pub open spec fn psid_of(ea_bits: int, k: nat) -> int {
    ea_bits % (pow2(k) as int) % 0x1_0000
}

/// The EA bits without their low `k` bits.
pub open spec fn suffix_of(ea_bits: int, k: nat) -> int {
    ea_bits / (pow2(k) as int) % 0x1_0000_0000
}

/// The rule's IPv4 network with the suffix in its host bits.
pub open spec fn ipv4_of(ea_bits: int, rule: MapRule) -> u32 {
    rule.ipv4_prefix.spec_network().bits | (suffix_of(
        ea_bits,
        rule.port_params.psid_length as nat,
    ) as u32)
}

/// The interface identifier of a CE address.
///
/// RFC 7597 puts the IPv4 address before the last sixteen bits and the PSID, aligned to the
/// left, in them. v6plus spreads the four octets over bits 8, 16, 24 and 32 and ends with the
/// PSID in bits 48 to 55, counted from the left.
pub open spec fn interface_id(ipv4: u32, psid: int, k: nat, format: CeFormat) -> int {
    match format {
        CeFormat::Rfc7597 => ipv4 * 0x1_0000 + psid * pow2((16 - k) as nat),
        CeFormat::V6Plus => (ipv4 / 0x100_0000) * 0x1_0000_0000_0000 + (ipv4 / 0x1_0000 % 0x100)
            * 0x100_0000_0000 + (ipv4 / 0x100 % 0x100) * 0x1_0000_0000 + (ipv4 % 0x100) * 0x100_0000
            + psid * 0x100,
    }
}

/// The CE address: the first `r + ea_length` bits of the delegated prefix, and the interface
/// identifier.
pub open spec fn ce_address(ce_prefix: Ipv6Net, rule: MapRule, ea_bits: int, format: CeFormat) -> Ipv6Addr {
    let k = rule.port_params.psid_length as nat;
    let prefix = truncated(
        truncated(ce_prefix.addr.bits as int, 128, ce_prefix.prefix_len as int),
        128,
        rule.ipv6_prefix.prefix_len + rule.ea_length,
    );
    let id = interface_id(ipv4_of(ea_bits, rule), psid_of(ea_bits, k), k, format);
    Ipv6Addr { bits: (prefix as u128) | (id as u128) }
}

/// Whether a rule leaves room for the CE address in the given layout.
pub open spec fn layout_fits(rule: MapRule, format: CeFormat) -> bool {
    match format {
        CeFormat::Rfc7597 => rule.ipv6_prefix.prefix_len + rule.ea_length <= 128
            && rule.port_params.psid_length <= 16,
        CeFormat::V6Plus => rule.ipv6_prefix.prefix_len + rule.ea_length <= 64
            && rule.port_params.psid_length == 8,
    }
}

/// Whether the mapping is defined for the prefix and the rule. One whose lengths disagree is
/// refused, which takes nothing more of it.
pub open spec fn computable(ce_prefix: Ipv6Net, rule: MapRule, format: CeFormat) -> bool {
    &&& ce_prefix.valid()
    &&& lengths_agree(ce_prefix, rule) ==> {
        &&& rule.ea_length < 128
        &&& rule.port_params.psid_offset + rule.port_params.psid_length <= 16
        &&& layout_fits(rule, format)
    }
}

/// What the rule assigns to the holder of the delegated prefix.
pub open spec fn assigned(p: MapeParams, ce_prefix: Ipv6Net, rule: MapRule, format: CeFormat) -> bool {
    let ea_bits = ea_bits_of(ce_prefix, rule);
    let a = rule.port_params.psid_offset as nat;
    let k = rule.port_params.psid_length as nat;
    &&& p.ce_ipv6 == ce_address(ce_prefix, rule, ea_bits, format)
    &&& p.ipv4.bits == ipv4_of(ea_bits, rule)
    &&& p.psid == psid_of(ea_bits, k)
    &&& merged(p.port_ranges@, assigned_ports(a, k, psid_of(ea_bits, k)))
    &&& p.br_address == rule.br_address
    &&& p.rule == rule
    &&& p.ce_format == format
}

/// Takes the EA bits out of a delegated prefix.
///
/// Fails with `InvalidCePrefix` if and only if the lengths disagree. A prefix that consists of
/// 128 EA bits and nothing else is out of range.
pub fn extract_ea_bits(ce_prefix: Ipv6Net, rule: &MapRule) -> (r: Result<u64, MapEError>)
    requires
        ce_prefix.valid(),
        lengths_agree(ce_prefix, *rule) ==> rule.ea_length < 128,
    ensures
        r is Ok <==> lengths_agree(ce_prefix, *rule),
        r matches Ok(v) ==> v == ea_bits_of(ce_prefix, *rule),
        r matches Err(e) ==> e@ == ErrorView::InvalidCePrefix,
{
    let len: u32 = ce_prefix.prefix_len as u32;
    let ea_len: u32 = rule.ea_length as u32;
    if len != rule.ipv6_prefix.prefix_len as u32 + ea_len {
        return Err(MapEError::InvalidCePrefix);
    }
    if ea_len == 0 {
        proof {
            lemma2_to64();
        }
        return Ok(0);
    }
    let network: u128 = ce_prefix.network().bits;
    let shift: u128 = (128 - len) as u128;
    proof {
        vstd::bits::lemma_u128_shr_is_div(network, shift);
    }
    let shifted: u128 = network >> shift;
    let field: u128 = shifted % power_of_two(ea_len);
    assert(field as u64 == field % 0x1_0000_0000_0000_0000) by (bit_vector);
    Ok(field as u64)
}

/// Splits EA bits into the IPv4 address and the PSID that they stand for.
pub fn derive_ipv4_and_psid(ea_bits: u64, rule: &MapRule) -> (r: (Ipv4Addr, u16))
    requires
        rule.port_params.psid_length < 64,
    ensures
        r.0.bits == ipv4_of(ea_bits as int, *rule),
        r.1 == psid_of(ea_bits as int, rule.port_params.psid_length as nat),
{
    let step: u128 = power_of_two(rule.port_params.psid_length as u32);
    let low: u128 = ea_bits as u128 % step;
    let high: u128 = ea_bits as u128 / step;
    assert(low as u16 == low % 0x1_0000) by (bit_vector);
    assert(high as u32 == high % 0x1_0000_0000) by (bit_vector);
    (Ipv4Addr { bits: rule.ipv4_prefix.network().bits | (high as u32) }, low as u16)
}

/// The PSID fits the `k` bits it was taken from.
proof fn lemma_psid_fits(ea_bits: int, k: nat)
    requires
        0 <= ea_bits,
    ensures
        0 <= psid_of(ea_bits, k) < pow2(k),
        k <= 16 ==> psid_of(ea_bits, k) == ea_bits % (pow2(k) as int),
{
    lemma_pow2_pos(k);
    lemma_mod_pos_bound(ea_bits, pow2(k) as int);
    let low = ea_bits % (pow2(k) as int);
    vstd::arithmetic::div_mod::lemma_mod_decreases(low as nat, 0x1_0000);
    if k <= 16 {
        lemma2_to64();
        if k < 16 {
            vstd::arithmetic::power2::lemma_pow2_strictly_increases(k, 16);
        }
        vstd::arithmetic::div_mod::lemma_small_mod(low as nat, 0x1_0000);
    }
}

/// An interface identifier takes at most sixty-four bits.
proof fn lemma_interface_id_bound(ipv4: u32, psid: int, k: nat, format: CeFormat)
    requires
        0 <= psid < pow2(k),
        format == CeFormat::Rfc7597 ==> k <= 16,
        format == CeFormat::V6Plus ==> k == 8,
    ensures
        0 <= interface_id(ipv4, psid, k, format) < 0x1_0000_0000_0000_0000,
        0 <= psid * pow2((16 - k) as nat) < 0x1_0000,
{
    lemma2_to64();
    vstd::arithmetic::power2::lemma_pow2_adds(k, (16 - k) as nat);
    lemma_pow2_pos((16 - k) as nat);
    let n = pow2(k) as int;
    let m = pow2((16 - k) as nat) as int;
    assert(0 <= psid * m < n * m) by (nonlinear_arith)
        requires
            0 <= psid < n,
            m > 0,
    ;
}

/// Puts the CE address together.
pub fn build_ce_ipv6(ce_prefix: Ipv6Net, rule: &MapRule, ea_bits: u64, format: CeFormat) -> (r: Ipv6Addr)
    requires
        layout_fits(*rule, format),
    ensures
        r == ce_address(ce_prefix, *rule, ea_bits as int, format),
{
    let (ipv4, psid) = derive_ipv4_and_psid(ea_bits, rule);
    let kept = Ipv6Net {
        addr: ce_prefix.network(),
        prefix_len: rule.ipv6_prefix.prefix_len + rule.ea_length,
    };
    let prefix: u128 = kept.network().bits;
    let k: u32 = rule.port_params.psid_length as u32;
    let v4: u128 = ipv4.bits as u128;
    proof {
        lemma_psid_fits(ea_bits as int, k as nat);
        lemma_interface_id_bound(ipv4.bits, psid as int, k as nat, format);
    }
    let id: u128 = match format {
        CeFormat::Rfc7597 => {
            let low: u128 = psid as u128 * power_of_two(16 - k);
            v4 * 0x1_0000 + low
        },
        CeFormat::V6Plus => (v4 / 0x100_0000) * 0x1_0000_0000_0000 + (v4 / 0x1_0000 % 0x100)
            * 0x100_0000_0000 + (v4 / 0x100 % 0x100) * 0x1_0000_0000 + (v4 % 0x100) * 0x100_0000
            + psid as u128 * 0x100,
    };
    Ipv6Addr { bits: prefix | id }
}

/// Computes what the rule assigns to the holder of the delegated prefix.
///
/// Fails with `InvalidCePrefix` if and only if the lengths disagree.
pub fn compute_mape_params(ce_prefix: Ipv6Net, rule: &MapRule, format: CeFormat) -> (r: Result<
    MapeParams,
    MapEError,
>)
    requires
        computable(ce_prefix, *rule, format),
    ensures
        r is Ok <==> lengths_agree(ce_prefix, *rule),
        r matches Ok(p) ==> assigned(p, ce_prefix, *rule, format),
        r matches Err(e) ==> e@ == ErrorView::InvalidCePrefix,
{
    let ea_bits: u64 = match extract_ea_bits(ce_prefix, rule) {
        Ok(v) => v,
        Err(e) => {
            return Err(e);
        },
    };
    let (ipv4, psid) = derive_ipv4_and_psid(ea_bits, rule);
    let ce_ipv6 = build_ce_ipv6(ce_prefix, rule, ea_bits, format);
    let port_ranges = calc_port_ranges(&rule.port_params, psid);
    Ok(
        MapeParams {
            ce_ipv6,
            ipv4,
            psid,
            port_ranges,
            br_address: rule.br_address,
            rule: *rule,
            ce_format: format,
        },
    )
}

/// Whether the mapping is defined for the prefix and the rule.
pub fn is_computable(ce_prefix: Ipv6Net, rule: &MapRule, format: CeFormat) -> (r: bool)
    ensures
        r == computable(ce_prefix, *rule, format),
{
    if ce_prefix.prefix_len > 128 {
        return false;
    }
    let total: u32 = rule.ipv6_prefix.prefix_len as u32 + rule.ea_length as u32;
    if ce_prefix.prefix_len as u32 != total {
        return true;
    }
    if rule.ea_length >= 128 {
        return false;
    }
    if rule.port_params.psid_offset as u32 + rule.port_params.psid_length as u32 > 16 {
        return false;
    }
    match format {
        CeFormat::Rfc7597 => true,
        CeFormat::V6Plus => total <= 64 && rule.port_params.psid_length == 8,
    }
}

/// Nothing of the EA bits is lost: they are the IPv4 suffix followed by the PSID, as long as
/// neither part is wider than what it becomes.
pub proof fn lemma_ea_bits_are_suffix_and_psid(ea_bits: int, k: nat)
    requires
        0 <= ea_bits < pow2(k + 32),
        k <= 16,
    ensures
        ea_bits == suffix_of(ea_bits, k) * pow2(k) + psid_of(ea_bits, k),
{
    lemma_psid_fits(ea_bits, k);
    lemma_pow2_pos(k);
    lemma2_to64();
    lemma2_to64_rest();
    let n = pow2(k) as int;
    lemma_fundamental_div_mod(ea_bits, n);
    vstd::arithmetic::power2::lemma_pow2_adds(k, 32);
    let q = ea_bits / n;
    assert(0 <= q < 0x1_0000_0000) by (nonlinear_arith)
        requires
            ea_bits == n * q + ea_bits % n,
            0 <= ea_bits < n * 0x1_0000_0000,
            0 <= ea_bits % n < n,
            n > 0,
    ;
    vstd::arithmetic::div_mod::lemma_small_mod(q as nat, 0x1_0000_0000);
    assert(n * q == q * n) by (nonlinear_arith);
}

/// A truncated address is a multiple of the size of what was cut off.
pub(crate) proof fn lemma_truncated_is_multiple(bits: int, width: int, len: int)
    requires
        0 <= bits,
        0 <= len < width,
    ensures
        truncated(bits, width, len) % (pow2((width - len) as nat) as int) == 0,
        0 <= truncated(bits, width, len) <= bits,
        truncated(bits, width, len) == bits / (pow2((width - len) as nat) as int) * pow2(
            (width - len) as nat,
        ),
{
    let n = pow2((width - len) as nat) as int;
    lemma_pow2_pos((width - len) as nat);
    lemma_fundamental_div_mod(bits, n);
    let q = bits / n;
    assert(n * q == q * n) by (nonlinear_arith);
    vstd::arithmetic::div_mod::lemma_mod_multiples_basic(q, n);
    assert(0 <= q * n) by (nonlinear_arith)
        requires
            0 <= q,
            0 < n,
    ;
    lemma_mod_pos_bound(bits, n);
}

/// A multiple of `2^64` and a smaller number share no bits.
proof fn lemma_halves_do_not_overlap(high: u128, low: u128)
    requires
        high % 0x1_0000_0000_0000_0000 == 0,
        low < 0x1_0000_0000_0000_0000,
    ensures
        high | low == high + low,
{
    assert(high | low == high + low) by (bit_vector)
        requires
            high % 0x1_0000_0000_0000_0000 == 0,
            low < 0x1_0000_0000_0000_0000,
    ;
}

/// Under a prefix of at most sixty-four bits, the CE address is the delegated network followed
/// by the interface identifier, and lies in the delegated prefix.
pub proof fn lemma_ce_address_in_delegated_prefix(
    ce_prefix: Ipv6Net,
    rule: MapRule,
    ea_bits: int,
    format: CeFormat,
)
    requires
        lengths_agree(ce_prefix, rule),
        ce_prefix.prefix_len <= 64,
        layout_fits(rule, format),
        0 <= ea_bits,
    ensures
        ({
            let k = rule.port_params.psid_length as nat;
            let id = interface_id(ipv4_of(ea_bits, rule), psid_of(ea_bits, k), k, format);
            &&& 0 <= id < 0x1_0000_0000_0000_0000
            &&& ce_address(ce_prefix, rule, ea_bits, format).bits
                == ce_prefix.spec_network().bits + id
        }),
        ce_prefix.spec_contains(ce_address(ce_prefix, rule, ea_bits, format)),
{
    let k = rule.port_params.psid_length as nat;
    let len = ce_prefix.prefix_len as int;
    let id = interface_id(ipv4_of(ea_bits, rule), psid_of(ea_bits, k), k, format);
    lemma_psid_fits(ea_bits, k);
    lemma_interface_id_bound(ipv4_of(ea_bits, rule), psid_of(ea_bits, k), k, format);
    let bits = ce_prefix.addr.bits as int;
    let n = pow2((128 - len) as nat) as int;
    lemma_pow2_pos((128 - len) as nat);
    lemma2_to64();
    lemma2_to64_rest();
    vstd::arithmetic::power2::lemma_pow2_adds((64 - len) as nat, 64);
    lemma_pow2_pos((64 - len) as nat);
    let half: int = 0x1_0000_0000_0000_0000;
    let m = pow2((64 - len) as nat) as int;
    lemma_truncated_is_multiple(bits, 128, len);
    let net = truncated(bits, 128, len);
    let q = bits / n;
    assert(q * n == (q * m) * half) by (nonlinear_arith)
        requires
            n == m * half,
    ;
    vstd::arithmetic::div_mod::lemma_mod_multiples_basic(q * m, half);
    assert(truncated(net, 128, len) == net);
    lemma_halves_do_not_overlap(net as u128, id as u128);
    // The identifier is shorter than what the prefix leaves open.
    assert(id < n) by (nonlinear_arith)
        requires
            id < half,
            n == m * half,
            m >= 1,
            half > 0,
    ;
    lemma_fundamental_div_mod_of_sum(net, id, n, q);
}

proof fn lemma_fundamental_div_mod_of_sum(net: int, id: int, n: int, q: int)
    requires
        net == q * n,
        0 <= id < n,
    ensures
        (net + id) % n == id,
        (net + id) / n == q,
{
    vstd::arithmetic::div_mod::lemma_fundamental_div_mod_converse(net + id, n, q, id);
}

/// The suffix fills the host bits of the rule's IPv4 network when it is as wide as they are.
pub proof fn lemma_ipv4_is_network_and_suffix(ea_bits: int, rule: MapRule)
    requires
        rule.ipv4_prefix.prefix_len <= 32,
        suffix_of(ea_bits, rule.port_params.psid_length as nat) < pow2(
            (32 - rule.ipv4_prefix.prefix_len) as nat,
        ),
    ensures
        ipv4_of(ea_bits, rule) == rule.ipv4_prefix.spec_network().bits + suffix_of(
            ea_bits,
            rule.port_params.psid_length as nat,
        ),
{
    let k = rule.port_params.psid_length as nat;
    let h = (32 - rule.ipv4_prefix.prefix_len) as nat;
    let bits = rule.ipv4_prefix.addr.bits;
    let y = suffix_of(ea_bits, k) as u32;
    let x = rule.ipv4_prefix.spec_network().bits;
    lemma2_to64();
    if h == 0 {
        assert(x | 0u32 == x) by (bit_vector);
    } else if h == 32 {
        lemma2_to64_rest();
        vstd::arithmetic::div_mod::lemma_small_mod(bits as nat, pow2(32));
        assert(0u32 | y == y) by (bit_vector);
    } else {
        lemma_truncated_is_multiple(bits as int, 32, 32 - h);
        vstd::bits::lemma_u32_pow2_no_overflow(h);
        vstd::bits::lemma_u32_low_bits_mask_is_mod(x, h);
        let top = pow2(h) as u32;
        let mask = vstd::bits::low_bits_mask(h) as u32;
        vstd::bits::lemma_u32_shl_is_mul(1, h as u32);
        assert(mask == top - 1);
        lemma_fields_do_not_overlap(x, y, h as u32, mask);
    }
}

/// A number without its low `h` bits, and one that has no others, share none.
proof fn lemma_fields_do_not_overlap(x: u32, y: u32, h: u32, mask: u32)
    requires
        h < 32,
        mask == (1u32 << h) - 1,
        x & mask == 0,
        y <= mask,
    ensures
        x | y == x + y,
{
    assert(x | y == x + y) by (bit_vector)
        requires
            h < 32,
            mask == (1u32 << h) - 1,
            x & mask == 0,
            y <= mask,
    ;
}

/// No two holders of a prefix share an address and a PSID: where the EA bits are just the host
/// bits of the rule's IPv4 network and the PSID, two delegated prefixes under the rule's prefix
/// with the same address and PSID are the same network.
pub proof fn lemma_assignment_is_injective(x: Ipv6Net, y: Ipv6Net, rule: MapRule)
    requires
        x.valid(),
        y.valid(),
        lengths_agree(x, rule),
        lengths_agree(y, rule),
        rule.ipv6_prefix.spec_contains(x.addr),
        rule.ipv6_prefix.spec_contains(y.addr),
        rule.ipv4_prefix.prefix_len <= 32,
        rule.port_params.psid_length <= 16,
        rule.ea_length == 32 - rule.ipv4_prefix.prefix_len + rule.port_params.psid_length,
        ipv4_of(ea_bits_of(x, rule), rule) == ipv4_of(ea_bits_of(y, rule), rule),
        psid_of(ea_bits_of(x, rule), rule.port_params.psid_length as nat) == psid_of(
            ea_bits_of(y, rule),
            rule.port_params.psid_length as nat,
        ),
    ensures
        x.spec_network() == y.spec_network(),
{
    let k = rule.port_params.psid_length as nat;
    let (ex, ey) = (ea_bits_of(x, rule), ea_bits_of(y, rule));
    lemma_ea_bits_bound(x, rule);
    lemma_ea_bits_bound(y, rule);
    lemma_suffix_bound(ex, rule);
    lemma_suffix_bound(ey, rule);
    lemma_ipv4_is_network_and_suffix(ex, rule);
    lemma_ipv4_is_network_and_suffix(ey, rule);
    lemma_ea_bits_are_suffix_and_psid(ex, k);
    lemma_ea_bits_are_suffix_and_psid(ey, k);
    assert(ex == ey);
    lemma_network_from_ea_bits(x, rule);
    lemma_network_from_ea_bits(y, rule);
}

/// The EA bits are less than `2^ea_length`.
proof fn lemma_ea_bits_bound(x: Ipv6Net, rule: MapRule)
    requires
        x.valid(),
        lengths_agree(x, rule),
        rule.ea_length <= 48,
    ensures
        0 <= ea_bits_of(x, rule) < pow2(rule.ea_length as nat) <= pow2(48),
        pow2(48) < 0x1_0000_0000_0000_0000,
        ea_bits_of(x, rule) == truncated(x.addr.bits as int, 128, x.prefix_len as int) / (pow2(
            (128 - x.prefix_len) as nat,
        ) as int) % (pow2(rule.ea_length as nat) as int),
{
    let e = rule.ea_length as nat;
    lemma_pow2_pos(e);
    lemma2_to64();
    lemma2_to64_rest();
    if e < 48 {
        vstd::arithmetic::power2::lemma_pow2_strictly_increases(e, 48);
    }
    let field = truncated(x.addr.bits as int, 128, x.prefix_len as int) / (pow2(
        (128 - x.prefix_len) as nat,
    ) as int) % (pow2(e) as int);
    vstd::arithmetic::div_mod::lemma_mod_bound(
        truncated(x.addr.bits as int, 128, x.prefix_len as int) / (pow2(
            (128 - x.prefix_len) as nat,
        ) as int),
        pow2(e) as int,
    );
    vstd::arithmetic::div_mod::lemma_small_mod(field as nat, 0x1_0000_0000_0000_0000);
}

/// The suffix fits the host bits of the rule's IPv4 network.
proof fn lemma_suffix_bound(ea_bits: int, rule: MapRule)
    requires
        rule.ipv4_prefix.prefix_len <= 32,
        rule.port_params.psid_length <= 16,
        rule.ea_length == 32 - rule.ipv4_prefix.prefix_len + rule.port_params.psid_length,
        0 <= ea_bits < pow2(rule.ea_length as nat),
    ensures
        suffix_of(ea_bits, rule.port_params.psid_length as nat) < pow2(
            (32 - rule.ipv4_prefix.prefix_len) as nat,
        ),
        ea_bits < pow2(rule.port_params.psid_length as nat + 32),
{
    let k = rule.port_params.psid_length as nat;
    let h = (32 - rule.ipv4_prefix.prefix_len) as nat;
    lemma_pow2_pos(k);
    lemma_pow2_pos(h);
    vstd::arithmetic::power2::lemma_pow2_adds(k, h);
    let n = pow2(k) as int;
    let m = pow2(h) as int;
    let q = ea_bits / n;
    lemma_fundamental_div_mod(ea_bits, n);
    lemma_mod_pos_bound(ea_bits, n);
    assert(0 <= q < m) by (nonlinear_arith)
        requires
            ea_bits == n * q + ea_bits % n,
            0 <= ea_bits < n * m,
            0 <= ea_bits % n < n,
            n > 0,
    ;
    vstd::arithmetic::div_mod::lemma_mod_decreases(q as nat, 0x1_0000_0000);
    if h < 32 {
        vstd::arithmetic::power2::lemma_pow2_strictly_increases(k + h, k + 32);
    }
}

/// The network of a delegated prefix is the rule prefix followed by the EA bits.
proof fn lemma_network_from_ea_bits(x: Ipv6Net, rule: MapRule)
    requires
        x.valid(),
        lengths_agree(x, rule),
        rule.ipv6_prefix.spec_contains(x.addr),
        rule.ea_length <= 48,
    ensures
        x.spec_network().bits == truncated(
            rule.ipv6_prefix.addr.bits as int,
            128,
            rule.ipv6_prefix.prefix_len as int,
        ) + ea_bits_of(x, rule) * pow2((128 - x.prefix_len) as nat),
{
    let bits = x.addr.bits as int;
    let len = x.prefix_len as int;
    let r = rule.ipv6_prefix.prefix_len as int;
    let e = rule.ea_length as nat;
    let s = (128 - len) as nat;
    let n = pow2(s) as int;
    let m = pow2(e) as int;
    lemma_pow2_pos(s);
    lemma_pow2_pos(e);
    lemma2_to64();
    lemma_ea_bits_bound(x, rule);
    let net = truncated(bits, 128, len);
    let q = bits / n;
    lemma_fundamental_div_mod(bits, n);
    lemma_mod_pos_bound(bits, n);
    assert(net == q * n) by {
        if len < 128 {
            lemma_truncated_is_multiple(bits, 128, len);
        } else {
            assert(n == 1);
        }
    }
    vstd::arithmetic::div_mod::lemma_div_by_multiple(q, n);
    assert(net / n == q);
    // bits / 2^(s + e) is what the rule prefix keeps
    vstd::arithmetic::power2::lemma_pow2_adds(s, e);
    vstd::arithmetic::div_mod::lemma_div_denominator(bits, n, m);
    lemma_fundamental_div_mod(q, m);
    let top = q / m;
    let ea = q % m;
    assert(truncated(bits, 128, r) == top * (n * m)) by {
        if r < 128 {
            lemma_truncated_is_multiple(bits, 128, r);
        } else {
            assert(n == 1 && m == 1);
        }
    }
    assert(q * n == top * (n * m) + ea * n) by (nonlinear_arith)
        requires
            q == m * top + ea,
    ;
}

/// Everything in an address behind its first bits, sixty-four at most, is zero once its host bits
/// are cleared, so that a number of sixty-four bits can be put there.
proof fn lemma_half_is_free(bits: u128, len: int, id: int)
    requires
        0 <= len <= 64,
        0 <= id < 0x1_0000_0000_0000_0000,
    ensures
        ({
            let net = truncated(bits as int, 128, len);
            &&& 0 <= net <= bits
            &&& net % 0x1_0000_0000_0000_0000 == 0
            &&& net / 0x1_0000_0000_0000_0000 == bits as int / (pow2((128 - len) as nat) as int)
                * pow2((64 - len) as nat)
            &&& (net as u128) | (id as u128) == net + id
            &&& truncated(net, 128, len) == net
        }),
{
    let n = pow2((128 - len) as nat) as int;
    let m = pow2((64 - len) as nat) as int;
    let half: int = 0x1_0000_0000_0000_0000;
    lemma2_to64();
    lemma2_to64_rest();
    lemma_pow2_pos((128 - len) as nat);
    lemma_pow2_pos((64 - len) as nat);
    vstd::arithmetic::power2::lemma_pow2_adds((64 - len) as nat, 64);
    lemma_truncated_is_multiple(bits as int, 128, len);
    let net = truncated(bits as int, 128, len);
    let q = bits as int / n;
    assert(q * n == (q * m) * half) by (nonlinear_arith)
        requires
            n == m * half,
    ;
    vstd::arithmetic::div_mod::lemma_mod_multiples_basic(q * m, half);
    vstd::arithmetic::div_mod::lemma_div_by_multiple(q * m, half);
    lemma_halves_do_not_overlap(net as u128, id as u128);
}

/// The CE address in the layout of v6plus, bit by bit. Counted from the left, bits 64 to 71 are
/// zero, the four octets of the shared IPv4 address fill bits 72 to 103, bits 104 to 111 are zero,
/// the PSID fills bits 112 to 119, and the last eight bits are zero.
pub proof fn lemma_v6plus_address_bits(
    ce_prefix: Ipv6Net,
    rule: MapRule,
    ea_bits: u64,
    ipv4: Ipv4Addr,
    psid: u16,
)
    requires
        rule.ipv6_prefix.prefix_len + rule.ea_length <= 64,
        rule.port_params.psid_length == 8,
        ipv4.bits == ipv4_of(ea_bits as int, rule),
        psid == psid_of(ea_bits as int, 8),
    ensures
        ({
            let a = ce_address(ce_prefix, rule, ea_bits as int, CeFormat::V6Plus).bits as int;
            let v4 = ipv4.bits as int;
            &&& a / 0x100_0000_0000_0000 % 0x100 == 0
            &&& a / 0x1_0000_0000_0000 % 0x100 == v4 / 0x100_0000
            &&& a / 0x100_0000_0000 % 0x100 == v4 / 0x1_0000 % 0x100
            &&& a / 0x1_0000_0000 % 0x100 == v4 / 0x100 % 0x100
            &&& a / 0x100_0000 % 0x100 == v4 % 0x100
            &&& a / 0x1_0000 % 0x100 == 0
            &&& a / 0x100 % 0x100 == psid
            &&& a % 0x100 == 0
        }),
        ce_prefix.prefix_len == rule.ipv6_prefix.prefix_len + rule.ea_length ==> ce_address(
            ce_prefix,
            rule,
            ea_bits as int,
            CeFormat::V6Plus,
        ).bits as int / 0x1_0000_0000_0000_0000 == ce_prefix.addr.bits as int / (pow2(
            (128 - ce_prefix.prefix_len) as nat,
        ) as int) * pow2((64 - ce_prefix.prefix_len) as nat),
{
    let len = rule.ipv6_prefix.prefix_len + rule.ea_length;
    lemma2_to64();
    lemma_psid_fits(ea_bits as int, 8);
    lemma_interface_id_bound(ipv4.bits, psid as int, 8, CeFormat::V6Plus);
    let id = interface_id(ipv4.bits, psid as int, 8, CeFormat::V6Plus);
    lemma_network_fits(ce_prefix);
    let inner = ce_prefix.spec_network().bits;
    lemma_half_is_free(inner, len, id);
    let net = truncated(inner as int, 128, len);
    let v4 = ipv4.bits as int;
    lemma_v6plus_fields(
        net / 0x1_0000_0000_0000_0000,
        v4 / 0x100_0000,
        v4 / 0x1_0000 % 0x100,
        v4 / 0x100 % 0x100,
        v4 % 0x100,
        psid as int,
    );
    if ce_prefix.prefix_len == len {
        lemma_half_is_free(ce_prefix.addr.bits, len, id);
    }
}

/// The network of a prefix is an address.
proof fn lemma_network_fits(net: Ipv6Net)
    ensures
        0 <= truncated(net.addr.bits as int, 128, net.prefix_len as int) <= net.addr.bits,
        net.spec_network().bits == truncated(net.addr.bits as int, 128, net.prefix_len as int),
{
    if net.prefix_len < 128 {
        lemma_truncated_is_multiple(net.addr.bits as int, 128, net.prefix_len as int);
    }
}

/// Five octets at their places can be read from there again.
proof fn lemma_v6plus_fields(top: int, o1: int, o2: int, o3: int, o4: int, psid: int)
    requires
        0 <= top,
        0 <= o1 < 0x100,
        0 <= o2 < 0x100,
        0 <= o3 < 0x100,
        0 <= o4 < 0x100,
        0 <= psid < 0x100,
    ensures
        ({
            let a = top * 0x1_0000_0000_0000_0000 + o1 * 0x1_0000_0000_0000 + o2 * 0x100_0000_0000
                + o3 * 0x1_0000_0000 + o4 * 0x100_0000 + psid * 0x100;
            &&& a / 0x1_0000_0000_0000_0000 == top
            &&& a / 0x100_0000_0000_0000 % 0x100 == 0
            &&& a / 0x1_0000_0000_0000 % 0x100 == o1
            &&& a / 0x100_0000_0000 % 0x100 == o2
            &&& a / 0x1_0000_0000 % 0x100 == o3
            &&& a / 0x100_0000 % 0x100 == o4
            &&& a / 0x1_0000 % 0x100 == 0
            &&& a / 0x100 % 0x100 == psid
            &&& a % 0x100 == 0
        }),
{
    let a1 = top * 0x100 + 0;
    let a2 = a1 * 0x100 + o1;
    let a3 = a2 * 0x100 + o2;
    let a4 = a3 * 0x100 + o3;
    let a5 = a4 * 0x100 + o4;
    let a6 = a5 * 0x100 + 0;
    let a7 = a6 * 0x100 + psid;
    let a = a7 * 0x100;
    assert(a / 0x100 == a7);
    assert(a / 0x1_0000 == a6);
    assert(a / 0x100_0000 == a5);
    assert(a / 0x1_0000_0000 == a4);
    assert(a / 0x100_0000_0000 == a3);
    assert(a / 0x1_0000_0000_0000 == a2);
    assert(a / 0x100_0000_0000_0000 == a1);
    assert(a / 0x1_0000_0000_0000_0000 == top);
}

/// The CE address in the layout of RFC 7597, bit by bit. Under a prefix of at most sixty-four
/// bits, bits 64 to 79, counted from the left, are zero, the shared IPv4 address fills bits 80 to
/// 111, and the PSID stands at the left of the last sixteen bits, with zeros behind it. A longer
/// prefix has its bits among those.
pub proof fn lemma_rfc7597_address_bits(
    ce_prefix: Ipv6Net,
    rule: MapRule,
    ea_bits: u64,
    ipv4: Ipv4Addr,
    psid: u16,
)
    requires
        ce_prefix.prefix_len == rule.ipv6_prefix.prefix_len + rule.ea_length,
        ce_prefix.prefix_len <= 128,
        rule.port_params.psid_length <= 16,
        ipv4.bits == ipv4_of(ea_bits as int, rule),
        psid == psid_of(ea_bits as int, rule.port_params.psid_length as nat),
    ensures
        ({
            let a = ce_address(ce_prefix, rule, ea_bits as int, CeFormat::Rfc7597).bits;
            let k = rule.port_params.psid_length as int;
            let low = ipv4.bits * 0x1_0000 + psid * pow2((16 - k) as nat);
            let n = pow2((128 - ce_prefix.prefix_len) as nat) as int;
            &&& 0 <= low < 0x1_0000_0000_0000
            &&& a == ((ce_prefix.addr.bits as int / n * n) as u128) | (low as u128)
            &&& ce_prefix.prefix_len <= 64 ==> {
                &&& a as int / 0x1_0000_0000_0000_0000 == ce_prefix.addr.bits as int / n * pow2(
                    (64 - ce_prefix.prefix_len) as nat,
                )
                &&& a as int / 0x1_0000_0000_0000 % 0x1_0000 == 0
                &&& a as int / 0x1_0000 % 0x1_0000_0000 == ipv4.bits
                &&& a as int % 0x1_0000 == psid * pow2((16 - k) as nat)
            }
        }),
{
    let k = rule.port_params.psid_length as nat;
    let len = ce_prefix.prefix_len as int;
    lemma2_to64();
    lemma_psid_fits(ea_bits as int, k);
    lemma_interface_id_bound(ipv4.bits, psid as int, k, CeFormat::Rfc7597);
    let id = interface_id(ipv4.bits, psid as int, k, CeFormat::Rfc7597);
    let low = psid * pow2((16 - k) as nat);
    lemma_network_fits(ce_prefix);
    crate::net::lemma_truncated_keeps_first_bits(ce_prefix.addr.bits as int, 128, len);
    let net = truncated(ce_prefix.addr.bits as int, 128, len);
    crate::net::lemma_truncated_keeps_first_bits(net, 128, len);
    assert(truncated(net, 128, len) == net);
    if len <= 64 {
        lemma_half_is_free(ce_prefix.addr.bits, len, id);
        let top = net / 0x1_0000_0000_0000_0000;
        let a = net + id;
        assert(a == top * 0x1_0000_0000_0000_0000 + ipv4.bits * 0x1_0000 + low);
        assert(a % 0x1_0000 == low);
        assert(a / 0x1_0000 == top * 0x1_0000_0000_0000 + ipv4.bits);
        assert(a / 0x1_0000_0000_0000 == top * 0x1_0000);
    }
}

/// What a rule assigns can be told from the delegated prefix and leads back to it: the shared
/// address lies in the rule's IPv4 network, the PSID fits its width, and the bits of the delegated
/// prefix are those of the rule prefix, the host part of the address and the PSID. This holds
/// where the EA bits are no more than host part and PSID together.
pub proof fn lemma_prefix_spells_address_and_psid(
    p: MapeParams,
    x: Ipv6Net,
    rule: MapRule,
    format: CeFormat,
)
    requires
        assigned(p, x, rule, format),
        x.prefix_len <= 128,
        x.prefix_len == rule.ipv6_prefix.prefix_len + rule.ea_length,
        rule.ipv6_prefix.spec_contains(x.addr),
        rule.ipv4_prefix.prefix_len <= 32,
        rule.port_params.psid_length <= 16,
        rule.ea_length <= 32 - rule.ipv4_prefix.prefix_len + rule.port_params.psid_length,
    ensures
        ({
            let k = rule.port_params.psid_length as nat;
            let host = pow2((32 - rule.ipv4_prefix.prefix_len) as nat) as int;
            &&& p.psid < pow2(k)
            &&& p.ipv4.bits as int / host == rule.ipv4_prefix.addr.bits as int / host
            &&& x.addr.bits as int / (pow2((128 - x.prefix_len) as nat) as int)
                == rule.ipv6_prefix.addr.bits as int / (pow2(
                (128 - rule.ipv6_prefix.prefix_len) as nat,
            ) as int) * pow2(rule.ea_length as nat) + (p.ipv4.bits as int % host) * pow2(k)
                + p.psid
        }),
        p.br_address == rule.br_address,
        p.rule == rule,
        p.ce_format == format,
{
    let k = rule.port_params.psid_length as nat;
    let h = (32 - rule.ipv4_prefix.prefix_len) as nat;
    let host = pow2(h) as int;
    let e = rule.ea_length as nat;
    let ea = ea_bits_of(x, rule);
    lemma_pow2_pos(h);
    lemma_pow2_pos(k);
    lemma_pow2_pos(e);
    lemma_ea_bits_bound(x, rule);
    lemma_psid_fits(ea, k);
    lemma_short_suffix_bound(ea, rule);
    lemma_ipv4_is_network_and_suffix(ea, rule);
    lemma_ea_bits_are_suffix_and_psid(ea, k);
    let suffix = suffix_of(ea, k);
    // The shared address.
    let bits4 = rule.ipv4_prefix.addr.bits as int;
    crate::net::lemma_networks_have_no_host_bits(rule.ipv4_prefix, x);
    vstd::arithmetic::div_mod::lemma_fundamental_div_mod_converse(
        p.ipv4.bits as int,
        host,
        bits4 / host,
        suffix,
    );
    // The delegated prefix.
    let n = pow2((128 - x.prefix_len) as nat) as int;
    let q = x.addr.bits as int / n;
    lemma_pow2_pos((128 - x.prefix_len) as nat);
    crate::net::lemma_truncated_keeps_first_bits(x.addr.bits as int, 128, x.prefix_len as int);
    crate::net::lemma_contains_compares_first_bits(rule.ipv6_prefix, x.addr);
    lemma_fundamental_div_mod(q, pow2(e) as int);
    vstd::arithmetic::power2::lemma_pow2_adds((128 - x.prefix_len) as nat, e);
    vstd::arithmetic::div_mod::lemma_div_denominator(x.addr.bits as int, n, pow2(e) as int);
    let r = rule.ipv6_prefix.addr.bits as int / (pow2(
        (128 - rule.ipv6_prefix.prefix_len) as nat,
    ) as int);
    assert(pow2(e) * r == r * pow2(e)) by (nonlinear_arith);
}

/// A suffix no wider than the host part fits into it.
proof fn lemma_short_suffix_bound(ea_bits: int, rule: MapRule)
    requires
        rule.ipv4_prefix.prefix_len <= 32,
        rule.port_params.psid_length <= 16,
        rule.ea_length <= 32 - rule.ipv4_prefix.prefix_len + rule.port_params.psid_length,
        0 <= ea_bits < pow2(rule.ea_length as nat),
    ensures
        0 <= suffix_of(ea_bits, rule.port_params.psid_length as nat) < pow2(
            (32 - rule.ipv4_prefix.prefix_len) as nat,
        ),
        ea_bits < pow2(rule.port_params.psid_length as nat + 32),
{
    let k = rule.port_params.psid_length as nat;
    let h = (32 - rule.ipv4_prefix.prefix_len) as nat;
    if (rule.ea_length as nat) < h + k {
        vstd::arithmetic::power2::lemma_pow2_strictly_increases(rule.ea_length as nat, h + k);
    }
    lemma_suffix_bound(ea_bits, MapRule { ea_length: (h + k) as u8, ..rule });
    lemma_pow2_pos(k);
    vstd::arithmetic::div_mod::lemma_mod_pos_bound(ea_bits / (pow2(k) as int), 0x1_0000_0000);
}

/// The ports that a rule assigns are those whose low bits, as many as the PSID has, spell the
/// PSID, from `2^(a+k)` on.
pub proof fn lemma_assigned_ports_spell_psid(
    p: MapeParams,
    x: Ipv6Net,
    rule: MapRule,
    format: CeFormat,
    port: u16,
)
    requires
        assigned(p, x, rule, format),
        rule.port_params.psid_offset + rule.port_params.psid_length <= 16,
    ensures
        ({
            let a = rule.port_params.psid_offset as nat;
            let k = rule.port_params.psid_length as nat;
            (exists|i: int|
                0 <= i < p.port_ranges@.len() && (#[trigger] p.port_ranges@[i])@.start <= port
                    <= p.port_ranges@[i]@.end) <==> port >= pow2(a + k) && port as int % (pow2(
                k,
            ) as int) == p.psid
        }),
{
    let a = rule.port_params.psid_offset as nat;
    let k = rule.port_params.psid_length as nat;
    let ea = ea_bits_of(x, rule);
    vstd::arithmetic::div_mod::lemma_mod_bound(
        truncated(x.addr.bits as int, 128, x.prefix_len as int) / (pow2(
            (128 - x.prefix_len) as nat,
        ) as int) % (pow2(rule.ea_length as nat) as int),
        0x1_0000_0000_0000_0000,
    );
    lemma_psid_fits(ea, k);
    crate::map::port_set::lemma_ports_of_psid(a, k, psid_of(ea, k), port);
    crate::map::port_set::lemma_listed_is_in_a_range(p.port_ranges@, port);
}

} // verus!
