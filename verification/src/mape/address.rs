//! The port set of a carried rule.

use core::ops::RangeInclusive;
use vstd::arithmetic::div_mod::{lemma_fundamental_div_mod, lemma_fundamental_div_mod_converse};
use vstd::arithmetic::power2::{
    lemma2_to64, lemma_pow2_adds, lemma_pow2_pos, lemma_pow2_strictly_increases, pow2,
};
use vstd::prelude::*;

use crate::map::port_set::{lemma_listed_is_in_a_range, listed, merged, proper, push_port};
use crate::mape::error::MapeError;
use crate::mape::rule::MapeRule;

verus! {

/// The ports of a rule.
#[derive(Clone, Debug)]
pub struct PortSet {
    /// PSID offset.
    pub offset: u8,
    /// PSID length.
    pub psid_len: u8,
    /// PSID.
    pub psid: u16,
    /// The usable ports.
    pub ranges: Vec<RangeInclusive<u16>>,
}

/// How many bits are left for the position within a block: sixteen less the offset and the
/// PSID, and none where those take more.
pub open spec fn position_bits(offset: u8, psid_len: u8) -> u8 {
    if offset + psid_len <= 16 {
        (16 - offset - psid_len) as u8
    } else {
        0
    }
}

/// A port made of block number, PSID and position, within thirty-two bits.
pub open spec fn composed(offset: u8, psid_len: u8, psid: u16, r: u32, a: u32) -> u32 {
    let bits = position_bits(offset, psid_len) as u32;
    (a << ((psid_len + bits) as u32)) | ((psid as u32) << bits) | r
}

/// The compositions in the order that they are tried: for each position, block numbers from 1
/// below `2^offset`.
pub open spec fn compositions(offset: u8, psid_len: u8, psid: u16) -> Seq<u32> {
    let blocks = (pow2(offset as nat) - 1) as nat;
    Seq::new(
        pow2(position_bits(offset, psid_len) as nat) * blocks,
        |i: int|
            composed(
                offset,
                psid_len,
                psid,
                (i / (blocks as int)) as u32,
                (i % (blocks as int) + 1) as u32,
            ),
    )
}

/// Those of the numbers that are ports, in their order. Zero is none.
pub open spec fn ports_among(numbers: Seq<u32>) -> Seq<u16>
    decreases numbers.len(),
{
    if numbers.len() == 0 {
        Seq::empty()
    } else if 0 < numbers.last() <= 65535 {
        ports_among(numbers.drop_last()).push(numbers.last() as u16)
    } else {
        ports_among(numbers.drop_last())
    }
}

/// Whether the PSID is too large for its length.
pub open spec fn psid_out_of_range(rule: MapeRule) -> bool {
    rule.spec_psid_len() > 0 && rule.spec_psid() >= pow2(rule.spec_psid_len() as nat)
}

impl PortSet {
    /// The port set of a rule.
    ///
    /// Fails with `InvalidPsid` if and only if the PSID does not fit its length. Without PSID
    /// bits the set is all ports from 1024 on. A length of sixteen or more, or an offset of
    /// thirty-two or more beside one that is not zero, is out of range.
    pub fn from_rule(rule: &MapeRule) -> (r: Result<PortSet, MapeError>)
        requires
            rule.spec_psid_len() < 16,
            rule.spec_psid_len() > 0 && !psid_out_of_range(*rule) ==> rule.spec_psid_offset() < 32,
        ensures
            r is Err <==> psid_out_of_range(*rule),
            r matches Err(e) ==> e == (MapeError::InvalidPsid {
                psid: rule.spec_psid(),
                psid_len: rule.spec_psid_len(),
            }),
            r matches Ok(s) ==> {
                &&& s.offset == rule.spec_psid_offset()
                &&& s.psid_len == rule.spec_psid_len()
                &&& s.psid == rule.spec_psid()
                &&& s.psid_len == 0 ==> s.ranges@.len() == 1 && s.ranges@[0]@.start == 1024
                    && s.ranges@[0]@.end == 65535 && proper(s.ranges@[0])
                &&& s.psid_len > 0 ==> merged(
                    s.ranges@,
                    ports_among(compositions(s.offset, s.psid_len, s.psid)),
                )
            },
    {
        let offset: u8 = rule.psid_offset();
        let psid_len: u8 = rule.psid_len();
        let psid: u16 = rule.psid();
        proof {
            lemma2_to64();
            lemma_pow2_strictly_increases(psid_len as nat, 16);
            vstd::bits::lemma_u32_shl_is_mul(1, psid_len as u32);
        }
        if psid_len > 0 && psid as u32 >= (1u32 << (psid_len as u32)) {
            return Err(MapeError::InvalidPsid { psid, psid_len });
        }
        let mut ranges: Vec<RangeInclusive<u16>> = Vec::new();
        if psid_len == 0 {
            ranges.push(RangeInclusive::new(1024, 65535));
            return Ok(PortSet { offset, psid_len, psid, ranges });
        }
        let bits: u8 = 16u8.saturating_sub(offset).saturating_sub(psid_len);
        let ghost all = compositions(offset, psid_len, psid);
        proof {
            lemma_pow2_strictly_increases(bits as nat, 32);
            lemma_pow2_strictly_increases(offset as nat, 32);
            lemma_pow2_pos(offset as nat);
            vstd::bits::lemma_u32_shl_is_mul(1, bits as u32);
            vstd::bits::lemma_u32_shl_is_mul(1, offset as u32);
        }
        let r_count: u32 = 1u32 << (bits as u32);
        let a_count: u32 = 1u32 << (offset as u32);
        let ghost blocks = a_count - 1;
        let mut r: u32 = 0;
        proof {
            assert(all.take(0) =~= Seq::empty());
        }
        while r < r_count
            invariant
                r <= r_count,
                offset < 32,
                0 < psid_len < 16,
                bits == position_bits(offset, psid_len),
                bits + psid_len <= 16,
                r_count == pow2(bits as nat),
                a_count == pow2(offset as nat),
                blocks == a_count - 1,
                all == compositions(offset, psid_len, psid),
                0 <= r * blocks <= all.len(),
                merged(ranges@, ports_among(all.take(r * blocks))),
            decreases r_count - r,
        {
            let mut a: u32 = 1;
            proof {
                lemma_pow2_pos(offset as nat);
                assert(r * blocks + blocks == (r + 1) * blocks) by (nonlinear_arith);
                assert((r + 1) * blocks <= r_count * blocks) by (nonlinear_arith)
                    requires
                        r + 1 <= r_count,
                        blocks >= 0,
                ;
            }
            while a < a_count
                invariant
                    r < r_count,
                    1 <= a,
                    a <= a_count,
                    offset < 32,
                    0 < psid_len < 16,
                    bits == position_bits(offset, psid_len),
                    bits + psid_len <= 16,
                    r_count == pow2(bits as nat),
                    a_count == pow2(offset as nat),
                    blocks == a_count - 1,
                    all == compositions(offset, psid_len, psid),
                    0 <= r * blocks,
                    r * blocks + blocks == (r + 1) * blocks <= all.len(),
                    merged(ranges@, ports_among(all.take(r * blocks + a - 1))),
                decreases a_count - a,
            {
                let port: u32 = (a << ((psid_len + bits) as u32)) | ((psid as u32) << (bits as u32))
                    | r;
                let ghost i = r * blocks + a - 1;
                proof {
                    lemma_fundamental_div_mod_converse(i, blocks, r as int, a - 1);
                    assert(all[i] == port);
                    assert(all.take(i + 1).drop_last() =~= all.take(i));
                    assert(all.take(i + 1).last() == port);
                }
                if port > 0 && port <= 65535 {
                    push_port(&mut ranges, port as u16);
                }
                a = a + 1;
            }
            r = r + 1;
        }
        proof {
            assert(all.take(r * blocks) =~= all);
        }
        Ok(PortSet { offset, psid_len, psid, ranges })
    }

    /// The number of usable ports.
    ///
    /// Each range must list at least one port, and the total must be a number that fits.
    pub fn total_ports(&self) -> (r: usize)
        requires
            forall|i: int|
                0 <= i < self.ranges@.len() ==> proper(#[trigger] self.ranges@[i]),
            listed(self.ranges@).len() <= usize::MAX,
        ensures
            r == listed(self.ranges@).len(),
    {
        let mut total: usize = 0;
        let mut i: usize = 0;
        proof {
            assert(self.ranges@.take(0) =~= Seq::empty());
        }
        while i < self.ranges.len()
            invariant
                i <= self.ranges@.len(),
                forall|i: int|
                    0 <= i < self.ranges@.len() ==> proper(#[trigger] self.ranges@[i]),
                listed(self.ranges@).len() <= usize::MAX,
                total == listed(self.ranges@.take(i as int)).len(),
            decreases self.ranges@.len() - i,
        {
            proof {
                let next = self.ranges@.take(i + 1);
                assert(next.drop_last() =~= self.ranges@.take(i as int));
                assert(next.last() == self.ranges@[i as int]);
                lemma_listed_grows(self.ranges@, i + 1);
            }
            let count: usize = (*self.ranges[i].end() - *self.ranges[i].start()) as usize + 1;
            total = total + count;
            i = i + 1;
        }
        proof {
            assert(self.ranges@.take(i as int) =~= self.ranges@);
        }
        total
    }
}

proof fn lemma_listed_grows(ranges: Seq<RangeInclusive<u16>>, n: int)
    requires
        0 <= n <= ranges.len(),
    ensures
        listed(ranges.take(n)).len() <= listed(ranges).len(),
    decreases ranges.len() - n,
{
    if n < ranges.len() {
        assert(ranges.take(n + 1).drop_last() =~= ranges.take(n));
        lemma_listed_grows(ranges, n + 1);
    } else {
        assert(ranges.take(n) =~= ranges);
    }
}

/// With an offset and a length of sixteen bits at most, and a PSID that fits, the port set is
/// exactly the ports whose block number is not zero and whose PSID bits spell the PSID.
pub proof fn lemma_port_set_of_psid(offset: u8, psid_len: u8, psid: u16, p: u16)
    requires
        offset + psid_len <= 16,
        psid < pow2(psid_len as nat),
    ensures
        ports_among(compositions(offset, psid_len, psid)).contains(p) <==> {
            &&& p as int / (pow2((16 - offset) as nat) as int) >= 1
            &&& p as int / (pow2((16 - offset - psid_len) as nat) as int) % (pow2(
                psid_len as nat,
            ) as int) == psid
        },
{
    let bits = position_bits(offset, psid_len);
    let all = compositions(offset, psid_len, psid);
    let n = pow2(offset as nat) as int;
    let w = pow2(psid_len as nat) as int;
    let b = pow2(bits as nat) as int;
    let step = pow2((16 - offset) as nat) as int;
    lemma2_to64();
    lemma_pow2_pos(offset as nat);
    lemma_pow2_pos(psid_len as nat);
    lemma_pow2_pos(bits as nat);
    lemma_pow2_adds(psid_len as nat, bits as nat);
    lemma_pow2_adds(offset as nat, (16 - offset) as nat);
    let blocks = n - 1;
    lemma_among(all, p);
    if ports_among(all).contains(p) {
        let i = choose|i: int| 0 <= i < all.len() && all[i] == p && 0 < all[i] <= 65535;
        assert(blocks > 0) by (nonlinear_arith)
            requires
                0 <= i < b * blocks,
                b > 0,
        ;
        lemma_fundamental_div_mod(i, blocks);
        let r = i / blocks;
        let a = i % blocks + 1;
        assert(0 <= r < b) by (nonlinear_arith)
            requires
                i == blocks * r + (a - 1),
                0 <= i < b * blocks,
                0 <= a - 1 < blocks,
        ;
        lemma_composed(offset, psid_len, psid, r as u32, a as u32);
    }
    if p as int / step >= 1 && p as int / b % w == psid {
        let a = p as int / step;
        let r = p as int % b;
        lemma_fundamental_div_mod(p as int, step);
        assert(a < n) by (nonlinear_arith)
            requires
                p == step * a + p as int % step,
                p as int % step >= 0,
                p < n * step,
                step > 0,
        ;
        lemma_fundamental_div_mod(p as int, b);
        lemma_fundamental_div_mod(p as int / b, w);
        vstd::arithmetic::div_mod::lemma_div_denominator(p as int, b, w);
        assert(b * w == w * b) by (nonlinear_arith);
        let q = p as int / b;
        assert(p == a * step + psid * b + r) by (nonlinear_arith)
            requires
                p == b * q + r,
                q == w * a + psid,
                step == w * b,
        ;
        lemma_composed(offset, psid_len, psid, r as u32, a as u32);
        let i = r * blocks + (a - 1);
        lemma_fundamental_div_mod_converse(i, blocks, r, a - 1);
        assert(0 <= i < b * blocks) by (nonlinear_arith)
            requires
                0 <= r < b,
                1 <= a <= blocks,
                i == r * blocks + (a - 1),
        ;
        assert(all[i] == p);
    }
}

/// A number occurs among the ports just where it occurs and is a port.
proof fn lemma_among(numbers: Seq<u32>, p: u16)
    ensures
        ports_among(numbers).contains(p) <==> exists|i: int|
            0 <= i < numbers.len() && #[trigger] numbers[i] == p && 0 < numbers[i] <= 65535,
    decreases numbers.len(),
{
    if numbers.len() > 0 {
        let rest = numbers.drop_last();
        lemma_among(rest, p);
        let found = ports_among(numbers);
        let n = numbers.len() - 1;
        if ports_among(rest).contains(p) {
            let i = choose|i: int| 0 <= i < rest.len() && #[trigger] rest[i] == p && 0 < rest[i] <= 65535;
            assert(numbers[i] == p);
            let k = choose|k: int| 0 <= k < ports_among(rest).len() && ports_among(rest)[k] == p;
            assert(found[k] == p);
        }
        if 0 < numbers[n] <= 65535 {
            assert(found.last() == numbers[n] as u16);
            assert(found[found.len() - 1] == numbers[n] as u16);
        }
        if found.contains(p) {
            let k = choose|k: int| 0 <= k < found.len() && found[k] == p;
            if k < ports_among(rest).len() {
                assert(ports_among(rest)[k] == p);
            } else {
                assert(numbers[n] == p);
            }
        }
        if exists|i: int|
            0 <= i < numbers.len() && #[trigger] numbers[i] == p && 0 < numbers[i] <= 65535 {
            let i = choose|i: int|
                0 <= i < numbers.len() && #[trigger] numbers[i] == p && 0 < numbers[i] <= 65535;
            if i < n {
                assert(rest[i] == p);
            }
        }
    }
}

/// A composition of fields that fit is the sum of the fields in their places.
proof fn lemma_composed(offset: u8, psid_len: u8, psid: u16, r: u32, a: u32)
    requires
        offset + psid_len <= 16,
        psid < pow2(psid_len as nat),
        1 <= a < pow2(offset as nat),
        r < pow2((16 - offset - psid_len) as nat),
    ensures
        ({
            let p = composed(offset, psid_len, psid, r, a) as int;
            let b = pow2((16 - offset - psid_len) as nat) as int;
            let step = pow2((16 - offset) as nat) as int;
            &&& p == a * step + psid * b + r
            &&& 0 < p <= 65535
            &&& p / step == a
            &&& p / b % (pow2(psid_len as nat) as int) == psid
            &&& p % b == r
        }),
{
    let bits = (16 - offset - psid_len) as u32;
    let k = psid_len as u32;
    let o = offset as u32;
    let x = psid as u32;
    lemma2_to64();
    lemma_pow2_16(offset as nat);
    lemma_pow2_16(psid_len as nat);
    lemma_pow2_16(bits as nat);
    lemma_pow2_16((16 - offset) as nat);
    vstd::bits::lemma_u32_shl_is_mul(1, bits);
    vstd::bits::lemma_u32_shl_is_mul(1, k);
    vstd::bits::lemma_u32_shl_is_mul(1, o);
    let s = (16 - offset) as u32;
    assert(((a << s) | (x << bits) | r) == (a << s) + (x << bits) + r) by (bit_vector)
        requires
            o + k + bits == 16,
            s == k + bits,
            a < (1u32 << o),
            x < (1u32 << k),
            r < (1u32 << bits),
    ;
    let n = pow2(offset as nat) as int;
    let w = pow2(psid_len as nat) as int;
    let b = pow2(bits as nat) as int;
    let step = pow2(s as nat) as int;
    lemma_pow2_adds(psid_len as nat, bits as nat);
    lemma_pow2_adds(offset as nat, (16 - offset) as nat);
    assert(0 <= a * step <= 65536 && 0 <= x * b <= 65536) by (nonlinear_arith)
        requires
            a < n,
            x < w,
            n * step == 65536,
            w * b == step,
            step <= 65536,
            step > 0,
            b > 0,
    ;
    vstd::bits::lemma_u32_shl_is_mul(a, s);
    vstd::bits::lemma_u32_shl_is_mul(x, bits);
    let low = psid * b + r;
    assert(0 <= low < step) by (nonlinear_arith)
        requires
            0 <= psid < w,
            0 <= r < b,
            step == w * b,
            low == psid * b + r,
    ;
    let p = a * step + low;
    assert(0 < p < 65536) by (nonlinear_arith)
        requires
            1 <= a < n,
            0 <= low < step,
            n * step == 65536,
            p == a * step + low,
    ;
    lemma_fundamental_div_mod_converse(p, step, a as int, low);
    let q = a * w + psid;
    assert(p == q * b + r) by (nonlinear_arith)
        requires
            p == a * step + psid * b + r,
            step == w * b,
            q == a * w + psid,
    ;
    lemma_fundamental_div_mod_converse(p, b, q, r as int);
    lemma_fundamental_div_mod_converse(q, w, a as int, psid as int);
}

proof fn lemma_pow2_16(n: nat)
    requires
        n <= 16,
    ensures
        1 <= pow2(n) <= 65536,
{
    lemma2_to64();
    lemma_pow2_pos(n);
    if n < 16 {
        lemma_pow2_strictly_increases(n, 16);
    }
}

/// Numbers that are all ports are kept as they are.
proof fn lemma_all_are_ports(numbers: Seq<u32>)
    requires
        forall|i: int| 0 <= i < numbers.len() ==> 0 < #[trigger] numbers[i] <= 65535,
    ensures
        ports_among(numbers).len() == numbers.len(),
        forall|i: int|
            0 <= i < numbers.len() ==> #[trigger] ports_among(numbers)[i] == numbers[i] as u16,
    decreases numbers.len(),
{
    if numbers.len() > 0 {
        let rest = numbers.drop_last();
        let n = numbers.len() - 1;
        assert forall|i: int| 0 <= i < rest.len() implies 0 < #[trigger] rest[i] <= 65535 by {
            assert(rest[i] == numbers[i]);
        }
        lemma_all_are_ports(rest);
        assert(0 < numbers[n] <= 65535);
        assert forall|i: int| 0 <= i < numbers.len() implies #[trigger] ports_among(numbers)[i]
            == numbers[i] as u16 by {
            if i < n {
                assert(ports_among(rest)[i] == rest[i] as u16);
            }
        }
    }
}

/// The order of the ports of a PSID: for each position `r`, with block numbers `a` from 1 on, the
/// ports `a * 2^(16-offset) + PSID * 2^(16-offset-length) + r`.
pub proof fn lemma_order_of_ports(offset: u8, psid_len: u8, psid: u16, r: int, a: int)
    requires
        offset + psid_len <= 16,
        psid < pow2(psid_len as nat),
        0 <= r < pow2((16 - offset - psid_len) as nat),
        1 <= a < pow2(offset as nat),
    ensures
        ({
            let ports = ports_among(compositions(offset, psid_len, psid));
            let blocks = pow2(offset as nat) - 1;
            let block = pow2((16 - offset - psid_len) as nat) as int;
            &&& ports.len() == block * blocks
            &&& 0 <= r * blocks + a - 1 < ports.len()
            &&& ports[r * blocks + a - 1] == a * pow2((16 - offset) as nat) + psid * block + r
        }),
{
    let all = compositions(offset, psid_len, psid);
    let blocks = pow2(offset as nat) - 1;
    let block = pow2((16 - offset - psid_len) as nat) as int;
    assert forall|i: int| 0 <= i < all.len() implies 0 < #[trigger] all[i] <= 65535 by {
        lemma_fundamental_div_mod(i, blocks);
        let q = i / blocks;
        let m = i % blocks;
        assert(0 <= q < block) by (nonlinear_arith)
            requires
                i == blocks * q + m,
                0 <= i < block * blocks,
                0 <= m < blocks,
        ;
        lemma_pow2_16((16 - offset - psid_len) as nat);
        lemma_pow2_16(offset as nat);
        lemma_composed(offset, psid_len, psid, q as u32, (m + 1) as u32);
    }
    lemma_all_are_ports(all);
    let i = r * blocks + a - 1;
    assert(0 <= i < block * blocks) by (nonlinear_arith)
        requires
            0 <= r < block,
            1 <= a <= blocks,
            i == r * blocks + a - 1,
    ;
    lemma_fundamental_div_mod_converse(i, blocks, r, a - 1);
    lemma_pow2_16((16 - offset - psid_len) as nat);
    lemma_pow2_16(offset as nat);
    lemma_composed(offset, psid_len, psid, r as u32, a as u32);
    assert(ports_among(all)[i] == all[i] as u16);
}

/// A port lies in one of the ranges of a PSID just where its block number is not zero and its PSID
/// bits spell the PSID.
pub proof fn lemma_ranges_of_psid(
    ranges: Seq<RangeInclusive<u16>>,
    offset: u8,
    psid_len: u8,
    psid: u16,
    p: u16,
)
    requires
        offset + psid_len <= 16,
        psid < pow2(psid_len as nat),
        merged(ranges, ports_among(compositions(offset, psid_len, psid))),
    ensures
        (exists|i: int|
            0 <= i < ranges.len() && (#[trigger] ranges[i])@.start <= p <= ranges[i]@.end) <==> {
            &&& p as int / (pow2((16 - offset) as nat) as int) >= 1
            &&& p as int / (pow2((16 - offset - psid_len) as nat) as int) % (pow2(
                psid_len as nat,
            ) as int) == psid
        },
{
    lemma_port_set_of_psid(offset, psid_len, psid, p);
    lemma_listed_is_in_a_range(ranges, p);
}

/// Which PSID is too large: one with a length that is not zero, from two to that power on. A rule
/// without PSID has the PSID zero, and one without offset the offset 6.
pub proof fn lemma_which_psid_is_too_large(rule: MapeRule)
    ensures
        rule.bmr.psid_len is None || rule.bmr.psid_len == Some(0u8) ==> !psid_out_of_range(rule),
        rule.bmr.psid_len matches Some(n) ==> n > 0 ==> rule.bmr.psid is Some ==> psid_out_of_range(
            rule,
        ) == (rule.bmr.psid->Some_0 >= pow2(n as nat)),
        rule.bmr.psid is None ==> !psid_out_of_range(rule) && rule.spec_psid() == 0,
        rule.bmr.psid_offset is None ==> rule.spec_psid_offset() == 6,
        rule.bmr.psid_offset matches Some(o) ==> rule.spec_psid_offset() == o,
        rule.bmr.psid_len is None ==> rule.spec_psid_len() == 0,
        rule.bmr.psid_len matches Some(n) ==> rule.spec_psid_len() == n,
        rule.bmr.psid matches Some(p) ==> rule.spec_psid() == p,
{
    lemma_pow2_pos(rule.spec_psid_len() as nat);
}

} // verus!
