//! The ports that a PSID owns.

use core::ops::RangeInclusive;
use vstd::arithmetic::div_mod::{
    lemma_fundamental_div_mod, lemma_fundamental_div_mod_converse, lemma_small_mod,
};
use vstd::arithmetic::power2::{lemma2_to64, lemma_pow2_adds, lemma_pow2_pos, pow2};
use vstd::prelude::*;

use crate::bits::small_power_of_two;
use crate::map::rule::PortParams;

verus! {

/// `RangeInclusive::start` gives the lower bound that the range was made with, as long as
/// the range has not been iterated to its end.
pub assume_specification<Idx>[ RangeInclusive::<Idx>::start ](r: &RangeInclusive<Idx>) -> (s: &Idx)
    ensures
        !r@.exhausted ==> *s == r@.start,
;

/// `RangeInclusive::end` gives the upper bound that the range was made with, as long as
/// the range has not been iterated to its end.
pub assume_specification<Idx>[ RangeInclusive::<Idx>::end ](r: &RangeInclusive<Idx>) -> (e: &Idx)
    ensures
        !r@.exhausted ==> *e == r@.end,
;

/// A range that lists at least one port and has not been iterated.
pub open spec fn proper(r: RangeInclusive<u16>) -> bool {
    !r@.exhausted && r@.start <= r@.end
}

/// The ports of one range, in order.
pub open spec fn run(r: RangeInclusive<u16>) -> Seq<u16> {
    Seq::new((r@.end - r@.start + 1) as nat, |i: int| (r@.start + i) as u16)
}

/// The ports of several ranges, one range after the other.
pub open spec fn listed(ranges: Seq<RangeInclusive<u16>>) -> Seq<u16>
    decreases ranges.len(),
{
    if ranges.len() == 0 {
        Seq::empty()
    } else {
        listed(ranges.drop_last()) + run(ranges.last())
    }
}

/// `ranges` lists exactly `ports`, in the same order, and in as few ranges as that order
/// allows: no range continues the one before it.
pub open spec fn merged(ranges: Seq<RangeInclusive<u16>>, ports: Seq<u16>) -> bool {
    &&& listed(ranges) == ports
    &&& forall|i: int| 0 <= i < ranges.len() ==> proper(#[trigger] ranges[i])
    &&& forall|i: int, j: int|
        0 <= i < ranges.len() && j == i + 1 && j < ranges.len() ==> (#[trigger] ranges[i])@.end + 1
            != (#[trigger] ranges[j])@.start
}

/// `Port(R, j) = R * 2^(a+k) + j * 2^k + PSID`, kept to sixteen bits.
pub open spec fn port(a: nat, k: nat, psid: int, r: int, j: int) -> u16 {
    ((r * pow2(a + k) + j * pow2(k) + psid) % 65536) as u16
}

/// The ports of a PSID: `R` runs from 1 below `2^(16-a-k)`, and for each `R`, `j` runs from
/// 0 below `2^a`.
pub open spec fn assigned_ports(a: nat, k: nat, psid: int) -> Seq<u16> {
    Seq::new(
        ((pow2((16 - a - k) as nat) - 1) * pow2(a)) as nat,
        |i: int| port(a, k, psid, i / (pow2(a) as int) + 1, i % (pow2(a) as int)),
    )
}

/// Appends one port to a list of merged ranges.
pub fn push_port(ranges: &mut Vec<RangeInclusive<u16>>, p: u16)
    requires
        merged(old(ranges)@, listed(old(ranges)@)),
    ensures
        merged(final(ranges)@, listed(old(ranges)@).push(p)),
{
    let ghost before = ranges@;
    let ghost ports = listed(ranges@);
    let n: usize = ranges.len();
    if n > 0 {
        let end: u16 = *ranges[n - 1].end();
        let start: u16 = *ranges[n - 1].start();
        if end < 65535 && end + 1 == p {
            let _ = ranges.pop();
            ranges.push(RangeInclusive::new(start, p));
            proof {
                let after = ranges@;
                assert(after.drop_last() =~= before.drop_last());
                assert(run(after.last()) =~= run(before.last()).push(p));
                assert(listed(after) =~= ports.push(p));
            }
            return;
        }
    }
    ranges.push(RangeInclusive::new(p, p));
    proof {
        let after = ranges@;
        assert(after.drop_last() =~= before);
        assert(run(after.last()) =~= seq![p]);
        assert(listed(after) =~= ports.push(p));
    }
}

/// The port ranges of `psid` under the given port parameters.
///
/// `a + k` may not exceed the sixteen bits of a port.
pub fn calc_port_ranges(port_params: &PortParams, psid: u16) -> (r: Vec<RangeInclusive<u16>>)
    requires
        port_params.psid_offset + port_params.psid_length <= 16,
    ensures
        merged(
            r@,
            assigned_ports(
                port_params.psid_offset as nat,
                port_params.psid_length as nat,
                psid as int,
            ),
        ),
{
    let a: u32 = port_params.psid_offset as u32;
    let k: u32 = port_params.psid_length as u32;
    let r_count: u32 = small_power_of_two(16 - a - k);
    let j_count: u32 = small_power_of_two(a);
    let r_step: u32 = small_power_of_two(a + k);
    let j_step: u32 = small_power_of_two(k);
    let ghost all = assigned_ports(a as nat, k as nat, psid as int);
    let mut ranges: Vec<RangeInclusive<u16>> = Vec::new();
    let mut r: u32 = 1;
    proof {
        lemma_counts(a as nat, k as nat);
        assert(all.take(0) =~= Seq::empty());
    }
    while r < r_count
        invariant
            1 <= r <= r_count,
            a + k <= 16,
            r_count == pow2((16 - a - k) as nat),
            j_count == pow2(a as nat),
            r_step == pow2((a + k) as nat),
            j_step == pow2(k as nat),
            r_count * r_step == 65536,
            j_count * j_step == r_step,
            all == assigned_ports(a as nat, k as nat, psid as int),
            0 <= (r - 1) * j_count <= all.len(),
            merged(ranges@, all.take((r - 1) * j_count)),
        decreases r_count - r,
    {
        let mut j: u32 = 0;
        proof {
            assert((r - 1) * j_count + j_count == r * j_count) by (nonlinear_arith);
            assert(r * j_count <= (r_count - 1) * j_count) by (nonlinear_arith)
                requires
                    r <= r_count - 1,
            ;
        }
        while j < j_count
            invariant
                1 <= r < r_count,
                j <= j_count,
                a + k <= 16,
                r_count == pow2((16 - a - k) as nat),
                j_count == pow2(a as nat),
                r_step == pow2((a + k) as nat),
                j_step == pow2(k as nat),
                r_count * r_step == 65536,
                j_count * j_step == r_step,
                all == assigned_ports(a as nat, k as nat, psid as int),
                0 <= (r - 1) * j_count + j_count == r * j_count <= all.len(),
                0 <= (r - 1) * j_count,
                merged(ranges@, all.take((r - 1) * j_count + j)),
            decreases j_count - j,
        {
            proof {
                assert(r * r_step <= 65536 - r_step) by (nonlinear_arith)
                    requires
                        r < r_count,
                        r_count * r_step == 65536,
                ;
                assert(j * j_step <= r_step - j_step) by (nonlinear_arith)
                    requires
                        j < j_count,
                        j_count * j_step == r_step,
                ;
                assert(r * r_step >= 0 && j * j_step >= 0) by (nonlinear_arith);
            }
            let p: u32 = r * r_step + j * j_step + psid as u32;
            let ghost i = (r - 1) * j_count + j;
            proof {
                lemma_pow2_pos(a as nat);
                lemma_fundamental_div_mod_converse(i, j_count as int, r - 1, j as int);
                assert(p as u16 == p % 65536) by (bit_vector);
                assert(all[i] == p as u16);
                assert(all.take(i).push(all[i]) =~= all.take(i + 1));
            }
            push_port(&mut ranges, p as u16);
            j = j + 1;
        }
        r = r + 1;
    }
    proof {
        assert(all.take((r - 1) * j_count) =~= all);
    }
    ranges
}

proof fn lemma_counts(a: nat, k: nat)
    requires
        a + k <= 16,
    ensures
        pow2((16 - a - k) as nat) * pow2(a + k) == 65536,
        pow2(a) * pow2(k) == pow2(a + k),
        pow2((16 - a - k) as nat) > 0,
        pow2(a) > 0,
        pow2(k) > 0,
        pow2(a + k) > 0,
{
    lemma2_to64();
    lemma_pow2_adds((16 - a - k) as nat, a + k);
    lemma_pow2_adds(a, k);
    lemma_pow2_pos((16 - a - k) as nat);
    lemma_pow2_pos(a);
    lemma_pow2_pos(k);
    lemma_pow2_pos(a + k);
}

/// With a PSID that fits its width, the `i`-th port is `(2^a + i) * 2^k + PSID`.
proof fn lemma_nth_port(a: nat, k: nat, psid: int, i: int)
    requires
        a + k <= 16,
        0 <= psid < pow2(k),
        0 <= i < assigned_ports(a, k, psid).len(),
    ensures
        assigned_ports(a, k, psid)[i] == (pow2(a) + i) * pow2(k) + psid,
        pow2(a) + i < pow2((16 - k) as nat),
        pow2((16 - k) as nat) * pow2(k) == 65536,
{
    lemma_counts(a, k);
    let na = pow2(a) as int;
    let nk = pow2(k) as int;
    let q = i / na;
    let j = i % na;
    lemma_fundamental_div_mod(i, na);
    assert((q + 1) * (na * nk) + j * nk == (na + i) * nk) by (nonlinear_arith)
        requires
            i == na * q + j,
    ;
    lemma_pow2_adds((16 - a - k) as nat, a);
    lemma_pow2_adds((16 - k) as nat, k);
    lemma2_to64();
    assert((pow2((16 - a - k) as nat) - 1) * na + na == pow2((16 - a - k) as nat) * na)
        by (nonlinear_arith);
    let top = pow2((16 - k) as nat) as int;
    assert((na + i) * nk + psid < top * nk) by (nonlinear_arith)
        requires
            na + i < top,
            psid < nk,
            nk > 0,
    ;
    assert((na + i) * nk >= 0) by (nonlinear_arith)
        requires
            na + i >= 0,
            nk > 0,
    ;
    lemma_small_mod(((na + i) * nk + psid) as nat, 65536);
}

/// A PSID that fits its width owns exactly the ports whose low `k` bits spell it, from
/// `2^(a+k)` on.
pub proof fn lemma_ports_of_psid(a: nat, k: nat, psid: int, p: u16)
    requires
        a + k <= 16,
        0 <= psid < pow2(k),
    ensures
        assigned_ports(a, k, psid).contains(p) <==> p >= pow2(a + k) && p as int % (pow2(k) as int)
            == psid,
{
    lemma_counts(a, k);
    let all = assigned_ports(a, k, psid);
    let na = pow2(a) as int;
    let nk = pow2(k) as int;
    if all.contains(p) {
        let i = choose|i: int| 0 <= i < all.len() && all[i] == p;
        lemma_nth_port(a, k, psid, i);
        lemma_fundamental_div_mod_converse(p as int, nk, na + i, psid);
        assert((na + i) * nk >= na * nk) by (nonlinear_arith)
            requires
                i >= 0,
                nk > 0,
        ;
    }
    if p >= pow2(a + k) && p as int % nk == psid {
        let m = p as int / nk;
        lemma_fundamental_div_mod(p as int, nk);
        assert(m >= na) by (nonlinear_arith)
            requires
                nk * m + psid >= na * nk,
                psid < nk,
                nk > 0,
        ;
        lemma_pow2_adds((16 - k) as nat, k);
        lemma2_to64();
        let top = pow2((16 - k) as nat) as int;
        assert(m < top) by (nonlinear_arith)
            requires
                nk * m + psid < top * nk,
                psid >= 0,
                nk > 0,
        ;
        lemma_pow2_adds((16 - a - k) as nat, a);
        assert((pow2((16 - a - k) as nat) - 1) * na + na == pow2((16 - a - k) as nat) * na)
            by (nonlinear_arith);
        let i = m - na;
        assert(0 <= i < all.len());
        lemma_nth_port(a, k, psid, i);
        assert(m * nk == nk * m) by (nonlinear_arith);
        assert(all[i] == p);
    }
}

/// No port belongs to two PSIDs, and every port from `2^(a+k)` on belongs to one.
pub proof fn lemma_psids_partition_ports(a: nat, k: nat, p: u16)
    requires
        a + k <= 16,
    ensures
        forall|x: int, y: int|
            0 <= x < pow2(k) && 0 <= y < pow2(k) && assigned_ports(a, k, x).contains(p)
                && assigned_ports(a, k, y).contains(p) ==> x == y,
        p >= pow2(a + k) ==> exists|x: int|
            0 <= x < pow2(k) && #[trigger] assigned_ports(a, k, x).contains(p),
{
    assert forall|x: int, y: int|
        0 <= x < pow2(k) && 0 <= y < pow2(k) && assigned_ports(a, k, x).contains(p)
            && assigned_ports(a, k, y).contains(p) implies x == y by {
        lemma_ports_of_psid(a, k, x, p);
        lemma_ports_of_psid(a, k, y, p);
    }
    if p >= pow2(a + k) {
        lemma_pow2_pos(k);
        lemma_ports_of_psid(a, k, p as int % (pow2(k) as int), p);
    }
}

/// The ports of a PSID come in ascending order, each once.
pub proof fn lemma_ports_ascend(a: nat, k: nat, psid: int)
    requires
        a + k <= 16,
        0 <= psid < pow2(k),
    ensures
        forall|i: int, j: int|
            0 <= i < j < assigned_ports(a, k, psid).len() ==> assigned_ports(a, k, psid)[i]
                < assigned_ports(a, k, psid)[j],
{
    assert forall|i: int, j: int| 0 <= i < j < assigned_ports(a, k, psid).len() implies assigned_ports(
        a,
        k,
        psid,
    )[i] < assigned_ports(a, k, psid)[j] by {
        lemma_nth_port(a, k, psid, i);
        lemma_nth_port(a, k, psid, j);
        lemma_pow2_pos(k);
        let na = pow2(a) as int;
        let nk = pow2(k) as int;
        assert((na + i) * nk < (na + j) * nk) by (nonlinear_arith)
            requires
                i < j,
                nk > 0,
        ;
    }
}

/// A port sequence has only one list of merged ranges.
pub proof fn lemma_merged_is_unique(
    x: Seq<RangeInclusive<u16>>,
    y: Seq<RangeInclusive<u16>>,
    ports: Seq<u16>,
)
    requires
        merged(x, ports),
        merged(y, ports),
    ensures
        x.len() == y.len(),
        forall|i: int|
            0 <= i < x.len() ==> (#[trigger] x[i])@.start == y[i]@.start && x[i]@.end == y[i]@.end,
    decreases x.len() + y.len(),
{
    if x.len() == 0 || y.len() == 0 {
        if x.len() > 0 {
            assert(proper(x.last()));
            assert(listed(x).len() > 0);
        }
        if y.len() > 0 {
            assert(proper(y.last()));
            assert(listed(y).len() > 0);
        }
    } else {
        let n = ports.len() as int;
        let (rx, ry) = (x.last(), y.last());
        assert(proper(rx) && proper(ry));
        assert(listed(x)[n - 1] == rx@.end);
        assert(listed(y)[n - 1] == ry@.end);
        lemma_last_run(x, y, ports);
        lemma_last_run(y, x, ports);
        assert(run(rx) =~= run(ry));
        let rest = ports.take(n - run(rx).len());
        assert(listed(x.drop_last()) =~= rest);
        assert(listed(y.drop_last()) =~= rest);
        lemma_merged_is_unique(x.drop_last(), y.drop_last(), rest);
        assert forall|i: int| 0 <= i < x.len() implies (#[trigger] x[i])@.start == y[i]@.start
            && x[i]@.end == y[i]@.end by {
            if i < x.len() - 1 {
                assert(x[i] == x.drop_last()[i]);
                assert(y[i] == y.drop_last()[i]);
            }
        }
    }
}

/// The last range of one merged list reaches at least as far back as that of another.
proof fn lemma_last_run(x: Seq<RangeInclusive<u16>>, y: Seq<RangeInclusive<u16>>, ports: Seq<u16>)
    requires
        merged(x, ports),
        merged(y, ports),
        x.len() > 0,
        y.len() > 0,
        x.last()@.end == y.last()@.end,
    ensures
        x.last()@.start <= y.last()@.start,
{
    let (rx, ry) = (x.last(), y.last());
    assert(proper(rx) && proper(ry));
    if ry@.start < rx@.start {
        let n = ports.len() as int;
        let at = n - run(rx).len() - 1;
        assert(listed(y)[at] == (rx@.start - 1) as u16);
        assert(listed(x.drop_last()).len() > 0);
        assert(x.len() > 1);
        let prev = x[x.len() - 2];
        assert(proper(prev));
        assert(x.drop_last().last() == prev);
        assert(listed(x)[at] == prev@.end);
        assert(x[x.len() - 2]@.end + 1 != x[x.len() - 1]@.start);
    }
}

/// Ranges list a port just where one of them reaches from no more than the port to no less.
pub proof fn lemma_listed_is_in_a_range(ranges: Seq<RangeInclusive<u16>>, p: u16)
    requires
        forall|i: int| 0 <= i < ranges.len() ==> proper(#[trigger] ranges[i]),
    ensures
        listed(ranges).contains(p) <==> exists|i: int|
            0 <= i < ranges.len() && (#[trigger] ranges[i])@.start <= p <= ranges[i]@.end,
    decreases ranges.len(),
{
    if ranges.len() > 0 {
        let rest = ranges.drop_last();
        let n = ranges.len() - 1;
        let last = ranges[n];
        assert forall|i: int| 0 <= i < rest.len() implies proper(#[trigger] rest[i]) by {
            assert(rest[i] == ranges[i]);
        }
        lemma_listed_is_in_a_range(rest, p);
        assert(proper(last));
        let front = listed(rest);
        let all = listed(ranges);
        if all.contains(p) {
            let i = choose|i: int| 0 <= i < all.len() && all[i] == p;
            if i < front.len() {
                assert(front[i] == p);
                let j = choose|j: int|
                    0 <= j < rest.len() && (#[trigger] rest[j])@.start <= p <= rest[j]@.end;
                assert(ranges[j] == rest[j]);
            } else {
                assert(run(last)[i - front.len()] == p);
                assert(last@.start <= p <= last@.end);
            }
        }
        if exists|i: int|
            0 <= i < ranges.len() && (#[trigger] ranges[i])@.start <= p <= ranges[i]@.end {
            let j = choose|j: int|
                0 <= j < ranges.len() && (#[trigger] ranges[j])@.start <= p <= ranges[j]@.end;
            if j < n {
                assert(rest[j] == ranges[j]);
                assert(front.contains(p));
                let i = choose|i: int| 0 <= i < front.len() && front[i] == p;
                assert(all[i] == p);
            } else {
                let i = p - last@.start;
                assert(run(last)[i] == p);
                assert(all[front.len() + i] == p);
            }
        }
    }
}

/// The ports of a PSID under the formula: for each `R` from 1 below `2^(16-a-k)` and each `j` below
/// `2^a` there is the port `R * 2^(a+k) + j * 2^k + PSID`, in this order.
pub proof fn lemma_port_formula(a: nat, k: nat, psid: int, r: int, j: int)
    requires
        a + k <= 16,
        0 <= psid < pow2(k),
        1 <= r < pow2((16 - a - k) as nat),
        0 <= j < pow2(a),
    ensures
        ({
            let i = (r - 1) * pow2(a) + j;
            let ports = assigned_ports(a, k, psid);
            &&& 0 <= i < ports.len()
            &&& ports[i] == r * pow2(a + k) + j * pow2(k) + psid
            &&& ports.len() == (pow2((16 - a - k) as nat) - 1) * pow2(a)
        }),
{
    lemma_counts(a, k);
    let na = pow2(a) as int;
    let nk = pow2(k) as int;
    let top = pow2((16 - a - k) as nat) as int;
    let i = (r - 1) * na + j;
    assert(0 <= i < (top - 1) * na) by (nonlinear_arith)
        requires
            i == (r - 1) * na + j,
            1 <= r < top,
            0 <= j < na,
    ;
    lemma_nth_port(a, k, psid, i);
    assert((na + i) * nk + psid == r * (na * nk) + j * nk + psid) by (nonlinear_arith)
        requires
            i == (r - 1) * na + j,
    ;
}

} // verus!
