//! The one-to-one translation between staging ports and the ports of a PSID.
//!
//! Netfilter hands out ports from one contiguous staging range. Those of a PSID lie scattered:
//! a port is `R`, the PSID and `j`, in `a`, `k` and `16 - a - k` bits, with `R` not zero. The
//! staging ports count through all `(R, j)` in order.

use vstd::arithmetic::div_mod::{
    lemma_fundamental_div_mod, lemma_fundamental_div_mod_converse, lemma_small_mod,
};
use vstd::arithmetic::power2::{lemma2_to64, lemma_pow2_adds, lemma_pow2_pos, pow2};
use vstd::prelude::*;

use crate::bits::small_power_of_two;
use crate::error::{ErrorView, MapEError};
use crate::map::rule::{MapeParams, PortParams};
use crate::text::{decimal, push_decimal};
use vstd::string::*;

verus! {

/// What the packet translation needs to know of a PSID.
#[derive(Clone, Copy, Debug, PartialEq, Eq, Structural)]
pub struct PsidConfig {
    /// `a`, the number of excluded bits.
    pub offset: u8,
    /// `k`, the width of the PSID.
    pub length: u8,
    /// Width of `j`, or 0 where nothing is translated.
    pub block_shift: u8,
    pub _pad: u8,
    /// The PSID.
    pub psid: u16,
    /// First staging port.
    pub staging_min: u16,
    /// Last staging port.
    pub staging_max: u16,
}

/// The configuration of a PSID. Without excluded bits there is no `R`, nothing is translated,
/// and the staging range is all ports but 0.
pub open spec fn psid_config(a: u8, k: u8, psid: u16) -> PsidConfig {
    if a == 0 {
        PsidConfig {
            offset: 0,
            length: k,
            block_shift: 0,
            _pad: 0,
            psid,
            staging_min: 1,
            staging_max: 65535,
        }
    } else {
        PsidConfig {
            offset: a,
            length: k,
            block_shift: (16 - a - k) as u8,
            _pad: 0,
            psid,
            staging_min: pow2((16 - a) as nat) as u16,
            staging_max: (pow2((16 - a) as nat) + (pow2(a as nat) - 1) * pow2((16 - a - k) as nat)
                - 1) as u16,
        }
    }
}

impl PsidConfig {
    /// Whether the derived fields agree with the offset, the length and the PSID.
    pub open spec fn wf(self) -> bool {
        self.offset + self.length <= 16 && self == psid_config(self.offset, self.length, self.psid)
    }

    /// The configuration of a PSID; `None` if and only if offset and length exceed sixteen bits.
    pub fn try_new(offset: u8, length: u8, psid: u16) -> (r: Option<PsidConfig>)
        ensures
            offset + length > 16 ==> r is None,
            offset + length <= 16 ==> r == Some(psid_config(offset, length, psid)),
            r matches Some(c) ==> c.wf(),
    {
        if offset as u16 + length as u16 > 16 {
            return None;
        }
        if offset == 0 {
            return Some(
                PsidConfig {
                    offset: 0,
                    length,
                    block_shift: 0,
                    _pad: 0,
                    psid,
                    staging_min: 1,
                    staging_max: 65535,
                },
            );
        }
        let block_shift: u8 = 16 - offset - length;
        let first: u32 = small_power_of_two(16 - offset as u32);
        let blocks: u32 = small_power_of_two(offset as u32);
        let block_size: u32 = small_power_of_two(block_shift as u32);
        proof {
            lemma_layout(offset as nat, length as nat);
        }
        let total: u32 = (blocks - 1) * block_size;
        Some(
            PsidConfig {
                offset,
                length,
                block_shift,
                _pad: 0,
                psid,
                staging_min: first as u16,
                staging_max: (first + total - 1) as u16,
            },
        )
    }
}

/// How the three fields of a port divide up sixteen bits.
proof fn lemma_layout(a: nat, k: nat)
    requires
        1 <= a,
        a + k <= 16,
    ensures
        pow2((16 - a) as nat) == pow2(k) * pow2((16 - a - k) as nat),
        pow2(a) * pow2((16 - a) as nat) == 65536,
        1 <= pow2((16 - a) as nat) <= 32768,
        pow2(a) >= 2,
        pow2(k) >= 1,
        pow2((16 - a - k) as nat) >= 1,
        0 <= (pow2(a) - 1) * pow2((16 - a - k) as nat) <= 65536 - pow2((16 - a) as nat),
{
    lemma2_to64();
    lemma_pow2_adds(k, (16 - a - k) as nat);
    lemma_pow2_adds(a, (16 - a) as nat);
    lemma_pow2_pos(k);
    lemma_pow2_pos((16 - a - k) as nat);
    lemma_pow2_pos((16 - a) as nat);
    lemma_pow2_pos((a - 1) as nat);
    lemma_pow2_adds(1, (a - 1) as nat);
    let n = pow2(a) as int;
    let s = pow2((16 - a) as nat) as int;
    let b = pow2((16 - a - k) as nat) as int;
    let w = pow2(k) as int;
    assert(s <= 32768) by (nonlinear_arith)
        requires
            n * s == 65536,
            n >= 2,
            s >= 1,
    ;
    assert(0 <= (n - 1) * b <= (n - 1) * s) by (nonlinear_arith)
        requires
            s == w * b,
            w >= 1,
            b >= 1,
            n >= 2,
    ;
    assert((n - 1) * s == n * s - s) by (nonlinear_arith);
}

/// The PSID port that a staging port stands for: block `R` of the PSID's ports, position `j`.
pub open spec fn psid_port(cfg: PsidConfig, staging: u16) -> Option<u16> {
    if cfg.offset == 0 || staging < cfg.staging_min || staging > cfg.staging_max {
        None
    } else {
        let block = pow2(cfg.block_shift as nat) as int;
        let idx = staging - cfg.staging_min;
        let r = idx / block + 1;
        let j = idx % block;
        Some(
            ((r * pow2((16 - cfg.offset) as nat) + cfg.psid * block + j) % 65536) as u16,
        )
    }
}

/// The staging port that a PSID port stands for. A port in block 0, or of another PSID, stands
/// for none.
pub open spec fn staging_port(cfg: PsidConfig, port: u16) -> Option<u16> {
    let block = pow2(cfg.block_shift as nat) as int;
    let r = port as int / (pow2((16 - cfg.offset) as nat) as int);
    let psid = port as int / block % (pow2(cfg.length as nat) as int);
    if cfg.offset == 0 || r == 0 || psid != cfg.psid {
        None
    } else {
        Some((cfg.staging_min + (r - 1) * block + port as int % block) as u16)
    }
}

impl PsidConfig {
    /// The PSID port that a staging port stands for.
    pub fn to_psid_port(&self, staging: u16) -> (r: Option<u16>)
        requires
            self.wf(),
        ensures
            r == psid_port(*self, staging),
    {
        if self.offset == 0 || staging < self.staging_min || staging > self.staging_max {
            return None;
        }
        proof {
            lemma_layout(self.offset as nat, self.length as nat);
        }
        let block: u32 = small_power_of_two(self.block_shift as u32);
        let step: u32 = small_power_of_two(16 - self.offset as u32);
        let idx: u32 = (staging - self.staging_min) as u32;
        let r: u32 = idx / block + 1;
        let j: u32 = idx % block;
        proof {
            lemma_index(*self, staging);
            assert(self.psid * block <= 65535 * 65536) by (nonlinear_arith)
                requires
                    self.psid <= 65535,
                    block <= 65536,
            ;
            assert(r * step <= 65536) by (nonlinear_arith)
                requires
                    r <= pow2(self.offset as nat) - 1,
                    pow2(self.offset as nat) * step == 65536,
            ;
        }
        let port: u64 = r as u64 * step as u64 + self.psid as u64 * block as u64 + j as u64;
        assert(port as u16 == port % 65536) by (bit_vector);
        Some(port as u16)
    }

    /// The staging port that a PSID port stands for.
    pub fn to_staging_port(&self, port: u16) -> (r: Option<u16>)
        requires
            self.wf(),
        ensures
            r == staging_port(*self, port),
    {
        if self.offset == 0 {
            return None;
        }
        proof {
            lemma_layout(self.offset as nat, self.length as nat);
        }
        let block: u32 = small_power_of_two(self.block_shift as u32);
        let step: u32 = small_power_of_two(16 - self.offset as u32);
        let width: u32 = small_power_of_two(self.length as u32);
        let r: u32 = port as u32 / step;
        if r == 0 {
            return None;
        }
        if (port as u32 / block) % width != self.psid as u32 {
            return None;
        }
        proof {
            lemma_staging_bound(*self, port);
        }
        let idx: u32 = (r - 1) * block + port as u32 % block;
        Some((self.staging_min as u32 + idx) as u16)
    }
}

/// The block number of a staging port is one of the PSID's blocks.
proof fn lemma_index(cfg: PsidConfig, staging: u16)
    requires
        cfg.wf(),
        cfg.offset > 0,
        cfg.staging_min <= staging <= cfg.staging_max,
    ensures
        ({
            let block = pow2(cfg.block_shift as nat) as int;
            let idx = staging - cfg.staging_min;
            &&& 0 <= idx < (pow2(cfg.offset as nat) - 1) * block
            &&& 1 <= idx / block + 1 <= pow2(cfg.offset as nat) - 1
            &&& 0 <= idx % block < block
            &&& idx == idx / block * block + idx % block
        }),
{
    lemma_layout(cfg.offset as nat, cfg.length as nat);
    let block = pow2(cfg.block_shift as nat) as int;
    let n = pow2(cfg.offset as nat) as int;
    let idx = staging - cfg.staging_min;
    lemma_fundamental_div_mod(idx, block);
    let q = idx / block;
    assert(q < n - 1) by (nonlinear_arith)
        requires
            idx == block * q + idx % block,
            idx < (n - 1) * block,
            idx % block >= 0,
            block > 0,
    ;
    assert(block * q == q * block) by (nonlinear_arith);
}

/// A port of the PSID outside block 0 has a staging port in the staging range.
proof fn lemma_staging_bound(cfg: PsidConfig, port: u16)
    requires
        cfg.wf(),
        cfg.offset > 0,
        port as int / (pow2((16 - cfg.offset) as nat) as int) > 0,
    ensures
        ({
            let block = pow2(cfg.block_shift as nat) as int;
            let r = port as int / (pow2((16 - cfg.offset) as nat) as int);
            &&& 1 <= r <= pow2(cfg.offset as nat) - 1
            &&& 0 <= (r - 1) * block
            &&& 0 <= port as int % block < block
            &&& cfg.staging_min + (r - 1) * block + port as int % block <= cfg.staging_max
        }),
{
    lemma_layout(cfg.offset as nat, cfg.length as nat);
    let block = pow2(cfg.block_shift as nat) as int;
    let step = pow2((16 - cfg.offset) as nat) as int;
    let n = pow2(cfg.offset as nat) as int;
    let r = port as int / step;
    lemma_fundamental_div_mod(port as int, step);
    assert(r < n) by (nonlinear_arith)
        requires
            port == step * r + port as int % step,
            port < n * step,
            port as int % step >= 0,
            step > 0,
    ;
    assert((r - 1) * block >= 0 && (r - 1) * block + block <= (n - 1) * block) by (nonlinear_arith)
        requires
            1 <= r <= n - 1,
            block > 0,
    ;
}

/// Going out and coming back: a staging port becomes a port of the PSID outside block 0, and
/// that port leads back to it.
pub proof fn lemma_staging_round_trip(cfg: PsidConfig, staging: u16)
    requires
        cfg.wf(),
        cfg.offset > 0,
        cfg.psid < pow2(cfg.length as nat),
        cfg.staging_min <= staging <= cfg.staging_max,
    ensures
        psid_port(cfg, staging) is Some,
        staging_port(cfg, psid_port(cfg, staging)->Some_0) == Some(staging),
{
    lemma_layout(cfg.offset as nat, cfg.length as nat);
    lemma_index(cfg, staging);
    let block = pow2(cfg.block_shift as nat) as int;
    let step = pow2((16 - cfg.offset) as nat) as int;
    let width = pow2(cfg.length as nat) as int;
    let n = pow2(cfg.offset as nat) as int;
    let idx = staging - cfg.staging_min;
    let r = idx / block + 1;
    let j = idx % block;
    let psid = cfg.psid as int;
    lemma_fields(r, psid, j, n, step, width, block);
    let port = r * step + psid * block + j;
    lemma_small_mod(port as nat, 65536);
}

/// Coming in and going back: a port of the PSID outside block 0 becomes a staging port in
/// the staging range, and that one leads back to it.
pub proof fn lemma_port_round_trip(cfg: PsidConfig, port: u16)
    requires
        cfg.wf(),
        cfg.offset > 0,
        staging_port(cfg, port) is Some,
    ensures
        cfg.staging_min <= staging_port(cfg, port)->Some_0 <= cfg.staging_max,
        psid_port(cfg, staging_port(cfg, port)->Some_0) == Some(port),
{
    lemma_layout(cfg.offset as nat, cfg.length as nat);
    lemma_staging_bound(cfg, port);
    let block = pow2(cfg.block_shift as nat) as int;
    let step = pow2((16 - cfg.offset) as nat) as int;
    let width = pow2(cfg.length as nat) as int;
    let p = port as int;
    let r = p / step;
    let j = p % block;
    let psid = cfg.psid as int;
    lemma_fundamental_div_mod_converse((r - 1) * block + j, block, r - 1, j);
    // p is r, psid and j put together
    lemma_fundamental_div_mod(p, block);
    lemma_fundamental_div_mod(p / block, width);
    vstd::arithmetic::div_mod::lemma_div_denominator(p, block, width);
    assert(block * width == width * block) by (nonlinear_arith);
    let q = p / block;
    assert(p == r * step + psid * block + j) by (nonlinear_arith)
        requires
            p == block * q + j,
            q == width * r + psid,
            step == width * block,
    ;
    lemma_small_mod(p as nat, 65536);
}

/// What a port made of `r`, `psid` and `j` gives back.
proof fn lemma_fields(r: int, psid: int, j: int, n: int, step: int, width: int, block: int)
    requires
        0 <= r < n,
        0 <= psid < width,
        0 <= j < block,
        step == width * block,
        n * step == 65536,
    ensures
        ({
            let p = r * step + psid * block + j;
            &&& 0 <= p < 65536
            &&& p / step == r
            &&& p / block % width == psid
            &&& p % block == j
        }),
{
    let low = psid * block + j;
    assert(0 <= low < step) by (nonlinear_arith)
        requires
            0 <= psid < width,
            0 <= j < block,
            step == width * block,
            low == psid * block + j,
    ;
    let p = r * step + low;
    assert(0 <= p < 65536) by (nonlinear_arith)
        requires
            0 <= r < n,
            0 <= low < step,
            n * step == 65536,
            p == r * step + low,
    ;
    lemma_fundamental_div_mod_converse(p, step, r, low);
    let q = r * width + psid;
    assert(p == q * block + j) by (nonlinear_arith)
        requires
            p == r * step + psid * block + j,
            step == width * block,
            q == r * width + psid,
    ;
    lemma_fundamental_div_mod_converse(p, block, q, j);
    lemma_fundamental_div_mod_converse(q, width, r, psid);
}

/// The error for port parameters that exceed sixteen bits.
pub open spec fn psid_error(port_params: PortParams) -> ErrorView {
    ErrorView::EbpfError(
        "invalid PSID params: offset="@ + decimal(port_params.psid_offset as nat) + " length="@
            + decimal(port_params.psid_length as nat) + " (offset+length must be <= 16)"@,
    )
}

/// The configuration of a PSID, or the error.
pub open spec fn checked_psid_config(port_params: PortParams, psid: u16) -> Result<
    PsidConfig,
    ErrorView,
> {
    if port_params.psid_offset + port_params.psid_length <= 16 {
        Ok(psid_config(port_params.psid_offset, port_params.psid_length, psid))
    } else {
        Err(psid_error(port_params))
    }
}

/// The configuration of a PSID. Fails if and only if offset and length exceed sixteen bits.
pub fn psid_config_for(port_params: PortParams, psid: u16) -> (r: Result<PsidConfig, MapEError>)
    ensures
        match checked_psid_config(port_params, psid) {
            Ok(c) => r == Ok::<PsidConfig, MapEError>(c) && c.wf(),
            Err(e) => r matches Err(v) && v@ == e,
        },
{
    match PsidConfig::try_new(port_params.psid_offset, port_params.psid_length, psid) {
        Some(c) => Ok(c),
        None => {
            let mut text = String::from_str("invalid PSID params: offset=");
            push_decimal(&mut text, port_params.psid_offset as u64);
            text.append(" length=");
            push_decimal(&mut text, port_params.psid_length as u64);
            text.append(" (offset+length must be <= 16)");
            Err(MapEError::EbpfError(text))
        },
    }
}

/// The configuration for what a rule assigns.
///
/// Fails if and only if offset and length exceed sixteen bits.
pub fn psid_config_from_params(params: &MapeParams) -> (r: Result<PsidConfig, MapEError>)
    ensures
        match checked_psid_config(params.rule.port_params, params.psid) {
            Ok(c) => r == Ok::<PsidConfig, MapEError>(c) && c.wf(),
            Err(e) => r matches Err(v) && v@ == e,
        },
{
    psid_config_for(params.rule.port_params, params.psid)
}

/// The ports of a PSID and the staging ports, counted through together: the port made of block
/// `r`, which is not zero, the PSID and position `j` stands for the staging port
/// `2^(16-a) + (r - 1) * 2^(16-a-k) + j`, and that one for it.
pub proof fn lemma_ports_counted_through(a: u8, k: u8, psid: u16, r: int, j: int)
    requires
        1 <= a,
        a + k <= 16,
        psid < pow2(k as nat),
        1 <= r < pow2(a as nat),
        0 <= j < pow2((16 - a - k) as nat),
    ensures
        ({
            let cfg = psid_config(a, k, psid);
            let first = pow2((16 - a) as nat) as int;
            let block = pow2((16 - a - k) as nat) as int;
            let port = r * first + psid * block + j;
            let staging = first + (r - 1) * block + j;
            &&& 0 <= port <= 65535
            &&& first <= staging < first + (pow2(a as nat) - 1) * block <= 65536
            &&& staging_port(cfg, port as u16) == Some(staging as u16)
            &&& psid_port(cfg, staging as u16) == Some(port as u16)
        }),
{
    let cfg = psid_config(a, k, psid);
    let first = pow2((16 - a) as nat) as int;
    let block = pow2((16 - a - k) as nat) as int;
    let width = pow2(k as nat) as int;
    let n = pow2(a as nat) as int;
    lemma_layout(a as nat, k as nat);
    lemma_fields(r, psid as int, j, n, first, width, block);
    let port = r * first + psid * block + j;
    let staging = first + (r - 1) * block + j;
    assert(0 <= (r - 1) * block && (r - 1) * block + block <= (n - 1) * block) by (nonlinear_arith)
        requires
            1 <= r <= n - 1,
            block > 0,
    ;
    lemma_staging_bound(cfg, port as u16);
    assert(staging_port(cfg, port as u16) == Some(staging as u16));
    lemma_port_round_trip(cfg, port as u16);
}

/// Ports that no staging port stands for, and staging ports that stand for none: a port in block 0
/// or of another PSID, a port outside the staging range, and every port where no bits are
/// excluded.
pub proof fn lemma_other_ports_are_left_alone(a: u8, k: u8, psid: u16, p: u16)
    requires
        a + k <= 16,
    ensures
        a == 0 ==> staging_port(psid_config(a, k, psid), p) is None && psid_port(
            psid_config(a, k, psid),
            p,
        ) is None,
        p < pow2((16 - a) as nat) ==> staging_port(psid_config(a, k, psid), p) is None && psid_port(
            psid_config(a, k, psid),
            p,
        ) is None,
        a > 0 && p as int / (pow2((16 - a - k) as nat) as int) % (pow2(k as nat) as int) != psid
            ==> staging_port(psid_config(a, k, psid), p) is None,
        a > 0 && p >= pow2((16 - a) as nat) + (pow2(a as nat) - 1) * pow2((16 - a - k) as nat)
            ==> psid_port(psid_config(a, k, psid), p) is None,
{
    lemma2_to64();
    if a > 0 {
        lemma_layout(a as nat, k as nat);
        if p < pow2((16 - a) as nat) {
            vstd::arithmetic::div_mod::lemma_basic_div(
                p as int,
                pow2((16 - a) as nat) as int,
            );
        }
    }
}

/// The configuration of a PSID names the staging range: it begins at `2^(16-a)` and has as many
/// ports as the PSID has outside block 0. Without excluded bits it is all ports but 0.
pub proof fn lemma_staging_range(a: u8, k: u8, psid: u16)
    requires
        a + k <= 16,
    ensures
        ({
            let cfg = psid_config(a, k, psid);
            &&& cfg.offset == a && cfg.length == k && cfg.psid == psid
            &&& a == 0 ==> cfg.staging_min == 1 && cfg.staging_max == 65535 && cfg.block_shift == 0
            &&& a > 0 ==> cfg.staging_min == pow2((16 - a) as nat) && cfg.staging_max
                - cfg.staging_min + 1 == (pow2(a as nat) - 1) * pow2((16 - a - k) as nat)
                && cfg.block_shift == 16 - a - k
        }),
{
    if a > 0 {
        lemma_layout(a as nat, k as nat);
    }
}

/// Port parameters that take more than sixteen bits have no configuration, and all others have
/// that of their PSID.
pub proof fn lemma_who_has_a_configuration(port_params: PortParams, psid: u16)
    ensures
        port_params.psid_offset + port_params.psid_length <= 16 <==> checked_psid_config(
            port_params,
            psid,
        ) is Ok,
        checked_psid_config(port_params, psid) matches Ok(c) ==> c.offset == port_params.psid_offset
            && c.length == port_params.psid_length && c.psid == psid,
{
}

} // verus!
