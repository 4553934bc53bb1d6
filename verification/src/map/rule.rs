//! Mapping rules and what they assign to a customer edge.

use core::ops::RangeInclusive;
use vstd::prelude::*;

use crate::net::{Ipv4Addr, Ipv4Net, Ipv6Addr, Ipv6Net};

verus! {

/// The port parameters of a rule: `a` excluded bits and a PSID of `k` bits.
#[derive(Clone, Copy, Debug, PartialEq, Eq, Structural)]
pub struct PortParams {
    /// `a`, the PSID offset.
    pub psid_offset: u8,
    /// `k`, the width of the PSID.
    pub psid_length: u8,
}

impl Default for PortParams {
    /// The parameters of a rule that carries no port parameter option.
    fn default() -> (r: PortParams)
        ensures
            r.psid_offset == 0,
            r.psid_length == 0,
    {
        PortParams { psid_offset: 0, psid_length: 0 }
    }
}

/// How the interface identifier of a CE address is laid out.
#[derive(Clone, Copy, Debug, PartialEq, Eq, Structural)]
pub enum CeFormat {
    /// The layout of RFC 7597.
    Rfc7597,
    /// The layout used by v6plus.
    V6Plus,
}

/// A mapping rule.
#[derive(Clone, Copy, Debug, PartialEq, Eq, Structural)]
pub struct MapRule {
    /// Rule IPv6 prefix, `r` bits long.
    pub ipv6_prefix: Ipv6Net,
    /// Rule IPv4 prefix.
    pub ipv4_prefix: Ipv4Net,
    /// Number of embedded address bits.
    pub ea_length: u8,
    /// Whether the rule is also a forwarding rule.
    pub is_fmr: bool,
    /// Address of the border relay.
    pub br_address: Ipv6Addr,
    /// Port parameters.
    pub port_params: PortParams,
}

/// What a rule assigns to one customer edge.
#[derive(Clone, Debug)]
pub struct MapeParams {
    /// Address of the CE end of the tunnel.
    pub ce_ipv6: Ipv6Addr,
    /// Shared IPv4 address.
    pub ipv4: Ipv4Addr,
    /// Port set identifier.
    pub psid: u16,
    /// Ports that belong to this CE.
    pub port_ranges: Vec<RangeInclusive<u16>>,
    /// Address of the border relay.
    pub br_address: Ipv6Addr,
    /// The rule that was applied.
    pub rule: MapRule,
    /// The address layout that was applied.
    pub ce_format: CeFormat,
}

} // verus!
