//! What can be wrong with a carried rule.

use vstd::prelude::*;
use vstd::string::*;

use crate::text::{decimal, join2, push_decimal};

verus! {

/// An error of the mapping.
#[derive(Clone, Debug)]
pub enum MapeError {
    /// The IPv6 prefix is not usable.
    InvalidIpv6Prefix(String),
    /// The IPv4 prefix is not usable.
    InvalidIpv4Prefix(String),
    /// The EA bits cannot be computed.
    EaBitsCalcError(String),
    /// The PSID does not fit its length.
    InvalidPsid { psid: u16, psid_len: u8 },
}

impl MapeError {
    /// The sentence shown for the error.
    pub open spec fn text(self) -> Seq<char> {
        match self {
            MapeError::InvalidIpv6Prefix(s) => "IPv6 プレフィックスが不正です: "@ + s@,
            MapeError::InvalidIpv4Prefix(s) => "IPv4 プレフィックスが不正です: "@ + s@,
            MapeError::EaBitsCalcError(s) => "EA-bits 計算エラー: "@ + s@,
            MapeError::InvalidPsid { psid, psid_len } => "PSID が有効範囲外です: psid="@ + decimal(
                psid as nat,
            ) + ", psid_len="@ + decimal(psid_len as nat),
        }
    }

    /// The sentence shown for the error.
    pub fn message(&self) -> (r: String)
        ensures
            r@ == self.text(),
    {
        match self {
            MapeError::InvalidIpv6Prefix(s) => join2(
                "IPv6 プレフィックスが不正です: ",
                s.as_str(),
            ),
            MapeError::InvalidIpv4Prefix(s) => join2(
                "IPv4 プレフィックスが不正です: ",
                s.as_str(),
            ),
            MapeError::EaBitsCalcError(s) => join2("EA-bits 計算エラー: ", s.as_str()),
            MapeError::InvalidPsid { psid, psid_len } => {
                let mut out = String::from_str("PSID が有効範囲外です: psid=");
                push_decimal(&mut out, *psid as u64);
                out.append(", psid_len=");
                push_decimal(&mut out, *psid_len as u64);
                out
            },
        }
    }
}

} // verus!
