//! What can go wrong in the daemon.

use vstd::prelude::*;
use vstd::string::*;

use crate::text::join2;

verus! {

/// An error of the MAP-E daemon.
#[derive(Clone, Debug)]
pub enum MapEError {
    /// The configuration file does not exist.
    ConfigNotFound { path: String },
    /// The configuration, or a received option, breaks a rule.
    InvalidConfig(String),
    /// The length of the CE prefix is not that of the rule prefix and the EA bits.
    InvalidCePrefix,
    /// No rule covers the delegated prefix.
    NoPrefixMatch,
    /// A rule came without a border relay.
    MissingBrAddress,
    /// There are no ports to translate to.
    EmptyPortRanges,
    /// The kernel refused a netlink request.
    NetlinkError(String),
    /// `nft` failed.
    NftError(String),
    /// The packet translation could not be set up.
    EbpfError(String),
}

/// A `MapEError` with its texts as character sequences.
pub enum ErrorView {
    ConfigNotFound(Seq<char>),
    InvalidConfig(Seq<char>),
    InvalidCePrefix,
    NoPrefixMatch,
    MissingBrAddress,
    EmptyPortRanges,
    NetlinkError(Seq<char>),
    NftError(Seq<char>),
    EbpfError(Seq<char>),
}

impl View for MapEError {
    type V = ErrorView;

    open spec fn view(&self) -> ErrorView {
        match *self {
            MapEError::ConfigNotFound { path } => ErrorView::ConfigNotFound(path@),
            MapEError::InvalidConfig(s) => ErrorView::InvalidConfig(s@),
            MapEError::InvalidCePrefix => ErrorView::InvalidCePrefix,
            MapEError::NoPrefixMatch => ErrorView::NoPrefixMatch,
            MapEError::MissingBrAddress => ErrorView::MissingBrAddress,
            MapEError::EmptyPortRanges => ErrorView::EmptyPortRanges,
            MapEError::NetlinkError(s) => ErrorView::NetlinkError(s@),
            MapEError::NftError(s) => ErrorView::NftError(s@),
            MapEError::EbpfError(s) => ErrorView::EbpfError(s@),
        }
    }
}

/// The sentence shown for an error.
pub open spec fn error_text(e: ErrorView) -> Seq<char> {
    match e {
        ErrorView::ConfigNotFound(path) => "config file not found: "@ + path,
        ErrorView::InvalidConfig(s) => "invalid config: "@ + s,
        ErrorView::InvalidCePrefix =>
            "invalid CE prefix: EA-bits length and CE prefix length mismatch"@,
        ErrorView::NoPrefixMatch => "no prefix match: IA_PD prefix does not match any MAP rule"@,
        ErrorView::MissingBrAddress =>
            "missing BR address: OPTION_S46_BR is required but not present"@,
        ErrorView::EmptyPortRanges =>
            "empty port ranges: cannot apply nftables ruleset with no port ranges"@,
        ErrorView::NetlinkError(s) => "netlink error: "@ + s,
        ErrorView::NftError(s) => "nft error: "@ + s,
        ErrorView::EbpfError(s) => "ebpf error: "@ + s,
    }
}

impl MapEError {
    /// The sentence shown for the error.
    pub fn message(&self) -> (r: String)
        ensures
            r@ == error_text(self@),
    {
        match self {
            MapEError::ConfigNotFound { path } => join2("config file not found: ", path.as_str()),
            MapEError::InvalidConfig(s) => join2("invalid config: ", s.as_str()),
            MapEError::InvalidCePrefix => String::from_str(
                "invalid CE prefix: EA-bits length and CE prefix length mismatch",
            ),
            MapEError::NoPrefixMatch => String::from_str(
                "no prefix match: IA_PD prefix does not match any MAP rule",
            ),
            MapEError::MissingBrAddress => String::from_str(
                "missing BR address: OPTION_S46_BR is required but not present",
            ),
            MapEError::EmptyPortRanges => String::from_str(
                "empty port ranges: cannot apply nftables ruleset with no port ranges",
            ),
            MapEError::NetlinkError(s) => join2("netlink error: ", s.as_str()),
            MapEError::NftError(s) => join2("nft error: ", s.as_str()),
            MapEError::EbpfError(s) => join2("ebpf error: ", s.as_str()),
        }
    }
}

} // verus!
