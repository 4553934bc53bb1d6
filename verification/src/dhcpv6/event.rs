//! What the receivers tell the daemon.

use vstd::prelude::*;

use crate::map::rule::MapRule;
use crate::net::Ipv6Net;

verus! {

/// News from a DHCPv6 receiver.
#[derive(Clone, Debug)]
pub enum DhcpV6Event {
    /// A delegated prefix without mapping rules.
    IaPdReceived(Ipv6Net),
    /// Mapping rules and a delegated prefix.
    Both { rules: Vec<MapRule>, ia_pd: Ipv6Net },
}

/// News with its rules as a sequence.
pub enum EventView {
    IaPdReceived(Ipv6Net),
    Both { rules: Seq<MapRule>, ia_pd: Ipv6Net },
}

impl View for DhcpV6Event {
    type V = EventView;

    open spec fn view(&self) -> EventView {
        match *self {
            DhcpV6Event::IaPdReceived(net) => EventView::IaPdReceived(net),
            DhcpV6Event::Both { rules, ia_pd } => EventView::Both { rules: rules@, ia_pd },
        }
    }
}

/// A delegated prefix from the lease file of another client.
#[derive(Clone, Copy, Debug, PartialEq, Eq, Structural)]
pub struct LeaseEvent(pub Ipv6Net);

} // verus!
