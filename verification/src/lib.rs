//! A daemon that connects a customer edge to a MAP-E network.
//!
//! It learns a delegated prefix and mapping rules over DHCPv6, computes from them a shared IPv4
//! address and a set of ports, and sets up the tunnel, the routes and the packet rules that these
//! need. The library holds everything that can be computed; what touches the system is left to
//! the program around it, which is told what to do and reports what came of it.

pub mod bits;
pub mod cli;
pub mod config;
pub mod daemon;
pub mod dhcpv6;
pub mod ebpf;
pub mod error;
pub mod map;
pub mod mape;
pub mod net;
pub mod netlink;
pub mod nftables;
pub mod text;
pub mod variables;
