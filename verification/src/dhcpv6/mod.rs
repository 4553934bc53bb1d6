//! DHCPv6: what the daemon reads from replies and sends to servers.

pub mod capture;
pub mod client;
pub mod event;
pub mod exchange;
pub mod identity;
pub mod lease;
pub mod option_mape;
pub mod packet;
pub mod parser;
pub mod tlv;
pub mod wire;
