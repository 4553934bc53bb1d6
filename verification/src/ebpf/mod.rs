//! Translation between the ports that netfilter hands out and the ports of a PSID.

pub mod psid;
pub mod translate;
