//! The MAP-E address and port mapping.

pub mod calc;
pub mod port_set;
pub mod rule;
