//! The mapping of RFC 7597 over a rule as the option carries it.

pub mod address;
pub mod error;
pub mod rule;
