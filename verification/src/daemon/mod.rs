//! The daemon: what it knows, what it does about it, and in which order.

pub mod lifecycle;
pub mod pid;
pub mod runner;
pub mod state;
