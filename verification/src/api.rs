//! Operational counters and runtime statistics around the core.

pub mod args;
pub mod counters;
pub mod stats;
