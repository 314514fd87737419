//! Proof-of-work helpers: the heavy-hash matrix and its deterministic
//! generator.

pub mod matrix;
pub mod xoshiro;
