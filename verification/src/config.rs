//! Configuration: consensus parameters, genesis parameters, and
//! performance tuning.

pub mod constants;
pub mod genesis;
pub mod params;
