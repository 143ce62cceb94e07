//! From what a cluster reports to lag.

pub mod caches;
pub mod lag_calculator;
pub mod lag_laws;
pub mod offset_collector;
pub mod rate_sampler;
pub mod sampler_laws;
pub mod snapshot_laws;
pub mod stamp_table;
pub mod timestamp_sampler;
