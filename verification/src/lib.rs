//! Job selection for a benchmarking worker and the challenge contract its jobs
//! are checked against.

pub mod baseline;
pub mod binary64;
pub mod contract;
pub mod fairness;
pub mod frontier;
pub mod knapsack;
pub mod random;
pub mod ranking;
pub mod records;
pub mod registry;
pub mod setup_job;
