//! A Monte Carlo estimator for the birthday paradox: random birthdays in a
//! common (365-day) year, detection of a shared birthday in a group, and the
//! aggregation of many independent trials.

pub mod date;
pub mod collision;
pub mod sampler;
pub mod engine;
