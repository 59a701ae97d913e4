//! Listening-history analysis: identity resolution, per-track and per-year
//! aggregation, ranking and duration text, each with a verified contract.

pub mod record;
pub mod duration;
pub mod sums;
pub mod aggregate;
pub mod rank;
pub mod report;
pub mod years;
pub mod laws;
pub mod search;
pub mod summary;
pub mod load;
