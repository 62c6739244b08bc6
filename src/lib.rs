//! Internal tools catalog: tool records, their validation, an in-memory
//! table with the repository operations, and the analytics reports.
//!
//! Monetary amounts are integer cents and percentages are integer tenths of
//! a percent; every rounding is half-up on non-negative values.

pub mod analytics;
pub mod errors;
pub mod model;
pub mod ordering;
pub mod store;
pub mod text;
