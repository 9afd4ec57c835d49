//! Queries: their parameters, and the shape of their results.

pub mod filter;
pub mod kubernetes;
pub mod logs;
pub mod metrics;
pub mod range;
pub mod services;
pub mod traces;
