//! What is stored: record types, series identity, and monthly partitions.

pub mod partition;
pub mod schema;
pub mod series;
pub mod write;
