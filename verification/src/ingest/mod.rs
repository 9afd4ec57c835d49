//! OTLP ingest: decoding requests and turning them into records.

pub mod attributes;
pub mod batch;
pub mod decode;
pub mod logs;
pub mod metrics;
pub mod normalize;
pub mod proto;
pub mod traces;
