//! Core of the observability backend.

pub mod admin;
pub mod alerts;
pub mod auth;
pub mod config;
pub mod dashboards;
pub mod double;
pub mod float;
pub mod http;
pub mod ingest;
pub mod json;
pub mod query;
pub mod store;
pub mod text;
pub mod time;
pub mod ui;
