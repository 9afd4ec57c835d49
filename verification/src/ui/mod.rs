//! What the portal in the browser shows, and what it asks of the service.

pub mod api;
pub mod badge;
pub mod fetch;
pub mod format;
pub mod logs;
pub mod metrics;
pub mod panels;
pub mod requests;
pub mod retention;
pub mod rules;
pub mod topology;
pub mod waterfall;
