//! Alerting: rules over metrics and logs, their states, and notifications.

pub mod eval;
pub mod rules;
