//! Intermittent-fasting sessions: the per-user session state machine and the
//! analytics computed over a user's event history.

pub mod accounts;
pub mod analytics;
pub mod errors;
pub mod handlers;
pub mod models;
pub mod session;
pub mod store;
pub mod time;
