//! Exploration orchestration: caches, seed exchange, logs and policies.
pub mod cache;
pub mod ensemble;
pub mod exchange;
pub mod rotation;
pub mod history;
pub mod monitor;
pub mod ledger;
pub mod feedback;
