//! The test index: per-test branch traces, per-branch profiles, and the
//! analyses built on them (change impact, flaky tests).
pub mod types;
pub mod impact;
pub mod analysis;
pub mod java;
pub mod surface;
pub mod complexity;
pub mod docs;
pub mod prioritize;
pub mod python;
pub mod source_hash;
pub mod location_order;
