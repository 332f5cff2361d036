//! Verified core logic of the APEX coverage-exploration toolkit.
pub mod hash;
pub mod diff;
pub mod git;
pub mod command;
pub mod wrap;
pub mod text;
pub mod document;
pub mod strmap;
pub mod sorted;
pub mod types;
pub mod agent;
pub mod cpg;
pub mod detect;
pub mod fuzz;
pub mod index;
