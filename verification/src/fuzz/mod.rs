//! Fuzzing support: corpus distillation, grammar-aware and comparison-guided
//! mutation, and mutation caching.
pub mod distill;
pub mod grammar;
pub mod grammar_mutator;
pub mod llm_mutator;
pub mod cmplog;
