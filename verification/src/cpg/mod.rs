//! Code property graph support: taint rules and taint specification stores.
pub mod taint_rules;
pub mod taint_store;
pub mod model;
pub mod graph;
pub mod line_parser;
pub mod go_builder;
pub mod js_builder;
pub mod function_reader;
