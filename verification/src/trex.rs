//! The rule matching engine.

pub mod operations;
pub mod expressions;
pub mod aggregators;
pub mod stack;
pub mod collections;
pub mod rule_checks;
pub mod types;
pub mod cache;
pub mod sqlite;
pub mod rule_processor;
pub mod providers;
pub mod engine;
