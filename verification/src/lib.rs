//! A complex event processing engine: declarative rules are matched against a
//! stream of timestamped events and against static tables, and every match
//! emits a new event.
//!
//! `tesla` holds the rule language (values, expressions, predicates, rules),
//! `trex` the engine that evaluates it.

pub mod tesla;
pub mod trex;
