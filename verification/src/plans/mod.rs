//! Declarative plans, and what executes them.
pub mod executor;
pub mod ir;
pub mod query_builder;
