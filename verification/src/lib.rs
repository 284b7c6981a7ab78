//! Scan planning, log replay and metrics for Delta tables.
pub mod comparisons;
pub mod crc;
pub mod engine;
pub mod error;
pub mod expressions;
pub mod hacks;
pub mod log_segment;
pub mod metrics;
pub mod outside;
pub mod path;
pub mod plans;
pub mod scan;
pub mod properties;
pub mod schema;
pub mod semantics;
pub mod snapshot;
pub mod table_configuration;
pub mod text;
