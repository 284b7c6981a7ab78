//! Planning a scan.
pub mod columns;
pub mod data_skipping_partition;
pub mod physical_predicate;
pub mod rows;
pub mod skipping;
pub mod state_info;
pub mod stats_options;
pub mod stats_schema;
pub mod transform_spec;
