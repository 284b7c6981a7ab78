//! What the library reports of its operations.
//!
//! An operation opens a span, records fields on it and closes it. Each kind of span has a name, and
//! is turned into a metric event from the fields that it carries.
pub mod duration;
pub mod events;
pub mod fields;
pub mod laws;
pub mod metered_engine;
pub mod metered_storage;
