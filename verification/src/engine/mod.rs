//! What a connector brings along, and ready-made parts for it.
pub mod handlers;
pub mod json;
pub mod sync_plan;
