//! A table at one version.
use std::sync::Arc;
use tracing::Span;
use vstd::prelude::*;

use crate::log_segment::LogSegment;
use crate::table_configuration::TableConfiguration;

verus! {

/// A table at one version: the log that describes it, what that says of it, and its checksum. `C`
/// holds the checksum: a [`LazyCrc`](crate::crc::LazyCrc), or one that threads share.
#[derive(Debug)]
pub struct Snapshot<C> {
    /// The span in which the snapshot was made.
    pub span: Arc<Span>,
    pub log_segment: LogSegment,
    pub table_configuration: TableConfiguration,
    pub crc: Arc<C>,
}

} // verus!
