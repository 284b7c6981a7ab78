//! Files of a table's log.
use url::Url;
use vstd::prelude::*;

use crate::table_configuration::Version;

verus! {

/// A file, and what is known of it.
#[derive(Debug, PartialEq, Eq)]
pub struct FileMeta {
    pub location: Url,
    /// Milliseconds since the epoch.
    pub last_modified: i64,
    /// Bytes.
    pub size: u64,
}

impl Clone for FileMeta {
    fn clone(&self) -> (r: Self)
        ensures
            r == *self,
    {
        FileMeta {
            location: self.location.clone(),
            last_modified: self.last_modified,
            size: self.size,
        }
    }
}

/// A file of the log, and the version of the table that it belongs to.
#[derive(Debug, PartialEq, Eq)]
pub struct ParsedLogPath {
    pub location: FileMeta,
    pub version: Version,
}

impl Clone for ParsedLogPath {
    fn clone(&self) -> (r: Self)
        ensures
            r == *self,
    {
        ParsedLogPath { location: self.location.clone(), version: self.version }
    }
}

} // verus!
