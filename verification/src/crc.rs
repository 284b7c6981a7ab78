//! Checksum files of a table's log, read at most once.
//!
//! A checksum file describes the table at one version: its metadata, its protocol and the files it
//! holds.
use std::sync::Arc;
use vstd::prelude::*;

use crate::error::DeltaResult;
use crate::path::ParsedLogPath;
use crate::table_configuration::{Metadata, Protocol, Version};

verus! {

/// How many files a table holds, and how large they are.
#[derive(Debug, Clone, Copy, PartialEq, Eq)]
pub struct FileStats {
    pub num_files: i64,
    pub table_size_bytes: i64,
}

impl FileStats {
    pub fn num_files(&self) -> (r: i64)
        ensures
            r == self.num_files,
    {
        self.num_files
    }

    pub fn table_size_bytes(&self) -> (r: i64)
        ensures
            r == self.table_size_bytes,
    {
        self.table_size_bytes
    }
}

/// Whether the statistics on a table's files are known.
#[derive(Debug, Clone, Copy, PartialEq, Eq)]
pub enum FileStatsState {
    Complete(FileStats),
    Unknown,
}

/// The content of a checksum file.
#[derive(Debug, PartialEq, Eq)]
pub struct Crc {
    pub version: Version,
    pub metadata: Metadata,
    pub protocol: Protocol,
    pub file_stats_state: FileStatsState,
    pub in_commit_timestamp: Option<i64>,
}

impl Crc {
    /// The statistics on the table's files, where they are known.
    pub fn file_stats(&self) -> (r: Option<FileStats>)
        ensures
            r == (match self.file_stats_state {
                FileStatsState::Complete(stats) => Some(stats),
                FileStatsState::Unknown => None,
            }),
    {
        match self.file_stats_state {
            FileStatsState::Complete(stats) => Some(stats),
            FileStatsState::Unknown => None,
        }
    }
}

/// What came of loading a checksum file.
#[derive(Debug)]
pub enum CrcLoadResult {
    /// The log has no checksum file.
    DoesNotExist,
    /// There is one, but it could not be read.
    CorruptOrFailed,
    Loaded(Arc<Crc>),
}

impl Clone for CrcLoadResult {
    fn clone(&self) -> (r: Self)
        ensures
            r == *self,
    {
        match self {
            CrcLoadResult::DoesNotExist => CrcLoadResult::DoesNotExist,
            CrcLoadResult::CorruptOrFailed => CrcLoadResult::CorruptOrFailed,
            CrcLoadResult::Loaded(crc) => CrcLoadResult::Loaded(crc.clone()),
        }
    }
}

/// The checksum that was loaded.
pub open spec fn loaded(r: CrcLoadResult) -> Option<Arc<Crc>> {
    match r {
        CrcLoadResult::Loaded(crc) => Some(crc),
        _ => None,
    }
}

impl CrcLoadResult {
    /// The checksum, where it was loaded.
    pub fn get(&self) -> (r: Option<&Arc<Crc>>)
        ensures
            match r {
                Some(crc) => loaded(*self) == Some(*crc),
                None => loaded(*self) is None,
            },
    {
        match self {
            CrcLoadResult::Loaded(crc) => Some(crc),
            _ => None,
        }
    }
}

/// What comes of loading a checksum file when reading it gives `reply`.
pub open spec fn load_result(reply: DeltaResult<Crc>) -> CrcLoadResult {
    match reply {
        Ok(crc) => CrcLoadResult::Loaded(Arc::new(crc)),
        Err(_) => CrcLoadResult::CorruptOrFailed,
    }
}

/// What comes of loading a checksum file when reading it gives `reply`.
pub fn to_load_result(reply: DeltaResult<Crc>) -> (r: CrcLoadResult)
    ensures
        r == load_result(reply),
{
    match reply {
        Ok(crc) => CrcLoadResult::Loaded(Arc::new(crc)),
        Err(_) => CrcLoadResult::CorruptOrFailed,
    }
}

/// A checksum that is read when it is first asked for, and at most once. It can also be known from
/// the start, without a file.
#[derive(Debug)]
pub struct LazyCrc {
    /// The file, where the log has one.
    pub crc_file: Option<ParsedLogPath>,
    /// What came of loading it.
    pub cached: Option<CrcLoadResult>,
    /// The version of a checksum that is known from the start. It goes before that of the file.
    pub precomputed_version: Option<Version>,
}

/// What a [`LazyCrc`] holds after it was asked for its checksum: what it held before, if it held
/// something. Otherwise what `reply`, which reading its file gave, comes to.
pub open spec fn after_load(lazy: LazyCrc, reply: DeltaResult<Crc>) -> CrcLoadResult {
    match lazy.cached {
        Some(r) => r,
        None => match lazy.crc_file {
            Some(_) => load_result(reply),
            None => CrcLoadResult::DoesNotExist,
        },
    }
}

/// Whether asking for the checksum reads its file.
pub open spec fn needs_reading(lazy: LazyCrc) -> bool {
    lazy.cached is None && lazy.crc_file is Some
}

/// Whether `read` can be called wherever asking for the checksum calls it: on its file, if that has
/// to be read. Where it has not, `read` is never called, and nothing is asked of it.
pub open spec fn can_load<F: FnOnce(&ParsedLogPath) -> DeltaResult<Crc>>(
    lazy: LazyCrc,
    read: F,
) -> bool {
    needs_reading(lazy) ==> read.requires((&lazy.crc_file->0,))
}

impl LazyCrc {
    /// The version of the checksum: that of one that is known from the start, or else of the file.
    pub open spec fn version(self) -> Option<Version> {
        match self.precomputed_version {
            Some(v) => Some(v),
            None => match self.crc_file {
                Some(f) => Some(f.version),
                None => None,
            },
        }
    }

    /// A checksum that is to be read from `crc_file`.
    pub fn new(crc_file: Option<ParsedLogPath>) -> (r: Self)
        ensures
            r.crc_file == crc_file,
            r.cached is None,
            r.precomputed_version is None,
    {
        LazyCrc { crc_file, cached: None, precomputed_version: None }
    }

    /// A checksum that is known already, of the table at `version`.
    pub fn new_precomputed(crc: Crc, version: Version) -> (r: Self)
        ensures
            r.crc_file is None,
            r.cached == Some(CrcLoadResult::Loaded(Arc::new(crc))),
            r.precomputed_version == Some(version),
    {
        LazyCrc {
            crc_file: None,
            cached: Some(CrcLoadResult::Loaded(Arc::new(crc))),
            precomputed_version: Some(version),
        }
    }

    /// What came of loading the checksum. `read` reads its file; it is called only if nothing is
    /// known of the checksum yet.
    pub fn get_or_load<F: FnOnce(&ParsedLogPath) -> DeltaResult<Crc>>(&mut self, read: F) -> (r:
        &CrcLoadResult)
        requires
            can_load(*old(self), read),
        ensures
            final(self).cached == Some(*r),
            final(self).crc_file == old(self).crc_file,
            final(self).precomputed_version == old(self).precomputed_version,
            !needs_reading(*old(self)) ==> forall|reply: DeltaResult<Crc>|
                *r == #[trigger] after_load(*old(self), reply),
            needs_reading(*old(self)) ==> exists|reply: DeltaResult<Crc>|
                read.ensures((&old(self).crc_file->0,), reply) && *r == #[trigger] after_load(
                    *old(self),
                    reply,
                ),
    {
        if self.cached.is_none() {
            let result = match &self.crc_file {
                None => CrcLoadResult::DoesNotExist,
                Some(path) => {
                    let reply = read(path);
                    let ghost kept = reply;
                    let result = to_load_result(reply);
                    assert(result == after_load(*old(self), kept));
                    result
                },
            };
            self.cached = Some(result);
        }
        self.cached.as_ref().unwrap()
    }

    /// The checksum, if it is one of the table at `version`. It is loaded where needed; `read` reads
    /// its file. A file of another version is not read.
    pub fn get_or_load_if_at_version<F: FnOnce(&ParsedLogPath) -> DeltaResult<Crc>>(
        &mut self,
        read: F,
        version: Version,
    ) -> (r: Option<&Arc<Crc>>)
        requires
            old(self).version() == Some(version) ==> can_load(*old(self), read),
        ensures
            old(self).version() != Some(version) ==> r is None && *final(self) == *old(self),
            old(self).version() == Some(version) ==> {
                &&& final(self).cached is Some
                &&& match r {
                    Some(crc) => loaded(final(self).cached->0) == Some(*crc),
                    None => loaded(final(self).cached->0) is None,
                }
                &&& final(self).crc_file == old(self).crc_file
                &&& final(self).precomputed_version == old(self).precomputed_version
                &&& !needs_reading(*old(self)) ==> forall|reply: DeltaResult<Crc>|
                    final(self).cached == Some(#[trigger] after_load(*old(self), reply))
                &&& needs_reading(*old(self)) ==> exists|reply: DeltaResult<Crc>|
                    read.ensures((&old(self).crc_file->0,), reply) && final(self).cached == Some(
                        #[trigger] after_load(*old(self), reply),
                    )
            },
    {
        let at_version: bool = match self.crc_version() {
            Some(own) => own == version,
            None => false,
        };
        if !at_version {
            return None;
        }
        self.get_or_load(read).get()
    }

    /// The checksum, if it has been loaded and is one of the table at `version`. Reads nothing.
    pub fn get_if_loaded_at_version(&self, version: Version) -> (r: Option<&Arc<Crc>>)
        ensures
            match r {
                Some(crc) => self.version() == Some(version) && (self.cached matches Some(result)
                    && loaded(result) == Some(*crc)),
                None => self.version() != Some(version) || (self.cached matches Some(result)
                    ==> loaded(result) is None),
            },
    {
        match self.crc_version() {
            Some(own) if own == version => match &self.cached {
                Some(result) => result.get(),
                None => None,
            },
            _ => None,
        }
    }

    /// Whether something is known of the checksum.
    pub fn is_loaded(&self) -> (r: bool)
        ensures
            r == self.cached is Some,
    {
        self.cached.is_some()
    }

    /// The version of the checksum: that of one that is known from the start, or else of the file.
    pub fn crc_version(&self) -> (r: Option<Version>)
        ensures
            r == self.version(),
    {
        match self.precomputed_version {
            Some(version) => Some(version),
            None => match &self.crc_file {
                Some(file) => Some(file.version),
                None => None,
            },
        }
    }
}

/// A checksum file is read at most once. After a checksum was asked for, it can be asked for again
/// with any `read`, be it one that must never be called: its file is not read again, and whatever
/// reading it would give, the outcome stays what it was.
pub proof fn law_read_at_most_once<F: FnOnce(&ParsedLogPath) -> DeltaResult<Crc>>(
    before: LazyCrc,
    after: LazyCrc,
    reply: DeltaResult<Crc>,
    read: F,
)
    requires
        after.cached == Some(after_load(before, reply)),
        after.crc_file == before.crc_file,
        after.precomputed_version == before.precomputed_version,
    ensures
        !needs_reading(after),
        can_load(after, read),
        forall|other: DeltaResult<Crc>| #[trigger]
            after_load(after, other) == after_load(before, reply),
        after.version() == before.version(),
{
}

/// A checksum that is known from the start is handed out at its version without reading a file: it
/// can be asked for with any `read`, be it one that must never be called.
pub proof fn law_precomputed_needs_no_reading<F: FnOnce(&ParsedLogPath) -> DeltaResult<Crc>>(
    lazy: LazyCrc,
    crc: Crc,
    version: Version,
    read: F,
)
    requires
        lazy.crc_file is None,
        lazy.cached == Some(CrcLoadResult::Loaded(Arc::new(crc))),
        lazy.precomputed_version == Some(version),
    ensures
        !needs_reading(lazy),
        can_load(lazy, read),
        lazy.version() == Some(version),
        forall|reply: DeltaResult<Crc>|
            loaded(#[trigger] after_load(lazy, reply)) == Some(Arc::new(crc)),
{
}

/// What comes of asking for a checksum: what was known of it, if something was. Otherwise there is
/// none without a file; with one, it is what its file holds, or it is corrupt where that cannot be
/// read. Its version is the one that it was given with, or else that of its file.
pub proof fn law_outcome_of_asking(lazy: LazyCrc, reply: DeltaResult<Crc>)
    ensures
        lazy.cached matches Some(known) ==> after_load(lazy, reply) == known,
        lazy.cached is None && lazy.crc_file is None ==> after_load(lazy, reply) is DoesNotExist,
        lazy.cached is None && lazy.crc_file is Some ==> match reply {
            Ok(crc) => after_load(lazy, reply) matches CrcLoadResult::Loaded(found) && *found == crc,
            Err(_) => after_load(lazy, reply) is CorruptOrFailed,
        },
        loaded(after_load(lazy, reply)) is Some <==> after_load(lazy, reply) is Loaded,
        lazy.precomputed_version is Some ==> lazy.version() == lazy.precomputed_version,
        lazy.precomputed_version is None ==> match lazy.crc_file {
            Some(file) => lazy.version() == Some(file.version),
            None => lazy.version() is None,
        },
{
}

} // verus!
