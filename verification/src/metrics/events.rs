//! Metric events: what became of an operation.
//!
//! Each event is made from the fields of a span when the span opens. Numbers and flags may be
//! recorded while it is open, and its duration is set when it closes.
use vstd::prelude::*;

use crate::metrics::duration::{law_length_determines_duration, Duration};
use crate::metrics::fields::{
    attributes_model, find_identifier, find_malformed, find_number, find_string, find_text,
    identifier, lemma_identifier_push, lemma_number_push, lemma_text_field_push, malformed, number,
    string_field, text_field, AttributeModel, Attributes, FieldValue, FieldValueModel, SpanRecord,
    REPORT_FIELD,
};
use crate::outside::{duration_text, hyphenated, new_random_uuid, parsed_uuid, uuid_text};
use crate::text::{decimal, decimal_text, join_texts, same_text, texts};

verus! {

/// The span in which the log of a table is listed.
pub const LOG_SEGMENT_LOADED_SPAN: &'static str = "segment.for_snapshot";

/// The span in which protocol and metadata are loaded.
pub const PROTOCOL_METADATA_LOADED_SPAN: &'static str = "segment.read_metadata";

/// The span in which a snapshot is built.
pub const SNAPSHOT_COMPLETED_SPAN: &'static str = "snap.build";

/// The span in which a checksum is read.
pub const CRC_READ_COMPLETED_SPAN: &'static str = "crc_read_completed";

/// The span that says that JSON files were read.
pub const JSON_READ_COMPLETED_SPAN: &'static str = "json_read_completed";

/// The span that says that Parquet files were read.
pub const PARQUET_READ_COMPLETED_SPAN: &'static str = "parquet_read_completed";

/// The span that says that the metadata of a scan was read.
pub const SCAN_METADATA_COMPLETED_SPAN: &'static str = "scan.metadata_completed";

/// The span that says that an action on storage is done. Its field `name` says which.
pub const STORAGE_SPAN: &'static str = "storage";

/// What a storage span is called when files were listed.
pub const LIST_COMPLETED: &'static str = "list_completed";

/// What a storage span is called when files were read.
pub const READ_COMPLETED: &'static str = "read_completed";

/// What a storage span is called when a file was copied.
pub const COPY_COMPLETED: &'static str = "copy_completed";

/// The field that names an operation.
pub const OPERATION_ID_FIELD: &'static str = "operation_id";

// ---------------------------------------------------------------------------
// Identifiers
// ---------------------------------------------------------------------------
/// Identifies an operation. All events of one operation carry the same identifier.
#[derive(Debug, Clone, Copy, PartialEq, Eq, Hash)]
pub struct MetricId {
    value: u128,
}

impl MetricId {
    /// Its 128 bits.
    pub closed spec fn id(self) -> u128 {
        self.value
    }

    /// The identifier with these bits.
    pub closed spec fn of(id: u128) -> Self {
        MetricId { value: id }
    }

    /// A random identifier.
    pub fn new() -> (r: Self)
        ensures
            (r.id() / 0x1000_0000_0000_0000_0000u128) % 16 == 4,
            (r.id() / 0x4000_0000_0000_0000u128) % 4 == 2,
    {
        MetricId { value: new_random_uuid() }
    }

    /// The identifier with these bits.
    pub fn from_bits(id: u128) -> (r: Self)
        ensures
            r == MetricId::of(id),
            r.id() == id,
    {
        MetricId { value: id }
    }

    /// Its 128 bits.
    pub fn bits(&self) -> (r: u128)
        ensures
            r == self.id(),
            *self == MetricId::of(r),
    {
        self.value
    }

    /// The identifier that the fields of a span hold, zero where they hold none.
    pub fn from_attrs(attrs: &Attributes) -> (r: Self)
        ensures
            r == operation_id(attributes_model(attrs@)),
    {
        MetricId { value: find_identifier(attrs, OPERATION_ID_FIELD, true) }
    }

    /// As text.
    pub fn text(&self) -> (r: String)
        ensures
            r@ == hyphenated(self.id()),
            parsed_uuid(r@) == Some(self.id()),
    {
        uuid_text(self.value)
    }
}

impl Default for MetricId {
    /// A random identifier.
    fn default() -> (r: Self)
        ensures
            (r.id() / 0x1000_0000_0000_0000_0000u128) % 16 == 4,
            (r.id() / 0x4000_0000_0000_0000u128) % 4 == 2,
    {
        MetricId::new()
    }
}

/// The identifier that the fields of a span hold, zero where they hold none.
pub open spec fn operation_id(attrs: Seq<AttributeModel>) -> MetricId {
    MetricId::of(identifier(attrs, OPERATION_ID_FIELD@, true))
}

// ---------------------------------------------------------------------------
// Kinds of scans
// ---------------------------------------------------------------------------
/// How the metadata of a scan was read.
#[derive(Debug, Clone, Copy, PartialEq, Eq, Structural)]
pub enum ScanType {
    /// The sequential phase of a parallel scan.
    SequentialPhase,
    /// The parallel phase of a parallel scan.
    ParallelPhase,
    /// All at once.
    Full,
}

/// The name of a kind of scan.
pub open spec fn scan_type_name(t: ScanType) -> Seq<char> {
    match t {
        ScanType::SequentialPhase => "sequential"@,
        ScanType::ParallelPhase => "parallel"@,
        ScanType::Full => "full"@,
    }
}

/// The kind of scan with the given name. A name that is not known means a full scan.
pub open spec fn scan_type_of(name: Seq<char>) -> ScanType {
    if name == "sequential"@ {
        ScanType::SequentialPhase
    } else if name == "parallel"@ {
        ScanType::ParallelPhase
    } else {
        ScanType::Full
    }
}

impl ScanType {
    /// The kind of scan with the given name. A name that is not known means a full scan.
    pub fn parse(s: &str) -> (r: Self)
        ensures
            r == scan_type_of(s@),
    {
        if same_text(s, "sequential") {
            ScanType::SequentialPhase
        } else if same_text(s, "parallel") {
            ScanType::ParallelPhase
        } else {
            ScanType::Full
        }
    }

    /// The name of a kind of scan.
    pub fn text(&self) -> (r: String)
        ensures
            r@ == scan_type_name(*self),
    {
        match self {
            ScanType::SequentialPhase => "sequential".to_owned(),
            ScanType::ParallelPhase => "parallel".to_owned(),
            ScanType::Full => "full".to_owned(),
        }
    }
}

/// The name of a kind of scan leads back to it.
pub proof fn law_scan_type_name_is_read_back(t: ScanType)
    ensures
        scan_type_of(scan_type_name(t)) == t,
{
    reveal_strlit("sequential");
    reveal_strlit("parallel");
    reveal_strlit("full");
    assert("sequential"@.len() == 10 && "parallel"@.len() == 8 && "full"@.len() == 4);
}

// ---------------------------------------------------------------------------
// Texts
// ---------------------------------------------------------------------------
/// A flag as text.
pub open spec fn flag_text(flag: bool) -> Seq<char> {
    if flag {
        "true"@
    } else {
        "false"@
    }
}

fn flag(value: bool) -> (r: String)
    ensures
        r@ == flag_text(value),
{
    if value {
        "true".to_owned()
    } else {
        "false".to_owned()
    }
}

/// A duration as text.
pub open spec fn time_text(d: Duration) -> Seq<char> {
    duration_text(d.seconds(), d.left_over())
}

fn extend(text: String, label: &str, value: String) -> (r: String)
    ensures
        r@ == text@ + label@ + value@,
{
    let labelled = join_texts(text.as_str(), label);
    join_texts(labelled.as_str(), value.as_str())
}

// ---------------------------------------------------------------------------
// LogSegmentLoaded
// ---------------------------------------------------------------------------
/// The log of a table was listed.
#[derive(Debug, Clone, Copy, PartialEq, Eq)]
pub struct LogSegmentLoaded {
    pub operation_id: MetricId,
    pub num_commit_files: u64,
    pub num_checkpoint_files: u64,
    pub num_compaction_files: u64,
    pub has_latest_crc_file: bool,
    pub duration: Duration,
}

/// The event that a span with the given fields begins as.
pub open spec fn log_segment_loaded_of(attrs: Seq<AttributeModel>) -> LogSegmentLoaded {
    LogSegmentLoaded {
        operation_id: operation_id(attrs),
        num_commit_files: 0,
        num_checkpoint_files: 0,
        num_compaction_files: 0,
        has_latest_crc_file: false,
        duration: Duration::of_nanos(0),
    }
}

/// The event as text.
pub open spec fn log_segment_loaded_text(e: LogSegmentLoaded) -> Seq<char> {
    "LogSegmentLoaded(id="@ + hyphenated(e.operation_id.id())
        + ", duration="@ + time_text(e.duration)
        + ", commits="@ + decimal_text(e.num_commit_files as nat)
        + ", checkpoints="@ + decimal_text(e.num_checkpoint_files as nat)
        + ", compactions="@ + decimal_text(e.num_compaction_files as nat)
        + ", has_latest_crc="@ + flag_text(e.has_latest_crc_file)
        + ")"@
}

/// The event after a number was recorded, where it has such a field.
pub open spec fn log_segment_loaded_with_u64(
    e: LogSegmentLoaded,
    name: Seq<char>,
    value: u64,
) -> Option<LogSegmentLoaded> {
    if name == "num_commit_files"@ {
        Some(LogSegmentLoaded { num_commit_files: value, ..e })
    } else if name == "num_checkpoint_files"@ {
        Some(LogSegmentLoaded { num_checkpoint_files: value, ..e })
    } else if name == "num_compaction_files"@ {
        Some(LogSegmentLoaded { num_compaction_files: value, ..e })
    } else {
        None
    }
}

/// The event after a flag was recorded, where it has such a field.
pub open spec fn log_segment_loaded_with_bool(
    e: LogSegmentLoaded,
    name: Seq<char>,
    value: bool,
) -> Option<LogSegmentLoaded> {
    if name == "has_latest_crc_file"@ {
        Some(LogSegmentLoaded { has_latest_crc_file: value, ..e })
    } else {
        None
    }
}

impl LogSegmentLoaded {
    /// The event that a span with the given fields begins as.
    pub fn from_attrs(attrs: &Attributes) -> (r: Self)
        ensures
            r == log_segment_loaded_of(attributes_model(attrs@)),
    {
        LogSegmentLoaded {
            operation_id: MetricId::from_attrs(attrs),
            num_commit_files: 0,
            num_checkpoint_files: 0,
            num_compaction_files: 0,
            has_latest_crc_file: false,
            duration: Duration::default(),
        }
    }

    /// Records a number while the span is open. Where the event has no such field, names the span.
    pub fn record_u64(&mut self, name: &str, value: u64) -> (r: Result<(), &'static str>)
        ensures
            match log_segment_loaded_with_u64(*old(self), name@, value) {
                Some(e) => r is Ok && *final(self) == e,
                None => r matches Err(span) && span@ == LOG_SEGMENT_LOADED_SPAN@ && *final(self)
                    == *old(self),
            },
    {
        if same_text(name, "num_commit_files") {
            self.num_commit_files = value;
        } else if same_text(name, "num_checkpoint_files") {
            self.num_checkpoint_files = value;
        } else if same_text(name, "num_compaction_files") {
            self.num_compaction_files = value;
        } else {
            return Err(LOG_SEGMENT_LOADED_SPAN);
        }
        Ok(())
    }

    /// Records a flag while the span is open. Where the event has no such field, names the span.
    pub fn record_bool(&mut self, name: &str, value: bool) -> (r: Result<(), &'static str>)
        ensures
            match log_segment_loaded_with_bool(*old(self), name@, value) {
                Some(e) => r is Ok && *final(self) == e,
                None => r matches Err(span) && span@ == LOG_SEGMENT_LOADED_SPAN@ && *final(self)
                    == *old(self),
            },
    {
        if same_text(name, "has_latest_crc_file") {
            self.has_latest_crc_file = value;
        } else {
            return Err(LOG_SEGMENT_LOADED_SPAN);
        }
        Ok(())
    }

    pub fn set_duration(&mut self, d: Duration)
        ensures
            *final(self) == (LogSegmentLoaded { duration: d, ..*old(self) }),
    {
        self.duration = d;
    }

    /// The event as text.
    pub fn text(&self) -> (r: String)
        ensures
            r@ == log_segment_loaded_text(*self),
    {
        let text = join_texts("LogSegmentLoaded(id=", self.operation_id.text().as_str());
        let text = extend(text, ", duration=", self.duration.text());
        let text = extend(text, ", commits=", decimal(self.num_commit_files));
        let text = extend(text, ", checkpoints=", decimal(self.num_checkpoint_files));
        let text = extend(text, ", compactions=", decimal(self.num_compaction_files));
        let text = extend(text, ", has_latest_crc=", flag(self.has_latest_crc_file));
        join_texts(text.as_str(), ")")
    }
}

// ---------------------------------------------------------------------------
// ProtocolMetadataLoaded
// ---------------------------------------------------------------------------
/// Protocol and metadata of a table were loaded.
#[derive(Debug, Clone, Copy, PartialEq, Eq)]
pub struct ProtocolMetadataLoaded {
    pub operation_id: MetricId,
    pub duration: Duration,
}

/// The event that a span with the given fields begins as.
pub open spec fn protocol_metadata_loaded_of(attrs: Seq<AttributeModel>) -> ProtocolMetadataLoaded {
    ProtocolMetadataLoaded {
        operation_id: operation_id(attrs),
        duration: Duration::of_nanos(0),
    }
}

/// The event as text.
pub open spec fn protocol_metadata_loaded_text(e: ProtocolMetadataLoaded) -> Seq<char> {
    "ProtocolMetadataLoaded(id="@ + hyphenated(e.operation_id.id())
        + ", duration="@ + time_text(e.duration)
        + ")"@
}

impl ProtocolMetadataLoaded {
    /// The event that a span with the given fields begins as.
    pub fn from_attrs(attrs: &Attributes) -> (r: Self)
        ensures
            r == protocol_metadata_loaded_of(attributes_model(attrs@)),
    {
        ProtocolMetadataLoaded {
            operation_id: MetricId::from_attrs(attrs),
            duration: Duration::default(),
        }
    }

    pub fn set_duration(&mut self, d: Duration)
        ensures
            *final(self) == (ProtocolMetadataLoaded { duration: d, ..*old(self) }),
    {
        self.duration = d;
    }

    /// The event as text.
    pub fn text(&self) -> (r: String)
        ensures
            r@ == protocol_metadata_loaded_text(*self),
    {
        let text = join_texts("ProtocolMetadataLoaded(id=", self.operation_id.text().as_str());
        let text = extend(text, ", duration=", self.duration.text());
        join_texts(text.as_str(), ")")
    }
}

// ---------------------------------------------------------------------------
// SnapshotCompleted
// ---------------------------------------------------------------------------
/// A snapshot was built.
#[derive(Debug, Clone, Copy, PartialEq, Eq)]
pub struct SnapshotCompleted {
    pub operation_id: MetricId,
    pub version: u64,
    pub duration: Duration,
}

/// The event that a span with the given fields begins as.
pub open spec fn snapshot_completed_of(attrs: Seq<AttributeModel>) -> SnapshotCompleted {
    SnapshotCompleted {
        operation_id: operation_id(attrs),
        version: 0,
        duration: Duration::of_nanos(0),
    }
}

/// The event as text.
pub open spec fn snapshot_completed_text(e: SnapshotCompleted) -> Seq<char> {
    "SnapshotCompleted(id="@ + hyphenated(e.operation_id.id())
        + ", version="@ + decimal_text(e.version as nat)
        + ", duration="@ + time_text(e.duration)
        + ")"@
}

/// The event after a number was recorded, where it has such a field.
pub open spec fn snapshot_completed_with_u64(
    e: SnapshotCompleted,
    name: Seq<char>,
    value: u64,
) -> Option<SnapshotCompleted> {
    if name == "version"@ {
        Some(SnapshotCompleted { version: value, ..e })
    } else {
        None
    }
}

impl SnapshotCompleted {
    /// The event that a span with the given fields begins as.
    pub fn from_attrs(attrs: &Attributes) -> (r: Self)
        ensures
            r == snapshot_completed_of(attributes_model(attrs@)),
    {
        SnapshotCompleted {
            operation_id: MetricId::from_attrs(attrs),
            version: 0,
            duration: Duration::default(),
        }
    }

    /// Records a number while the span is open. Where the event has no such field, names the span.
    pub fn record_u64(&mut self, name: &str, value: u64) -> (r: Result<(), &'static str>)
        ensures
            match snapshot_completed_with_u64(*old(self), name@, value) {
                Some(e) => r is Ok && *final(self) == e,
                None => r matches Err(span) && span@ == SNAPSHOT_COMPLETED_SPAN@ && *final(self)
                    == *old(self),
            },
    {
        if same_text(name, "version") {
            self.version = value;
        } else {
            return Err(SNAPSHOT_COMPLETED_SPAN);
        }
        Ok(())
    }

    pub fn set_duration(&mut self, d: Duration)
        ensures
            *final(self) == (SnapshotCompleted { duration: d, ..*old(self) }),
    {
        self.duration = d;
    }

    /// The event that takes its place when the span fails.
    pub fn into_failed(self) -> (r: SnapshotFailed)
        ensures
            r == (SnapshotFailed { operation_id: self.operation_id, duration: self.duration }),
    {
        SnapshotFailed { operation_id: self.operation_id, duration: self.duration }
    }

    /// The event as text.
    pub fn text(&self) -> (r: String)
        ensures
            r@ == snapshot_completed_text(*self),
    {
        let text = join_texts("SnapshotCompleted(id=", self.operation_id.text().as_str());
        let text = extend(text, ", version=", decimal(self.version));
        let text = extend(text, ", duration=", self.duration.text());
        join_texts(text.as_str(), ")")
    }
}

// ---------------------------------------------------------------------------
// SnapshotFailed
// ---------------------------------------------------------------------------
/// A snapshot could not be built. Takes the place of [`SnapshotCompleted`].
#[derive(Debug, Clone, Copy, PartialEq, Eq)]
pub struct SnapshotFailed {
    pub operation_id: MetricId,
    pub duration: Duration,
}

/// The event as text.
pub open spec fn snapshot_failed_text(e: SnapshotFailed) -> Seq<char> {
    "SnapshotFailed(id="@ + hyphenated(e.operation_id.id())
        + ", duration="@ + time_text(e.duration)
        + ")"@
}

impl SnapshotFailed {
    pub fn set_duration(&mut self, d: Duration)
        ensures
            *final(self) == (SnapshotFailed { duration: d, ..*old(self) }),
    {
        self.duration = d;
    }

    /// The event as text.
    pub fn text(&self) -> (r: String)
        ensures
            r@ == snapshot_failed_text(*self),
    {
        let text = join_texts("SnapshotFailed(id=", self.operation_id.text().as_str());
        let text = extend(text, ", duration=", self.duration.text());
        join_texts(text.as_str(), ")")
    }
}

// ---------------------------------------------------------------------------
// CrcReadCompleted
// ---------------------------------------------------------------------------
/// A checksum was read, though it may not have been understood. `bytes_read` is zero where it could
/// not be read.
#[derive(Debug, Clone, Copy, PartialEq, Eq)]
pub struct CrcReadCompleted {
    pub bytes_read: u64,
    pub duration: Duration,
}

/// The event that a span with the given fields begins as.
pub open spec fn crc_read_completed_of(attrs: Seq<AttributeModel>) -> CrcReadCompleted {
    CrcReadCompleted {
        bytes_read: 0,
        duration: Duration::of_nanos(0),
    }
}

/// The event as text.
pub open spec fn crc_read_completed_text(e: CrcReadCompleted) -> Seq<char> {
    "CrcReadCompleted(duration="@ + time_text(e.duration)
        + ", bytes="@ + decimal_text(e.bytes_read as nat)
        + ")"@
}

/// The event after a number was recorded, where it has such a field.
pub open spec fn crc_read_completed_with_u64(
    e: CrcReadCompleted,
    name: Seq<char>,
    value: u64,
) -> Option<CrcReadCompleted> {
    if name == "bytes_read"@ {
        Some(CrcReadCompleted { bytes_read: value, ..e })
    } else {
        None
    }
}

impl CrcReadCompleted {
    /// The event that a span with the given fields begins as.
    pub fn from_attrs(_attrs: &Attributes) -> (r: Self)
        ensures
            r == crc_read_completed_of(attributes_model(_attrs@)),
    {
        CrcReadCompleted {
            bytes_read: 0,
            duration: Duration::default(),
        }
    }

    /// Records a number while the span is open. Where the event has no such field, names the span.
    pub fn record_u64(&mut self, name: &str, value: u64) -> (r: Result<(), &'static str>)
        ensures
            match crc_read_completed_with_u64(*old(self), name@, value) {
                Some(e) => r is Ok && *final(self) == e,
                None => r matches Err(span) && span@ == CRC_READ_COMPLETED_SPAN@ && *final(self)
                    == *old(self),
            },
    {
        if same_text(name, "bytes_read") {
            self.bytes_read = value;
        } else {
            return Err(CRC_READ_COMPLETED_SPAN);
        }
        Ok(())
    }

    pub fn set_duration(&mut self, d: Duration)
        ensures
            *final(self) == (CrcReadCompleted { duration: d, ..*old(self) }),
    {
        self.duration = d;
    }

    /// The event as text.
    pub fn text(&self) -> (r: String)
        ensures
            r@ == crc_read_completed_text(*self),
    {
        let text = join_texts("CrcReadCompleted(duration=", self.duration.text().as_str());
        let text = extend(text, ", bytes=", decimal(self.bytes_read));
        join_texts(text.as_str(), ")")
    }
}

// ---------------------------------------------------------------------------
// JsonReadCompleted
// ---------------------------------------------------------------------------
/// JSON files were read. `bytes_read` is the sum of their sizes.
#[derive(Debug, Clone, Copy, PartialEq, Eq)]
pub struct JsonReadCompleted {
    pub num_files: u64,
    pub bytes_read: u64,
}

/// The event that a span with the given fields begins as.
pub open spec fn json_read_completed_of(attrs: Seq<AttributeModel>) -> JsonReadCompleted {
    JsonReadCompleted {
        num_files: number(attrs, "num_files"@),
        bytes_read: number(attrs, "bytes_read"@),
    }
}

/// The event as text.
pub open spec fn json_read_completed_text(e: JsonReadCompleted) -> Seq<char> {
    "JsonReadCompleted(files="@ + decimal_text(e.num_files as nat)
        + ", bytes="@ + decimal_text(e.bytes_read as nat)
        + ")"@
}

impl JsonReadCompleted {
    /// The event that a span with the given fields begins as.
    pub fn from_attrs(attrs: &Attributes) -> (r: Self)
        ensures
            r == json_read_completed_of(attributes_model(attrs@)),
    {
        JsonReadCompleted {
            num_files: find_number(attrs, "num_files"),
            bytes_read: find_number(attrs, "bytes_read"),
        }
    }

    /// The event as text.
    pub fn text(&self) -> (r: String)
        ensures
            r@ == json_read_completed_text(*self),
    {
        let text = join_texts("JsonReadCompleted(files=", decimal(self.num_files).as_str());
        let text = extend(text, ", bytes=", decimal(self.bytes_read));
        join_texts(text.as_str(), ")")
    }
}

// ---------------------------------------------------------------------------
// ParquetReadCompleted
// ---------------------------------------------------------------------------
/// Parquet files were read. `bytes_read` is the sum of their sizes.
#[derive(Debug, Clone, Copy, PartialEq, Eq)]
pub struct ParquetReadCompleted {
    pub num_files: u64,
    pub bytes_read: u64,
}

/// The event that a span with the given fields begins as.
pub open spec fn parquet_read_completed_of(attrs: Seq<AttributeModel>) -> ParquetReadCompleted {
    ParquetReadCompleted {
        num_files: number(attrs, "num_files"@),
        bytes_read: number(attrs, "bytes_read"@),
    }
}

/// The event as text.
pub open spec fn parquet_read_completed_text(e: ParquetReadCompleted) -> Seq<char> {
    "ParquetReadCompleted(files="@ + decimal_text(e.num_files as nat)
        + ", bytes="@ + decimal_text(e.bytes_read as nat)
        + ")"@
}

impl ParquetReadCompleted {
    /// The event that a span with the given fields begins as.
    pub fn from_attrs(attrs: &Attributes) -> (r: Self)
        ensures
            r == parquet_read_completed_of(attributes_model(attrs@)),
    {
        ParquetReadCompleted {
            num_files: find_number(attrs, "num_files"),
            bytes_read: find_number(attrs, "bytes_read"),
        }
    }

    /// The event as text.
    pub fn text(&self) -> (r: String)
        ensures
            r@ == parquet_read_completed_text(*self),
    {
        let text = join_texts("ParquetReadCompleted(files=", decimal(self.num_files).as_str());
        let text = extend(text, ", bytes=", decimal(self.bytes_read));
        join_texts(text.as_str(), ")")
    }
}

// ---------------------------------------------------------------------------
// ScanMetadataCompleted
// ---------------------------------------------------------------------------
/// The metadata of a scan was read.
#[derive(Debug, Clone, Copy, PartialEq, Eq)]
pub struct ScanMetadataCompleted {
    pub operation_id: MetricId,
    pub scan_type: ScanType,
    /// From the start of the scan to its end.
    pub duration: Duration,
    /// Added files that were not skipped.
    pub num_add_files_seen: u64,
    /// Added files that are still part of the table.
    pub num_active_add_files: u64,
    /// Their size.
    pub active_add_files_bytes: u64,
    /// Removed files.
    pub num_remove_files_seen: u64,
    /// Actions that neither add nor remove a file.
    pub num_non_file_actions: u64,
    /// Files that were skipped by a predicate.
    pub num_predicate_filtered: u64,
    /// How many files had to be remembered at most.
    pub peak_hash_set_size: usize,
    pub dedup_visitor_time_ms: u64,
    pub predicate_eval_time_ms: u64,
}

/// The event that a span with the given fields begins as.
pub open spec fn scan_metadata_completed_of(attrs: Seq<AttributeModel>) -> ScanMetadataCompleted {
    ScanMetadataCompleted {
        operation_id: MetricId::of(identifier(attrs, OPERATION_ID_FIELD@, false)),
        scan_type: scan_type_of(text_field(attrs, "scan_type"@)),
        duration: Duration::of_nanos(number(attrs, "duration_ns"@)),
        num_add_files_seen: number(attrs, "num_add_files_seen"@),
        num_active_add_files: number(attrs, "num_active_add_files"@),
        active_add_files_bytes: number(attrs, "active_add_files_bytes"@),
        num_remove_files_seen: number(attrs, "num_remove_files_seen"@),
        num_non_file_actions: number(attrs, "num_non_file_actions"@),
        num_predicate_filtered: number(attrs, "num_predicate_filtered"@),
        peak_hash_set_size: number(attrs, "peak_hash_set_size"@) as usize,
        dedup_visitor_time_ms: number(attrs, "dedup_visitor_time_ms"@),
        predicate_eval_time_ms: number(attrs, "predicate_eval_time_ms"@),
    }
}

/// The event as text.
pub open spec fn scan_metadata_completed_text(e: ScanMetadataCompleted) -> Seq<char> {
    "ScanMetadataCompleted(id="@ + hyphenated(e.operation_id.id())
        + ", scan_type="@ + scan_type_name(e.scan_type)
        + ", duration="@ + time_text(e.duration)
        + ", add_files_seen="@ + decimal_text(e.num_add_files_seen as nat)
        + ", active_add_files="@ + decimal_text(e.num_active_add_files as nat)
        + ", active_add_files_bytes="@ + decimal_text(e.active_add_files_bytes as nat)
        + ", remove_files_seen="@ + decimal_text(e.num_remove_files_seen as nat)
        + ", non_file_actions="@ + decimal_text(e.num_non_file_actions as nat)
        + ", predicate_filtered="@ + decimal_text(e.num_predicate_filtered as nat)
        + ", peak_hash_set_size="@ + decimal_text(e.peak_hash_set_size as nat)
        + ", dedup_visitor_time_ms="@ + decimal_text(e.dedup_visitor_time_ms as nat)
        + ", predicate_eval_time_ms="@ + decimal_text(e.predicate_eval_time_ms as nat)
        + ")"@
}

impl ScanMetadataCompleted {
    /// The event that a span with the given fields begins as.
    pub fn from_attrs(attrs: &Attributes) -> (r: Self)
        ensures
            r == scan_metadata_completed_of(attributes_model(attrs@)),
    {
        ScanMetadataCompleted {
            operation_id: MetricId::from_bits(find_identifier(attrs, OPERATION_ID_FIELD, false)),
            scan_type: ScanType::parse(find_text(attrs, "scan_type").as_str()),
            duration: Duration::from_nanos(find_number(attrs, "duration_ns")),
            num_add_files_seen: find_number(attrs, "num_add_files_seen"),
            num_active_add_files: find_number(attrs, "num_active_add_files"),
            active_add_files_bytes: find_number(attrs, "active_add_files_bytes"),
            num_remove_files_seen: find_number(attrs, "num_remove_files_seen"),
            num_non_file_actions: find_number(attrs, "num_non_file_actions"),
            num_predicate_filtered: find_number(attrs, "num_predicate_filtered"),
            peak_hash_set_size: find_number(attrs, "peak_hash_set_size") as usize,
            dedup_visitor_time_ms: find_number(attrs, "dedup_visitor_time_ms"),
            predicate_eval_time_ms: find_number(attrs, "predicate_eval_time_ms"),
        }
    }

    /// The event as text.
    pub fn text(&self) -> (r: String)
        ensures
            r@ == scan_metadata_completed_text(*self),
    {
        let text = join_texts("ScanMetadataCompleted(id=", self.operation_id.text().as_str());
        let text = extend(text, ", scan_type=", self.scan_type.text());
        let text = extend(text, ", duration=", self.duration.text());
        let text = extend(text, ", add_files_seen=", decimal(self.num_add_files_seen));
        let text = extend(text, ", active_add_files=", decimal(self.num_active_add_files));
        let text = extend(text, ", active_add_files_bytes=", decimal(self.active_add_files_bytes));
        let text = extend(text, ", remove_files_seen=", decimal(self.num_remove_files_seen));
        let text = extend(text, ", non_file_actions=", decimal(self.num_non_file_actions));
        let text = extend(text, ", predicate_filtered=", decimal(self.num_predicate_filtered));
        let text = extend(text, ", peak_hash_set_size=", decimal(self.peak_hash_set_size as u64));
        let text = extend(text, ", dedup_visitor_time_ms=", decimal(self.dedup_visitor_time_ms));
        let text = extend(text, ", predicate_eval_time_ms=", decimal(self.predicate_eval_time_ms));
        join_texts(text.as_str(), ")")
    }
}

// ---------------------------------------------------------------------------
// StorageListCompleted
// ---------------------------------------------------------------------------
/// Files were listed.
#[derive(Debug, Clone, Copy, PartialEq, Eq)]
pub struct StorageListCompleted {
    pub duration: Duration,
    pub num_files: u64,
}

/// The event as text.
pub open spec fn storage_list_completed_text(e: StorageListCompleted) -> Seq<char> {
    "StorageListCompleted(duration="@ + time_text(e.duration)
        + ", files="@ + decimal_text(e.num_files as nat)
        + ")"@
}

impl StorageListCompleted {
    /// The event as text.
    pub fn text(&self) -> (r: String)
        ensures
            r@ == storage_list_completed_text(*self),
    {
        let text = join_texts("StorageListCompleted(duration=", self.duration.text().as_str());
        let text = extend(text, ", files=", decimal(self.num_files));
        join_texts(text.as_str(), ")")
    }
}

// ---------------------------------------------------------------------------
// StorageReadCompleted
// ---------------------------------------------------------------------------
/// Files were read.
#[derive(Debug, Clone, Copy, PartialEq, Eq)]
pub struct StorageReadCompleted {
    pub duration: Duration,
    pub num_files: u64,
    pub bytes_read: u64,
}

/// The event as text.
pub open spec fn storage_read_completed_text(e: StorageReadCompleted) -> Seq<char> {
    "StorageReadCompleted(duration="@ + time_text(e.duration)
        + ", files="@ + decimal_text(e.num_files as nat)
        + ", bytes="@ + decimal_text(e.bytes_read as nat)
        + ")"@
}

impl StorageReadCompleted {
    /// The event as text.
    pub fn text(&self) -> (r: String)
        ensures
            r@ == storage_read_completed_text(*self),
    {
        let text = join_texts("StorageReadCompleted(duration=", self.duration.text().as_str());
        let text = extend(text, ", files=", decimal(self.num_files));
        let text = extend(text, ", bytes=", decimal(self.bytes_read));
        join_texts(text.as_str(), ")")
    }
}

// ---------------------------------------------------------------------------
// StorageCopyCompleted
// ---------------------------------------------------------------------------
/// A file was copied.
#[derive(Debug, Clone, Copy, PartialEq, Eq)]
pub struct StorageCopyCompleted {
    pub duration: Duration,
}

/// The event as text.
pub open spec fn storage_copy_completed_text(e: StorageCopyCompleted) -> Seq<char> {
    "StorageCopyCompleted(duration="@ + time_text(e.duration)
        + ")"@
}

impl StorageCopyCompleted {
    /// The event as text.
    pub fn text(&self) -> (r: String)
        ensures
            r@ == storage_copy_completed_text(*self),
    {
        let text = join_texts("StorageCopyCompleted(duration=", self.duration.text().as_str());
        join_texts(text.as_str(), ")")
    }
}

// ---------------------------------------------------------------------------
// Storage events
// ---------------------------------------------------------------------------
/// The event that a storage span with the given fields stands for. There is none where the span
/// does not say which action it is.
pub open spec fn storage_metric_of(attrs: Seq<AttributeModel>) -> Option<MetricEvent> {
    let duration = Duration::of_nanos(number(attrs, "duration_ns"@));
    let num_files = number(attrs, "num_files"@);
    let bytes_read = number(attrs, "bytes_read"@);
    match string_field(attrs, "name"@) {
        Some(name) => if name == LIST_COMPLETED@ {
            Some(MetricEvent::StorageListCompleted(StorageListCompleted { duration, num_files }))
        } else if name == READ_COMPLETED@ {
            Some(
                MetricEvent::StorageReadCompleted(
                    StorageReadCompleted { duration, num_files, bytes_read },
                ),
            )
        } else if name == COPY_COMPLETED@ {
            Some(MetricEvent::StorageCopyCompleted(StorageCopyCompleted { duration }))
        } else {
            None
        },
        None => None,
    }
}

/// The event that a storage span with the given fields stands for.
pub fn storage_metric_from_attrs(attrs: &Attributes) -> (r: Option<MetricEvent>)
    ensures
        r == storage_metric_of(attributes_model(attrs@)),
{
    let duration = Duration::from_nanos(find_number(attrs, "duration_ns"));
    let num_files: u64 = find_number(attrs, "num_files");
    let bytes_read: u64 = find_number(attrs, "bytes_read");
    match find_string(attrs, "name") {
        Some(name) => if same_text(name.as_str(), LIST_COMPLETED) {
            Some(MetricEvent::StorageListCompleted(StorageListCompleted { duration, num_files }))
        } else if same_text(name.as_str(), READ_COMPLETED) {
            Some(
                MetricEvent::StorageReadCompleted(
                    StorageReadCompleted { duration, num_files, bytes_read },
                ),
            )
        } else if same_text(name.as_str(), COPY_COMPLETED) {
            Some(MetricEvent::StorageCopyCompleted(StorageCopyCompleted { duration }))
        } else {
            None
        },
        None => None,
    }
}

// ---------------------------------------------------------------------------
// Events
// ---------------------------------------------------------------------------
/// What became of an operation.
#[derive(Debug, Clone, Copy, PartialEq, Eq)]
pub enum MetricEvent {
    LogSegmentLoaded(LogSegmentLoaded),
    ProtocolMetadataLoaded(ProtocolMetadataLoaded),
    SnapshotCompleted(SnapshotCompleted),
    SnapshotFailed(SnapshotFailed),
    CrcReadCompleted(CrcReadCompleted),
    JsonReadCompleted(JsonReadCompleted),
    ParquetReadCompleted(ParquetReadCompleted),
    ScanMetadataCompleted(ScanMetadataCompleted),
    StorageListCompleted(StorageListCompleted),
    StorageReadCompleted(StorageReadCompleted),
    StorageCopyCompleted(StorageCopyCompleted),
}

/// The span from which an event comes.
pub open spec fn span_of(e: MetricEvent) -> Seq<char> {
    match e {
        MetricEvent::LogSegmentLoaded(_) => LOG_SEGMENT_LOADED_SPAN@,
        MetricEvent::ProtocolMetadataLoaded(_) => PROTOCOL_METADATA_LOADED_SPAN@,
        MetricEvent::SnapshotCompleted(_) => SNAPSHOT_COMPLETED_SPAN@,
        MetricEvent::SnapshotFailed(_) => SNAPSHOT_COMPLETED_SPAN@,
        MetricEvent::CrcReadCompleted(_) => CRC_READ_COMPLETED_SPAN@,
        MetricEvent::JsonReadCompleted(_) => JSON_READ_COMPLETED_SPAN@,
        MetricEvent::ParquetReadCompleted(_) => PARQUET_READ_COMPLETED_SPAN@,
        MetricEvent::ScanMetadataCompleted(_) => SCAN_METADATA_COMPLETED_SPAN@,
        MetricEvent::StorageListCompleted(_) => STORAGE_SPAN@,
        MetricEvent::StorageReadCompleted(_) => STORAGE_SPAN@,
        MetricEvent::StorageCopyCompleted(_) => STORAGE_SPAN@,
    }
}

/// The event after its span closed: only events that are made when their span opens get their
/// duration then.
pub open spec fn with_duration(e: MetricEvent, duration: Duration) -> MetricEvent {
    match e {
        MetricEvent::LogSegmentLoaded(e) => MetricEvent::LogSegmentLoaded(
            LogSegmentLoaded { duration, ..e },
        ),
        MetricEvent::ProtocolMetadataLoaded(e) => MetricEvent::ProtocolMetadataLoaded(
            ProtocolMetadataLoaded { duration, ..e },
        ),
        MetricEvent::SnapshotCompleted(e) => MetricEvent::SnapshotCompleted(
            SnapshotCompleted { duration, ..e },
        ),
        MetricEvent::SnapshotFailed(e) => MetricEvent::SnapshotFailed(
            SnapshotFailed { duration, ..e },
        ),
        MetricEvent::CrcReadCompleted(e) => MetricEvent::CrcReadCompleted(
            CrcReadCompleted { duration, ..e },
        ),
        e => e,
    }
}

/// The event after a number was recorded, where it has such a field.
pub open spec fn with_u64(e: MetricEvent, name: Seq<char>, value: u64) -> Option<MetricEvent> {
    match e {
        MetricEvent::LogSegmentLoaded(e) => match log_segment_loaded_with_u64(e, name, value) {
            Some(e) => Some(MetricEvent::LogSegmentLoaded(e)),
            None => None,
        },
        MetricEvent::SnapshotCompleted(e) => match snapshot_completed_with_u64(e, name, value) {
            Some(e) => Some(MetricEvent::SnapshotCompleted(e)),
            None => None,
        },
        MetricEvent::CrcReadCompleted(e) => match crc_read_completed_with_u64(e, name, value) {
            Some(e) => Some(MetricEvent::CrcReadCompleted(e)),
            None => None,
        },
        _ => None,
    }
}

/// The event after a flag was recorded, where it has such a field.
pub open spec fn with_bool(e: MetricEvent, name: Seq<char>, value: bool) -> Option<MetricEvent> {
    match e {
        MetricEvent::LogSegmentLoaded(e) => match log_segment_loaded_with_bool(e, name, value) {
            Some(e) => Some(MetricEvent::LogSegmentLoaded(e)),
            None => None,
        },
        _ => None,
    }
}

/// The event as text.
pub open spec fn event_text(e: MetricEvent) -> Seq<char> {
    match e {
        MetricEvent::LogSegmentLoaded(e) => log_segment_loaded_text(e),
        MetricEvent::ProtocolMetadataLoaded(e) => protocol_metadata_loaded_text(e),
        MetricEvent::SnapshotCompleted(e) => snapshot_completed_text(e),
        MetricEvent::SnapshotFailed(e) => snapshot_failed_text(e),
        MetricEvent::CrcReadCompleted(e) => crc_read_completed_text(e),
        MetricEvent::JsonReadCompleted(e) => json_read_completed_text(e),
        MetricEvent::ParquetReadCompleted(e) => parquet_read_completed_text(e),
        MetricEvent::ScanMetadataCompleted(e) => scan_metadata_completed_text(e),
        MetricEvent::StorageListCompleted(e) => storage_list_completed_text(e),
        MetricEvent::StorageReadCompleted(e) => storage_read_completed_text(e),
        MetricEvent::StorageCopyCompleted(e) => storage_copy_completed_text(e),
    }
}

/// The texts among the fields of a span that should be the identifier of its event, but are none.
pub open spec fn malformed_ids(e: MetricEvent, attrs: Seq<AttributeModel>) -> Seq<Seq<char>> {
    match e {
        MetricEvent::LogSegmentLoaded(_)
        | MetricEvent::ProtocolMetadataLoaded(_)
        | MetricEvent::SnapshotCompleted(_) => malformed(attrs, OPERATION_ID_FIELD@, true),
        MetricEvent::ScanMetadataCompleted(_) => malformed(attrs, OPERATION_ID_FIELD@, false),
        _ => Seq::empty(),
    }
}

/// The event that a span begins as. There is none for a span that is not reported.
pub open spec fn event_of(span: Seq<char>, attrs: Seq<AttributeModel>) -> Option<MetricEvent> {
    if span == LOG_SEGMENT_LOADED_SPAN@ {
        Some(MetricEvent::LogSegmentLoaded(log_segment_loaded_of(attrs)))
    } else if span == PROTOCOL_METADATA_LOADED_SPAN@ {
        Some(MetricEvent::ProtocolMetadataLoaded(protocol_metadata_loaded_of(attrs)))
    } else if span == SNAPSHOT_COMPLETED_SPAN@ {
        Some(MetricEvent::SnapshotCompleted(snapshot_completed_of(attrs)))
    } else if span == CRC_READ_COMPLETED_SPAN@ {
        Some(MetricEvent::CrcReadCompleted(crc_read_completed_of(attrs)))
    } else if span == JSON_READ_COMPLETED_SPAN@ {
        Some(MetricEvent::JsonReadCompleted(json_read_completed_of(attrs)))
    } else if span == PARQUET_READ_COMPLETED_SPAN@ {
        Some(MetricEvent::ParquetReadCompleted(parquet_read_completed_of(attrs)))
    } else if span == SCAN_METADATA_COMPLETED_SPAN@ {
        Some(MetricEvent::ScanMetadataCompleted(scan_metadata_completed_of(attrs)))
    } else if span == STORAGE_SPAN@ {
        storage_metric_of(attrs)
    } else {
        None
    }
}

impl MetricEvent {
    /// The event that a span begins as.
    pub fn from_span(span: &str, attrs: &Attributes) -> (r: Option<MetricEvent>)
        ensures
            r == event_of(span@, attributes_model(attrs@)),
    {
        if same_text(span, LOG_SEGMENT_LOADED_SPAN) {
            Some(MetricEvent::LogSegmentLoaded(LogSegmentLoaded::from_attrs(attrs)))
        } else if same_text(span, PROTOCOL_METADATA_LOADED_SPAN) {
            Some(MetricEvent::ProtocolMetadataLoaded(ProtocolMetadataLoaded::from_attrs(attrs)))
        } else if same_text(span, SNAPSHOT_COMPLETED_SPAN) {
            Some(MetricEvent::SnapshotCompleted(SnapshotCompleted::from_attrs(attrs)))
        } else if same_text(span, CRC_READ_COMPLETED_SPAN) {
            Some(MetricEvent::CrcReadCompleted(CrcReadCompleted::from_attrs(attrs)))
        } else if same_text(span, JSON_READ_COMPLETED_SPAN) {
            Some(MetricEvent::JsonReadCompleted(JsonReadCompleted::from_attrs(attrs)))
        } else if same_text(span, PARQUET_READ_COMPLETED_SPAN) {
            Some(MetricEvent::ParquetReadCompleted(ParquetReadCompleted::from_attrs(attrs)))
        } else if same_text(span, SCAN_METADATA_COMPLETED_SPAN) {
            Some(MetricEvent::ScanMetadataCompleted(ScanMetadataCompleted::from_attrs(attrs)))
        } else if same_text(span, STORAGE_SPAN) {
            storage_metric_from_attrs(attrs)
        } else {
            None
        }
    }

    /// The texts among the fields of the span that should be the identifier of the event, but are
    /// none. They are passed over, and are worth a warning.
    pub fn malformed_ids(&self, attrs: &Attributes) -> (r: Vec<String>)
        ensures
            texts(r@) == malformed_ids(*self, attributes_model(attrs@)),
    {
        match self {
            MetricEvent::LogSegmentLoaded(_)
            | MetricEvent::ProtocolMetadataLoaded(_)
            | MetricEvent::SnapshotCompleted(_) => find_malformed(attrs, OPERATION_ID_FIELD, true),
            MetricEvent::ScanMetadataCompleted(_) => {
                find_malformed(attrs, OPERATION_ID_FIELD, false)
            },
            _ => {
                let none: Vec<String> = Vec::new();
                assert(texts(none@) =~= Seq::empty());
                none
            },
        }
    }

    /// Sets the duration when the span closes, unless it was known from the start.
    pub fn set_duration_if_applicable(&mut self, d: Duration)
        ensures
            *final(self) == with_duration(*old(self), d),
    {
        match self {
            MetricEvent::LogSegmentLoaded(e) => e.set_duration(d),
            MetricEvent::ProtocolMetadataLoaded(e) => e.set_duration(d),
            MetricEvent::SnapshotCompleted(e) => e.set_duration(d),
            MetricEvent::SnapshotFailed(e) => e.set_duration(d),
            MetricEvent::CrcReadCompleted(e) => e.set_duration(d),
            _ => {},
        }
    }

    /// Records a number while the span is open. Where the event has no such field, names the span.
    pub fn record_u64(&mut self, name: &str, value: u64) -> (r: Result<(), &'static str>)
        ensures
            match with_u64(*old(self), name@, value) {
                Some(e) => r is Ok && *final(self) == e,
                None => r matches Err(span) && span@ == span_of(*old(self)) && *final(self) == *old(
                    self,
                ),
            },
    {
        match self {
            MetricEvent::LogSegmentLoaded(e) => e.record_u64(name, value),
            MetricEvent::ProtocolMetadataLoaded(_) => Err(PROTOCOL_METADATA_LOADED_SPAN),
            MetricEvent::SnapshotCompleted(e) => e.record_u64(name, value),
            MetricEvent::SnapshotFailed(_) => Err(SNAPSHOT_COMPLETED_SPAN),
            MetricEvent::CrcReadCompleted(e) => e.record_u64(name, value),
            MetricEvent::JsonReadCompleted(_) => Err(JSON_READ_COMPLETED_SPAN),
            MetricEvent::ParquetReadCompleted(_) => Err(PARQUET_READ_COMPLETED_SPAN),
            MetricEvent::ScanMetadataCompleted(_) => Err(SCAN_METADATA_COMPLETED_SPAN),
            MetricEvent::StorageListCompleted(_) => Err(STORAGE_SPAN),
            MetricEvent::StorageReadCompleted(_) => Err(STORAGE_SPAN),
            MetricEvent::StorageCopyCompleted(_) => Err(STORAGE_SPAN),
        }
    }

    /// Records a flag while the span is open. Where the event has no such field, names the span.
    pub fn record_bool(&mut self, name: &str, value: bool) -> (r: Result<(), &'static str>)
        ensures
            match with_bool(*old(self), name@, value) {
                Some(e) => r is Ok && *final(self) == e,
                None => r matches Err(span) && span@ == span_of(*old(self)) && *final(self) == *old(
                    self,
                ),
            },
    {
        match self {
            MetricEvent::LogSegmentLoaded(e) => e.record_bool(name, value),
            MetricEvent::ProtocolMetadataLoaded(_) => Err(PROTOCOL_METADATA_LOADED_SPAN),
            MetricEvent::SnapshotCompleted(_) => Err(SNAPSHOT_COMPLETED_SPAN),
            MetricEvent::SnapshotFailed(_) => Err(SNAPSHOT_COMPLETED_SPAN),
            MetricEvent::CrcReadCompleted(_) => Err(CRC_READ_COMPLETED_SPAN),
            MetricEvent::JsonReadCompleted(_) => Err(JSON_READ_COMPLETED_SPAN),
            MetricEvent::ParquetReadCompleted(_) => Err(PARQUET_READ_COMPLETED_SPAN),
            MetricEvent::ScanMetadataCompleted(_) => Err(SCAN_METADATA_COMPLETED_SPAN),
            MetricEvent::StorageListCompleted(_) => Err(STORAGE_SPAN),
            MetricEvent::StorageReadCompleted(_) => Err(STORAGE_SPAN),
            MetricEvent::StorageCopyCompleted(_) => Err(STORAGE_SPAN),
        }
    }

    /// The event as text.
    pub fn text(&self) -> (r: String)
        ensures
            r@ == event_text(*self),
    {
        match self {
            MetricEvent::LogSegmentLoaded(e) => e.text(),
            MetricEvent::ProtocolMetadataLoaded(e) => e.text(),
            MetricEvent::SnapshotCompleted(e) => e.text(),
            MetricEvent::SnapshotFailed(e) => e.text(),
            MetricEvent::CrcReadCompleted(e) => e.text(),
            MetricEvent::JsonReadCompleted(e) => e.text(),
            MetricEvent::ParquetReadCompleted(e) => e.text(),
            MetricEvent::ScanMetadataCompleted(e) => e.text(),
            MetricEvent::StorageListCompleted(e) => e.text(),
            MetricEvent::StorageReadCompleted(e) => e.text(),
            MetricEvent::StorageCopyCompleted(e) => e.text(),
        }
    }
}

// ---------------------------------------------------------------------------
// Spans to open
// ---------------------------------------------------------------------------
/// The fields of a span that says that files were read.
pub open spec fn file_read_fields(num_files: u64, bytes_read: u64) -> Seq<AttributeModel> {
    seq![(REPORT_FIELD@, FieldValueModel::Empty)].push(
        ("num_files"@, FieldValueModel::U64(num_files)),
    ).push(("bytes_read"@, FieldValueModel::U64(bytes_read)))
}

/// The span that says that JSON files were read. To be opened once for each call that reads some,
/// when all of them have been read.
pub fn emit_json_read_completed(num_files: u64, bytes_read: u64) -> (r: SpanRecord)
    ensures
        r.name@ == JSON_READ_COMPLETED_SPAN@,
        r.attributes() == file_read_fields(num_files, bytes_read),
        event_of(r.name@, r.attributes()) == Some(
            MetricEvent::JsonReadCompleted(JsonReadCompleted { num_files, bytes_read }),
        ),
{
    proof {
        lemma_file_read_fields(num_files, bytes_read);
        lemma_span_names();
    }
    SpanRecord::reported(JSON_READ_COMPLETED_SPAN).with(
        "num_files",
        FieldValue::U64(num_files),
    ).with("bytes_read", FieldValue::U64(bytes_read))
}

/// The span that says that Parquet files were read. To be opened once for each call that reads
/// some, when all of them have been read.
pub fn emit_parquet_read_completed(num_files: u64, bytes_read: u64) -> (r: SpanRecord)
    ensures
        r.name@ == PARQUET_READ_COMPLETED_SPAN@,
        r.attributes() == file_read_fields(num_files, bytes_read),
        event_of(r.name@, r.attributes()) == Some(
            MetricEvent::ParquetReadCompleted(ParquetReadCompleted { num_files, bytes_read }),
        ),
{
    proof {
        lemma_file_read_fields(num_files, bytes_read);
        lemma_span_names();
    }
    SpanRecord::reported(PARQUET_READ_COMPLETED_SPAN).with(
        "num_files",
        FieldValue::U64(num_files),
    ).with("bytes_read", FieldValue::U64(bytes_read))
}

/// The fields of a span in which protocol and metadata of a table are loaded.
pub open spec fn protocol_metadata_fields(operation_id: MetricId) -> Seq<AttributeModel> {
    seq![(REPORT_FIELD@, FieldValueModel::Empty)].push(
        (OPERATION_ID_FIELD@, FieldValueModel::Debug(hyphenated(operation_id.id()))),
    )
}

/// The span in which protocol and metadata of a table are loaded. To be opened before, and to be
/// closed when they are loaded.
pub fn emit_protocol_metadata_loaded(operation_id: MetricId) -> (r: SpanRecord)
    ensures
        r.name@ == PROTOCOL_METADATA_LOADED_SPAN@,
        r.attributes() == protocol_metadata_fields(operation_id),
        event_of(r.name@, r.attributes()) == Some(
            MetricEvent::ProtocolMetadataLoaded(
                ProtocolMetadataLoaded { operation_id, duration: Duration::of_nanos(0) },
            ),
        ),
{
    broadcast use lemma_identifier_push;

    let text = operation_id.text();
    proof {
        lemma_span_names();
        assert(MetricId::of(operation_id.id()) == operation_id);
    }
    SpanRecord::reported(PROTOCOL_METADATA_LOADED_SPAN).with(
        OPERATION_ID_FIELD,
        FieldValue::Debug(text),
    )
}

/// The length of a duration in nanoseconds, as far as 64 bits hold it.
pub open spec fn short_nanos(d: Duration) -> u64 {
    (d.total() % 0x1_0000_0000_0000_0000) as u64
}

/// The fields of a span that says that the metadata of a scan was read.
pub open spec fn scan_metadata_fields(e: ScanMetadataCompleted) -> Seq<AttributeModel> {
    seq![(REPORT_FIELD@, FieldValueModel::Empty)]
        .push((OPERATION_ID_FIELD@, FieldValueModel::Debug(hyphenated(e.operation_id.id()))))
        .push(("scan_type"@, FieldValueModel::Debug(scan_type_name(e.scan_type))))
        .push(("duration_ns"@, FieldValueModel::U64(short_nanos(e.duration))))
        .push(("num_add_files_seen"@, FieldValueModel::U64(e.num_add_files_seen)))
        .push(("num_active_add_files"@, FieldValueModel::U64(e.num_active_add_files)))
        .push(("active_add_files_bytes"@, FieldValueModel::U64(e.active_add_files_bytes)))
        .push(("num_remove_files_seen"@, FieldValueModel::U64(e.num_remove_files_seen)))
        .push(("num_non_file_actions"@, FieldValueModel::U64(e.num_non_file_actions)))
        .push(("num_predicate_filtered"@, FieldValueModel::U64(e.num_predicate_filtered)))
        .push(("peak_hash_set_size"@, FieldValueModel::U64(e.peak_hash_set_size as u64)))
        .push(("dedup_visitor_time_ms"@, FieldValueModel::U64(e.dedup_visitor_time_ms)))
        .push(("predicate_eval_time_ms"@, FieldValueModel::U64(e.predicate_eval_time_ms)))
}

/// The span that says that the metadata of a scan was read. To be opened when all of it has been
/// read. The event comes back out of the span, unless its duration does not fit in 64 bits.
pub fn emit_scan_metadata_completed(e: &ScanMetadataCompleted) -> (r: SpanRecord)
    ensures
        r.name@ == SCAN_METADATA_COMPLETED_SPAN@,
        r.attributes() == scan_metadata_fields(*e),
        e.duration.total() < 0x1_0000_0000_0000_0000 ==> event_of(r.name@, r.attributes()) == Some(
            MetricEvent::ScanMetadataCompleted(*e),
        ),
{
    let duration_ns: u64 = (e.duration.as_nanos() % 0x1_0000_0000_0000_0000u128) as u64;
    let span = SpanRecord::reported(SCAN_METADATA_COMPLETED_SPAN);
    let span = span.with(OPERATION_ID_FIELD, FieldValue::Debug(e.operation_id.text()));
    let span = span.with("scan_type", FieldValue::Debug(e.scan_type.text()));
    let span = span.with("duration_ns", FieldValue::U64(duration_ns));
    let span = span.with("num_add_files_seen", FieldValue::U64(e.num_add_files_seen));
    let span = span.with("num_active_add_files", FieldValue::U64(e.num_active_add_files));
    let span = span.with("active_add_files_bytes", FieldValue::U64(e.active_add_files_bytes));
    let span = span.with("num_remove_files_seen", FieldValue::U64(e.num_remove_files_seen));
    let span = span.with("num_non_file_actions", FieldValue::U64(e.num_non_file_actions));
    let span = span.with("num_predicate_filtered", FieldValue::U64(e.num_predicate_filtered));
    let span = span.with("peak_hash_set_size", FieldValue::U64(e.peak_hash_set_size as u64));
    let span = span.with("dedup_visitor_time_ms", FieldValue::U64(e.dedup_visitor_time_ms));
    let span = span.with("predicate_eval_time_ms", FieldValue::U64(e.predicate_eval_time_ms));
    proof {
        lemma_span_names();
        if e.duration.total() < 0x1_0000_0000_0000_0000 {
            lemma_scan_metadata_fields(*e);
        }
    }
    span
}

proof fn lemma_span_names()
    ensures
        PROTOCOL_METADATA_LOADED_SPAN@ != LOG_SEGMENT_LOADED_SPAN@,
        JSON_READ_COMPLETED_SPAN@ != LOG_SEGMENT_LOADED_SPAN@,
        JSON_READ_COMPLETED_SPAN@ != PROTOCOL_METADATA_LOADED_SPAN@,
        JSON_READ_COMPLETED_SPAN@ != SNAPSHOT_COMPLETED_SPAN@,
        JSON_READ_COMPLETED_SPAN@ != CRC_READ_COMPLETED_SPAN@,
        PARQUET_READ_COMPLETED_SPAN@ != LOG_SEGMENT_LOADED_SPAN@,
        PARQUET_READ_COMPLETED_SPAN@ != PROTOCOL_METADATA_LOADED_SPAN@,
        PARQUET_READ_COMPLETED_SPAN@ != SNAPSHOT_COMPLETED_SPAN@,
        PARQUET_READ_COMPLETED_SPAN@ != CRC_READ_COMPLETED_SPAN@,
        PARQUET_READ_COMPLETED_SPAN@ != JSON_READ_COMPLETED_SPAN@,
        SCAN_METADATA_COMPLETED_SPAN@ != LOG_SEGMENT_LOADED_SPAN@,
        SCAN_METADATA_COMPLETED_SPAN@ != PROTOCOL_METADATA_LOADED_SPAN@,
        SCAN_METADATA_COMPLETED_SPAN@ != SNAPSHOT_COMPLETED_SPAN@,
        SCAN_METADATA_COMPLETED_SPAN@ != CRC_READ_COMPLETED_SPAN@,
        SCAN_METADATA_COMPLETED_SPAN@ != JSON_READ_COMPLETED_SPAN@,
        SCAN_METADATA_COMPLETED_SPAN@ != PARQUET_READ_COMPLETED_SPAN@,
{
    reveal_strlit("segment.for_snapshot");
    reveal_strlit("segment.read_metadata");
    reveal_strlit("snap.build");
    reveal_strlit("crc_read_completed");
    reveal_strlit("json_read_completed");
    reveal_strlit("parquet_read_completed");
    reveal_strlit("scan.metadata_completed");
    assert(LOG_SEGMENT_LOADED_SPAN@.len() == 20);
    assert(PROTOCOL_METADATA_LOADED_SPAN@.len() == 21);
    assert(SNAPSHOT_COMPLETED_SPAN@.len() == 10);
    assert(CRC_READ_COMPLETED_SPAN@.len() == 18);
    assert(JSON_READ_COMPLETED_SPAN@.len() == 19);
    assert(PARQUET_READ_COMPLETED_SPAN@.len() == 22);
    assert(SCAN_METADATA_COMPLETED_SPAN@.len() == 23);
}

proof fn lemma_file_read_fields(num_files: u64, bytes_read: u64)
    ensures
        number(file_read_fields(num_files, bytes_read), "num_files"@) == num_files,
        number(file_read_fields(num_files, bytes_read), "bytes_read"@) == bytes_read,
{
    broadcast use lemma_number_push;

    reveal_strlit("num_files");
    reveal_strlit("bytes_read");
    assert("num_files"@.len() == 9 && "bytes_read"@.len() == 10);
}

/// The fields of a span for a scan have names of their own.
pub proof fn lemma_scan_field_names()
    ensures
        OPERATION_ID_FIELD@ != "scan_type"@,
        "duration_ns"@ != "num_add_files_seen"@,
        "duration_ns"@ != "num_active_add_files"@,
        "duration_ns"@ != "active_add_files_bytes"@,
        "duration_ns"@ != "num_remove_files_seen"@,
        "duration_ns"@ != "num_non_file_actions"@,
        "duration_ns"@ != "num_predicate_filtered"@,
        "duration_ns"@ != "peak_hash_set_size"@,
        "duration_ns"@ != "dedup_visitor_time_ms"@,
        "duration_ns"@ != "predicate_eval_time_ms"@,
        "num_add_files_seen"@ != "num_active_add_files"@,
        "num_add_files_seen"@ != "active_add_files_bytes"@,
        "num_add_files_seen"@ != "num_remove_files_seen"@,
        "num_add_files_seen"@ != "num_non_file_actions"@,
        "num_add_files_seen"@ != "num_predicate_filtered"@,
        "num_add_files_seen"@ != "peak_hash_set_size"@,
        "num_add_files_seen"@ != "dedup_visitor_time_ms"@,
        "num_add_files_seen"@ != "predicate_eval_time_ms"@,
        "num_active_add_files"@ != "active_add_files_bytes"@,
        "num_active_add_files"@ != "num_remove_files_seen"@,
        "num_active_add_files"@ != "num_non_file_actions"@,
        "num_active_add_files"@ != "num_predicate_filtered"@,
        "num_active_add_files"@ != "peak_hash_set_size"@,
        "num_active_add_files"@ != "dedup_visitor_time_ms"@,
        "num_active_add_files"@ != "predicate_eval_time_ms"@,
        "active_add_files_bytes"@ != "num_remove_files_seen"@,
        "active_add_files_bytes"@ != "num_non_file_actions"@,
        "active_add_files_bytes"@ != "num_predicate_filtered"@,
        "active_add_files_bytes"@ != "peak_hash_set_size"@,
        "active_add_files_bytes"@ != "dedup_visitor_time_ms"@,
        "active_add_files_bytes"@ != "predicate_eval_time_ms"@,
        "num_remove_files_seen"@ != "num_non_file_actions"@,
        "num_remove_files_seen"@ != "num_predicate_filtered"@,
        "num_remove_files_seen"@ != "peak_hash_set_size"@,
        "num_remove_files_seen"@ != "dedup_visitor_time_ms"@,
        "num_remove_files_seen"@ != "predicate_eval_time_ms"@,
        "num_non_file_actions"@ != "num_predicate_filtered"@,
        "num_non_file_actions"@ != "peak_hash_set_size"@,
        "num_non_file_actions"@ != "dedup_visitor_time_ms"@,
        "num_non_file_actions"@ != "predicate_eval_time_ms"@,
        "num_predicate_filtered"@ != "peak_hash_set_size"@,
        "num_predicate_filtered"@ != "dedup_visitor_time_ms"@,
        "num_predicate_filtered"@ != "predicate_eval_time_ms"@,
        "peak_hash_set_size"@ != "dedup_visitor_time_ms"@,
        "peak_hash_set_size"@ != "predicate_eval_time_ms"@,
        "dedup_visitor_time_ms"@ != "predicate_eval_time_ms"@,
{
    reveal_strlit("operation_id");
    reveal_strlit("scan_type");
    reveal_strlit("duration_ns");
    reveal_strlit("num_add_files_seen");
    reveal_strlit("num_active_add_files");
    reveal_strlit("active_add_files_bytes");
    reveal_strlit("num_remove_files_seen");
    reveal_strlit("num_non_file_actions");
    reveal_strlit("num_predicate_filtered");
    reveal_strlit("peak_hash_set_size");
    reveal_strlit("dedup_visitor_time_ms");
    reveal_strlit("predicate_eval_time_ms");
    assert(OPERATION_ID_FIELD@.len() == 12);
    assert("scan_type"@.len() == 9);
    assert("duration_ns"@.len() == 11);
    assert("num_add_files_seen"@.len() == 18);
    assert("num_active_add_files"@.len() == 20);
    assert("active_add_files_bytes"@.len() == 22);
    assert("num_remove_files_seen"@.len() == 21);
    assert("num_non_file_actions"@.len() == 20);
    assert("num_predicate_filtered"@.len() == 22);
    assert("peak_hash_set_size"@.len() == 18);
    assert("dedup_visitor_time_ms"@.len() == 21);
    assert("predicate_eval_time_ms"@.len() == 22);
    assert("num_add_files_seen"@[0] != "peak_hash_set_size"@[0]);
    assert("num_active_add_files"@[4] != "num_non_file_actions"@[4]);
    assert("active_add_files_bytes"@[0] != "num_predicate_filtered"@[0]);
    assert("active_add_files_bytes"@[0] != "predicate_eval_time_ms"@[0]);
    assert("num_remove_files_seen"@[0] != "dedup_visitor_time_ms"@[0]);
    assert("num_predicate_filtered"@[0] != "predicate_eval_time_ms"@[0]);
}

/// What is put on a span for an event is read back from it.
proof fn lemma_scan_metadata_fields(e: ScanMetadataCompleted)
    requires
        e.duration.total() < 0x1_0000_0000_0000_0000,
        e.duration.left_over() < 1_000_000_000,
        parsed_uuid(hyphenated(e.operation_id.id())) == Some(e.operation_id.id()),
    ensures
        scan_metadata_completed_of(scan_metadata_fields(e)) == e,
{
    broadcast use {lemma_number_push, lemma_identifier_push, lemma_text_field_push};

    lemma_scan_field_names();
    law_scan_type_name_is_read_back(e.scan_type);
    law_length_determines_duration(e.duration);
    assert(MetricId::of(e.operation_id.id()) == e.operation_id);
}

} // verus!
