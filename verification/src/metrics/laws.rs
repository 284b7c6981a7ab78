//! What holds of metric events.
use vstd::prelude::*;

use crate::metrics::duration::Duration;
use crate::metrics::events::{
    event_of, event_text, lemma_scan_field_names, scan_metadata_fields, span_of, time_text,
    with_bool, with_duration, with_u64, MetricEvent, MetricId, ScanMetadataCompleted, ScanType,
};
use crate::metrics::fields::{
    identifier, lemma_number_push, number, string_field, text_field, AttributeModel,
};
use crate::outside::hyphenated;
use crate::text::decimal_text;

verus! {

// ---------------------------------------------------------------------------
// What events say
// ---------------------------------------------------------------------------
/// The number that an event has under `name`, where it has one.
pub open spec fn number_of(e: MetricEvent, name: Seq<char>) -> Option<u64> {
    match e {
        MetricEvent::LogSegmentLoaded(e) => if name == "num_commit_files"@ {
            Some(e.num_commit_files)
        } else if name == "num_checkpoint_files"@ {
            Some(e.num_checkpoint_files)
        } else if name == "num_compaction_files"@ {
            Some(e.num_compaction_files)
        } else {
            None
        },
        MetricEvent::SnapshotCompleted(e) => if name == "version"@ {
            Some(e.version)
        } else {
            None
        },
        MetricEvent::CrcReadCompleted(e) => if name == "bytes_read"@ {
            Some(e.bytes_read)
        } else {
            None
        },
        MetricEvent::JsonReadCompleted(e) => if name == "num_files"@ {
            Some(e.num_files)
        } else if name == "bytes_read"@ {
            Some(e.bytes_read)
        } else {
            None
        },
        MetricEvent::ParquetReadCompleted(e) => if name == "num_files"@ {
            Some(e.num_files)
        } else if name == "bytes_read"@ {
            Some(e.bytes_read)
        } else {
            None
        },
        MetricEvent::ScanMetadataCompleted(e) => if name == "num_add_files_seen"@ {
            Some(e.num_add_files_seen)
        } else if name == "num_active_add_files"@ {
            Some(e.num_active_add_files)
        } else if name == "active_add_files_bytes"@ {
            Some(e.active_add_files_bytes)
        } else if name == "num_remove_files_seen"@ {
            Some(e.num_remove_files_seen)
        } else if name == "num_non_file_actions"@ {
            Some(e.num_non_file_actions)
        } else if name == "num_predicate_filtered"@ {
            Some(e.num_predicate_filtered)
        } else if name == "dedup_visitor_time_ms"@ {
            Some(e.dedup_visitor_time_ms)
        } else if name == "predicate_eval_time_ms"@ {
            Some(e.predicate_eval_time_ms)
        } else {
            None
        },
        MetricEvent::StorageListCompleted(e) => if name == "num_files"@ {
            Some(e.num_files)
        } else {
            None
        },
        MetricEvent::StorageReadCompleted(e) => if name == "num_files"@ {
            Some(e.num_files)
        } else if name == "bytes_read"@ {
            Some(e.bytes_read)
        } else {
            None
        },
        _ => None,
    }
}

/// The flag that an event has under `name`, where it has one.
pub open spec fn flag_of(e: MetricEvent, name: Seq<char>) -> Option<bool> {
    match e {
        MetricEvent::LogSegmentLoaded(e) if name == "has_latest_crc_file"@ => Some(
            e.has_latest_crc_file,
        ),
        _ => None,
    }
}

/// The operation that an event is about, where it says so.
pub open spec fn id_of(e: MetricEvent) -> Option<MetricId> {
    match e {
        MetricEvent::LogSegmentLoaded(e) => Some(e.operation_id),
        MetricEvent::ProtocolMetadataLoaded(e) => Some(e.operation_id),
        MetricEvent::SnapshotCompleted(e) => Some(e.operation_id),
        MetricEvent::SnapshotFailed(e) => Some(e.operation_id),
        MetricEvent::ScanMetadataCompleted(e) => Some(e.operation_id),
        _ => None,
    }
}

/// How long an event took, where it says so.
pub open spec fn duration_of(e: MetricEvent) -> Option<Duration> {
    match e {
        MetricEvent::LogSegmentLoaded(e) => Some(e.duration),
        MetricEvent::ProtocolMetadataLoaded(e) => Some(e.duration),
        MetricEvent::SnapshotCompleted(e) => Some(e.duration),
        MetricEvent::SnapshotFailed(e) => Some(e.duration),
        MetricEvent::CrcReadCompleted(e) => Some(e.duration),
        MetricEvent::ScanMetadataCompleted(e) => Some(e.duration),
        MetricEvent::StorageListCompleted(e) => Some(e.duration),
        MetricEvent::StorageReadCompleted(e) => Some(e.duration),
        MetricEvent::StorageCopyCompleted(e) => Some(e.duration),
        _ => None,
    }
}

/// Whether two events are of the same kind.
pub open spec fn same_kind(a: MetricEvent, b: MetricEvent) -> bool {
    match a {
        MetricEvent::LogSegmentLoaded(_) => b is LogSegmentLoaded,
        MetricEvent::ProtocolMetadataLoaded(_) => b is ProtocolMetadataLoaded,
        MetricEvent::SnapshotCompleted(_) => b is SnapshotCompleted,
        MetricEvent::SnapshotFailed(_) => b is SnapshotFailed,
        MetricEvent::CrcReadCompleted(_) => b is CrcReadCompleted,
        MetricEvent::JsonReadCompleted(_) => b is JsonReadCompleted,
        MetricEvent::ParquetReadCompleted(_) => b is ParquetReadCompleted,
        MetricEvent::ScanMetadataCompleted(_) => b is ScanMetadataCompleted,
        MetricEvent::StorageListCompleted(_) => b is StorageListCompleted,
        MetricEvent::StorageReadCompleted(_) => b is StorageReadCompleted,
        MetricEvent::StorageCopyCompleted(_) => b is StorageCopyCompleted,
    }
}

/// Whether an event lasts as long as its span: it is there when the span opens, takes in what is
/// recorded, and gets its duration when the span closes.
pub open spec fn lasts_as_its_span(e: MetricEvent) -> bool {
    e is LogSegmentLoaded || e is ProtocolMetadataLoaded || e is SnapshotCompleted
        || e is SnapshotFailed || e is CrcReadCompleted
}

// ---------------------------------------------------------------------------
// Recording
// ---------------------------------------------------------------------------
/// A number that is recorded on an event is the one that it has under that name, and nothing else
/// about it changes. Only events that last as long as their span take one in, and only under a name
/// that they have.
pub proof fn law_recorded_number_is_the_one_reported(
    e: MetricEvent,
    name: Seq<char>,
    value: u64,
    other: Seq<char>,
)
    ensures
        with_u64(e, name, value) is Some <==> lasts_as_its_span(e) && number_of(e, name) is Some,
        with_u64(e, name, value) matches Some(f) ==> {
            &&& same_kind(e, f)
            &&& number_of(f, name) == Some(value)
            &&& other != name ==> number_of(f, other) == number_of(e, other)
            &&& flag_of(f, other) == flag_of(e, other)
            &&& id_of(f) == id_of(e)
            &&& duration_of(f) == duration_of(e)
        },
{
}

/// A flag that is recorded on an event is the one that it has under that name, and nothing else about
/// it changes.
pub proof fn law_recorded_flag_is_the_one_reported(
    e: MetricEvent,
    name: Seq<char>,
    value: bool,
    other: Seq<char>,
)
    ensures
        with_bool(e, name, value) is Some <==> flag_of(e, name) is Some,
        with_bool(e, name, value) matches Some(f) ==> {
            &&& same_kind(e, f)
            &&& flag_of(f, name) == Some(value)
            &&& other != name ==> flag_of(f, other) == flag_of(e, other)
            &&& number_of(f, other) == number_of(e, other)
            &&& id_of(f) == id_of(e)
            &&& duration_of(f) == duration_of(e)
        },
{
}

/// An event that lasts as long as its span has the duration of the span when that closes, and nothing
/// else about it changes. An event of another kind stays as it is.
pub proof fn law_duration_of_the_span_is_reported(e: MetricEvent, d: Duration, name: Seq<char>)
    ensures
        lasts_as_its_span(e) ==> {
            let f = with_duration(e, d);
            &&& same_kind(e, f)
            &&& duration_of(f) == Some(d)
            &&& number_of(f, name) == number_of(e, name)
            &&& flag_of(f, name) == flag_of(e, name)
            &&& id_of(f) == id_of(e)
        },
        !lasts_as_its_span(e) ==> with_duration(e, d) == e,
{
}

// ---------------------------------------------------------------------------
// Spans
// ---------------------------------------------------------------------------
proof fn lemma_span_names_differ()
    ensures
        "segment.for_snapshot"@.len() == 20,
        "segment.read_metadata"@.len() == 21,
        "snap.build"@.len() == 10,
        "crc_read_completed"@.len() == 18,
        "json_read_completed"@.len() == 19,
        "parquet_read_completed"@.len() == 22,
        "scan.metadata_completed"@.len() == 23,
        "storage"@.len() == 7,
{
    reveal_strlit("segment.for_snapshot");
    reveal_strlit("segment.read_metadata");
    reveal_strlit("snap.build");
    reveal_strlit("crc_read_completed");
    reveal_strlit("json_read_completed");
    reveal_strlit("parquet_read_completed");
    reveal_strlit("scan.metadata_completed");
    reveal_strlit("storage");
}

/// Which event a span becomes: that of its name, and none under any other name. A span for storage
/// says itself which action it is for.
pub proof fn law_name_of_the_span_decides_the_event(span: Seq<char>, attrs: Seq<AttributeModel>)
    ensures
        ({
            let e = event_of(span, attrs);
            let action = string_field(attrs, "name"@);
            &&& span == "segment.for_snapshot"@ <==> (e is Some && e->0 is LogSegmentLoaded)
            &&& span == "segment.read_metadata"@ <==> (e is Some && e->0 is ProtocolMetadataLoaded)
            &&& span == "snap.build"@ <==> (e is Some && e->0 is SnapshotCompleted)
            &&& span == "crc_read_completed"@ <==> (e is Some && e->0 is CrcReadCompleted)
            &&& span == "json_read_completed"@ <==> (e is Some && e->0 is JsonReadCompleted)
            &&& span == "parquet_read_completed"@ <==> (e is Some && e->0 is ParquetReadCompleted)
            &&& span == "scan.metadata_completed"@ <==> (e is Some && e->0 is ScanMetadataCompleted)
            &&& span == "storage"@ && action == Some("list_completed"@) <==> (e is Some && e->0 is StorageListCompleted)
            &&& span == "storage"@ && action == Some("read_completed"@) <==> (e is Some && e->0 is StorageReadCompleted)
            &&& span == "storage"@ && action == Some("copy_completed"@) <==> (e is Some && e->0 is StorageCopyCompleted)
            &&& e matches Some(e) ==> !(e is SnapshotFailed) && span_of(e) == span
        }),
{
    lemma_span_names_differ();
    reveal_strlit("list_completed");
    reveal_strlit("read_completed");
    reveal_strlit("copy_completed");
    assert("list_completed"@[0] == 'l' && "read_completed"@[0] == 'r' && "copy_completed"@[0]
        == 'c');
}

/// What the event of a span says at first. Events that last as long as their span begin with nothing,
/// and get their numbers and their duration later. The numbers of the other ones, and their duration,
/// are those that the span carries under these names. The operation is the one that the span names.
pub proof fn law_event_says_what_the_span_says(
    span: Seq<char>,
    attrs: Seq<AttributeModel>,
    name: Seq<char>,
)
    ensures
        event_of(span, attrs) matches Some(e) ==> {
            &&& number_of(e, name) matches Some(n) ==> n == (if lasts_as_its_span(e) {
                0u64
            } else {
                number(attrs, name)
            })
            &&& flag_of(e, name) matches Some(flag) ==> !flag
            &&& duration_of(e) matches Some(d) ==> d == Duration::of_nanos(
                if lasts_as_its_span(e) {
                    0u64
                } else {
                    number(attrs, "duration_ns"@)
                },
            )
            &&& id_of(e) matches Some(id) ==> id == MetricId::of(
                identifier(attrs, "operation_id"@, !(e is ScanMetadataCompleted)),
            )
            &&& e matches MetricEvent::ScanMetadataCompleted(scan) ==> {
                let kind = text_field(attrs, "scan_type"@);
                &&& scan.scan_type is SequentialPhase <==> kind == "sequential"@
                &&& scan.scan_type is ParallelPhase <==> kind == "parallel"@
                &&& number(attrs, "peak_hash_set_size"@) <= usize::MAX ==> scan.peak_hash_set_size
                    == number(attrs, "peak_hash_set_size"@)
            }
        },
{
    lemma_span_names_differ();
    reveal_strlit("sequential");
    reveal_strlit("parallel");
    assert("sequential"@.len() == 10 && "parallel"@.len() == 8);
}

// ---------------------------------------------------------------------------
// Texts
// ---------------------------------------------------------------------------
/// Whether `piece` stands somewhere in `text`.
pub open spec fn stands_in_text(text: Seq<char>, piece: Seq<char>) -> bool {
    exists|i: int|
        0 <= i <= text.len() - piece.len() && #[trigger] text.subrange(i, i + piece.len()) == piece
}

broadcast proof fn lemma_longer_text(text: Seq<char>, more: Seq<char>, piece: Seq<char>)
    requires
        stands_in_text(text, piece),
    ensures
        #[trigger] stands_in_text(text + more, piece),
{
    let i = choose|i: int|
        0 <= i <= text.len() - piece.len() && #[trigger] text.subrange(i, i + piece.len()) == piece;
    assert((text + more).subrange(i, i + piece.len()) =~= text.subrange(i, i + piece.len()));
}

broadcast proof fn lemma_end_of_text(text: Seq<char>, label: Seq<char>, value: Seq<char>)
    ensures
        #[trigger] stands_in_text(text + label + value, label + value),
{
    let whole = text + label + value;
    let i = text.len() as int;
    assert(whole.subrange(i, i + (label + value).len()) =~= label + value);
}

broadcast proof fn lemma_start_of_text(label: Seq<char>, value: Seq<char>)
    ensures
        #[trigger] stands_in_text(label + value, label + value),
{
    let none: Seq<char> = Seq::empty();
    lemma_end_of_text(none, label, value);
    assert(none + label + value =~= label + value);
}

/// The text of an event that lasts as long as its span names its kind and says all that the event
/// says, each under its label.
pub proof fn law_text_of_a_lasting_event_says_it_all(e: MetricEvent)
    ensures
        ({
            let text = event_text(e);
            &&& e matches MetricEvent::LogSegmentLoaded(e) ==> {
                &&& stands_in_text(text, "LogSegmentLoaded(id="@ + hyphenated(e.operation_id.id()))
                &&& stands_in_text(text, ", duration="@ + time_text(e.duration))
                &&& stands_in_text(text, ", commits="@ + decimal_text(e.num_commit_files as nat))
                &&& stands_in_text(
                    text,
                    ", checkpoints="@ + decimal_text(e.num_checkpoint_files as nat),
                )
                &&& stands_in_text(
                    text,
                    ", compactions="@ + decimal_text(e.num_compaction_files as nat),
                )
                &&& e.has_latest_crc_file ==> stands_in_text(text, ", has_latest_crc="@ + "true"@)
                &&& !e.has_latest_crc_file ==> stands_in_text(text, ", has_latest_crc="@ + "false"@)
            }
            &&& e matches MetricEvent::ProtocolMetadataLoaded(e) ==> {
                &&& stands_in_text(
                    text,
                    "ProtocolMetadataLoaded(id="@ + hyphenated(e.operation_id.id()),
                )
                &&& stands_in_text(text, ", duration="@ + time_text(e.duration))
            }
            &&& e matches MetricEvent::SnapshotCompleted(e) ==> {
                &&& stands_in_text(text, "SnapshotCompleted(id="@ + hyphenated(e.operation_id.id()))
                &&& stands_in_text(text, ", version="@ + decimal_text(e.version as nat))
                &&& stands_in_text(text, ", duration="@ + time_text(e.duration))
            }
            &&& e matches MetricEvent::SnapshotFailed(e) ==> {
                &&& stands_in_text(text, "SnapshotFailed(id="@ + hyphenated(e.operation_id.id()))
                &&& stands_in_text(text, ", duration="@ + time_text(e.duration))
            }
            &&& e matches MetricEvent::CrcReadCompleted(e) ==> {
                &&& stands_in_text(text, "CrcReadCompleted(duration="@ + time_text(e.duration))
                &&& stands_in_text(text, ", bytes="@ + decimal_text(e.bytes_read as nat))
            }
        }),
{
    broadcast use {lemma_longer_text, lemma_end_of_text, lemma_start_of_text};

}

/// The text of an event about files names its kind and says all that the event says, each under its
/// label.
pub proof fn law_text_of_a_file_event_says_it_all(e: MetricEvent)
    ensures
        ({
            let text = event_text(e);
            &&& e matches MetricEvent::JsonReadCompleted(e) ==> {
                &&& stands_in_text(
                    text,
                    "JsonReadCompleted(files="@ + decimal_text(e.num_files as nat),
                )
                &&& stands_in_text(text, ", bytes="@ + decimal_text(e.bytes_read as nat))
            }
            &&& e matches MetricEvent::ParquetReadCompleted(e) ==> {
                &&& stands_in_text(
                    text,
                    "ParquetReadCompleted(files="@ + decimal_text(e.num_files as nat),
                )
                &&& stands_in_text(text, ", bytes="@ + decimal_text(e.bytes_read as nat))
            }
            &&& e matches MetricEvent::StorageListCompleted(e) ==> {
                &&& stands_in_text(text, "StorageListCompleted(duration="@ + time_text(e.duration))
                &&& stands_in_text(text, ", files="@ + decimal_text(e.num_files as nat))
            }
            &&& e matches MetricEvent::StorageReadCompleted(e) ==> {
                &&& stands_in_text(text, "StorageReadCompleted(duration="@ + time_text(e.duration))
                &&& stands_in_text(text, ", files="@ + decimal_text(e.num_files as nat))
                &&& stands_in_text(text, ", bytes="@ + decimal_text(e.bytes_read as nat))
            }
            &&& e matches MetricEvent::StorageCopyCompleted(e) ==> stands_in_text(
                text,
                "StorageCopyCompleted(duration="@ + time_text(e.duration),
            )
        }),
{
    broadcast use {lemma_longer_text, lemma_end_of_text, lemma_start_of_text};

}

/// The text of the event of a scan names its kind and says all that the event says, each under its
/// label.
pub proof fn law_text_of_a_scan_event_says_it_all(e: MetricEvent)
    ensures
        e matches MetricEvent::ScanMetadataCompleted(scan) ==> {
            let text = event_text(e);
            &&& stands_in_text(
                text,
                "ScanMetadataCompleted(id="@ + hyphenated(scan.operation_id.id()),
            )
            &&& stands_in_text(
                text,
                ", scan_type="@ + match scan.scan_type {
                    ScanType::SequentialPhase => "sequential"@,
                    ScanType::ParallelPhase => "parallel"@,
                    ScanType::Full => "full"@,
                },
            )
            &&& stands_in_text(text, ", duration="@ + time_text(scan.duration))
            &&& stands_in_text(
                text,
                ", add_files_seen="@ + decimal_text(scan.num_add_files_seen as nat),
            )
            &&& stands_in_text(
                text,
                ", active_add_files="@ + decimal_text(scan.num_active_add_files as nat),
            )
            &&& stands_in_text(
                text,
                ", active_add_files_bytes="@ + decimal_text(scan.active_add_files_bytes as nat),
            )
            &&& stands_in_text(
                text,
                ", remove_files_seen="@ + decimal_text(scan.num_remove_files_seen as nat),
            )
            &&& stands_in_text(
                text,
                ", non_file_actions="@ + decimal_text(scan.num_non_file_actions as nat),
            )
            &&& stands_in_text(
                text,
                ", predicate_filtered="@ + decimal_text(scan.num_predicate_filtered as nat),
            )
            &&& stands_in_text(
                text,
                ", peak_hash_set_size="@ + decimal_text(scan.peak_hash_set_size as nat),
            )
            &&& stands_in_text(
                text,
                ", dedup_visitor_time_ms="@ + decimal_text(scan.dedup_visitor_time_ms as nat),
            )
            &&& stands_in_text(
                text,
                ", predicate_eval_time_ms="@ + decimal_text(scan.predicate_eval_time_ms as nat),
            )
        },
{
    broadcast use {lemma_longer_text, lemma_end_of_text, lemma_start_of_text};

}

/// The duration that a scan reports is its length in nanoseconds. Of a length that 64 bits cannot hold,
/// it is what is left over.
pub proof fn law_long_scans_report_what_is_left_over(e: ScanMetadataCompleted)
    requires
        e.duration.total() >= 0,
    ensures
        ({
            let reported = number(scan_metadata_fields(e), "duration_ns"@);
            &&& e.duration.total() < 0x1_0000_0000_0000_0000 ==> reported == e.duration.total()
            &&& (e.duration.total() - reported) % 0x1_0000_0000_0000_0000 == 0
        }),
{
    broadcast use lemma_number_push;

    lemma_scan_field_names();
}

} // verus!
