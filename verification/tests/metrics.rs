use std::cell::Cell;
use std::sync::{Arc, Mutex};

use buoyant_kernel::engine::handlers::{
    Engine, JsonHandler, ParquetHandler, SpanSink, StorageHandler,
};
use buoyant_kernel::error::{DeltaResult, Error};
use buoyant_kernel::expressions::PredicateRef;
use buoyant_kernel::metrics::duration::Duration;
use buoyant_kernel::metrics::events::{
    emit_json_read_completed, emit_parquet_read_completed, emit_protocol_metadata_loaded,
    emit_scan_metadata_completed, storage_metric_from_attrs, CrcReadCompleted, JsonReadCompleted,
    LogSegmentLoaded, MetricEvent, MetricId, ParquetReadCompleted, ProtocolMetadataLoaded,
    ScanMetadataCompleted, ScanType, SnapshotCompleted, SnapshotFailed, StorageCopyCompleted,
    StorageListCompleted, StorageReadCompleted,
};
use buoyant_kernel::metrics::fields::{Attributes, FieldValue, SpanRecord};
use buoyant_kernel::metrics::metered_engine::MeteredDeltaEngine;
use buoyant_kernel::metrics::metered_storage::MeteredStorageHandler;
use buoyant_kernel::path::FileMeta;
use buoyant_kernel::plans::ir::FileSlice;
use buoyant_kernel::schema::SchemaRef;
use bytes::Bytes;
use url::Url;

fn attrs(fields: Vec<(&str, FieldValue)>) -> Attributes {
    fields
        .into_iter()
        .map(|(n, v)| (n.to_string(), v))
        .collect()
}

fn debug(s: &str) -> FieldValue {
    FieldValue::Debug(s.to_string())
}

fn string(s: &str) -> FieldValue {
    FieldValue::Str(s.to_string())
}

const ID: &str = "936da01f-9abd-4d9d-80c7-02af85c822a8";
const ID_BITS: u128 = 0x936da01f9abd4d9d80c702af85c822a8;

// ===== Identifiers and durations =====

#[test]
fn identifiers_are_random_and_hyphenated() {
    let a = MetricId::new();
    let b = MetricId::default();
    assert_ne!(a, b);
    assert_eq!((a.bits() >> 76) & 0xf, 4);
    assert_eq!((a.bits() >> 62) & 3, 2);
    assert_eq!(MetricId::from_bits(ID_BITS).text(), ID);
    assert_eq!(
        MetricId::from_bits(0).text(),
        "00000000-0000-0000-0000-000000000000"
    );
}

#[test]
fn identifier_is_read_from_fields() {
    let read = |fields| MetricId::from_attrs(&attrs(fields)).bits();
    assert_eq!(read(vec![]), 0);
    assert_eq!(read(vec![("operation_id", debug(ID))]), ID_BITS);
    // Upper case, and without dashes.
    assert_eq!(
        read(vec![(
            "operation_id",
            debug("936DA01F9ABD4D9D80C702AF85C822A8")
        )]),
        ID_BITS
    );
    // A string is quoted, and quotes are not part of an identifier.
    assert_eq!(read(vec![("operation_id", string(ID))]), 0);
    assert_eq!(read(vec![("operation_id", FieldValue::U64(7))]), 0);
    assert_eq!(read(vec![("operation_id", FieldValue::Empty)]), 0);
    assert_eq!(read(vec![("other", debug(ID))]), 0);
    // What is malformed does not replace what is not.
    assert_eq!(
        read(vec![
            ("operation_id", debug(ID)),
            ("operation_id", debug("bogus"))
        ]),
        ID_BITS
    );
}

#[test]
fn durations_are_exact() {
    let d = Duration::from_nanos(1_500_000_007);
    assert_eq!(d.as_nanos(), 1_500_000_007);
    assert_eq!(d.text(), "1.500000007s");
    assert_eq!(Duration::new(2, 0).text(), "2s");
    assert_eq!(Duration::default().as_nanos(), 0);
    assert_eq!(Duration::default().text(), "0ns");
    assert_eq!(
        Duration::new(u64::MAX, 999_999_999).as_nanos(),
        u64::MAX as u128 * 1_000_000_000 + 999_999_999
    );
    assert_eq!(Duration::from_nanos(1_500_000_007), Duration::new(1, 500_000_007));
}

// ===== Events =====

#[test]
fn log_segment_event_goes_through_its_life() {
    let mut e = MetricEvent::from_span(
        "segment.for_snapshot",
        &attrs(vec![
            ("report", FieldValue::Empty),
            ("operation_id", debug(ID)),
        ]),
    )
    .unwrap();
    assert_eq!(e.record_u64("num_commit_files", 3), Ok(()));
    assert_eq!(e.record_u64("num_checkpoint_files", 2), Ok(()));
    assert_eq!(e.record_u64("num_compaction_files", 1), Ok(()));
    assert_eq!(e.record_bool("has_latest_crc_file", true), Ok(()));
    assert_eq!(e.record_u64("bogus", 1), Err("segment.for_snapshot"));
    assert_eq!(e.record_bool("bogus", true), Err("segment.for_snapshot"));
    e.set_duration_if_applicable(Duration::from_nanos(5));
    let expected = LogSegmentLoaded {
        operation_id: MetricId::from_bits(ID_BITS),
        num_commit_files: 3,
        num_checkpoint_files: 2,
        num_compaction_files: 1,
        has_latest_crc_file: true,
        duration: Duration::from_nanos(5),
    };
    assert_eq!(e, MetricEvent::LogSegmentLoaded(expected));
    assert_eq!(
        e.text(),
        "LogSegmentLoaded(id=936da01f-9abd-4d9d-80c7-02af85c822a8, duration=5ns, commits=3, checkpoints=2, compactions=1, has_latest_crc=true)"
    );
}

#[test]
fn snapshot_event_can_fail() {
    let mut e = SnapshotCompleted::from_attrs(&attrs(vec![("operation_id", debug(ID))]));
    assert_eq!(e.record_u64("version", 12), Ok(()));
    assert_eq!(e.record_u64("versions", 13), Err("snap.build"));
    e.set_duration(Duration::from_nanos(1_000));
    assert_eq!(
        e.text(),
        "SnapshotCompleted(id=936da01f-9abd-4d9d-80c7-02af85c822a8, version=12, duration=1\u{b5}s)"
    );
    let failed = e.into_failed();
    assert_eq!(failed.operation_id, MetricId::from_bits(ID_BITS));
    assert_eq!(failed.duration, Duration::from_nanos(1_000));
    let mut event = MetricEvent::SnapshotFailed(failed);
    assert_eq!(event.record_u64("version", 1), Err("snap.build"));
    event.set_duration_if_applicable(Duration::from_nanos(0));
    assert_eq!(
        event.text(),
        "SnapshotFailed(id=936da01f-9abd-4d9d-80c7-02af85c822a8, duration=0ns)"
    );
    let mut direct = SnapshotFailed {
        operation_id: MetricId::from_bits(0),
        duration: Duration::default(),
    };
    direct.set_duration(Duration::new(1, 0));
    assert_eq!(direct.duration, Duration::new(1, 0));
}

#[test]
fn protocol_metadata_and_crc_events() {
    let mut e = MetricEvent::from_span("segment.read_metadata", &attrs(vec![])).unwrap();
    e.set_duration_if_applicable(Duration::new(3, 0));
    assert_eq!(
        e,
        MetricEvent::ProtocolMetadataLoaded(ProtocolMetadataLoaded {
            operation_id: MetricId::from_bits(0),
            duration: Duration::new(3, 0),
        })
    );
    assert_eq!(e.record_u64("x", 1), Err("segment.read_metadata"));
    assert_eq!(e.record_bool("x", true), Err("segment.read_metadata"));
    assert_eq!(
        e.text(),
        "ProtocolMetadataLoaded(id=00000000-0000-0000-0000-000000000000, duration=3s)"
    );

    let mut e = MetricEvent::from_span("crc_read_completed", &attrs(vec![])).unwrap();
    assert_eq!(e.record_u64("bytes_read", 99), Ok(()));
    assert_eq!(e.record_bool("bytes_read", true), Err("crc_read_completed"));
    assert_eq!(
        e,
        MetricEvent::CrcReadCompleted(CrcReadCompleted {
            bytes_read: 99,
            duration: Duration::default(),
        })
    );
    assert_eq!(e.text(), "CrcReadCompleted(duration=0ns, bytes=99)");
}

fn scan_event() -> ScanMetadataCompleted {
    ScanMetadataCompleted {
        operation_id: MetricId::from_bits(ID_BITS),
        scan_type: ScanType::ParallelPhase,
        duration: Duration::from_nanos(1_234_567),
        num_add_files_seen: 1,
        num_active_add_files: 2,
        active_add_files_bytes: 3,
        num_remove_files_seen: 4,
        num_non_file_actions: 5,
        num_predicate_filtered: 6,
        peak_hash_set_size: 7,
        dedup_visitor_time_ms: 8,
        predicate_eval_time_ms: 9,
    }
}

#[test]
fn scan_event_comes_back_out_of_its_span() {
    let span = emit_scan_metadata_completed(&scan_event());
    assert_eq!(span.name, "scan.metadata_completed");
    assert_eq!(span.fields[0], ("report".to_string(), FieldValue::Empty));
    assert_eq!(span.fields[1], ("operation_id".to_string(), debug(ID)));
    assert_eq!(span.fields[2], ("scan_type".to_string(), debug("parallel")));
    assert_eq!(
        span.fields[3],
        ("duration_ns".to_string(), FieldValue::U64(1_234_567))
    );
    assert_eq!(span.fields.len(), 13);
    assert_eq!(
        MetricEvent::from_span(&span.name, &span.fields),
        Some(MetricEvent::ScanMetadataCompleted(scan_event()))
    );
    assert_eq!(
        scan_event().text(),
        "ScanMetadataCompleted(id=936da01f-9abd-4d9d-80c7-02af85c822a8, scan_type=parallel, duration=1.234567ms, add_files_seen=1, active_add_files=2, active_add_files_bytes=3, remove_files_seen=4, non_file_actions=5, predicate_filtered=6, peak_hash_set_size=7, dedup_visitor_time_ms=8, predicate_eval_time_ms=9)"
    );
}

#[test]
fn protocol_metadata_event_comes_back_out_of_its_span() {
    let span = emit_protocol_metadata_loaded(MetricId::from_bits(ID_BITS));
    assert_eq!(span.name, "segment.read_metadata");
    assert_eq!(
        span.fields,
        attrs(vec![
            ("report", FieldValue::Empty),
            ("operation_id", debug(ID)),
        ])
    );
    let mut e = MetricEvent::from_span(&span.name, &span.fields).unwrap();
    e.set_duration_if_applicable(Duration::new(2, 0));
    assert_eq!(
        e,
        MetricEvent::ProtocolMetadataLoaded(ProtocolMetadataLoaded {
            operation_id: MetricId::from_bits(ID_BITS),
            duration: Duration::new(2, 0),
        })
    );
}

#[test]
fn malformed_identifiers_are_named() {
    let fields = attrs(vec![
        ("operation_id", debug("nonsense")),
        ("other", debug("more nonsense")),
        ("operation_id", debug(ID)),
        ("operation_id", FieldValue::U64(7)),
    ]);
    let event = MetricEvent::from_span("segment.read_metadata", &fields).unwrap();
    assert_eq!(event.malformed_ids(&fields), ["nonsense", "7"]);
    // Of a scan, numbers are not looked at.
    let event = MetricEvent::from_span("scan.metadata_completed", &fields).unwrap();
    assert_eq!(event.malformed_ids(&fields), ["nonsense"]);
    // A read has no identifier.
    let event = MetricEvent::from_span("json_read_completed", &fields).unwrap();
    assert!(event.malformed_ids(&fields).is_empty());
}

#[test]
fn long_scan_durations_are_cut_off() {
    let mut e = scan_event();
    e.duration = Duration::new(u64::MAX, 0);
    let span = emit_scan_metadata_completed(&e);
    let nanos = (u64::MAX as u128 * 1_000_000_000 % (1u128 << 64)) as u64;
    assert_eq!(
        span.fields[3],
        ("duration_ns".to_string(), FieldValue::U64(nanos))
    );
    let back = ScanMetadataCompleted::from_attrs(&span.fields);
    assert_eq!(back.duration, Duration::from_nanos(nanos));
}

#[test]
fn scan_event_takes_no_strings() {
    let e = ScanMetadataCompleted::from_attrs(&attrs(vec![
        ("scan_type", string("parallel")),
        ("operation_id", FieldValue::U64(5)),
        ("num_add_files_seen", FieldValue::U64(1)),
        ("num_add_files_seen", FieldValue::U64(2)),
    ]));
    assert_eq!(e.scan_type, ScanType::Full);
    assert_eq!(e.operation_id, MetricId::from_bits(0));
    assert_eq!(e.num_add_files_seen, 2);
}

#[test]
fn scan_types_are_read_back() {
    for t in [
        ScanType::SequentialPhase,
        ScanType::ParallelPhase,
        ScanType::Full,
    ] {
        assert_eq!(ScanType::parse(&t.text()), t);
    }
    assert_eq!(ScanType::SequentialPhase.text(), "sequential");
    assert_eq!(ScanType::parse("unheard of"), ScanType::Full);
}

#[test]
fn file_read_events_come_back_out_of_their_spans() {
    let span = emit_json_read_completed(3, 400);
    assert_eq!(span.name, "json_read_completed");
    assert_eq!(
        span.fields,
        attrs(vec![
            ("report", FieldValue::Empty),
            ("num_files", FieldValue::U64(3)),
            ("bytes_read", FieldValue::U64(400)),
        ])
    );
    let mut e = MetricEvent::from_span(&span.name, &span.fields).unwrap();
    let expected = JsonReadCompleted {
        num_files: 3,
        bytes_read: 400,
    };
    assert_eq!(e, MetricEvent::JsonReadCompleted(expected));
    assert_eq!(e.text(), "JsonReadCompleted(files=3, bytes=400)");
    assert_eq!(e.record_u64("num_files", 1), Err("json_read_completed"));
    e.set_duration_if_applicable(Duration::new(1, 0));
    assert_eq!(e, MetricEvent::JsonReadCompleted(expected));

    let span = emit_parquet_read_completed(5, 600);
    assert_eq!(span.name, "parquet_read_completed");
    let e = MetricEvent::from_span(&span.name, &span.fields).unwrap();
    assert_eq!(
        e,
        MetricEvent::ParquetReadCompleted(ParquetReadCompleted {
            num_files: 5,
            bytes_read: 600
        })
    );
    assert_eq!(e.text(), "ParquetReadCompleted(files=5, bytes=600)");
}

#[test]
fn storage_events_are_told_apart_by_name() {
    let fields = |name: FieldValue| {
        attrs(vec![
            ("name", name),
            ("num_files", FieldValue::U64(2)),
            ("bytes_read", FieldValue::U64(30)),
            ("duration_ns", FieldValue::U64(4)),
        ])
    };
    let duration = Duration::from_nanos(4);
    let list = storage_metric_from_attrs(&fields(string("list_completed"))).unwrap();
    assert_eq!(
        list,
        MetricEvent::StorageListCompleted(StorageListCompleted {
            duration,
            num_files: 2
        })
    );
    assert_eq!(list.text(), "StorageListCompleted(duration=4ns, files=2)");
    let read = storage_metric_from_attrs(&fields(string("read_completed"))).unwrap();
    assert_eq!(
        read,
        MetricEvent::StorageReadCompleted(StorageReadCompleted {
            duration,
            num_files: 2,
            bytes_read: 30
        })
    );
    assert_eq!(
        read.text(),
        "StorageReadCompleted(duration=4ns, files=2, bytes=30)"
    );
    let mut copy = storage_metric_from_attrs(&fields(string("copy_completed"))).unwrap();
    assert_eq!(
        copy,
        MetricEvent::StorageCopyCompleted(StorageCopyCompleted { duration })
    );
    assert_eq!(copy.text(), "StorageCopyCompleted(duration=4ns)");
    assert_eq!(copy.record_u64("num_files", 1), Err("storage"));
    copy.set_duration_if_applicable(Duration::new(9, 0));
    assert_eq!(copy.text(), "StorageCopyCompleted(duration=4ns)");
    assert!(storage_metric_from_attrs(&fields(string("other"))).is_none());
    assert!(storage_metric_from_attrs(&fields(debug("list_completed"))).is_none());
    assert!(storage_metric_from_attrs(&attrs(vec![])).is_none());
    assert!(MetricEvent::from_span("unknown", &attrs(vec![])).is_none());
}

// ===== Metering =====

/// Returns preconfigured items.
#[derive(Debug)]
struct StubStorageHandler {
    list_results: Vec<FileMeta>,
}

impl StorageHandler for StubStorageHandler {
    fn list_from(&self, _path: &Url) -> DeltaResult<Vec<DeltaResult<FileMeta>>> {
        Ok(self.list_results.iter().cloned().map(Ok).collect())
    }
    fn read_files(&self, files: Vec<FileSlice>) -> DeltaResult<Vec<DeltaResult<Bytes>>> {
        let mut buffers: Vec<_> = files
            .iter()
            .map(|_| Ok(Bytes::from_static(b"12345")))
            .collect();
        buffers.push(Err(Error::FileNotFound(String::new())));
        Ok(buffers)
    }
    fn copy_atomic(&self, src: &Url, dest: &Url) -> DeltaResult<()> {
        if src == dest {
            Err(Error::FileAlreadyExists(dest.to_string()))
        } else {
            Ok(())
        }
    }
    fn put(&self, _path: &Url, _data: Bytes, _overwrite: bool) -> DeltaResult<()> {
        Ok(())
    }
    fn head(&self, _path: &Url) -> DeltaResult<FileMeta> {
        Err(Error::FileNotFound(String::new()))
    }
}

struct StubHandler;

impl JsonHandler for StubHandler {
    type Data = ();

    fn parse_json(&self, _: (), _: SchemaRef) -> DeltaResult<()> {
        Ok(())
    }
    fn read_json_files(
        &self,
        _: &[FileMeta],
        _: SchemaRef,
        _: Option<PredicateRef>,
    ) -> DeltaResult<Vec<DeltaResult<()>>> {
        Ok(vec![])
    }
    fn write_json_file(&self, _: &Url, _: Vec<DeltaResult<()>>, _: bool) -> DeltaResult<()> {
        Ok(())
    }
}

impl ParquetHandler for StubHandler {
    type Data = ();

    fn read_parquet_files(
        &self,
        _: &[FileMeta],
        _: SchemaRef,
        _: Option<PredicateRef>,
    ) -> DeltaResult<Vec<DeltaResult<()>>> {
        Ok(vec![])
    }
}

/// An engine whose storage yields two list entries.
struct StubEngine {
    evaluation: Arc<u8>,
    storage: Arc<StubStorageHandler>,
    json: Arc<StubHandler>,
    parquet: Arc<StubHandler>,
}

fn test_file(path: &str) -> FileMeta {
    FileMeta {
        location: Url::parse(path).unwrap(),
        last_modified: 0,
        size: 0,
    }
}

impl StubEngine {
    fn new() -> Self {
        Self {
            evaluation: Arc::new(0),
            storage: Arc::new(StubStorageHandler {
                list_results: vec![
                    test_file("memory:///_delta_log/00000000000000000000.json"),
                    test_file("memory:///_delta_log/00000000000000000001.json"),
                ],
            }),
            json: Arc::new(StubHandler),
            parquet: Arc::new(StubHandler),
        }
    }
}

impl Engine for StubEngine {
    type Evaluation = u8;
    type Storage = StubStorageHandler;
    type Json = StubHandler;
    type Parquet = StubHandler;

    fn evaluation_handler(&self) -> Arc<u8> {
        Arc::clone(&self.evaluation)
    }
    fn storage_handler(&self) -> Arc<StubStorageHandler> {
        Arc::clone(&self.storage)
    }
    fn json_handler(&self) -> Arc<StubHandler> {
        Arc::clone(&self.json)
    }
    fn parquet_handler(&self) -> Arc<StubHandler> {
        Arc::clone(&self.parquet)
    }
}

/// Turns spans into events, and keeps them. Every look at the clock takes ten nanoseconds.
#[derive(Default)]
struct CapturingSink {
    time: Cell<u64>,
    events: Mutex<Vec<MetricEvent>>,
}

impl SpanSink for CapturingSink {
    fn now(&self) -> u64 {
        self.time.set(self.time.get() + 10);
        self.time.get()
    }

    fn open(&self, span: SpanRecord) {
        let event = MetricEvent::from_span(&span.name, &span.fields).unwrap();
        self.events.lock().unwrap().push(event);
    }
}

#[test]
fn storage_handler_emits_metered_spans() {
    let reporter = Arc::new(CapturingSink::default());

    let engine = MeteredDeltaEngine::new(Arc::new(StubEngine::new()), Arc::clone(&reporter));
    let url = Url::parse("memory:///_delta_log/").unwrap();
    let listed = engine.storage_handler().list_from(&url).unwrap();
    assert_eq!(listed.len(), 2);

    let listed = *reporter
        .events
        .lock()
        .unwrap()
        .iter()
        .find(|e| matches!(e, MetricEvent::StorageListCompleted(_)))
        .expect("expected StorageListCompleted via metering wrapper");
    let MetricEvent::StorageListCompleted(e) = listed else {
        unreachable!();
    };
    assert_eq!(e.num_files, 2);
    assert_eq!(e.duration, Duration::from_nanos(10));
}

#[test]
fn other_handlers_pass_through() {
    let inner = Arc::new(StubEngine::new());
    let inner_eval = inner.evaluation_handler();
    let inner_json = inner.json_handler();
    let inner_parquet = inner.parquet_handler();

    let engine = MeteredDeltaEngine::new(inner, Arc::new(CapturingSink::default()));
    assert!(Arc::ptr_eq(&inner_eval, &engine.evaluation_handler()));
    assert!(Arc::ptr_eq(&inner_json, &engine.json_handler()));
    assert!(Arc::ptr_eq(&inner_parquet, &engine.parquet_handler()));
}

#[test]
fn every_successful_storage_action_is_reported_once() {
    let sink = Arc::new(CapturingSink::default());
    let storage = MeteredStorageHandler::new(StubEngine::new().storage, Arc::clone(&sink));
    let a = Url::parse("memory:///a").unwrap();
    let b = Url::parse("memory:///b").unwrap();
    let read = storage
        .read_files(vec![(a.clone(), None), (b.clone(), Some(0..2))])
        .unwrap();
    assert_eq!(read.len(), 3);
    storage.copy_atomic(&a, &b).unwrap();
    assert!(storage.copy_atomic(&a, &a).is_err());
    storage.put(&a, Bytes::new(), true).unwrap();
    assert!(storage.head(&a).is_err());
    assert_eq!(
        *sink.events.lock().unwrap(),
        [
            MetricEvent::StorageReadCompleted(StorageReadCompleted {
                duration: Duration::from_nanos(10),
                num_files: 2,
                bytes_read: 10
            }),
            MetricEvent::StorageCopyCompleted(StorageCopyCompleted {
                duration: Duration::from_nanos(10)
            }),
        ]
    );
}

#[test]
fn metered_storage_says_so() {
    let plain = StubEngine::new().storage;
    assert!(!plain.is_metered());
    let metered = MeteredStorageHandler::new(plain, Arc::new(CapturingSink::default()));
    assert!(metered.is_metered());
}
