use std::cell::RefCell;
use std::sync::Arc;

use buoyant_kernel::crc::{Crc, FileStatsState, LazyCrc};
use buoyant_kernel::error::{DeltaResult, Error};
use buoyant_kernel::hacks::{new_kernel_snapshot, new_kernel_table_configuration};
use buoyant_kernel::log_segment::{
    complete_from_crc, replay_batches, ActionsBatch, LogSegment, ProtocolMetadataReplay,
};
use buoyant_kernel::path::{FileMeta, ParsedLogPath};
use buoyant_kernel::schema::{
    DataType, MetadataValue, PrimitiveType, StructField, StructType,
};
use buoyant_kernel::snapshot::Snapshot;
use buoyant_kernel::table_configuration::{Format, Metadata, Protocol, TableConfiguration};
use tracing::Span;
use url::Url;

// ============================================================================
// Expected values
// ============================================================================

const SCHEMA_STRING: &str = r#"{"type":"struct","fields":[{"name":"id","type":"integer","nullable":true,"metadata":{}},{"name":"val","type":"string","nullable":true,"metadata":{}}]}"#;

fn features(names: &[&str]) -> Option<Vec<String>> {
    Some(names.iter().map(|n| n.to_string()).collect())
}

fn protocol(names: &[&str]) -> Protocol {
    Protocol {
        min_reader_version: 3,
        min_writer_version: 7,
        reader_features: features(names),
        writer_features: features(names),
    }
}

fn protocol_v2() -> Protocol {
    protocol(&["v2Checkpoint"])
}

fn protocol_v2_dv() -> Protocol {
    protocol(&["v2Checkpoint", "deletionVectors"])
}

fn protocol_v2_dv_ntz() -> Protocol {
    protocol(&["v2Checkpoint", "deletionVectors", "timestampNtz"])
}

fn metadata(id: &str) -> Metadata {
    Metadata {
        id: id.to_string(),
        name: None,
        description: None,
        format: Format {
            provider: "parquet".to_string(),
            options: vec![],
        },
        schema_string: SCHEMA_STRING.to_string(),
        partition_columns: vec![],
        created_time: Some(1587968585495),
        configuration: vec![],
    }
}

fn metadata_a() -> Metadata {
    metadata("aaa")
}

fn metadata_b() -> Metadata {
    metadata("bbb")
}

// ============================================================================
// An in-memory log
// ============================================================================

/// What a commit says.
enum Action {
    CommitInfo,
    Protocol(Protocol),
    Metadata(Metadata),
}

fn commit_info() -> Action {
    Action::CommitInfo
}

fn set_protocol(protocol: Protocol) -> Action {
    Action::Protocol(protocol)
}

fn set_metadata(metadata: Metadata) -> Action {
    Action::Metadata(metadata)
}

enum Op {
    V2Checkpoint {
        version: u64,
        protocol: Protocol,
        metadata: Metadata,
    },
    Commit {
        version: u64,
        actions: Vec<Action>,
    },
    Crc {
        version: u64,
        protocol: Protocol,
        metadata: Metadata,
    },
    CorruptCrc {
        version: u64,
    },
}

/// Accumulates the operations on a log, then loads protocol and metadata from it.
struct CrcReadTest {
    ops: Vec<Op>,
}

fn file(version: u64, suffix: &str) -> ParsedLogPath {
    ParsedLogPath {
        location: FileMeta {
            location: Url::parse(&format!("memory:///_delta_log/{version:020}.{suffix}")).unwrap(),
            last_modified: 0,
            size: 0,
        },
        version,
    }
}

impl CrcReadTest {
    fn new() -> Self {
        Self { ops: vec![] }
    }

    fn v2_checkpoint(mut self, version: u64, protocol: Protocol, metadata: Metadata) -> Self {
        self.ops.push(Op::V2Checkpoint {
            version,
            protocol,
            metadata,
        });
        self
    }

    fn commit(mut self, version: u64, actions: impl IntoIterator<Item = Action>) -> Self {
        self.ops.push(Op::Commit {
            version,
            actions: actions.into_iter().collect(),
        });
        self
    }

    fn crc(mut self, version: u64, protocol: Protocol, metadata: Metadata) -> Self {
        self.ops.push(Op::Crc {
            version,
            protocol,
            metadata,
        });
        self
    }

    fn corrupt_crc(mut self, version: u64) -> Self {
        self.ops.push(Op::CorruptCrc { version });
        self
    }

    /// What is wrong with the accumulated operations.
    fn validate_ops(ops: &[Op]) -> Result<(), String> {
        let mut prev: Option<u64> = None;
        for op in ops {
            if let Op::Commit { version, actions } = op {
                // Each commit must contain at least one action.
                if actions.is_empty() {
                    return Err(format!(
                        "commit(v{version}, []): a commit must contain at least one action",
                    ));
                }
                // Commit versions must be strictly increasing (and therefore unique).
                if let Some(p) = prev {
                    if *version <= p {
                        return Err(format!(
                            "commit(v{version}): commits must be added in strictly increasing \
                             version order (previous commit was at v{p})",
                        ));
                    }
                }
                prev = Some(*version);
            }
        }
        Ok(())
    }

    /// The files that describe the latest version: the latest checkpoint and the commits after it.
    fn segment(&self) -> LogSegment {
        if let Err(message) = Self::validate_ops(&self.ops) {
            panic!("{message}");
        }
        let mut checkpoint = None;
        let mut end_version = 0;
        for op in &self.ops {
            match op {
                Op::V2Checkpoint { version, .. } => {
                    checkpoint = checkpoint.max(Some(*version));
                    end_version = end_version.max(*version);
                }
                Op::Commit { version, .. } => end_version = end_version.max(*version),
                _ => {}
            }
        }
        let commits = self
            .ops
            .iter()
            .filter_map(|op| match op {
                Op::Commit { version, .. } if Some(*version) > checkpoint => {
                    Some(file(*version, "json"))
                }
                _ => None,
            })
            .collect();
        LogSegment {
            end_version,
            checkpoint_version: checkpoint,
            ascending_commit_files: commits,
            checkpoint_parts: checkpoint
                .into_iter()
                .map(|v| file(v, "checkpoint.json"))
                .collect(),
        }
    }

    fn batch_of(&self, path: &ParsedLogPath) -> DeltaResult<ActionsBatch> {
        let is_commit = !path.location.location.path().contains("checkpoint");
        for op in &self.ops {
            match op {
                Op::Commit { version, actions } if is_commit && *version == path.version => {
                    return Ok(ActionsBatch {
                        metadata: Ok(actions.iter().find_map(|a| match a {
                            Action::Metadata(metadata) => Some(metadata.clone()),
                            _ => None,
                        })),
                        protocol: Ok(actions.iter().find_map(|a| match a {
                            Action::Protocol(protocol) => Some(protocol.clone()),
                            _ => None,
                        })),
                    })
                }
                Op::V2Checkpoint {
                    version,
                    protocol,
                    metadata,
                } if !is_commit && *version == path.version => {
                    return Ok(ActionsBatch {
                        metadata: Ok(Some(metadata.clone())),
                        protocol: Ok(Some(protocol.clone())),
                    })
                }
                _ => {}
            }
        }
        Err(Error::FileNotFound("no such file".to_string()))
    }

    /// Reads the files of a segment, newest first, each when it is asked for.
    fn read<'a>(
        &'a self,
        segment: &LogSegment,
    ) -> impl Iterator<Item = DeltaResult<ActionsBatch>> + 'a {
        let files: Vec<ParsedLogPath> = segment
            .ascending_commit_files
            .iter()
            .rev()
            .chain(&segment.checkpoint_parts)
            .cloned()
            .collect();
        files.into_iter().map(|f| self.batch_of(&f))
    }

    /// The latest checksum that is not older than the checkpoint, where it can be read.
    fn latest_crc(&self, segment: &LogSegment) -> Option<Arc<Crc>> {
        let version = self
            .ops
            .iter()
            .filter_map(|op| match op {
                Op::Crc { version, .. } | Op::CorruptCrc { version } => Some(*version),
                _ => None,
            })
            .max()?;
        if Some(version) < segment.checkpoint_version {
            return None;
        }
        let mut lazy = LazyCrc::new(Some(file(version, "crc")));
        let read = |path: &ParsedLogPath| -> DeltaResult<Crc> {
            for op in &self.ops {
                if let Op::Crc {
                    version,
                    protocol,
                    metadata,
                } = op
                {
                    if *version == path.version {
                        return Ok(Crc {
                            version: *version,
                            metadata: metadata.clone(),
                            protocol: protocol.clone(),
                            file_stats_state: FileStatsState::Unknown,
                            in_commit_timestamp: None,
                        });
                    }
                }
            }
            Err(Error::Generic("CORRUPT_CRC_DATA".to_string()))
        };
        lazy.get_or_load(read).get().cloned()
    }

    fn assert_p_m(&self, expected_protocol: &Protocol, expected_metadata: &Metadata) {
        let segment = self.segment();
        let crc = self.latest_crc(&segment);
        let (metadata, protocol) = segment
            .read_protocol_metadata(
                |segment, actions| {
                    assert_eq!(*actions, ["protocol".to_string(), "metaData".to_string()]);
                    Ok(self.read(segment))
                },
                crc.as_ref(),
            )
            .unwrap();
        assert_eq!(&protocol, expected_protocol);
        assert_eq!(&metadata, expected_metadata);
    }
}

// ============================================================================
// Tests: Baseline (no CRC)
// ============================================================================

#[test]
fn test_get_p_m_from_delta_no_checkpoint() {
    CrcReadTest::new()
        .commit(
            0,
            [
                commit_info(),
                set_protocol(protocol_v2()),
                set_metadata(metadata_a()),
            ],
        ) // <-- P & M from here
        .commit(1, [commit_info()])
        .commit(2, [commit_info()])
        .assert_p_m(&protocol_v2(), &metadata_a());
}

#[test]
fn test_get_p_and_m_from_different_deltas() {
    CrcReadTest::new()
        .v2_checkpoint(0, protocol_v2(), metadata_a())
        .commit(1, [commit_info(), set_protocol(protocol_v2_dv())]) // <-- P from here
        .commit(2, [commit_info(), set_metadata(metadata_b())]) // <-- M from here
        .assert_p_m(&protocol_v2_dv(), &metadata_b());
}

#[test]
fn test_get_p_m_from_checkpoint() {
    CrcReadTest::new()
        .v2_checkpoint(0, protocol_v2(), metadata_a()) // <-- P & M from here
        .commit(1, [commit_info()])
        .commit(2, [commit_info()])
        .assert_p_m(&protocol_v2(), &metadata_a());
}

#[test]
fn test_get_p_m_from_delta_after_checkpoint() {
    CrcReadTest::new()
        .v2_checkpoint(0, protocol_v2(), metadata_a())
        .commit(
            1,
            [
                commit_info(),
                set_protocol(protocol_v2_dv()),
                set_metadata(metadata_b()),
            ],
        ) // <-- P & M from here
        .commit(2, [commit_info()])
        .assert_p_m(&protocol_v2_dv(), &metadata_b());
}

// ============================================================================
// Tests: CRC at target version
// ============================================================================

#[test]
fn test_get_p_m_from_crc_at_target() {
    CrcReadTest::new()
        .v2_checkpoint(0, protocol_v2(), metadata_a())
        .commit(1, [commit_info()])
        .commit(2, [commit_info()])
        .crc(2, protocol_v2_dv(), metadata_b()) // <-- P & M from here
        .assert_p_m(&protocol_v2_dv(), &metadata_b());
}

#[test]
fn test_crc_preferred_over_delta_at_target() {
    // The P & M for the 002.crc and 002.json should NOT be different in practice.
    // We only do this for this test so we can differentiate which P & M is used.
    CrcReadTest::new()
        .v2_checkpoint(0, protocol_v2(), metadata_a())
        .commit(1, [commit_info()])
        .commit(
            2,
            [
                commit_info(),
                set_protocol(protocol_v2_dv()),
                set_metadata(metadata_a()),
            ],
        )
        .crc(2, protocol_v2_dv_ntz(), metadata_b()) // <-- P & M from here
        .assert_p_m(&protocol_v2_dv_ntz(), &metadata_b());
}

#[test]
fn test_corrupt_crc_at_target_falls_back() {
    CrcReadTest::new()
        .v2_checkpoint(0, protocol_v2(), metadata_a()) // <-- P & M from here
        .commit(1, [commit_info()])
        .commit(2, [commit_info()])
        .corrupt_crc(2) // <-- Corrupt! Fall back to replay.
        .assert_p_m(&protocol_v2(), &metadata_a());
}

#[test]
fn test_crc_wins_over_checkpoint() {
    // The P & M for the 002.crc and the v2 checkpoint should NOT be different in practice.
    // We only do this for this test so we can differentiate which P & M is used.
    CrcReadTest::new()
        .v2_checkpoint(0, protocol_v2(), metadata_a())
        .commit(1, [commit_info()])
        .commit(2, [commit_info()])
        .v2_checkpoint(2, protocol_v2(), metadata_a())
        .crc(2, protocol_v2_dv(), metadata_b()) // <-- P & M from here
        .assert_p_m(&protocol_v2_dv(), &metadata_b());
}

#[test]
fn test_checkpoint_on_corrupt_crc() {
    CrcReadTest::new()
        .v2_checkpoint(0, protocol_v2(), metadata_a())
        .commit(1, [commit_info()])
        .commit(2, [commit_info()])
        .v2_checkpoint(2, protocol_v2(), metadata_a()) // <-- P & M from here
        .corrupt_crc(2) // <-- Corrupt! Fall back to replay.
        .assert_p_m(&protocol_v2(), &metadata_a());
}

// ============================================================================
// Tests: CRC at version < target
// ============================================================================

#[test]
fn test_crc_at_earlier_version() {
    CrcReadTest::new()
        .v2_checkpoint(0, protocol_v2(), metadata_a())
        .commit(1, [commit_info()])
        .crc(1, protocol_v2_dv(), metadata_b()) // <-- P & M from here
        .commit(2, [commit_info()])
        .assert_p_m(&protocol_v2_dv(), &metadata_b());
}

#[test]
fn test_get_p_from_newer_delta_over_older_crc() {
    CrcReadTest::new()
        .v2_checkpoint(0, protocol_v2(), metadata_a())
        .commit(1, [commit_info()])
        .crc(1, protocol_v2_dv(), metadata_b()) // <-- M from here
        .commit(2, [commit_info(), set_protocol(protocol_v2_dv_ntz())]) // <-- P from here
        .assert_p_m(&protocol_v2_dv_ntz(), &metadata_b());
}

#[test]
fn test_get_m_from_newer_delta_over_older_crc() {
    CrcReadTest::new()
        .v2_checkpoint(0, protocol_v2(), metadata_a())
        .commit(1, [commit_info()])
        .crc(1, protocol_v2_dv(), metadata_b()) // <-- P from here
        .commit(2, [commit_info(), set_metadata(metadata_a())]) // <-- M from here
        .assert_p_m(&protocol_v2_dv(), &metadata_a());
}

#[test]
fn test_corrupt_crc_at_non_target_version_falls_back() {
    CrcReadTest::new()
        .v2_checkpoint(0, protocol_v2(), metadata_a()) // <-- P & M from here
        .commit(1, [commit_info()])
        .corrupt_crc(1) // <-- Corrupt! Fall back to replay.
        .commit(2, [commit_info()])
        .assert_p_m(&protocol_v2(), &metadata_a());
}

#[test]
fn test_crc_before_checkpoint_is_ignored() {
    CrcReadTest::new()
        .commit(
            0,
            [
                commit_info(),
                set_protocol(protocol_v2()),
                set_metadata(metadata_a()),
            ],
        )
        .commit(1, [commit_info()])
        .crc(1, protocol_v2_dv_ntz(), metadata_b())
        .v2_checkpoint(2, protocol_v2_dv(), metadata_a()) // <-- P & M from here
        .commit(3, [commit_info()])
        .assert_p_m(&protocol_v2_dv(), &metadata_a());
}

// ============================================================================
// Tests: CrcReadTest framework itself
// ============================================================================

/// A `CrcReadTest` containing one commit per version, in the given order.
fn with_commit_versions(versions: &[u64]) -> CrcReadTest {
    let mut t = CrcReadTest::new();
    for &v in versions {
        t = t.commit(v, [commit_info()]);
    }
    t
}

#[test]
fn test_commit_versions_strictly_increasing_succeeds() {
    with_commit_versions(&[0]).segment();
    with_commit_versions(&[0, 1, 2]).segment();
    with_commit_versions(&[0, 5, 88, 1000]).segment();
}

#[test]
#[should_panic(expected = "strictly increasing")]
fn test_commit_versions_not_increasing_panics() {
    for versions in [&[0, 0][..], &[0, 1, 1], &[5, 3], &[0, 5, 4]] {
        let message = CrcReadTest::validate_ops(&with_commit_versions(versions).ops).unwrap_err();
        assert!(message.contains("strictly increasing"));
    }
    with_commit_versions(&[2, 0]).segment();
}

#[test]
#[should_panic(expected = "at least one action")]
fn test_commit_empty_actions_panics() {
    CrcReadTest::new().commit(0, []).segment();
}

// ============================================================================
// Replay
// ============================================================================

type Batches = std::vec::IntoIter<DeltaResult<ActionsBatch>>;

fn batch(protocol: Option<Protocol>, metadata: Option<Metadata>) -> DeltaResult<ActionsBatch> {
    Ok(ActionsBatch {
        metadata: Ok(metadata),
        protocol: Ok(protocol),
    })
}

#[test]
fn missing_actions_are_reported() {
    let segment = CrcReadTest::new().commit(0, [commit_info()]).segment();
    let load = |protocol: Option<Protocol>, metadata: Option<Metadata>| {
        segment.read_protocol_metadata(|_, _| Ok(vec![batch(protocol, metadata)].into_iter()), None)
    };
    assert!(matches!(
        load(Some(protocol_v2()), None),
        Err(Error::MissingMetadata)
    ));
    assert!(matches!(
        load(None, Some(metadata_a())),
        Err(Error::MissingProtocol)
    ));
    assert!(matches!(
        load(None, None),
        Err(Error::MissingMetadataAndProtocol)
    ));
    let failed = segment.read_protocol_metadata(
        |_, _| -> DeltaResult<Batches> { Err(Error::FileNotFound("log".to_string())) },
        None,
    );
    assert!(matches!(failed, Err(Error::FileNotFound(_))));
}

#[test]
fn replay_stops_when_both_are_found() {
    let mut batches = vec![
        batch(Some(protocol_v2()), None),
        batch(Some(protocol_v2_dv()), Some(metadata_a())),
        Err(Error::Generic("never reached".to_string())),
        batch(None, None),
    ]
    .into_iter();
    let found = replay_batches(&mut batches, None, None).unwrap();
    assert_eq!(found, (Some(metadata_a()), Some(protocol_v2())));
    // The batches that were not needed have not been taken.
    assert_eq!(batches.len(), 2);
    assert!(matches!(batches.next(), Some(Err(Error::Generic(_)))));

    let mut batches = vec![
        batch(Some(protocol_v2()), None),
        Err(Error::Generic("reached".to_string())),
        batch(None, Some(metadata_a())),
    ]
    .into_iter();
    let failed = replay_batches(&mut batches, None, None);
    assert!(matches!(failed, Err(Error::Generic(_))));
    assert_eq!(batches.len(), 1);

    let mut batches = vec![batch(None, None), batch(Some(protocol_v2()), None)].into_iter();
    let found = replay_batches(&mut batches, None, None).unwrap();
    assert_eq!(found, (None, Some(protocol_v2())));
    assert_eq!(batches.len(), 0);
}

#[test]
fn replay_looks_at_one_batch_even_if_all_is_known() {
    let mut batches = vec![batch(Some(protocol_v2_dv()), None), batch(None, None)].into_iter();
    let found = replay_batches(&mut batches, Some(metadata_a()), Some(protocol_v2())).unwrap();
    assert_eq!(found, (Some(metadata_a()), Some(protocol_v2())));
    assert_eq!(batches.len(), 1);
}

#[test]
fn older_commits_are_not_read() {
    let log = CrcReadTest::new()
        .commit(0, [commit_info()])
        .commit(
            1,
            [
                commit_info(),
                set_protocol(protocol_v2()),
                set_metadata(metadata_a()),
            ],
        )
        .commit(2, [commit_info()]);
    let read_versions = RefCell::new(vec![]);
    let found = log
        .segment()
        .read_protocol_metadata(
            |segment, _| {
                let files = segment.ascending_commit_files.clone();
                Ok(files.into_iter().rev().map(|f| {
                    read_versions.borrow_mut().push(f.version);
                    log.batch_of(&f)
                }))
            },
            None,
        )
        .unwrap();
    assert_eq!(found, (metadata_a(), protocol_v2()));
    assert_eq!(*read_versions.borrow(), [2, 1]);
}

#[test]
fn replay_does_not_search_for_what_is_known() {
    let mut batches = vec![Ok(ActionsBatch {
        metadata: Err(Error::Generic("not searched".to_string())),
        protocol: Ok(Some(protocol_v2_dv())),
    })]
    .into_iter();
    let found = replay_batches(&mut batches, Some(metadata_a()), None).unwrap();
    assert_eq!(found, (Some(metadata_a()), Some(protocol_v2_dv())));
}

#[test]
fn replay_can_go_batch_by_batch() {
    let state = ProtocolMetadataReplay {
        metadata: None,
        protocol: None,
    };
    let state = state.add(batch(Some(protocol_v2()), None)).unwrap();
    assert!(!state.is_complete());
    let state = state
        .add(batch(Some(protocol_v2_dv()), Some(metadata_b())))
        .unwrap();
    assert!(state.is_complete());
    assert_eq!(state.metadata, Some(metadata_b()));
    assert_eq!(state.protocol, Some(protocol_v2()));
}

fn crc(version: u64) -> Arc<Crc> {
    Arc::new(Crc {
        version,
        metadata: metadata_b(),
        protocol: protocol_v2_dv(),
        file_stats_state: FileStatsState::Unknown,
        in_commit_timestamp: None,
    })
}

#[test]
fn checksum_at_the_version_needs_no_reading() {
    let segment = CrcReadTest::new().commit(4, [commit_info()]).segment();
    let found = segment
        .read_protocol_metadata_opt(
            |_, _| -> DeltaResult<Batches> { panic!("nothing to read") },
            Some(&crc(4)),
        )
        .unwrap();
    assert_eq!(found, (Some(metadata_b()), Some(protocol_v2_dv())));
}

#[test]
fn earlier_checksum_prunes_the_segment() {
    let segment = CrcReadTest::new()
        .v2_checkpoint(0, protocol_v2(), metadata_a())
        .commit(1, [commit_info()])
        .commit(2, [commit_info()])
        .commit(3, [commit_info()])
        .segment();
    let read_versions = RefCell::new(vec![]);
    let found = segment
        .read_protocol_metadata_opt(
            |s, _| {
                assert!(s.checkpoint_parts.is_empty());
                read_versions
                    .borrow_mut()
                    .extend(s.ascending_commit_files.iter().map(|f| f.version));
                Ok(vec![].into_iter())
            },
            Some(&crc(1)),
        )
        .unwrap();
    assert_eq!(*read_versions.borrow(), [2, 3]);
    assert_eq!(found, (Some(metadata_b()), Some(protocol_v2_dv())));
}

#[test]
fn later_checksum_is_not_used() {
    let segment = CrcReadTest::new().commit(1, [commit_info()]).segment();
    let found = segment
        .read_protocol_metadata_opt(
            |s, _| {
                assert_eq!(s.ascending_commit_files.len(), 1);
                Ok(vec![].into_iter())
            },
            Some(&crc(2)),
        )
        .unwrap();
    assert_eq!(found, (None, None));
}

#[test]
fn pruned_replay_with_checksum_agrees_with_full_replay() {
    let newer = || vec![batch(None, Some(metadata_a())), batch(None, None)];
    let older = || {
        vec![
            batch(None, Some(metadata_b())),
            batch(Some(protocol_v2_dv()), Some(metadata_a())),
        ]
    };
    let found = replay_batches(&mut newer().into_iter(), None, None).unwrap();
    assert_eq!(found, (Some(metadata_a()), None));
    let pruned = complete_from_crc(found, &crc(7));
    let mut all = newer();
    all.extend(older());
    let segment = CrcReadTest::new().commit(9, [commit_info()]).segment();
    let full = segment.replay_for_pm(|_, _| Ok(all.into_iter()), None, None).unwrap();
    assert_eq!(pruned, full);
    assert_eq!(full, (Some(metadata_a()), Some(protocol_v2_dv())));
}

// ============================================================================
// Snapshots with another schema
// ============================================================================

fn configuration(mode: Option<&str>) -> TableConfiguration {
    let mut metadata = metadata_a();
    if let Some(mode) = mode {
        metadata
            .configuration
            .push(("delta.columnMapping.mode".to_string(), mode.to_string()));
    }
    let schema = Arc::new(StructType::new_unchecked(vec![StructField::nullable(
        "id",
        DataType::Primitive(PrimitiveType::Integer),
    )
    .with_metadata(vec![(
        "delta.columnMapping.physicalName".to_string(),
        MetadataValue::String("phys".to_string()),
    )])]));
    TableConfiguration::try_new_inner(
        metadata,
        protocol(&["columnMapping"]),
        Url::parse("memory:///").unwrap(),
        7,
        schema,
    )
    .unwrap()
}

#[test]
fn table_can_be_read_with_another_schema() {
    let long = || DataType::Primitive(PrimitiveType::Long);
    let input = configuration(Some("name"));
    assert_eq!(input.physical_schema.fields()[0].name(), "phys");
    let logical = Arc::new(StructType::new_unchecked(vec![
        StructField::nullable("b", long()).with_metadata(vec![(
            "delta.columnMapping.physicalName".to_string(),
            MetadataValue::String("pb".to_string()),
        )]),
    ]));
    let other = new_kernel_table_configuration(&input, &logical).unwrap();
    assert_eq!(other.logical_schema, logical);
    assert_eq!(other.physical_schema.fields()[0].name(), "pb");
    assert_eq!(other.metadata, input.metadata);
    assert_eq!(other.protocol, input.protocol);
    assert_eq!(other.table_root, input.table_root);
    assert_eq!(other.version, 7);

    let unmapped = Arc::new(StructType::new_unchecked(vec![StructField::nullable(
        "b",
        long(),
    )]));
    assert!(matches!(
        new_kernel_table_configuration(&input, &unmapped),
        Err(Error::Schema(_))
    ));
    let input = configuration(None);
    assert_eq!(input.physical_schema.fields()[0].name(), "id");
    assert!(new_kernel_table_configuration(&input, &unmapped).is_ok());
}

#[test]
fn snapshot_keeps_its_log() {
    let input = Snapshot {
        span: Arc::new(Span::none()),
        log_segment: CrcReadTest::new().commit(1, [commit_info()]).segment(),
        table_configuration: configuration(None),
        crc: Arc::new(LazyCrc::new(None)),
    };
    let snapshot = new_kernel_snapshot(&input, configuration(Some("id")));
    assert_eq!(snapshot.log_segment, input.log_segment);
    assert_eq!(snapshot.table_configuration, configuration(Some("id")));
    assert!(Arc::ptr_eq(&snapshot.span, &input.span));
    assert!(Arc::ptr_eq(&snapshot.crc, &input.crc));
}

#[test]
fn order_of_properties_does_not_matter() {
    let pairs = |entries: &[(&str, &str)]| -> Vec<(String, String)> {
        entries
            .iter()
            .map(|(k, v)| (k.to_string(), v.to_string()))
            .collect()
    };
    let with = |configuration, options| {
        let mut m = metadata_a();
        m.configuration = configuration;
        m.format.options = options;
        m
    };
    let ab = pairs(&[("a", "1"), ("b", "2")]);
    let ba = pairs(&[("b", "2"), ("a", "1")]);
    // Of two entries with one key the later one counts.
    let repeated = pairs(&[("a", "0"), ("b", "2"), ("a", "1")]);
    let other = pairs(&[("a", "1"), ("b", "3")]);
    let fewer = pairs(&[("a", "1")]);
    for same in [&ba, &repeated] {
        assert_eq!(with(ab.clone(), vec![]), with(same.clone(), vec![]));
        assert_eq!(with(vec![], ab.clone()), with(vec![], same.clone()));
    }
    for different in [&other, &fewer] {
        assert_ne!(with(ab.clone(), vec![]), with(different.clone(), vec![]));
        assert_ne!(with(different.clone(), vec![]), with(ab.clone(), vec![]));
        assert_ne!(with(vec![], ab.clone()), with(vec![], different.clone()));
    }
    assert_eq!(
        with(repeated, vec![]).property("a").map(|v| v.as_str()),
        Some("1")
    );
    let mut named = metadata_a();
    named.name = Some("n".to_string());
    assert_ne!(named, metadata_a());
    let mut partitioned = metadata_a();
    partitioned.partition_columns.push("p".to_string());
    assert_ne!(partitioned, metadata_a());
}

#[test]
fn order_of_annotations_does_not_matter() {
    let text = |s: &str| MetadataValue::String(s.to_string());
    let with = |metadata: Vec<(&str, MetadataValue)>| {
        StructField::nullable("c", DataType::Primitive(PrimitiveType::Long)).with_metadata(
            metadata
                .into_iter()
                .map(|(k, v)| (k.to_string(), v))
                .collect(),
        )
    };
    let a = with(vec![("id", MetadataValue::Number(1)), ("name", text("x"))]);
    let b = with(vec![("name", text("x")), ("id", MetadataValue::Number(1))]);
    assert_eq!(a, b);
    assert_ne!(a, with(vec![("id", MetadataValue::Number(1))]));
    assert_ne!(a, with(vec![("name", text("x")), ("id", text("1"))]));
    let nested = |f: &StructField| {
        StructType::new_unchecked(vec![StructField::not_null(
            "s",
            DataType::Array(
                Box::new(DataType::Struct(Box::new(StructType::new_unchecked(vec![
                    f.clone(),
                ])))),
                true,
            ),
        )])
    };
    assert_eq!(nested(&a), nested(&b));
    assert_ne!(
        nested(&a),
        nested(&StructField::nullable(
            "c",
            DataType::Primitive(PrimitiveType::Long)
        ))
    );
}
