use std::cell::Cell;
use std::sync::Arc;

use buoyant_kernel::crc::{Crc, CrcLoadResult, FileStats, FileStatsState, LazyCrc};
use buoyant_kernel::error::{DeltaResult, Error};
use buoyant_kernel::path::{FileMeta, ParsedLogPath};
use buoyant_kernel::table_configuration::{Format, Metadata, Protocol};
use url::Url;

fn crc_with(table_size_bytes: i64, num_files: i64) -> Crc {
    Crc {
        version: 0,
        metadata: Metadata {
            id: String::new(),
            name: None,
            description: None,
            format: Format {
                provider: String::new(),
                options: vec![],
            },
            schema_string: String::new(),
            partition_columns: vec![],
            created_time: None,
            configuration: vec![],
        },
        protocol: Protocol {
            min_reader_version: 1,
            min_writer_version: 1,
            reader_features: None,
            writer_features: None,
        },
        file_stats_state: FileStatsState::Complete(FileStats {
            num_files,
            table_size_bytes,
        }),
        in_commit_timestamp: None,
    }
}

fn test_crc(table_size_bytes: i64) -> Crc {
    crc_with(table_size_bytes, 1)
}

fn crc_path(version: u64) -> ParsedLogPath {
    ParsedLogPath {
        location: FileMeta {
            location: Url::parse(&format!("memory:///_delta_log/{version:020}.crc")).unwrap(),
            last_modified: 0,
            size: 0,
        },
        version,
    }
}

fn no_file(_: &ParsedLogPath) -> DeltaResult<Crc> {
    Err(Error::FileNotFound("no such file".to_string()))
}

// ===== CrcLoadResult Tests =====

#[test]
fn test_crc_load_result_loaded() {
    let crc = crc_with(100, 10);
    let loaded = CrcLoadResult::Loaded(Arc::new(crc));
    let stats = loaded.get().unwrap().file_stats().unwrap();
    assert_eq!(stats.table_size_bytes(), 100);
    assert_eq!(stats.num_files(), 10);
}

#[test]
fn test_crc_load_result_does_not_exist() {
    assert!(CrcLoadResult::DoesNotExist.get().is_none());
}

#[test]
fn test_crc_load_result_corrupt() {
    assert!(CrcLoadResult::CorruptOrFailed.get().is_none());
}

#[test]
fn load_results_can_be_cloned() {
    let loaded = CrcLoadResult::Loaded(Arc::new(crc_with(100, 10)));
    let copy = loaded.clone();
    assert!(Arc::ptr_eq(copy.get().unwrap(), loaded.get().unwrap()));
    assert!(matches!(
        CrcLoadResult::DoesNotExist.clone(),
        CrcLoadResult::DoesNotExist
    ));
    assert!(matches!(
        CrcLoadResult::CorruptOrFailed.clone(),
        CrcLoadResult::CorruptOrFailed
    ));
}

// ===== LazyCrc Tests =====

#[test]
fn test_lazy_crc_no_file() {
    let mut lazy = LazyCrc::new(None);
    assert!(!lazy.is_loaded());
    assert_eq!(lazy.crc_version(), None);

    let result = lazy.get_or_load(no_file);
    assert!(matches!(result, CrcLoadResult::DoesNotExist));
    assert!(result.get().is_none());
    assert!(lazy.is_loaded());
}

#[test]
fn test_lazy_crc_missing_file() {
    let mut lazy = LazyCrc::new(Some(crc_path(5)));
    assert!(!lazy.is_loaded());
    assert_eq!(lazy.crc_version(), Some(5));

    let result = lazy.get_or_load(no_file);
    assert!(matches!(result, CrcLoadResult::CorruptOrFailed));
    assert!(result.get().is_none());
    assert!(lazy.is_loaded());
}

#[test]
fn lazy_crc_reads_its_file_once() {
    let reads = Cell::new(0);
    let mut lazy = LazyCrc::new(Some(crc_path(0)));
    let result = lazy.get_or_load(|path| {
        reads.set(reads.get() + 1);
        assert_eq!(path.version, 0);
        Ok(test_crc(5259))
    });
    assert_eq!(
        result.get().unwrap().file_stats().unwrap().table_size_bytes(),
        5259
    );
    assert!(lazy.is_loaded());
    let again = lazy.get_or_load(|_| panic!("it is not read again"));
    assert_eq!(
        again.get().unwrap().file_stats().unwrap().table_size_bytes(),
        5259
    );
    assert_eq!(reads.get(), 1);
}

#[test]
fn lazy_crc_is_loaded_at_its_version_only() {
    let mut lazy = LazyCrc::new(Some(crc_path(3)));
    assert!(lazy
        .get_or_load_if_at_version(|_| panic!("a file of another version is not read"), 4)
        .is_none());
    assert!(!lazy.is_loaded());
    let crc = lazy
        .get_or_load_if_at_version(|_| Ok(test_crc(7)), 3)
        .unwrap();
    assert_eq!(crc.file_stats().unwrap().table_size_bytes(), 7);
    assert!(lazy.is_loaded());
    assert!(lazy.get_if_loaded_at_version(3).is_some());
}

#[test]
fn failed_load_is_kept() {
    let mut lazy = LazyCrc::new(Some(crc_path(3)));
    assert!(lazy.get_or_load_if_at_version(no_file, 3).is_none());
    assert!(lazy.is_loaded());
    assert!(lazy
        .get_or_load_if_at_version(|_| Ok(test_crc(7)), 3)
        .is_none());
}

// ===== Precomputed LazyCrc Tests =====

#[test]
fn test_lazy_crc_precomputed() {
    let crc = test_crc(42);
    let lazy = LazyCrc::new_precomputed(crc, 5);

    assert!(lazy.is_loaded());
    assert_eq!(lazy.crc_version(), Some(5));

    // get_if_loaded_at_version should return the CRC at the correct version
    let loaded = lazy.get_if_loaded_at_version(5);
    assert_eq!(loaded.unwrap().file_stats().unwrap().table_size_bytes(), 42);

    // Wrong version should return None
    assert!(lazy.get_if_loaded_at_version(4).is_none());
    assert!(lazy.get_if_loaded_at_version(6).is_none());
}

#[test]
fn test_lazy_crc_precomputed_version_takes_priority() {
    let crc = test_crc(100);
    let lazy = LazyCrc::new_precomputed(crc, 3);
    assert_eq!(lazy.crc_version(), Some(3));
}

#[test]
fn test_get_if_loaded_at_version_not_loaded() {
    // CRC file exists but not yet loaded -> should return None (no I/O)
    let lazy = LazyCrc::new(Some(crc_path(5)));
    assert!(!lazy.is_loaded());
    assert!(lazy.get_if_loaded_at_version(5).is_none());
}

#[test]
fn test_get_if_loaded_at_version_wrong_version() {
    let crc = test_crc(100);
    let lazy = LazyCrc::new_precomputed(crc, 5);
    assert!(lazy.get_if_loaded_at_version(3).is_none());
}

#[test]
fn test_get_if_loaded_at_version_no_crc() {
    let lazy = LazyCrc::new(None);
    assert!(lazy.get_if_loaded_at_version(0).is_none());
}

#[test]
fn unknown_file_stats_are_absent() {
    let mut crc = test_crc(1);
    crc.file_stats_state = FileStatsState::Unknown;
    assert!(crc.file_stats().is_none());
}
