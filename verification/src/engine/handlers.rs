//! What a connector brings along.
use bytes::Bytes;
use std::sync::Arc;
use url::Url;
use vstd::prelude::*;

use crate::error::DeltaResult;
use crate::expressions::PredicateRef;
use crate::metrics::fields::SpanRecord;
use crate::path::FileMeta;
use crate::plans::ir::FileSlice;
use crate::schema::SchemaRef;

verus! {

/// Reads and writes files.
pub trait StorageHandler {
    /// The files at `path`, and after it.
    fn list_from(&self, path: &Url) -> DeltaResult<Vec<DeltaResult<FileMeta>>>;

    /// The content of each part of a file.
    fn read_files(&self, files: Vec<FileSlice>) -> DeltaResult<Vec<DeltaResult<Bytes>>>;

    /// Copies a file, all of it or nothing.
    fn copy_atomic(&self, source: &Url, destination: &Url) -> DeltaResult<()>;

    /// Writes a file.
    fn put(&self, path: &Url, data: Bytes, overwrite: bool) -> DeltaResult<()>;

    /// Describes a file.
    fn head(&self, path: &Url) -> DeltaResult<FileMeta>;

    /// Whether every action is reported already.
    fn is_metered(&self) -> (r: bool)
        default_ensures
            !r,
    {
        false
    }
}

/// Reads and writes JSON.
pub trait JsonHandler {
    /// A batch of data.
    type Data;

    /// Parses JSON text as columns of `output_schema`.
    fn parse_json(&self, json_strings: Self::Data, output_schema: SchemaRef) -> DeltaResult<
        Self::Data,
    >;

    /// Reads files of JSON lines as columns of `physical_schema`.
    fn read_json_files(
        &self,
        files: &[FileMeta],
        physical_schema: SchemaRef,
        predicate: Option<PredicateRef>,
    ) -> DeltaResult<Vec<DeltaResult<Self::Data>>>;

    /// Writes batches of data as a file of JSON lines.
    fn write_json_file(
        &self,
        path: &Url,
        data: Vec<DeltaResult<Self::Data>>,
        overwrite: bool,
    ) -> DeltaResult<()>;
}

/// Reads Parquet.
pub trait ParquetHandler {
    /// A batch of data.
    type Data;

    /// Reads Parquet files as columns of `physical_schema`.
    fn read_parquet_files(
        &self,
        files: &[FileMeta],
        physical_schema: SchemaRef,
        predicate: Option<PredicateRef>,
    ) -> DeltaResult<Vec<DeltaResult<Self::Data>>>;
}

/// All that a connector brings along.
pub trait Engine {
    /// Evaluates expressions.
    type Evaluation;

    type Storage: StorageHandler;

    type Json: JsonHandler;

    type Parquet: ParquetHandler;

    fn evaluation_handler(&self) -> Arc<Self::Evaluation>;

    fn storage_handler(&self) -> Arc<Self::Storage>;

    fn json_handler(&self) -> Arc<Self::Json>;

    fn parquet_handler(&self) -> Arc<Self::Parquet>;
}

/// Opens spans, and knows the time.
pub trait SpanSink {
    /// Nanoseconds since some moment that stays the same.
    fn now(&self) -> u64;

    /// Opens a span, and closes it at once.
    fn open(&self, span: SpanRecord);
}

} // verus!
