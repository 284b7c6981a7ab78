//! What a plan asks for.
use bytes::Bytes;
use std::ops::Range;
use url::Url;
use vstd::prelude::*;

use crate::expressions::PredicateRef;
use crate::path::FileMeta;
use crate::schema::SchemaRef;

verus! {

/// A part of a file: the file, and a range of its bytes. Without a range, all of it.
pub type FileSlice = (Url, Option<Range<u64>>);

/// What an executor is asked to do.
#[derive(Debug)]
pub enum Operation {
    /// One action on storage.
    IoOperation(IoOperation),
    /// A query on relational data.
    QueryPlan(QueryPlan),
}

/// One action on storage.
#[derive(Debug)]
pub enum IoOperation {
    /// List the files at a URL, and below it. Yields one entry for each file.
    FileListing { url: Url },
    /// Read parts of files. Yields one buffer for each of them, in order.
    ReadBytes { files: Vec<FileSlice> },
    /// Write a file. Yields nothing. If the file exists, and must not be overwritten, this fails.
    WriteBytes { url: Url, data: Bytes, overwrite: bool },
    /// Describe a file. Yields one entry. If the file does not exist, this fails.
    HeadFile { url: Url },
    /// Copy a file, all of it or nothing. Yields nothing. If the destination exists, this fails.
    AtomicCopy { source: Url, destination: Url },
}

impl IoOperation {
    pub fn file_listing(url: Url) -> (r: Self)
        ensures
            r == (IoOperation::FileListing { url }),
    {
        Self::FileListing { url }
    }

    pub fn read_bytes(files: Vec<FileSlice>) -> (r: Self)
        ensures
            r == (IoOperation::ReadBytes { files }),
    {
        Self::ReadBytes { files }
    }

    pub fn write_bytes(url: Url, data: Bytes, overwrite: bool) -> (r: Self)
        ensures
            r == (IoOperation::WriteBytes { url, data, overwrite }),
    {
        Self::WriteBytes { url, data, overwrite }
    }

    pub fn head_file(url: Url) -> (r: Self)
        ensures
            r == (IoOperation::HeadFile { url }),
    {
        Self::HeadFile { url }
    }

    pub fn atomic_copy(source: Url, destination: Url) -> (r: Self)
        ensures
            r == (IoOperation::AtomicCopy { source, destination }),
    {
        Self::AtomicCopy { source, destination }
    }
}

/// A query on relational data, which is a single node.
pub type QueryPlan = QueryPlanNode;

/// A node of a [`QueryPlan`].
#[derive(Debug)]
pub enum QueryPlanNode {
    /// Read files of JSON lines as columns of the given schema.
    ScanJson {
        files: Vec<FileMeta>,
        physical_schema: SchemaRef,
        predicate: Option<PredicateRef>,
    },
    /// Read Parquet files as columns of the given schema.
    ScanParquet {
        files: Vec<FileMeta>,
        physical_schema: SchemaRef,
        predicate: Option<PredicateRef>,
    },
}

} // verus!
