//! An executor of plans that hands each of them to a handler, and waits for it.
use bytes::Bytes;
use vstd::prelude::*;

use crate::engine::json::{hands_out_data, PlanBasedJsonHandler};
use crate::engine::handlers::{JsonHandler, ParquetHandler, StorageHandler};
use crate::error::{DeltaResult, Error};
use crate::expressions::PredicateRef;
use crate::path::FileMeta;
use crate::plans::executor::{PlanExecutor, PlanResult};
use crate::plans::ir::{IoOperation, Operation, QueryPlanNode};
use crate::schema::SchemaRef;

verus! {

/// An executor of plans that hands each of them to a handler.
pub struct SyncPlanExecutor<S, J, P> {
    pub storage: S,
    pub json: J,
    pub parquet: P,
}

/// What is handed out when nothing is to be handed out but success.
pub open spec fn unit_result<D>(reply: DeltaResult<()>) -> DeltaResult<PlanResult<D>> {
    match reply {
        Ok(_) => Ok(PlanResult::Unit),
        Err(e) => Err(e),
    }
}

/// What is handed out of batches of data.
pub open spec fn data_result<D>(reply: DeltaResult<Vec<DeltaResult<D>>>) -> DeltaResult<
    PlanResult<D>,
> {
    match reply {
        Ok(batches) => Ok(PlanResult::Data(batches)),
        Err(e) => Err(e),
    }
}

/// What is handed out of a list of files.
pub open spec fn listing_result<D>(reply: DeltaResult<Vec<DeltaResult<FileMeta>>>) -> DeltaResult<
    PlanResult<D>,
> {
    match reply {
        Ok(files) => Ok(PlanResult::FileMeta(files)),
        Err(e) => Err(e),
    }
}

/// What is handed out of buffers.
pub open spec fn bytes_result<D>(reply: DeltaResult<Vec<DeltaResult<Bytes>>>) -> DeltaResult<
    PlanResult<D>,
> {
    match reply {
        Ok(buffers) => Ok(PlanResult::Bytes(buffers)),
        Err(e) => Err(e),
    }
}

/// Whether `r` is what is handed out of the description of one file.
pub open spec fn hands_out_file<D>(
    reply: DeltaResult<FileMeta>,
    r: DeltaResult<PlanResult<D>>,
) -> bool {
    match reply {
        Ok(file) => r matches Ok(PlanResult::FileMeta(files)) && files@ == seq![
            Ok::<FileMeta, Error>(file),
        ],
        Err(e) => r == Err::<PlanResult<D>, Error>(e),
    }
}

/// Whether `r` comes of asking `storage` for what `op` asks for.
pub open spec fn executes_io<S: StorageHandler, D>(
    storage: S,
    op: IoOperation,
    r: DeltaResult<PlanResult<D>>,
) -> bool {
    match op {
        IoOperation::FileListing { url } => exists|reply: DeltaResult<Vec<DeltaResult<FileMeta>>>|
            #[trigger] call_ensures(S::list_from, (&storage, &url), reply) && r == listing_result::<
                D,
            >(reply),
        IoOperation::ReadBytes { files } => exists|reply: DeltaResult<Vec<DeltaResult<Bytes>>>|
            #[trigger] call_ensures(S::read_files, (&storage, files), reply) && r == bytes_result::<
                D,
            >(reply),
        IoOperation::WriteBytes { url, data, overwrite } => exists|reply: DeltaResult<()>|
            #[trigger] call_ensures(S::put, (&storage, &url, data, overwrite), reply) && r
                == unit_result::<D>(reply),
        IoOperation::HeadFile { url } => exists|reply: DeltaResult<FileMeta>| #[trigger]
            call_ensures(S::head, (&storage, &url), reply) && hands_out_file(reply, r),
        IoOperation::AtomicCopy { source, destination } => exists|reply: DeltaResult<()>|
            #[trigger] call_ensures(S::copy_atomic, (&storage, &source, &destination), reply) && r
                == unit_result::<D>(reply),
    }
}

/// Whether `r` comes of asking the handler for the node's kind of files for what it asks for.
pub open spec fn executes_query<J: JsonHandler, P: ParquetHandler<Data = J::Data>>(
    json: J,
    parquet: P,
    query: QueryPlanNode,
    r: DeltaResult<PlanResult<J::Data>>,
) -> bool {
    match query {
        QueryPlanNode::ScanJson { files, physical_schema, predicate } => exists|
            slice: &[FileMeta],
            reply: DeltaResult<Vec<DeltaResult<J::Data>>>,
        |
            slice@ == files@ && #[trigger] call_ensures(
                J::read_json_files,
                (&json, slice, physical_schema, predicate),
                reply,
            ) && r == data_result(reply),
        QueryPlanNode::ScanParquet { files, physical_schema, predicate } => exists|
            slice: &[FileMeta],
            reply: DeltaResult<Vec<DeltaResult<J::Data>>>,
        |
            slice@ == files@ && #[trigger] call_ensures(
                P::read_parquet_files,
                (&parquet, slice, physical_schema, predicate),
                reply,
            ) && r == data_result(reply),
    }
}

impl<S, J, P> SyncPlanExecutor<S, J, P> {
    /// An executor over the given handlers.
    pub fn new(storage: S, json: J, parquet: P) -> (r: Self)
        ensures
            r.storage == storage,
            r.json == json,
            r.parquet == parquet,
    {
        Self { storage, json, parquet }
    }
}

impl<S: StorageHandler, J: JsonHandler, P: ParquetHandler<Data = J::Data>> SyncPlanExecutor<
    S,
    J,
    P,
> {
    /// Does one action on storage.
    pub fn execute_io(&self, op: IoOperation) -> (r: DeltaResult<PlanResult<J::Data>>)
        ensures
            executes_io(self.storage, op, r),
    {
        match op {
            IoOperation::FileListing { url } => match self.storage.list_from(&url) {
                Ok(files) => Ok(PlanResult::FileMeta(files)),
                Err(e) => Err(e),
            },
            IoOperation::ReadBytes { files } => match self.storage.read_files(files) {
                Ok(buffers) => Ok(PlanResult::Bytes(buffers)),
                Err(e) => Err(e),
            },
            IoOperation::WriteBytes { url, data, overwrite } => match self.storage.put(
                &url,
                data,
                overwrite,
            ) {
                Ok(_) => Ok(PlanResult::Unit),
                Err(e) => Err(e),
            },
            IoOperation::HeadFile { url } => match self.storage.head(&url) {
                Ok(file) => {
                    let mut files: Vec<DeltaResult<FileMeta>> = Vec::new();
                    files.push(Ok(file));
                    assert(files@ =~= seq![Ok::<FileMeta, Error>(file)]);
                    Ok(PlanResult::FileMeta(files))
                },
                Err(e) => Err(e),
            },
            IoOperation::AtomicCopy { source, destination } => match self.storage.copy_atomic(
                &source,
                &destination,
            ) {
                Ok(_) => Ok(PlanResult::Unit),
                Err(e) => Err(e),
            },
        }
    }

    /// Answers a query.
    pub fn execute_query(&self, query: QueryPlanNode) -> (r: DeltaResult<PlanResult<J::Data>>)
        ensures
            executes_query(self.json, self.parquet, query, r),
    {
        match query {
            QueryPlanNode::ScanJson { files, physical_schema, predicate } => {
                match self.json.read_json_files(files.as_slice(), physical_schema, predicate) {
                    Ok(batches) => Ok(PlanResult::Data(batches)),
                    Err(e) => Err(e),
                }
            },
            QueryPlanNode::ScanParquet { files, physical_schema, predicate } => {
                match self.parquet.read_parquet_files(
                    files.as_slice(),
                    physical_schema,
                    predicate,
                ) {
                    Ok(batches) => Ok(PlanResult::Data(batches)),
                    Err(e) => Err(e),
                }
            },
        }
    }
}

impl<
    S: StorageHandler,
    J: JsonHandler,
    P: ParquetHandler<Data = J::Data>,
> PlanExecutor for SyncPlanExecutor<S, J, P> {
    type Data = J::Data;

    fn execute_op(&self, op: Operation) -> (r: DeltaResult<PlanResult<J::Data>>)
        ensures
            match op {
                Operation::IoOperation(io) => executes_io(self.storage, io, r),
                Operation::QueryPlan(query) => executes_query(self.json, self.parquet, query, r),
            },
    {
        match op {
            Operation::IoOperation(io) => self.execute_io(io),
            Operation::QueryPlan(query) => self.execute_query(query),
        }
    }
}

/// Reading JSON files by way of a plan comes to the same as asking the executor's JSON handler for
/// them: what is handed out is what that handler hands out for these files, this schema and this
/// predicate.
pub proof fn law_reading_by_plan_is_reading_directly<
    S: StorageHandler,
    J: JsonHandler,
    P: ParquetHandler<Data = J::Data>,
>(
    handler: PlanBasedJsonHandler<SyncPlanExecutor<S, J, P>>,
    files: &[FileMeta],
    physical_schema: SchemaRef,
    predicate: Option<PredicateRef>,
    r: DeltaResult<Vec<DeltaResult<J::Data>>>,
)
    requires
        call_ensures(
            <PlanBasedJsonHandler<SyncPlanExecutor<S, J, P>> as JsonHandler>::read_json_files,
            (&handler, files, physical_schema, predicate),
            r,
        ),
    ensures
        exists|same: &[FileMeta]|
            same@ == files@ && #[trigger] call_ensures(
                J::read_json_files,
                (&handler.executor.json, same, physical_schema, predicate),
                r,
            ),
{
    let executor = *handler.executor;
    let (copy, reply) = choose|
        copy: Vec<FileMeta>,
        reply: DeltaResult<PlanResult<J::Data>>,
    |
        copy@ == files@ && #[trigger] call_ensures(
            <SyncPlanExecutor<S, J, P> as PlanExecutor>::execute_op,
            (
                &executor,
                Operation::QueryPlan(
                    QueryPlanNode::ScanJson { files: copy, physical_schema, predicate },
                ),
            ),
            reply,
        ) && hands_out_data(reply, r);
    let query = QueryPlanNode::ScanJson { files: copy, physical_schema, predicate };
    assert(executes_query(executor.json, executor.parquet, query, reply));
}

/// What is asked of storage by way of a plan is asked of storage, with the same arguments. What storage
/// replies is what comes out: a failure as it is, and otherwise files, bytes or nothing, as it was
/// asked for.
pub proof fn law_storage_is_asked_for_what_the_plan_asks<S: StorageHandler, D>(
    storage: S,
    op: IoOperation,
    r: DeltaResult<PlanResult<D>>,
)
    requires
        executes_io(storage, op, r),
    ensures
        match op {
            IoOperation::FileListing { url } => exists|
                reply: DeltaResult<Vec<DeltaResult<FileMeta>>>,
            |
                #[trigger] call_ensures(S::list_from, (&storage, &url), reply) && match reply {
                    Ok(files) => r matches Ok(PlanResult::FileMeta(out)) && out == files,
                    Err(e) => r matches Err(error) && error == e,
                },
            IoOperation::ReadBytes { files } => exists|reply: DeltaResult<Vec<DeltaResult<Bytes>>>|
                #[trigger] call_ensures(S::read_files, (&storage, files), reply) && match reply {
                    Ok(buffers) => r matches Ok(PlanResult::Bytes(out)) && out == buffers,
                    Err(e) => r matches Err(error) && error == e,
                },
            IoOperation::WriteBytes { url, data, overwrite } => exists|reply: DeltaResult<()>|
                #[trigger] call_ensures(S::put, (&storage, &url, data, overwrite), reply)
                    && match reply {
                    Ok(_) => r matches Ok(PlanResult::Unit),
                    Err(e) => r matches Err(error) && error == e,
                },
            IoOperation::HeadFile { url } => exists|reply: DeltaResult<FileMeta>| #[trigger]
                call_ensures(S::head, (&storage, &url), reply) && match reply {
                    Ok(file) => r matches Ok(PlanResult::FileMeta(out)) && out@.len() == 1
                        && out@[0] == Ok::<FileMeta, Error>(file),
                    Err(e) => r matches Err(error) && error == e,
                },
            IoOperation::AtomicCopy { source, destination } => exists|reply: DeltaResult<()>|
                #[trigger] call_ensures(S::copy_atomic, (&storage, &source, &destination), reply)
                    && match reply {
                    Ok(_) => r matches Ok(PlanResult::Unit),
                    Err(e) => r matches Err(error) && error == e,
                },
        },
{
}

/// A query for JSON files is answered by the JSON handler, and one for Parquet files by the Parquet
/// handler, each for the same files, schema and predicate. What the handler replies is what comes out.
pub proof fn law_queries_are_answered_by_their_handlers<
    J: JsonHandler,
    P: ParquetHandler<Data = J::Data>,
>(json: J, parquet: P, query: QueryPlanNode, r: DeltaResult<PlanResult<J::Data>>)
    requires
        executes_query(json, parquet, query, r),
    ensures
        match query {
            QueryPlanNode::ScanJson { files, physical_schema, predicate } => exists|
                slice: &[FileMeta],
                reply: DeltaResult<Vec<DeltaResult<J::Data>>>,
            |
                slice@ == files@ && #[trigger] call_ensures(
                    J::read_json_files,
                    (&json, slice, physical_schema, predicate),
                    reply,
                ) && match reply {
                    Ok(batches) => r matches Ok(PlanResult::Data(out)) && out == batches,
                    Err(e) => r matches Err(error) && error == e,
                },
            QueryPlanNode::ScanParquet { files, physical_schema, predicate } => exists|
                slice: &[FileMeta],
                reply: DeltaResult<Vec<DeltaResult<J::Data>>>,
            |
                slice@ == files@ && #[trigger] call_ensures(
                    P::read_parquet_files,
                    (&parquet, slice, physical_schema, predicate),
                    reply,
                ) && match reply {
                    Ok(batches) => r matches Ok(PlanResult::Data(out)) && out == batches,
                    Err(e) => r matches Err(error) && error == e,
                },
        },
{
}

} // verus!
