//! A JSON handler that hands its work to an executor of plans.
use std::sync::Arc;
use url::Url;
use vstd::prelude::*;

use crate::engine::handlers::JsonHandler;
use crate::error::{DeltaResult, Error, ErrorModel};
use crate::expressions::PredicateRef;
use crate::path::FileMeta;
use crate::plans::executor::{PlanExecutor, PlanResult, NO_DATA};
use crate::plans::ir::{Operation, QueryPlanNode};
use crate::plans::query_builder::QueryPlanBuilder;
use crate::schema::SchemaRef;

verus! {

/// A JSON handler that hands its work to an executor of plans.
pub struct PlanBasedJsonHandler<E: PlanExecutor> {
    pub executor: Arc<E>,
}

/// What is handed out of what an executor gave: data as it is, and otherwise an error.
pub open spec fn hands_out_data<D>(
    reply: DeltaResult<PlanResult<D>>,
    r: DeltaResult<Vec<DeltaResult<D>>>,
) -> bool {
    match reply {
        Ok(PlanResult::Data(batches)) => r == Ok::<Vec<DeltaResult<D>>, Error>(batches),
        Ok(_) => r matches Err(e) && e@ == ErrorModel::InternalError(NO_DATA@),
        Err(e) => r == Err::<Vec<DeltaResult<D>>, Error>(e),
    }
}

/// Copies descriptions of files.
fn clone_files(files: &[FileMeta]) -> (r: Vec<FileMeta>)
    ensures
        r@ == files@,
{
    let mut r: Vec<FileMeta> = Vec::new();
    let mut i: usize = 0;
    while i < files.len()
        invariant
            i <= files.len(),
            r@ == files@.take(i as int),
        decreases files.len() - i,
    {
        r.push(files[i].clone());
        i = i + 1;
        assert(r@ =~= files@.take(i as int));
    }
    assert(files@.take(i as int) =~= files@);
    r
}

impl<E: PlanExecutor> PlanBasedJsonHandler<E> {
    pub fn new(plan_executor: Arc<E>) -> (r: Self)
        ensures
            r.executor == plan_executor,
    {
        Self { executor: plan_executor }
    }
}

impl<E: PlanExecutor> JsonHandler for PlanBasedJsonHandler<E> {
    type Data = E::Data;

    /// Not supported.
    fn parse_json(&self, json_strings: Self::Data, output_schema: SchemaRef) -> (r: DeltaResult<
        Self::Data,
    >)
        ensures
            r matches Err(e) && e@ == ErrorModel::Unsupported(
                "PlanBasedJsonHandler does not support parse_json yet"@,
            ),
    {
        Err(Error::Unsupported("PlanBasedJsonHandler does not support parse_json yet".to_owned()))
    }

    /// Has the executor read the files.
    fn read_json_files(
        &self,
        files: &[FileMeta],
        physical_schema: SchemaRef,
        predicate: Option<PredicateRef>,
    ) -> (r: DeltaResult<Vec<DeltaResult<Self::Data>>>)
        ensures
            exists|copy: Vec<FileMeta>, reply: DeltaResult<PlanResult<E::Data>>|
                copy@ == files@ && #[trigger] call_ensures(
                    E::execute_op,
                    (
                        &*self.executor,
                        Operation::QueryPlan(
                            QueryPlanNode::ScanJson { files: copy, physical_schema, predicate },
                        ),
                    ),
                    reply,
                ) && hands_out_data(reply, r),
    {
        let copy = clone_files(files);
        let ghost kept = copy;
        let query = match QueryPlanBuilder::scan_json(copy, physical_schema, predicate).build() {
            Ok(query) => query,
            Err(e) => {
                return Err(e);
            },
        };
        let reply = self.executor.execute_op(Operation::QueryPlan(query));
        let ghost given = reply;
        let r = match reply {
            Ok(result) => result.into_data(),
            Err(e) => Err(e),
        };
        assert(kept@ == files@ && call_ensures(
            E::execute_op,
            (
                &*self.executor,
                Operation::QueryPlan(
                    QueryPlanNode::ScanJson { files: kept, physical_schema, predicate },
                ),
            ),
            given,
        ) && hands_out_data(given, r));
        r
    }

    /// Not supported.
    fn write_json_file(
        &self,
        path: &Url,
        data: Vec<DeltaResult<Self::Data>>,
        overwrite: bool,
    ) -> (r: DeltaResult<()>)
        ensures
            r matches Err(e) && e@ == ErrorModel::Unsupported(
                "PlanBasedJsonHandler does not support write_json_file yet"@,
            ),
    {
        Err(
            Error::Unsupported(
                "PlanBasedJsonHandler does not support write_json_file yet".to_owned(),
            ),
        )
    }
}

/// What comes out of an executor is handed out if it is data, and all of it. Something else is an
/// error, and a failure stays what it is.
pub proof fn law_only_data_is_handed_out<D>(
    reply: DeltaResult<PlanResult<D>>,
    r: DeltaResult<Vec<DeltaResult<D>>>,
)
    requires
        hands_out_data(reply, r),
    ensures
        r matches Ok(batches) ==> reply == Ok::<PlanResult<D>, Error>(PlanResult::Data(batches)),
        reply matches Ok(PlanResult::Data(batches)) ==> (r matches Ok(out) && out == batches),
        reply matches Err(e) ==> (r matches Err(error) && error == e),
        reply is Ok && !(reply->Ok_0 is Data) ==> (r matches Err(error) && error@ is InternalError),
{
}

} // verus!
