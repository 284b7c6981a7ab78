//! Building a [`QueryPlan`].
use vstd::prelude::*;

use crate::error::DeltaResult;
use crate::expressions::PredicateRef;
use crate::path::FileMeta;
use crate::plans::ir::{QueryPlan, QueryPlanNode};
use crate::schema::SchemaRef;

verus! {

/// Builds a [`QueryPlan`] of a single node.
#[derive(Debug)]
pub struct QueryPlanBuilder {
    node: QueryPlanNode,
}

impl QueryPlanBuilder {
    /// The plan that is being built.
    pub closed spec fn plan(self) -> QueryPlan {
        self.node
    }

    /// A plan that reads JSON files.
    pub fn scan_json(
        files: Vec<FileMeta>,
        physical_schema: SchemaRef,
        predicate: Option<PredicateRef>,
    ) -> (r: Self)
        ensures
            r.plan() == (QueryPlanNode::ScanJson { files, physical_schema, predicate }),
    {
        Self { node: QueryPlanNode::ScanJson { files, physical_schema, predicate } }
    }

    /// A plan that reads Parquet files.
    pub fn scan_parquet(
        files: Vec<FileMeta>,
        physical_schema: SchemaRef,
        predicate: Option<PredicateRef>,
    ) -> (r: Self)
        ensures
            r.plan() == (QueryPlanNode::ScanParquet { files, physical_schema, predicate }),
    {
        Self { node: QueryPlanNode::ScanParquet { files, physical_schema, predicate } }
    }

    /// The plan.
    pub fn build(self) -> (r: DeltaResult<QueryPlan>)
        ensures
            r == Ok::<QueryPlan, crate::error::Error>(self.plan()),
    {
        Ok(self.node)
    }
}

} // verus!
