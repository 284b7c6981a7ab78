//! What executes plans, and what comes out.
use bytes::Bytes;
use vstd::prelude::*;

use crate::error::{DeltaResult, Error, ErrorModel};
use crate::path::FileMeta;
use crate::plans::ir::Operation;

verus! {

/// What an executor hands out. `D` is the type of a batch of data.
#[derive(Debug)]
pub enum PlanResult<D> {
    /// Nothing.
    Unit,
    /// Descriptions of files.
    FileMeta(Vec<DeltaResult<FileMeta>>),
    /// Buffers.
    Bytes(Vec<DeltaResult<Bytes>>),
    /// Batches of data.
    Data(Vec<DeltaResult<D>>),
}

/// Reported where data was asked for, and something else came out.
pub const NO_DATA: &'static str = "The plan did not produce data";

impl<D> PlanResult<D> {
    /// The batches of data. Fails where something else came out.
    pub fn into_data(self) -> (r: DeltaResult<Vec<DeltaResult<D>>>)
        ensures
            match self {
                PlanResult::Data(batches) => r == Ok::<Vec<DeltaResult<D>>, Error>(batches),
                _ => r matches Err(e) && e@ == ErrorModel::InternalError(NO_DATA@),
            },
    {
        match self {
            PlanResult::Data(batches) => Ok(batches),
            _ => Err(Error::InternalError(NO_DATA.to_owned())),
        }
    }
}

/// Executes plans.
pub trait PlanExecutor {
    /// A batch of data.
    type Data;

    /// Does what `op` asks for.
    fn execute_op(&self, op: Operation) -> DeltaResult<PlanResult<Self::Data>>;
}

} // verus!
