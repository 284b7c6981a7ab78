//! An engine whose storage reports every action.
use std::sync::Arc;
use vstd::prelude::*;

use crate::engine::handlers::{Engine, SpanSink, StorageHandler};
use crate::metrics::metered_storage::MeteredStorageHandler;

verus! {

/// An engine whose storage reports every action. Its other parts are those of the engine inside.
pub struct MeteredDeltaEngine<E: Engine, M: SpanSink> {
    pub inner: Arc<E>,
    pub storage: Arc<MeteredStorageHandler<E::Storage, M>>,
}

/// Whether the actions of the engine's storage are not reported already.
pub open spec fn is_not_metered<E: Engine>(engine: E) -> bool {
    forall|storage: Arc<E::Storage>, metered: bool| #[trigger]
        call_ensures(E::storage_handler, (&engine,), storage) && #[trigger] call_ensures(
            E::Storage::is_metered,
            (&*storage,),
            metered,
        ) ==> !metered
}

impl<E: Engine, M: SpanSink> MeteredDeltaEngine<E, M> {
    /// Wraps `inner`. Its storage must not be metered already, so that every action is reported once.
    pub fn new(inner: Arc<E>, spans: Arc<M>) -> (r: Self)
        requires
            is_not_metered(*inner),
        ensures
            r.inner == inner,
            r.storage.spans == spans,
            call_ensures(E::storage_handler, (&*inner,), r.storage.inner),
            forall|metered: bool| #[trigger]
                call_ensures(E::Storage::is_metered, (&*r.storage.inner,), metered) ==> !metered,
    {
        let storage = Arc::new(MeteredStorageHandler::new(inner.storage_handler(), spans));
        Self { inner, storage }
    }
}

impl<E: Engine, M: SpanSink> Engine for MeteredDeltaEngine<E, M> {
    type Evaluation = E::Evaluation;

    type Storage = MeteredStorageHandler<E::Storage, M>;

    type Json = E::Json;

    type Parquet = E::Parquet;

    fn evaluation_handler(&self) -> (r: Arc<E::Evaluation>)
        ensures
            call_ensures(E::evaluation_handler, (&*self.inner,), r),
    {
        self.inner.evaluation_handler()
    }

    fn storage_handler(&self) -> (r: Arc<MeteredStorageHandler<E::Storage, M>>)
        ensures
            r == self.storage,
    {
        self.storage.clone()
    }

    fn json_handler(&self) -> (r: Arc<E::Json>)
        ensures
            call_ensures(E::json_handler, (&*self.inner,), r),
    {
        self.inner.json_handler()
    }

    fn parquet_handler(&self) -> (r: Arc<E::Parquet>)
        ensures
            call_ensures(E::parquet_handler, (&*self.inner,), r),
    {
        self.inner.parquet_handler()
    }
}

} // verus!
