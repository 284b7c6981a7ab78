//! Storage that reports every action.
use bytes::Bytes;
use std::sync::Arc;
use url::Url;
use vstd::prelude::*;

use crate::engine::handlers::{SpanSink, StorageHandler};
use crate::error::DeltaResult;
use crate::metrics::duration::Duration;
use crate::metrics::events::{
    storage_metric_of, MetricEvent, StorageCopyCompleted, StorageListCompleted,
    StorageReadCompleted, COPY_COMPLETED, LIST_COMPLETED, READ_COMPLETED, STORAGE_SPAN,
};
use crate::metrics::fields::{
    lemma_number_push, lemma_string_field_push, AttributeModel, FieldValue, FieldValueModel,
    SpanRecord, REPORT_FIELD,
};
use crate::outside::buffer_content;
use crate::path::FileMeta;
use crate::plans::ir::FileSlice;

verus! {

/// Storage that opens a span for every action that it has done.
pub struct MeteredStorageHandler<S, M> {
    pub inner: Arc<S>,
    pub spans: Arc<M>,
}

// ---------------------------------------------------------------------------
// Spans
// ---------------------------------------------------------------------------
/// The fields of a span that says that an action on storage is done.
pub open spec fn storage_fields(
    name: Seq<char>,
    num_files: u64,
    bytes_read: u64,
    duration_ns: u64,
) -> Seq<AttributeModel> {
    seq![(REPORT_FIELD@, FieldValueModel::Empty)].push(("name"@, FieldValueModel::Str(name))).push(
        ("num_files"@, FieldValueModel::U64(num_files)),
    ).push(("bytes_read"@, FieldValueModel::U64(bytes_read))).push(
        ("duration_ns"@, FieldValueModel::U64(duration_ns)),
    )
}

/// The event for files that were listed.
pub open spec fn listed(num_files: u64, duration_ns: u64) -> MetricEvent {
    MetricEvent::StorageListCompleted(
        StorageListCompleted { duration: Duration::of_nanos(duration_ns), num_files },
    )
}

/// The event for files that were read.
pub open spec fn read(num_files: u64, bytes_read: u64, duration_ns: u64) -> MetricEvent {
    MetricEvent::StorageReadCompleted(
        StorageReadCompleted { duration: Duration::of_nanos(duration_ns), num_files, bytes_read },
    )
}

/// The event for a file that was copied.
pub open spec fn copied(duration_ns: u64) -> MetricEvent {
    MetricEvent::StorageCopyCompleted(
        StorageCopyCompleted { duration: Duration::of_nanos(duration_ns) },
    )
}

/// A span that says that an action on storage is done, and the event that comes back out of it.
pub fn emit_storage_span(name: &str, num_files: u64, bytes_read: u64, duration_ns: u64) -> (r:
    SpanRecord)
    ensures
        r.name@ == STORAGE_SPAN@,
        r.attributes() == storage_fields(name@, num_files, bytes_read, duration_ns),
{
    SpanRecord::reported(STORAGE_SPAN).with("name", FieldValue::Str(name.to_owned())).with(
        "num_files",
        FieldValue::U64(num_files),
    ).with("bytes_read", FieldValue::U64(bytes_read)).with(
        "duration_ns",
        FieldValue::U64(duration_ns),
    )
}

/// What is put on a span for an action on storage is read back from it: the event is one for that
/// action, with the numbers and the duration that were put there.
pub proof fn law_storage_span_is_read_back(num_files: u64, bytes_read: u64, duration_ns: u64)
    ensures
        storage_metric_of(storage_fields(LIST_COMPLETED@, num_files, bytes_read, duration_ns))
            == Some(listed(num_files, duration_ns)),
        storage_metric_of(storage_fields(READ_COMPLETED@, num_files, bytes_read, duration_ns))
            == Some(read(num_files, bytes_read, duration_ns)),
        storage_metric_of(storage_fields(COPY_COMPLETED@, num_files, bytes_read, duration_ns))
            == Some(copied(duration_ns)),
{
    broadcast use {lemma_number_push, lemma_string_field_push};

    reveal_strlit("name");
    reveal_strlit("num_files");
    reveal_strlit("bytes_read");
    reveal_strlit("duration_ns");
    reveal_strlit("list_completed");
    reveal_strlit("read_completed");
    reveal_strlit("copy_completed");
    assert("num_files"@.len() == 9 && "bytes_read"@.len() == 10 && "duration_ns"@.len() == 11);
    assert(LIST_COMPLETED@[0] == 'l' && READ_COMPLETED@[0] == 'r' && COPY_COMPLETED@[0] == 'c');
}

// ---------------------------------------------------------------------------
// Storage
// ---------------------------------------------------------------------------
/// How many of the entries are no failures.
pub open spec fn successes<T>(entries: Seq<DeltaResult<T>>) -> nat
    decreases entries.len(),
{
    if entries.len() == 0 {
        0
    } else {
        successes(entries.drop_last()) + if entries.last() is Ok {
            1nat
        } else {
            0nat
        }
    }
}

fn count_successes<T>(entries: &Vec<DeltaResult<T>>) -> (r: u64)
    ensures
        r == successes(entries@),
{
    let mut n: u64 = 0;
    let mut i: usize = 0;
    while i < entries.len()
        invariant
            i <= entries.len(),
            n == successes(entries@.take(i as int)),
            n <= i,
        decreases entries.len() - i,
    {
        assert(entries@.take(i + 1).drop_last() =~= entries@.take(i as int));
        if entries[i].is_ok() {
            n = n + 1;
        }
        i = i + 1;
    }
    assert(entries@.take(i as int) =~= entries@);
    n
}

/// How many bytes the buffers hold that are no failures.
pub open spec fn total_bytes(buffers: Seq<DeltaResult<Bytes>>) -> nat
    decreases buffers.len(),
{
    if buffers.len() == 0 {
        0
    } else {
        total_bytes(buffers.drop_last()) + match buffers.last() {
            Ok(b) => buffer_content(b).len(),
            Err(_) => 0,
        }
    }
}

/// A number as far as 64 bits hold it.
pub open spec fn capped(n: nat) -> u64 {
    if n <= u64::MAX {
        n as u64
    } else {
        u64::MAX
    }
}

fn count_bytes(buffers: &Vec<DeltaResult<Bytes>>) -> (r: u64)
    ensures
        r == capped(total_bytes(buffers@)),
{
    let mut n: u64 = 0;
    let mut i: usize = 0;
    while i < buffers.len()
        invariant
            i <= buffers.len(),
            n == capped(total_bytes(buffers@.take(i as int))),
        decreases buffers.len() - i,
    {
        assert(buffers@.take(i + 1).drop_last() =~= buffers@.take(i as int));
        if let Ok(b) = &buffers[i] {
            n = n.saturating_add(b.len() as u64);
        }
        i = i + 1;
    }
    assert(buffers@.take(i as int) =~= buffers@);
    n
}

/// The time from `start` to `end`, and nothing where `end` is not the later one.
pub open spec fn elapsed(start: u64, end: u64) -> u64 {
    if start <= end {
        (end - start) as u64
    } else {
        0
    }
}

/// Whether a span that says that an action on storage is done was opened, with the time between two
/// looks at the clock.
pub open spec fn was_reported<M: SpanSink>(
    spans: M,
    name: Seq<char>,
    num_files: u64,
    bytes_read: u64,
) -> bool {
    exists|span: SpanRecord, start: u64, end: u64|
        #[trigger] call_ensures(M::now, (&spans,), start) && #[trigger] call_ensures(
            M::now,
            (&spans,),
            end,
        ) && span.name@ == STORAGE_SPAN@ && span.attributes() == storage_fields(
            name,
            num_files,
            bytes_read,
            elapsed(start, end),
        ) && #[trigger] call_ensures(M::open, (&spans, span), ())
}

impl<S, M> MeteredStorageHandler<S, M> {
    pub fn new(inner: Arc<S>, spans: Arc<M>) -> (r: Self)
        ensures
            r.inner == inner,
            r.spans == spans,
    {
        MeteredStorageHandler { inner, spans }
    }
}

impl<S, M: SpanSink> MeteredStorageHandler<S, M> {
    /// Reports an action that began at `start` and is done now.
    fn report(&self, name: &str, num_files: u64, bytes_read: u64, start: u64)
        requires
            call_ensures(M::now, (&*self.spans,), start),
        ensures
            was_reported(*self.spans, name@, num_files, bytes_read),
    {
        let end: u64 = self.spans.now();
        let span = emit_storage_span(name, num_files, bytes_read, end.saturating_sub(start));
        let ghost opened = span;
        self.spans.open(span);
        assert(opened.attributes() == storage_fields(
            name@,
            num_files,
            bytes_read,
            elapsed(start, end),
        ));
    }
}

impl<S: StorageHandler, M: SpanSink> StorageHandler for MeteredStorageHandler<S, M> {
    /// Lists files, and reports how many.
    fn list_from(&self, path: &Url) -> (r: DeltaResult<Vec<DeltaResult<FileMeta>>>)
        ensures
            call_ensures(S::list_from, (&*self.inner, path), r),
            r matches Ok(files) ==> was_reported(
                *self.spans,
                LIST_COMPLETED@,
                successes(files@) as u64,
                0,
            ),
    {
        let start: u64 = self.spans.now();
        let r = self.inner.list_from(path);
        if let Ok(files) = &r {
            self.report(LIST_COMPLETED, count_successes(files), 0, start);
        }
        r
    }

    /// Reads files, and reports how many, and how many bytes.
    fn read_files(&self, files: Vec<FileSlice>) -> (r: DeltaResult<Vec<DeltaResult<Bytes>>>)
        ensures
            call_ensures(S::read_files, (&*self.inner, files), r),
            r matches Ok(buffers) ==> was_reported(
                *self.spans,
                READ_COMPLETED@,
                successes(buffers@) as u64,
                capped(total_bytes(buffers@)),
            ),
    {
        let start: u64 = self.spans.now();
        let r = self.inner.read_files(files);
        if let Ok(buffers) = &r {
            self.report(READ_COMPLETED, count_successes(buffers), count_bytes(buffers), start);
        }
        r
    }

    /// Copies a file, and reports it.
    fn copy_atomic(&self, source: &Url, destination: &Url) -> (r: DeltaResult<()>)
        ensures
            call_ensures(S::copy_atomic, (&*self.inner, source, destination), r),
            r is Ok ==> was_reported(*self.spans, COPY_COMPLETED@, 0, 0),
    {
        let start: u64 = self.spans.now();
        let r = self.inner.copy_atomic(source, destination);
        if r.is_ok() {
            self.report(COPY_COMPLETED, 0, 0, start);
        }
        r
    }

    fn put(&self, path: &Url, data: Bytes, overwrite: bool) -> (r: DeltaResult<()>)
        ensures
            call_ensures(S::put, (&*self.inner, path, data, overwrite), r),
    {
        self.inner.put(path, data, overwrite)
    }

    fn head(&self, path: &Url) -> (r: DeltaResult<FileMeta>)
        ensures
            call_ensures(S::head, (&*self.inner, path), r),
    {
        self.inner.head(path)
    }

    fn is_metered(&self) -> (r: bool)
        ensures
            r,
    {
        true
    }
}

/// How many entries are no failures: each that is none counts once, and a failure does not. So it is
/// with the bytes of buffers. What 64 bits cannot hold is reported as the most that they can hold.
pub proof fn law_successes_are_counted<T>(
    entries: Seq<DeltaResult<T>>,
    entry: DeltaResult<T>,
    buffers: Seq<DeltaResult<Bytes>>,
    buffer: DeltaResult<Bytes>,
    n: nat,
)
    ensures
        successes(Seq::<DeltaResult<T>>::empty()) == 0,
        successes(entries.push(entry)) == successes(entries) + if entry is Ok {
            1nat
        } else {
            0nat
        },
        successes(entries) <= entries.len(),
        successes(entries) == entries.len() <==> forall|i: int|
            0 <= i < entries.len() ==> (#[trigger] entries[i]) is Ok,
        total_bytes(Seq::empty()) == 0,
        buffer matches Ok(b) ==> total_bytes(buffers.push(buffer)) == total_bytes(buffers)
            + buffer_content(b).len(),
        buffer is Err ==> total_bytes(buffers.push(buffer)) == total_bytes(buffers),
        n <= u64::MAX ==> capped(n) == n,
        n > u64::MAX ==> capped(n) == u64::MAX,
    decreases entries.len(),
{
    assert(entries.push(entry).drop_last() =~= entries);
    assert(buffers.push(buffer).drop_last() =~= buffers);
    if entries.len() > 0 {
        let init = entries.drop_last();
        law_successes_are_counted(init, entry, buffers, buffer, n);
        assert(forall|i: int| 0 <= i < init.len() ==> #[trigger] entries[i] == init[i]);
        assert(entries[entries.len() - 1] == entries.last());
        if forall|i: int| 0 <= i < entries.len() ==> (#[trigger] entries[i]) is Ok {
            assert forall|i: int| 0 <= i < init.len() implies (#[trigger] init[i]) is Ok by {
                assert(entries[i] is Ok);
            }
        }
        if successes(entries) == entries.len() {
            assert forall|i: int| 0 <= i < entries.len() implies (#[trigger] entries[i]) is Ok by {
                if i < init.len() {
                    assert(init[i] is Ok);
                }
            }
        }
    }
}

/// What is reported of an action on storage: a span that is read back as the event for that action,
/// with the numbers that were given, and the time that went by between two looks at the clock. Where
/// the clock went back, that is nothing.
pub proof fn law_actions_are_reported<M: SpanSink>(
    spans: M,
    name: Seq<char>,
    num_files: u64,
    bytes_read: u64,
)
    requires
        was_reported(spans, name, num_files, bytes_read),
    ensures
        exists|span: SpanRecord, start: u64, end: u64|
            #[trigger] call_ensures(M::now, (&spans,), start) && #[trigger] call_ensures(
                M::now,
                (&spans,),
                end,
            ) && #[trigger] call_ensures(M::open, (&spans, span), ()) && span.name@ == "storage"@ && {
                let time = if start <= end {
                    (end - start) as u64
                } else {
                    0u64
                };
                let event = storage_metric_of(span.attributes());
                &&& name == "list_completed"@ ==> event == Some(
                    MetricEvent::StorageListCompleted(
                        StorageListCompleted { duration: Duration::of_nanos(time), num_files },
                    ),
                )
                &&& name == "read_completed"@ ==> event == Some(
                    MetricEvent::StorageReadCompleted(
                        StorageReadCompleted {
                            duration: Duration::of_nanos(time),
                            num_files,
                            bytes_read,
                        },
                    ),
                )
                &&& name == "copy_completed"@ ==> event == Some(
                    MetricEvent::StorageCopyCompleted(
                        StorageCopyCompleted { duration: Duration::of_nanos(time) },
                    ),
                )
            },
{
    let (span, start, end) = choose|span: SpanRecord, start: u64, end: u64|
        #[trigger] call_ensures(M::now, (&spans,), start) && #[trigger] call_ensures(
            M::now,
            (&spans,),
            end,
        ) && span.name@ == STORAGE_SPAN@ && span.attributes() == storage_fields(
            name,
            num_files,
            bytes_read,
            elapsed(start, end),
        ) && #[trigger] call_ensures(M::open, (&spans, span), ());
    law_storage_span_is_read_back(num_files, bytes_read, elapsed(start, end));
    assert(call_ensures(M::now, (&spans,), start) && call_ensures(M::now, (&spans,), end)
        && call_ensures(M::open, (&spans, span), ()));
}

} // verus!
