# buoyant_kernel

Parts of a library for reading Delta tables, with their behaviour stated in contracts and proved with
Verus.

* `src/scan`: what a scan reads of files, how that becomes its rows, and which files and checkpoint
  rows its predicate skips.
* `src/log_segment.rs`, `src/crc.rs`: protocol and metadata of a table from its log and from
  checksum files.
* `src/plans`, `src/engine`: declarative plans, and what executes them.
* `src/metrics`: spans, metric events, and storage that reports what it does.
* `src/schema.rs`, `src/properties.rs`, `src/expressions.rs`, `src/comparisons.rs`,
  `src/semantics.rs`, `src/table_configuration.rs`: the data that all of this works on, when it is
  equal, and what predicates mean.
* `src/outside.rs`: what is relied on in `url`, `bytes`, `uuid`, `tracing` and the standard library.
* `app`: the library in a running process. Spans go to `tracing`, events to reporters, and checksums
  are shared between threads.
* `tests`: the library as its callers see it.

Each type has a view, whose name ends in `Model`, over which contracts speak. What holds across
functions stands in public proof functions whose names begin with `law_`.
