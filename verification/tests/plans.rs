use std::collections::HashMap;
use std::sync::Arc;

use buoyant_kernel::engine::handlers::{JsonHandler, ParquetHandler, StorageHandler};
use buoyant_kernel::engine::json::PlanBasedJsonHandler;
use buoyant_kernel::engine::sync_plan::SyncPlanExecutor;
use buoyant_kernel::error::{DeltaResult, Error};
use buoyant_kernel::expressions::PredicateRef;
use buoyant_kernel::path::FileMeta;
use buoyant_kernel::plans::executor::{PlanExecutor, PlanResult};
use buoyant_kernel::plans::ir::{FileSlice, IoOperation, Operation, QueryPlanNode};
use buoyant_kernel::plans::query_builder::QueryPlanBuilder;
use buoyant_kernel::schema::{
    DataType, MetadataColumnSpec, PrimitiveType, SchemaRef, StructField, StructType,
};
use bytes::Bytes;
use serde_json::Value;
use url::Url;

const LONG: DataType = DataType::Primitive(PrimitiveType::Long);
const INTEGER: DataType = DataType::Primitive(PrimitiveType::Integer);

fn test_schema() -> SchemaRef {
    Arc::new(StructType::new_unchecked(vec![StructField::not_null(
        "id", LONG,
    )]))
}

fn test_file(path: &str) -> FileMeta {
    FileMeta {
        location: Url::parse(path).unwrap(),
        last_modified: 0,
        size: 0,
    }
}

/// Rows of values, in the order of the schema's fields.
#[derive(Debug, PartialEq)]
struct Rows(Vec<Vec<Value>>);

/// Reads JSON lines out of memory.
#[derive(Clone)]
struct MemoryHandler {
    files: Arc<HashMap<String, String>>,
}

impl MemoryHandler {
    fn new(files: &[(&str, &str)]) -> Self {
        MemoryHandler {
            files: Arc::new(
                files
                    .iter()
                    .map(|(k, v)| (k.to_string(), v.to_string()))
                    .collect(),
            ),
        }
    }

    fn read(&self, files: &[FileMeta], schema: &StructType) -> DeltaResult<Vec<DeltaResult<Rows>>> {
        let mut batches = vec![];
        for file in files {
            let Some(content) = self.files.get(file.location.as_str()) else {
                return Err(Error::FileNotFound(file.location.to_string()));
            };
            let mut rows = vec![];
            for line in content.lines() {
                let Ok(value) = serde_json::from_str::<Value>(line) else {
                    return Err(Error::Generic(line.to_string()));
                };
                let row = schema.fields().iter().map(|f| {
                    if f.get_metadata_column_spec() == Some(MetadataColumnSpec::FilePath) {
                        Value::String(file.location.to_string())
                    } else {
                        value[f.name().as_str()].clone()
                    }
                });
                rows.push(row.collect());
            }
            batches.push(Ok(Rows(rows)));
        }
        Ok(batches)
    }
}

impl JsonHandler for MemoryHandler {
    type Data = Rows;

    fn parse_json(&self, json_strings: Rows, _: SchemaRef) -> DeltaResult<Rows> {
        Ok(json_strings)
    }

    fn read_json_files(
        &self,
        files: &[FileMeta],
        physical_schema: SchemaRef,
        _: Option<PredicateRef>,
    ) -> DeltaResult<Vec<DeltaResult<Rows>>> {
        self.read(files, &physical_schema)
    }

    fn write_json_file(&self, _: &Url, _: Vec<DeltaResult<Rows>>, _: bool) -> DeltaResult<()> {
        Ok(())
    }
}

/// Hands out one empty batch for each file.
struct EmptyParquet;

impl ParquetHandler for EmptyParquet {
    type Data = Rows;

    fn read_parquet_files(
        &self,
        files: &[FileMeta],
        _: SchemaRef,
        _: Option<PredicateRef>,
    ) -> DeltaResult<Vec<DeltaResult<Rows>>> {
        Ok(files.iter().map(|_| Ok(Rows(vec![]))).collect())
    }
}

impl StorageHandler for MemoryHandler {
    fn list_from(&self, path: &Url) -> DeltaResult<Vec<DeltaResult<FileMeta>>> {
        let mut names: Vec<_> = self
            .files
            .keys()
            .filter(|k| k.starts_with(path.as_str()))
            .collect();
        names.sort();
        Ok(names.into_iter().map(|n| Ok(test_file(n))).collect())
    }

    fn read_files(&self, files: Vec<FileSlice>) -> DeltaResult<Vec<DeltaResult<Bytes>>> {
        Ok(files
            .into_iter()
            .map(|(url, range)| match self.files.get(url.as_str()) {
                Some(content) => {
                    let bytes = Bytes::copy_from_slice(content.as_bytes());
                    Ok(match range {
                        Some(r) => bytes.slice(r.start as usize..r.end as usize),
                        None => bytes,
                    })
                }
                None => Err(Error::FileNotFound(url.to_string())),
            })
            .collect())
    }

    fn copy_atomic(&self, source: &Url, destination: &Url) -> DeltaResult<()> {
        if self.files.contains_key(destination.as_str()) {
            Err(Error::FileAlreadyExists(destination.to_string()))
        } else if self.files.contains_key(source.as_str()) {
            Ok(())
        } else {
            Err(Error::FileNotFound(source.to_string()))
        }
    }

    fn put(&self, path: &Url, _: Bytes, overwrite: bool) -> DeltaResult<()> {
        if !overwrite && self.files.contains_key(path.as_str()) {
            Err(Error::FileAlreadyExists(path.to_string()))
        } else {
            Ok(())
        }
    }

    fn head(&self, path: &Url) -> DeltaResult<FileMeta> {
        if self.files.contains_key(path.as_str()) {
            Ok(test_file(path.as_str()))
        } else {
            Err(Error::FileNotFound(path.to_string()))
        }
    }
}

type Executor = SyncPlanExecutor<MemoryHandler, MemoryHandler, EmptyParquet>;

fn executor(files: &[(&str, &str)]) -> Executor {
    let memory = MemoryHandler::new(files);
    SyncPlanExecutor::new(memory.clone(), memory, EmptyParquet)
}

fn make_handler(files: &[(&str, &str)]) -> PlanBasedJsonHandler<Executor> {
    PlanBasedJsonHandler::new(Arc::new(executor(files)))
}

#[test]
fn scan_parquet_constructs_scan_parquet_node() {
    let schema = test_schema();
    let files = vec![
        test_file("file:///a.parquet"),
        test_file("file:///b.parquet"),
    ];

    let node = QueryPlanBuilder::scan_parquet(files.clone(), schema.clone(), None)
        .build()
        .unwrap();

    let QueryPlanNode::ScanParquet {
        files: scan_files,
        physical_schema,
        predicate,
    } = node
    else {
        panic!("expected ScanParquet, got {node:?}");
    };
    assert_eq!(scan_files, files);
    assert!(Arc::ptr_eq(&physical_schema, &schema));
    assert!(predicate.is_none());
}

#[test]
fn scan_json_constructs_scan_json_node() {
    let schema = test_schema();
    let files = vec![test_file("file:///a.json"), test_file("file:///b.json")];

    let node = QueryPlanBuilder::scan_json(files.clone(), schema.clone(), None)
        .build()
        .unwrap();

    let QueryPlanNode::ScanJson {
        files: scan_files,
        physical_schema,
        predicate,
    } = node
    else {
        panic!("expected ScanJson, got {node:?}");
    };
    assert_eq!(scan_files, files);
    assert!(Arc::ptr_eq(&physical_schema, &schema));
    assert!(predicate.is_none());
}

#[test]
fn test_read_json_files() {
    let handler = make_handler(&[("memory:///t.json", "{\"x\": 1}\n{\"x\": 2}\n{\"x\": 3}")]);
    let schema =
        Arc::new(StructType::try_new(vec![StructField::not_null("x", INTEGER)]).unwrap());

    let mut iter = handler
        .read_json_files(&[test_file("memory:///t.json")], schema, None)
        .unwrap()
        .into_iter();

    let batch = iter.next().expect("expected at least one batch").unwrap();
    assert_eq!(batch.0.len(), 3);
    assert!(batch.0.iter().all(|row| row.len() == 1));
    let values: Vec<_> = batch.0.iter().map(|row| row[0].as_i64().unwrap()).collect();
    assert_eq!(values, [1, 2, 3]);
    assert!(iter.next().is_none(), "expected exactly one batch");
}

#[test]
fn test_file_path_contract() {
    // Every row carries the path of the file that it comes from.
    let handler = make_handler(&[
        ("memory:///a.json", "{\"x\": 1}\n{\"x\": 2}"),
        ("memory:///b.json", "{\"x\": 3}"),
    ]);
    let schema = StructType::try_new(vec![StructField::not_null("x", INTEGER)])
        .unwrap()
        .add_metadata_column("_file", MetadataColumnSpec::FilePath)
        .unwrap();
    let files = [test_file("memory:///b.json"), test_file("memory:///a.json")];
    let batches: Vec<_> = handler
        .read_json_files(&files, Arc::new(schema), None)
        .unwrap()
        .into_iter()
        .map(|batch| batch.unwrap())
        .collect();
    assert_eq!(
        batches,
        [
            Rows(vec![vec![3.into(), "memory:///b.json".into()]]),
            Rows(vec![
                vec![1.into(), "memory:///a.json".into()],
                vec![2.into(), "memory:///a.json".into()],
            ]),
        ]
    );
}

#[test]
fn reading_by_plan_is_reading_directly() {
    let files = [("memory:///a.json", "{\"id\": 7}")];
    let direct = MemoryHandler::new(&files)
        .read_json_files(&[test_file("memory:///a.json")], test_schema(), None)
        .unwrap();
    let by_plan = make_handler(&files)
        .read_json_files(&[test_file("memory:///a.json")], test_schema(), None)
        .unwrap();
    assert_eq!(direct, by_plan);
    let missing = make_handler(&files).read_json_files(
        &[test_file("memory:///c.json")],
        test_schema(),
        None,
    );
    assert!(matches!(missing, Err(Error::FileNotFound(_))));
}

#[test]
fn other_json_operations_are_not_supported() {
    let handler = make_handler(&[]);
    let parsed = handler.parse_json(Rows(vec![]), test_schema());
    assert_eq!(
        parsed.unwrap_err().message(),
        "Unsupported: PlanBasedJsonHandler does not support parse_json yet"
    );
    let url = Url::parse("memory:///out.json").unwrap();
    let written = handler.write_json_file(&url, vec![], true);
    assert_eq!(
        written.unwrap_err().message(),
        "Unsupported: PlanBasedJsonHandler does not support write_json_file yet"
    );
}

/// Hands out nothing.
struct UnitExecutor;

impl PlanExecutor for UnitExecutor {
    type Data = Rows;

    fn execute_op(&self, _: Operation) -> DeltaResult<PlanResult<Rows>> {
        Ok(PlanResult::Unit)
    }
}

#[test]
fn executor_that_gives_no_data_is_an_error() {
    let handler = PlanBasedJsonHandler::new(Arc::new(UnitExecutor));
    let res = handler.read_json_files(&[], test_schema(), None);
    assert!(matches!(res, Err(Error::InternalError(_))));
}

#[test]
fn io_operations_go_to_storage() {
    let a = Url::parse("memory:///a").unwrap();
    let b = Url::parse("memory:///b").unwrap();
    let c = Url::parse("memory:///c").unwrap();
    let executor = executor(&[("memory:///a", "hello"), ("memory:///b", "world")]);
    let run = |op: IoOperation| executor.execute_op(Operation::IoOperation(op));

    let root = Url::parse("memory:///").unwrap();
    let Ok(PlanResult::FileMeta(files)) = run(IoOperation::file_listing(root)) else {
        panic!("expected files");
    };
    let names: Vec<_> = files
        .iter()
        .map(|f| f.as_ref().unwrap().location.clone())
        .collect();
    assert_eq!(names, [a.clone(), b.clone()]);

    let slices = vec![(b.clone(), None), (a.clone(), Some(1..3)), (c.clone(), None)];
    let Ok(PlanResult::Bytes(buffers)) = run(IoOperation::read_bytes(slices)) else {
        panic!("expected bytes");
    };
    assert_eq!(buffers.len(), 3);
    assert_eq!(buffers[0].as_ref().unwrap(), "world");
    assert_eq!(buffers[1].as_ref().unwrap(), "el");
    assert!(matches!(buffers[2], Err(Error::FileNotFound(_))));

    let Ok(PlanResult::FileMeta(files)) = run(IoOperation::head_file(a.clone())) else {
        panic!("expected a file");
    };
    assert_eq!(files.len(), 1);
    assert_eq!(files[0].as_ref().unwrap().location, a);
    assert!(matches!(
        run(IoOperation::head_file(c.clone())),
        Err(Error::FileNotFound(_))
    ));

    let data = Bytes::from_static(b"x");
    assert!(matches!(
        run(IoOperation::write_bytes(a.clone(), data.clone(), true)),
        Ok(PlanResult::Unit)
    ));
    assert!(matches!(
        run(IoOperation::write_bytes(a.clone(), data, false)),
        Err(Error::FileAlreadyExists(_))
    ));
    assert!(matches!(
        run(IoOperation::atomic_copy(a.clone(), c)),
        Ok(PlanResult::Unit)
    ));
    assert!(matches!(
        run(IoOperation::atomic_copy(a, b)),
        Err(Error::FileAlreadyExists(_))
    ));
}

#[test]
fn parquet_queries_go_to_the_parquet_handler() {
    let query = QueryPlanBuilder::scan_parquet(
        vec![test_file("memory:///a"), test_file("memory:///b")],
        test_schema(),
        None,
    )
    .build()
    .unwrap();
    let result = executor(&[]).execute_op(Operation::QueryPlan(query));
    let Ok(PlanResult::Data(batches)) = result else {
        panic!("expected data");
    };
    assert_eq!(batches, [Ok(Rows(vec![])), Ok(Rows(vec![]))]);
}
