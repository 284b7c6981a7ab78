use std::sync::Arc;

use buoyant_kernel::error::{DeltaResult, Error};
use buoyant_kernel::expressions::{ColumnName, Expression, Predicate, PredicateRef, Scalar};
use buoyant_kernel::scan::physical_predicate::PhysicalPredicate;
use buoyant_kernel::scan::state_info::{StateInfo, StatsOutputMode};
use buoyant_kernel::scan::transform_spec::{FieldTransformSpec, TransformSpec};
use buoyant_kernel::schema::{
    DataType, MetadataColumnSpec, MetadataValue, PrimitiveType, SchemaRef, StructField, StructType,
};
use buoyant_kernel::table_configuration::{Format, Metadata, Protocol, TableConfiguration};
use url::Url;

const STRING: DataType = DataType::Primitive(PrimitiveType::String);
const LONG: DataType = DataType::Primitive(PrimitiveType::Long);
const INTEGER: DataType = DataType::Primitive(PrimitiveType::Integer);
const DATE: DataType = DataType::Primitive(PrimitiveType::Date);
const BOOLEAN: DataType = DataType::Primitive(PrimitiveType::Boolean);

const ROW_TRACKING_FEATURES: &[&str] = &["rowTracking", "domainMetadata"];

fn column(path: &str) -> Expression {
    Expression::column(path.split('.').map(|s| s.to_string()).collect())
}

fn name(path: &str) -> ColumnName {
    ColumnName::new(path.split('.').map(|s| s.to_string()).collect())
}

fn long(n: i64) -> Expression {
    Expression::literal(Scalar::Long(n))
}

fn get_string_map(slice: &[(&str, &str)]) -> Vec<(String, String)> {
    slice
        .iter()
        .map(|(k, v)| (k.to_string(), v.to_string()))
        .collect()
}

fn get_simple_state_info(
    schema: SchemaRef,
    partition_columns: Vec<String>,
) -> DeltaResult<StateInfo> {
    get_state_info(schema, partition_columns, None, &[], vec![], vec![])
}

fn get_state_info(
    schema: SchemaRef,
    partition_columns: Vec<String>,
    predicate: Option<PredicateRef>,
    features: &[&str],
    metadata_configuration: Vec<(String, String)>,
    metadata_cols: Vec<(&str, MetadataColumnSpec)>,
) -> DeltaResult<StateInfo> {
    get_state_info_with_stats(
        schema,
        partition_columns,
        predicate,
        features,
        metadata_configuration,
        metadata_cols,
        StatsOutputMode::default(),
    )
}

fn table_configuration(
    schema: SchemaRef,
    partition_columns: Vec<String>,
    features: &[&str],
    configuration: Vec<(String, String)>,
) -> DeltaResult<TableConfiguration> {
    let metadata = Metadata {
        id: "id".to_string(),
        name: None,
        description: None,
        format: Format {
            provider: "parquet".to_string(),
            options: vec![],
        },
        schema_string: String::new(),
        partition_columns,
        created_time: Some(10),
        configuration,
    };
    // When features are non-empty, uses protocol (3,7) with explicit feature lists.
    // When features are empty, uses legacy protocol (2,5).
    let protocol = if features.is_empty() {
        Protocol {
            min_reader_version: 2,
            min_writer_version: 5,
            reader_features: None,
            writer_features: None,
        }
    } else {
        let reader_features = features
            .iter()
            .filter(|f| **f == "columnMapping")
            .map(|f| f.to_string())
            .collect();
        Protocol {
            min_reader_version: 3,
            min_writer_version: 7,
            reader_features: Some(reader_features),
            writer_features: Some(features.iter().map(|f| f.to_string()).collect()),
        }
    };
    TableConfiguration::try_new_inner(
        metadata,
        protocol,
        Url::parse("s3://my-table").unwrap(),
        1,
        schema,
    )
}

#[allow(clippy::too_many_arguments)]
fn get_state_info_with_stats(
    schema: SchemaRef,
    partition_columns: Vec<String>,
    predicate: Option<PredicateRef>,
    features: &[&str],
    metadata_configuration: Vec<(String, String)>,
    metadata_cols: Vec<(&str, MetadataColumnSpec)>,
    stats_output_mode: StatsOutputMode,
) -> DeltaResult<StateInfo> {
    let table_configuration = table_configuration(
        schema.clone(),
        partition_columns,
        features,
        metadata_configuration,
    )?;
    let mut schema = schema;
    for (name, spec) in metadata_cols.into_iter() {
        schema = Arc::new(
            schema
                .add_metadata_column(name, spec)
                .expect("Couldn't add metadata col"),
        );
    }
    StateInfo::try_new(
        schema.clone(),
        &table_configuration,
        predicate,
        stats_output_mode,
        (),
    )
}

fn assert_result_error_with_message<T>(res: Result<T, Error>, message: &str) {
    match res {
        Ok(_) => panic!("Expected error, but got Ok result"),
        Err(error) => assert_eq!(error.message(), message),
    }
}

fn assert_transform_spec(
    transform_spec: &TransformSpec,
    requested_row_indexes: bool,
    expected_row_id_name: &str,
    expected_row_index_name: &str,
) {
    // if we requested row indexes, there's only one transform for the row id col, otherwise the
    // first transform drops the row index column, and the second one adds the row ids
    let expected_transform_count = if requested_row_indexes { 1 } else { 2 };
    let generate_offset = if requested_row_indexes { 0 } else { 1 };

    assert_eq!(transform_spec.len(), expected_transform_count);

    if !requested_row_indexes {
        // ensure we have a drop transform if we didn't request row indexes
        match &transform_spec[0] {
            FieldTransformSpec::StaticDrop { field_name } => {
                assert_eq!(field_name, expected_row_index_name);
            }
            _ => panic!("Expected StaticDrop transform"),
        }
    }

    match &transform_spec[generate_offset] {
        FieldTransformSpec::GenerateRowId {
            field_name,
            row_index_field_name,
        } => {
            assert_eq!(field_name, expected_row_id_name);
            assert_eq!(row_index_field_name, expected_row_index_name);
        }
        _ => panic!("Expected GenerateRowId transform"),
    }
}

fn mapped(field: StructField, id: i64, physical_name: &str) -> StructField {
    field.with_metadata(vec![
        (
            "delta.columnMapping.id".to_string(),
            MetadataValue::Number(id),
        ),
        (
            "delta.columnMapping.physicalName".to_string(),
            MetadataValue::String(physical_name.to_string()),
        ),
    ])
}

fn struct_fields<'a>(schema: &'a StructType, name: &str) -> &'a StructType {
    match schema.field(name).expect("field").data_type() {
        DataType::Struct(inner) => inner,
        _ => panic!("{name} should be a struct"),
    }
}

#[test]
fn no_partition_columns() {
    // Test case: No partition columns, no column mapping
    let schema = Arc::new(StructType::new_unchecked(vec![
        StructField::nullable("id", STRING),
        StructField::nullable("value", LONG),
    ]));

    let state_info = get_simple_state_info(schema.clone(), vec![]).unwrap();

    // Should have no transform spec (no partitions, no column mapping)
    assert!(state_info.transform_spec.is_none());

    // Physical schema should match logical schema
    assert_eq!(state_info.logical_schema, schema);
    assert_eq!(state_info.physical_schema.fields().len(), 2);

    // No predicate
    assert_eq!(state_info.physical_predicate, PhysicalPredicate::Absent);
}

#[test]
fn with_partition_columns() {
    // Test case: With partition columns
    let schema = Arc::new(StructType::new_unchecked(vec![
        StructField::nullable("id", STRING),
        StructField::nullable("date", DATE), // Partition column
        StructField::nullable("value", LONG),
    ]));

    let state_info = get_simple_state_info(
        schema.clone(),
        vec!["date".to_string()], // date is a partition column
    )
    .unwrap();

    // Should have a transform spec for the partition column
    assert!(state_info.transform_spec.is_some());
    let transform_spec = state_info.transform_spec.as_ref().unwrap();
    assert_eq!(transform_spec.len(), 1);

    // Check the transform spec for the partition column
    match &transform_spec[0] {
        FieldTransformSpec::MetadataDerivedColumn {
            field_index,
            insert_after,
        } => {
            assert_eq!(*field_index, 1); // Index of "date" in logical schema
            assert_eq!(insert_after, &Some("id".to_string())); // After "id" which is physical
        }
        _ => panic!("Expected MetadataDerivedColumn transform"),
    }

    // Physical schema should not include partition column
    assert_eq!(state_info.logical_schema, schema);
    assert_eq!(state_info.physical_schema.fields().len(), 2); // Only id and value
}

#[test]
fn multiple_partition_columns() {
    // Test case: Multiple partition columns interspersed with regular columns
    let schema = Arc::new(StructType::new_unchecked(vec![
        StructField::nullable("col1", STRING),
        StructField::nullable("part1", STRING), // Partition
        StructField::nullable("col2", LONG),
        StructField::nullable("part2", INTEGER), // Partition
    ]));

    let state_info = get_simple_state_info(
        schema.clone(),
        vec!["part1".to_string(), "part2".to_string()],
    )
    .unwrap();

    // Should have transforms for both partition columns
    assert!(state_info.transform_spec.is_some());
    let transform_spec = state_info.transform_spec.as_ref().unwrap();
    assert_eq!(transform_spec.len(), 2);

    // Check first partition column transform
    match &transform_spec[0] {
        FieldTransformSpec::MetadataDerivedColumn {
            field_index,
            insert_after,
        } => {
            assert_eq!(*field_index, 1); // Index of "part1"
            assert_eq!(insert_after, &Some("col1".to_string()));
        }
        _ => panic!("Expected MetadataDerivedColumn transform"),
    }

    // Check second partition column transform
    match &transform_spec[1] {
        FieldTransformSpec::MetadataDerivedColumn {
            field_index,
            insert_after,
        } => {
            assert_eq!(*field_index, 3); // Index of "part2"
            assert_eq!(insert_after, &Some("col2".to_string()));
        }
        _ => panic!("Expected MetadataDerivedColumn transform"),
    }

    // Physical schema should only have non-partition columns
    assert_eq!(state_info.physical_schema.fields().len(), 2); // col1 and col2
}

#[test]
fn with_predicate() {
    // Test case: With a valid predicate
    let schema = Arc::new(StructType::new_unchecked(vec![
        StructField::nullable("id", STRING),
        StructField::nullable("value", LONG),
    ]));

    let predicate = Arc::new(Predicate::gt(column("value"), long(10)));

    let state_info = get_state_info(
        schema.clone(),
        vec![], // no partition columns
        Some(predicate),
        &[],    // no table features
        vec![], // no extra metadata
        vec![], // no metadata
    )
    .unwrap();

    // Should have a physical predicate
    match &state_info.physical_predicate {
        PhysicalPredicate::Present(_pred, schema) => {
            // Physical predicate exists
            assert_eq!(schema.fields().len(), 1); // Only "value" is referenced
        }
        _ => panic!("Expected PhysicalPredicate::Present"),
    }
}

#[test]
fn partition_at_beginning() {
    // Test case: Partition column at the beginning
    let schema = Arc::new(StructType::new_unchecked(vec![
        StructField::nullable("date", DATE), // Partition column
        StructField::nullable("id", STRING),
        StructField::nullable("value", LONG),
    ]));

    let state_info = get_simple_state_info(schema.clone(), vec!["date".to_string()]).unwrap();

    // Should have a transform spec for the partition column
    let transform_spec = state_info.transform_spec.as_ref().unwrap();
    assert_eq!(transform_spec.len(), 1);

    match &transform_spec[0] {
        FieldTransformSpec::MetadataDerivedColumn {
            field_index,
            insert_after,
        } => {
            assert_eq!(*field_index, 0); // Index of "date"
            assert_eq!(insert_after, &None); // No physical field before it, so prepend
        }
        _ => panic!("Expected MetadataDerivedColumn transform"),
    }
}

fn row_tracking() -> Vec<(String, String)> {
    get_string_map(&[
        ("delta.enableRowTracking", "true"),
        (
            "delta.rowTracking.materializedRowIdColumnName",
            "some_row_id_col",
        ),
        (
            "delta.rowTracking.materializedRowCommitVersionColumnName",
            "some_row_commit_version_col",
        ),
    ])
}

#[test]
fn request_row_ids() {
    let schema = Arc::new(StructType::new_unchecked(vec![StructField::nullable(
        "id", STRING,
    )]));

    let state_info = get_state_info(
        schema.clone(),
        vec![],
        None,
        ROW_TRACKING_FEATURES,
        row_tracking(),
        vec![("row_id", MetadataColumnSpec::RowId)],
    )
    .unwrap();

    // Should have a transform spec for the row_id column
    let transform_spec = state_info.transform_spec.as_ref().unwrap();
    assert_transform_spec(
        transform_spec,
        false, // we did not request row indexes
        "some_row_id_col",
        "row_indexes_for_row_id_0",
    );
}

#[test]
fn request_row_ids_conflicting_row_index_col_name() {
    let schema = Arc::new(StructType::new_unchecked(vec![StructField::nullable(
        "row_indexes_for_row_id_0", // this will conflict with the first generated name for row indexes
        STRING,
    )]));

    let state_info = get_state_info(
        schema.clone(),
        vec![],
        None,
        ROW_TRACKING_FEATURES,
        row_tracking(),
        vec![("row_id", MetadataColumnSpec::RowId)],
    )
    .unwrap();

    // Should have a transform spec for the row_id column
    let transform_spec = state_info.transform_spec.as_ref().unwrap();
    assert_transform_spec(
        transform_spec,
        false, // we did not request row indexes
        "some_row_id_col",
        "row_indexes_for_row_id_1", // ensure we didn't conflict with the col in the schema
    );
}

#[test]
fn request_row_ids_and_indexes() {
    let schema = Arc::new(StructType::new_unchecked(vec![StructField::nullable(
        "id", STRING,
    )]));

    let state_info = get_state_info(
        schema.clone(),
        vec![],
        None,
        ROW_TRACKING_FEATURES,
        row_tracking(),
        vec![
            ("row_id", MetadataColumnSpec::RowId),
            ("row_index", MetadataColumnSpec::RowIndex),
        ],
    )
    .unwrap();

    // Should have a transform spec for the row_id column
    let transform_spec = state_info.transform_spec.as_ref().unwrap();
    assert_transform_spec(
        transform_spec,
        true, // we did request row indexes
        "some_row_id_col",
        "row_index",
    );
}

#[test]
fn invalid_rowtracking_config() {
    let schema = Arc::new(StructType::new_unchecked(vec![StructField::nullable(
        "id", STRING,
    )]));

    // Row IDs requested but row tracking not enabled -> error
    let res = get_state_info(
        schema.clone(),
        vec![],
        None,
        &[], // no table features
        vec![],
        vec![("row_id", MetadataColumnSpec::RowId)],
    );
    assert_result_error_with_message(res, "Unsupported: Row ids are not enabled on this table");

    // Row tracking enabled but missing materializedRowIdColumnName -> error
    let res = get_state_info(
        schema,
        vec![],
        None,
        ROW_TRACKING_FEATURES,
        get_string_map(&[("delta.enableRowTracking", "true")]),
        vec![("row_id", MetadataColumnSpec::RowId)],
    );
    assert_result_error_with_message(
        res,
        "Generic delta kernel error: No delta.rowTracking.materializedRowIdColumnName key found in metadata configuration",
    );
}

#[test]
fn metadata_column_matches_partition_column() {
    let schema = Arc::new(StructType::new_unchecked(vec![StructField::nullable(
        "id", STRING,
    )]));
    let res = get_state_info(
        schema.clone(),
        vec!["part_col".to_string()],
        None,
        &[], // no table features
        vec![],
        vec![("part_col", MetadataColumnSpec::RowId)],
    );
    assert_result_error_with_message(
        res,
        "Schema error: Metadata column names must not match partition columns: part_col",
    );
}

#[test]
fn metadata_column_matches_read_field() {
    let schema = Arc::new(StructType::new_unchecked(vec![mapped(
        StructField::nullable("id", STRING),
        1,
        "other",
    )]));
    let res = get_state_info(
        schema.clone(),
        vec![],
        None,
        &[], // no table features
        get_string_map(&[("delta.columnMapping.mode", "name")]),
        vec![("other", MetadataColumnSpec::RowIndex)],
    );
    assert_result_error_with_message(
        res,
        "Schema error: Metadata column names must not match physical columns, but logical column 'id' has physical name 'other'",
    );
}

#[test]
fn stats_columns_with_predicate() {
    let schema = Arc::new(StructType::new_unchecked(vec![
        StructField::nullable("id", STRING),
        StructField::nullable("value", LONG),
    ]));

    let predicate = Arc::new(Predicate::gt(column("value"), long(10)));

    let state_info = get_state_info_with_stats(
        schema,
        vec![],
        Some(predicate),
        &[], // no table features
        vec![],
        vec![],
        StatsOutputMode::AllColumns,
    )
    .unwrap();

    // physical_stats_schema should be set (from expected_stats_schema)
    assert!(
        state_info.physical_stats_schema.is_some(),
        "physical_stats_schema should be Some when AllColumns is set"
    );
    // physical_predicate should still be active for data skipping
    assert!(
        matches!(
            state_info.physical_predicate,
            PhysicalPredicate::Present(..)
        ),
        "physical_predicate should be PhysicalPredicate::Present for data skipping"
    );
}

#[test]
fn stats_columns_with_predicate_merges_columns() {
    // When specific stats_columns are requested alongside a predicate, the stats
    // schema should include both the requested columns and predicate-referenced columns.
    let schema = Arc::new(StructType::new_unchecked(vec![
        StructField::nullable("id", STRING),
        StructField::nullable("value", LONG),
        StructField::nullable("extra", LONG),
    ]));

    let predicate = Arc::new(Predicate::gt(column("extra"), long(5)));

    let state_info = get_state_info_with_stats(
        schema,
        vec![],
        Some(predicate),
        &[],
        vec![],
        vec![],
        StatsOutputMode::Columns(vec![name("value")]),
    )
    .unwrap();

    let stats_schema = state_info
        .physical_stats_schema
        .expect("should have physical stats schema");

    let min_values = stats_schema
        .field("minValues")
        .expect("should have minValues");
    if let DataType::Struct(inner) = min_values.data_type() {
        assert!(
            inner.field("value").is_some(),
            "minValues should have 'value' (requested)"
        );
        assert!(
            inner.field("extra").is_some(),
            "minValues should have 'extra' (from predicate)"
        );
        assert!(
            inner.field("id").is_none(),
            "minValues should not have 'id' (neither requested nor in predicate)"
        );
    } else {
        panic!("minValues should be a struct");
    }
}

#[test]
fn non_empty_stats_columns_filters_schema() {
    let schema = Arc::new(StructType::new_unchecked(vec![
        StructField::nullable("id", STRING),
        StructField::nullable("value", LONG),
    ]));

    let state_info = get_state_info_with_stats(
        schema,
        vec![],
        None,
        &[], // no table features
        vec![],
        vec![],
        StatsOutputMode::Columns(vec![name("value")]),
    )
    .unwrap();

    let stats_schema = state_info
        .physical_stats_schema
        .expect("should have physical stats schema");

    // Check that minValues/maxValues only contain 'value', not 'id'
    let min_values = stats_schema
        .field("minValues")
        .expect("should have minValues");
    if let DataType::Struct(inner) = min_values.data_type() {
        assert!(
            inner.field("value").is_some(),
            "minValues should have 'value'"
        );
        assert!(
            inner.field("id").is_none(),
            "minValues should not have 'id'"
        );
    } else {
        panic!("minValues should be a struct");
    }
}

#[test]
fn partition_schema_uses_physical_names_with_column_mapping() {
    // Verify that physical_partition_schema uses physical column names when column
    // mapping is enabled. The logical partition column "date" has physical name
    // "col-date-phys", and the schema should reflect the physical name.
    let schema = Arc::new(StructType::new_unchecked(vec![
        mapped(StructField::nullable("id", STRING), 1, "col-id-phys"),
        mapped(StructField::nullable("date", DATE), 2, "col-date-phys"),
        mapped(StructField::nullable("value", LONG), 3, "col-value-phys"),
    ]));

    let predicate = Arc::new(Predicate::lt(
        column("date"),
        Expression::literal(Scalar::Integer(100)),
    ));

    let state_info = get_state_info(
        schema,
        vec!["date".to_string()],
        Some(predicate),
        &["columnMapping"],
        get_string_map(&[("delta.columnMapping.mode", "name")]),
        vec![],
    )
    .unwrap();

    // physical_partition_schema should exist and use the physical column name
    let partition_schema = state_info
        .physical_partition_schema
        .as_ref()
        .expect("should have physical_partition_schema with predicate + partition columns");
    assert_eq!(partition_schema.num_fields(), 1);
    let field = &partition_schema.fields()[0];
    assert_eq!(
        field.name(),
        "col-date-phys",
        "partition schema should use physical column name, not logical"
    );
    assert_eq!(field.data_type(), &DATE);
}

#[test]
fn stats_columns_with_column_mapping_uses_physical_names() {
    let field_a = mapped(StructField::nullable("col_a", LONG), 1, "phys_a");
    let field_b = mapped(StructField::nullable("col_b", LONG), 2, "phys_b");
    let field_c = mapped(StructField::nullable("col_c", LONG), 3, "phys_c");

    let schema = Arc::new(StructType::new_unchecked(vec![field_a, field_b, field_c]));
    let props = get_string_map(&[("delta.columnMapping.mode", "name")]);

    // Request col_a via stats_columns (logical), and reference col_b via predicate (logical).
    // Both must be translated to physical names in the output stats schema.
    let predicate = Arc::new(Predicate::gt(column("col_b"), long(5)));

    let state_info = get_state_info_with_stats(
        schema,
        vec![],
        Some(predicate),
        &[],
        props,
        vec![],
        StatsOutputMode::Columns(vec![name("col_a")]),
    )
    .unwrap();

    let stats_schema = state_info
        .physical_stats_schema
        .expect("should have physical stats schema");

    let present = ["phys_a", "phys_b"];
    let absent = ["col_a", "col_b", "phys_c"];
    for stats_field in ["minValues", "maxValues"] {
        let inner = struct_fields(&stats_schema, stats_field);
        for name in present {
            assert!(
                inner.field(name).is_some(),
                "{stats_field} expected '{name}'"
            );
        }
        for name in absent {
            assert!(
                inner.field(name).is_none(),
                "{stats_field} unexpected '{name}'"
            );
        }
    }
}

#[test]
fn mapped_predicate_names_physical_columns() {
    let inner = StructType::new_unchecked(vec![
        mapped(StructField::nullable("x", LONG), 3, "px"),
        mapped(StructField::nullable("y", LONG), 4, "py"),
    ]);
    let schema = Arc::new(StructType::new_unchecked(vec![
        mapped(StructField::nullable("a", LONG), 1, "pa"),
        mapped(
            StructField::nullable("s", DataType::Struct(Box::new(inner))),
            2,
            "ps",
        ),
    ]));
    let predicate = Arc::new(Predicate::and(
        Predicate::gt(column("s.x"), long(1)),
        Predicate::is_null(column("a")),
    ));
    let state_info = get_state_info(
        schema,
        vec![],
        Some(predicate),
        &["columnMapping"],
        get_string_map(&[("delta.columnMapping.mode", "name")]),
        vec![],
    )
    .unwrap();
    let PhysicalPredicate::Present(pred, schema) = &state_info.physical_predicate else {
        panic!("expected a predicate");
    };
    assert_eq!(
        **pred,
        Predicate::and(
            Predicate::gt(column("ps.px"), long(1)),
            Predicate::is_null(column("pa")),
        )
    );
    assert_eq!(schema.num_fields(), 2);
    assert_eq!(struct_fields(schema, "ps").num_fields(), 1);
    // No transform is needed, but columns are mapped.
    assert_eq!(state_info.transform_spec.as_ref().unwrap().len(), 0);
}

#[test]
fn statically_false_predicate_skips_everything() {
    let schema = Arc::new(StructType::new_unchecked(vec![StructField::nullable(
        "id", LONG,
    )]));
    for predicate in [
        Predicate::from_expr(Expression::literal(Scalar::Boolean(false))),
        Predicate::and(
            Predicate::gt(column("id"), long(5)),
            Predicate::lt(long(2), long(1)),
        ),
        Predicate::not(Predicate::is_null(Expression::literal(Scalar::Null(LONG)))),
    ] {
        let state_info =
            get_state_info(schema.clone(), vec![], Some(Arc::new(predicate)), &[], vec![], vec![])
                .unwrap();
        assert_eq!(
            state_info.physical_predicate,
            PhysicalPredicate::StaticSkipAll
        );
        assert!(state_info.physical_stats_schema.is_none());
    }
}

#[test]
fn predicate_without_columns_is_absent() {
    let schema = Arc::new(StructType::new_unchecked(vec![StructField::nullable(
        "id", LONG,
    )]));
    let predicate = Arc::new(Predicate::eq(long(1), long(1)));
    let state_info =
        get_state_info(schema, vec![], Some(predicate), &[], vec![], vec![]).unwrap();
    assert_eq!(state_info.physical_predicate, PhysicalPredicate::Absent);
}

#[test]
fn predicate_on_unknown_column_fails() {
    let schema = Arc::new(StructType::new_unchecked(vec![StructField::nullable(
        "id", LONG,
    )]));
    let predicate = Arc::new(Predicate::eq(column("nope"), long(1)));
    let res = get_state_info(schema, vec![], Some(predicate), &[], vec![], vec![]);
    assert_result_error_with_message(
        res,
        "No such column: Predicate references unknown column",
    );
}

#[test]
fn row_commit_versions_are_not_supported() {
    let schema = Arc::new(StructType::new_unchecked(vec![StructField::nullable(
        "id", LONG,
    )]));
    let res = get_state_info(
        schema,
        vec![],
        None,
        &[],
        vec![],
        vec![("v", MetadataColumnSpec::RowCommitVersion)],
    );
    assert_result_error_with_message(res, "Unsupported: Row commit versions not supported");
}

#[test]
fn missing_physical_name_fails() {
    let schema = Arc::new(StructType::new_unchecked(vec![StructField::nullable(
        "id", LONG,
    )]));
    let res = get_state_info(
        schema,
        vec![],
        None,
        &["columnMapping"],
        get_string_map(&[("delta.columnMapping.mode", "id")]),
        vec![],
    );
    assert!(matches!(res, Err(Error::Schema(_))));
}

#[test]
fn clashing_metadata_columns_fail() {
    let schema = Arc::new(StructType::new_unchecked(vec![StructField::nullable(
        "id", LONG,
    )]));
    assert!(matches!(
        schema.add_metadata_column("id", MetadataColumnSpec::RowIndex),
        Err(Error::Schema(_))
    ));
    let once = schema
        .add_metadata_column("one", MetadataColumnSpec::RowIndex)
        .unwrap();
    assert!(matches!(
        once.add_metadata_column("two", MetadataColumnSpec::RowIndex),
        Err(Error::Schema(_))
    ));
}

#[test]
fn predicate_columns_are_split_into_data_and_partition_columns() {
    let schema = Arc::new(StructType::new_unchecked(vec![
        StructField::nullable("id", LONG),
        StructField::not_null("date", DATE),
        StructField::nullable("flag", BOOLEAN),
    ]));
    let predicate = Arc::new(Predicate::and_from(vec![
        Predicate::gt(column("id"), long(5)),
        Predicate::is_null(column("date")),
        Predicate::is_null(column("flag")),
    ]));
    let state_info = get_state_info(
        schema,
        vec!["date".to_string()],
        Some(predicate),
        &[],
        vec![],
        vec![],
    )
    .unwrap();
    let partition = state_info.physical_partition_schema.as_ref().unwrap();
    assert_eq!(partition.num_fields(), 1);
    assert_eq!(partition.fields()[0], StructField::nullable("date", DATE));
    let stats = state_info.physical_stats_schema.as_ref().unwrap();
    assert_eq!(
        stats.field("numRecords").unwrap(),
        &StructField::nullable("numRecords", LONG)
    );
    let nulls = struct_fields(stats, "nullCount");
    assert_eq!(nulls.num_fields(), 2);
    assert_eq!(nulls.field("flag").unwrap().data_type(), &LONG);
    // Flags have no bounds.
    let min = struct_fields(stats, "minValues");
    assert_eq!(min.num_fields(), 1);
    assert_eq!(min.field("id").unwrap().data_type(), &LONG);
    assert!(stats.field("tightBounds").is_none());
    assert_eq!(state_info.dedup_capacity_hint(), 4096);

    let copy = state_info.clone();
    assert_eq!(copy.logical_schema, state_info.logical_schema);
    assert_eq!(copy.physical_schema, state_info.physical_schema);
    assert_eq!(copy.physical_predicate, state_info.physical_predicate);
    assert_eq!(copy.transform_spec.is_some(), state_info.transform_spec.is_some());
    assert_eq!(copy.physical_stats_schema, state_info.physical_stats_schema);

    let without = state_info.with_physical_stats_schema(None);
    assert!(without.physical_stats_schema.is_none());
    assert_eq!(without.dedup_capacity_hint(), 512);
    assert_eq!(without.physical_predicate, state_info.physical_predicate);
    assert_eq!(
        without.physical_partition_schema,
        state_info.physical_partition_schema
    );
}

#[test]
fn all_columns_describe_data_columns_only() {
    let schema = Arc::new(StructType::new_unchecked(vec![
        StructField::nullable("id", LONG),
        StructField::nullable("date", DATE),
    ]));
    let state_info = get_state_info_with_stats(
        schema,
        vec!["date".to_string()],
        None,
        &[],
        vec![],
        vec![],
        StatsOutputMode::AllColumns,
    )
    .unwrap();
    let stats = state_info.physical_stats_schema.as_ref().unwrap();
    assert!(struct_fields(stats, "minValues").field("id").is_some());
    assert!(struct_fields(stats, "minValues").field("date").is_none());
    assert_eq!(stats.field("tightBounds").unwrap().data_type(), &BOOLEAN);
    assert!(state_info.physical_partition_schema.is_none());
}
