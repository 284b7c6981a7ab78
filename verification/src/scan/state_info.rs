//! The state that a scan needs to turn the files of a table into rows.
use std::sync::Arc;
use vstd::prelude::*;

use crate::error::{DeltaResult, Error, ErrorModel};
use crate::expressions::{
    paths, predicate_references, ColumnName, Path, PredicateModel, PredicateRef,
};
use crate::properties::lookup;
use crate::scan::columns::{get_any_level_column_physical_name, physical_path};
use crate::scan::physical_predicate::{
    physical_predicate, referenced_field, referenced_fields, PhysicalPredicate,
    PhysicalPredicateModel,
};
use crate::scan::stats_schema::{
    build_stats_schema, expected_statistics, is_wanted, lies_in, skipping_statistics, split_fields,
};
use crate::scan::transform_spec::{
    transforms_model, FieldTransformModel, FieldTransformSpec, TransformFieldClassifier,
    TransformSpec,
};
use crate::schema::{
    field_position, fields_filtered, fields_model, first_clash, has_field,
    law_unmapped_field_is_unchanged, lemma_field_position, lemma_fields_filtered,
    lemma_fields_model, lemma_fields_model_push, metadata_field, physical_field, plain_field,
    schema_error, ColumnMappingMode, DataType, DataTypeModel, FieldModel, MetadataColumnSpec,
    PrimitiveType, SchemaRef, StructField, StructType, MISSING_ANNOTATION,
};
use crate::table_configuration::{
    law_row_tracking_is_switched_by_property, row_tracking, text_option, TableConfiguration,
    TableConfigurationModel,
};
use crate::text::{
    contains_text, decimal, decimal_text, join_texts, lemma_decimal_text_injective, texts,
};

verus! {

/// Which file statistics a scan hands out.
#[derive(Debug, PartialEq, Eq)]
pub enum StatsOutputMode {
    /// Those on every column.
    AllColumns,
    /// Those on the named columns. With no name, none, as with [`StatsOutputMode::Skip`].
    Columns(Vec<ColumnName>),
    /// None. What the scan itself needs is read all the same.
    Skip,
}

/// The content of a [`StatsOutputMode`].
pub enum StatsOutputModel {
    AllColumns,
    Columns(Seq<Path>),
    Skip,
}

impl View for StatsOutputMode {
    type V = StatsOutputModel;

    open spec fn view(&self) -> StatsOutputModel {
        match *self {
            StatsOutputMode::AllColumns => StatsOutputModel::AllColumns,
            StatsOutputMode::Columns(columns) => StatsOutputModel::Columns(paths(columns@)),
            StatsOutputMode::Skip => StatsOutputModel::Skip,
        }
    }
}

impl Default for StatsOutputMode {
    fn default() -> (r: Self)
        ensures
            r@ == StatsOutputModel::Columns(Seq::empty()),
    {
        let columns: Vec<ColumnName> = Vec::new();
        assert(paths(columns@) =~= Seq::empty());
        StatsOutputMode::Columns(columns)
    }
}

// ---------------------------------------------------------------------------
// Metadata columns
// ---------------------------------------------------------------------------
/// The property that names the column in which files keep row ids.
pub const MATERIALIZED_ROW_ID_KEY: &'static str = "delta.rowTracking.materializedRowIdColumnName";

/// What a scan's metadata columns ask for.
pub struct MetadataInfoModel {
    /// Their names.
    pub names: Set<Seq<char>>,
    /// The name of the column of row indexes.
    pub row_index: Option<Seq<char>>,
    /// The column in which files keep row ids, where a column of row ids is asked for.
    pub row_id: Option<Seq<char>>,
}

/// What one more field adds to what a scan's metadata columns ask for, or why it cannot be read.
pub open spec fn metadata_step(
    info: MetadataInfoModel,
    f: FieldModel,
    config: TableConfigurationModel,
) -> Result<MetadataInfoModel, ErrorModel> {
    let names = info.names.insert(f.name);
    match f.metadata_column {
        None => Ok(info),
        Some(spec) => if config.metadata.partition_columns.contains(f.name) {
            Err(
                ErrorModel::Schema(
                    "Metadata column names must not match partition columns: "@ + f.name,
                ),
            )
        } else {
            match spec {
                MetadataColumnSpec::RowIndex => Ok(
                    MetadataInfoModel { names, row_index: Some(f.name), ..info },
                ),
                MetadataColumnSpec::RowId => if row_tracking(config.metadata.configuration) != Some(
                    true,
                ) {
                    Err(ErrorModel::Unsupported("Row ids are not enabled on this table"@))
                } else {
                    match lookup(config.metadata.configuration, MATERIALIZED_ROW_ID_KEY@) {
                        Some(column) => Ok(
                            MetadataInfoModel { names, row_id: Some(column), ..info },
                        ),
                        None => Err(
                            ErrorModel::Generic(
                                "No delta.rowTracking.materializedRowIdColumnName key found in metadata configuration"@,
                            ),
                        ),
                    }
                },
                MetadataColumnSpec::RowCommitVersion => Ok(MetadataInfoModel { names, ..info }),
                MetadataColumnSpec::FilePath => Ok(MetadataInfoModel { names, ..info }),
            }
        },
    }
}

/// What the metadata columns among `fields` ask for, or why they cannot be read.
pub open spec fn metadata_info(fields: Seq<FieldModel>, config: TableConfigurationModel) -> Result<
    MetadataInfoModel,
    ErrorModel,
>
    decreases fields.len(),
{
    if fields.len() == 0 {
        Ok(MetadataInfoModel { names: Set::empty(), row_index: None, row_id: None })
    } else {
        match metadata_info(fields.drop_last(), config) {
            Ok(info) => metadata_step(info, fields.last(), config),
            Err(e) => Err(e),
        }
    }
}

/// What a scan's metadata columns ask for.
struct MetadataInfo {
    metadata_field_names: Vec<String>,
    selected_row_index_col_name: Option<String>,
    materialized_row_id_column_name: Option<String>,
}

impl View for MetadataInfo {
    type V = MetadataInfoModel;

    closed spec fn view(&self) -> MetadataInfoModel {
        MetadataInfoModel {
            names: texts(self.metadata_field_names@).to_set(),
            row_index: text_option(self.selected_row_index_col_name),
            row_id: text_option(self.materialized_row_id_column_name),
        }
    }
}

proof fn lemma_metadata_info_error(
    fields: Seq<FieldModel>,
    n: int,
    config: TableConfigurationModel,
)
    requires
        0 <= n <= fields.len(),
        metadata_info(fields.take(n), config) is Err,
    ensures
        metadata_info(fields, config) == metadata_info(fields.take(n), config),
    decreases fields.len(),
{
    if n < fields.len() {
        assert(fields.drop_last().take(n) =~= fields.take(n));
        lemma_metadata_info_error(fields.drop_last(), n, config);
    } else {
        assert(fields.take(n) =~= fields);
    }
}

/// Checks that the metadata columns can be read, and gathers what they ask for.
fn validate_metadata_columns(
    logical_schema: &StructType,
    table_configuration: &TableConfiguration,
) -> (r: DeltaResult<MetadataInfo>)
    ensures
        match r {
            Ok(info) => metadata_info(logical_schema@, table_configuration@) == Ok::<
                MetadataInfoModel,
                ErrorModel,
            >(info@),
            Err(e) => metadata_info(logical_schema@, table_configuration@) == Err::<
                MetadataInfoModel,
                ErrorModel,
            >(e@),
        },
{
    let ghost config = table_configuration@;
    let ghost model = logical_schema@;
    let fields = logical_schema.fields();
    let mut info = MetadataInfo {
        metadata_field_names: Vec::new(),
        selected_row_index_col_name: None,
        materialized_row_id_column_name: None,
    };
    assert(info@.names =~= Set::empty());
    let mut i: usize = 0;
    proof {
        lemma_fields_model(fields@);
    }
    while i < fields.len()
        invariant
            i <= fields.len(),
            config == table_configuration@,
            model == logical_schema@,
            model == fields_model(fields@),
            model.len() == fields.len(),
            metadata_info(model.take(i as int), config) == Ok::<MetadataInfoModel, ErrorModel>(
                info@,
            ),
        decreases fields.len() - i,
    {
        let ghost before = info@;
        let f = &fields[i];
        proof {
            lemma_fields_model(fields@);
            assert(model[i as int] == f@);
            assert(model.take(i + 1).drop_last() =~= model.take(i as int));
            assert(model.take(i + 1).last() == f@);
            if metadata_info(model.take(i + 1), config) is Err {
                lemma_metadata_info_error(model, i + 1, config);
            }
        }
        if let Some(spec) = f.get_metadata_column_spec() {
            if contains_text(table_configuration.partition_columns().as_slice(), f.name.as_str()) {
                return Err(
                    Error::Schema(
                        join_texts(
                            "Metadata column names must not match partition columns: ",
                            f.name.as_str(),
                        ),
                    ),
                );
            }
            match spec {
                MetadataColumnSpec::RowIndex => {
                    info.selected_row_index_col_name = Some(f.name.clone());
                },
                MetadataColumnSpec::RowId => {
                    match table_configuration.metadata.enable_row_tracking() {
                        Some(true) => {},
                        _ => {
                            return Err(
                                Error::Unsupported(
                                    "Row ids are not enabled on this table".to_owned(),
                                ),
                            );
                        },
                    }
                    match table_configuration.metadata.property(MATERIALIZED_ROW_ID_KEY) {
                        Some(column) => {
                            info.materialized_row_id_column_name = Some(column.clone());
                        },
                        None => {
                            return Err(
                                Error::Generic(
                                    "No delta.rowTracking.materializedRowIdColumnName key found in metadata configuration".to_owned(),
                                ),
                            );
                        },
                    }
                },
                MetadataColumnSpec::RowCommitVersion => {},
                MetadataColumnSpec::FilePath => {},
            }
            let ghost names = texts(info.metadata_field_names@);
            info.metadata_field_names.push(f.name.clone());
            proof {
                assert(texts(info.metadata_field_names@) =~= names.push(f@.name));
                lemma_to_set_push(names, f@.name);
            }
        }
        i = i + 1;
    }
    assert(model.take(i as int) =~= model);
    Ok(info)
}

proof fn lemma_to_set_push<A>(s: Seq<A>, a: A)
    ensures
        s.push(a).to_set() == s.to_set().insert(a),
{
    let more = s.push(a);
    assert forall|x: A| more.to_set().contains(x) == s.to_set().insert(a).contains(x) by {
        if s.contains(x) {
            let i = choose|i: int| 0 <= i < s.len() && s[i] == x;
            assert(more[i] == x);
        }
        assert(more[s.len() as int] == a);
        if more.contains(x) {
            let i = choose|i: int| 0 <= i < more.len() && more[i] == x;
            if i < s.len() {
                assert(s[i] == x);
            }
        }
    }
    assert(more.to_set() =~= s.to_set().insert(a));
}

// ---------------------------------------------------------------------------
// A name for row indexes
// ---------------------------------------------------------------------------
/// The `n`th name that a column of row indexes may have when the scan adds one by itself.
pub open spec fn row_index_name(n: nat) -> Seq<char> {
    "row_indexes_for_row_id_"@ + decimal_text(n)
}

/// Whether the `n`th name is free in `fields`, and no earlier one is.
pub open spec fn is_first_free(fields: Seq<FieldModel>, n: nat) -> bool {
    &&& !has_field(fields, row_index_name(n))
    &&& forall|m: nat| m < n ==> has_field(fields, #[trigger] row_index_name(m))
}

/// The first of the names that is free in `fields`.
pub open spec fn free_row_index_name(fields: Seq<FieldModel>) -> Seq<char> {
    row_index_name(choose|n: nat| is_first_free(fields, n))
}

proof fn lemma_first_free_unique(fields: Seq<FieldModel>, m: nat, n: nat)
    requires
        is_first_free(fields, m),
        is_first_free(fields, n),
    ensures
        m == n,
{
    if m < n {
        assert(has_field(fields, row_index_name(m)));
    } else if n < m {
        assert(has_field(fields, row_index_name(n)));
    }
}

proof fn lemma_row_index_name_injective(m: nat, n: nat)
    requires
        row_index_name(m) == row_index_name(n),
    ensures
        m == n,
{
    let prefix = "row_indexes_for_row_id_"@;
    let k = prefix.len() as int;
    assert(row_index_name(m).skip(k) =~= decimal_text(m));
    assert(row_index_name(n).skip(k) =~= decimal_text(n));
    lemma_decimal_text_injective(m, n);
}

/// A schema can hold no more of the names than it has fields.
proof fn lemma_names_taken(fields: Seq<FieldModel>, n: nat)
    requires
        forall|m: nat| m < n ==> has_field(fields, #[trigger] row_index_name(m)),
    ensures
        n <= fields.len(),
{
    let position = |m: int| field_position(fields, row_index_name(m as nat))->0;
    let numbers = vstd::set_lib::set_int_range(0, n as int);
    let positions = vstd::set_lib::set_int_range(0, fields.len() as int);
    vstd::set_lib::lemma_int_range(0, n as int);
    vstd::set_lib::lemma_int_range(0, fields.len() as int);
    assert forall|a: int| #[trigger] numbers.contains(a) implies positions.contains(position(a))
        && fields[position(a)].name == row_index_name(a as nat) by {
        assert(has_field(fields, row_index_name(a as nat)));
        lemma_field_position(fields, row_index_name(a as nat));
    }
    assert forall|a: int, b: int|
        numbers.contains(a) && numbers.contains(b) && #[trigger] position(a) == #[trigger] position(
            b,
        ) implies a == b by {
        lemma_row_index_name_injective(a as nat, b as nat);
    }
    vstd::set_lib::lemma_map_size(numbers, numbers.map(position), position);
    vstd::set_lib::lemma_len_subset(numbers.map(position), positions);
}

/// The first of the names that the schema leaves free.
fn find_free_row_index_name(schema: &StructType) -> (r: String)
    ensures
        r@ == free_row_index_name(schema@),
        !has_field(schema@, r@),
{
    let count: usize = schema.num_fields();
    let mut n: u64 = 0;
    let mut name = join_texts("row_indexes_for_row_id_", decimal(0).as_str());
    while schema.field(name.as_str()).is_some()
        invariant
            name@ == row_index_name(n as nat),
            n <= schema@.len() == count,
            forall|m: nat| m < n ==> has_field(schema@, #[trigger] row_index_name(m)),
        decreases schema@.len() - n,
    {
        proof {
            lemma_names_taken(schema@, n as nat + 1);
        }
        n = n + 1;
        name = join_texts("row_indexes_for_row_id_", decimal(n).as_str());
    }
    proof {
        assert(is_first_free(schema@, n as nat));
        let chosen = choose|k: nat| is_first_free(schema@, k);
        lemma_first_free_unique(schema@, chosen, n as nat);
    }
    name
}

// ---------------------------------------------------------------------------
// What to read, and how it becomes the scan's rows
// ---------------------------------------------------------------------------
/// What a scan reads of files for a part of its fields, and the steps that yield them.
pub struct ReadPlan {
    /// The columns to read.
    pub fields: Seq<FieldModel>,
    /// The steps from there to the scan's columns.
    pub transforms: Seq<FieldTransformModel>,
    /// The last column to read that the scan hands out as it is.
    pub last: Option<Seq<char>>,
}

/// What one more field `f`, at position `index` among `logical`, adds to a plan, or why it cannot
/// be read. `info` says what the scan's metadata columns ask for.
pub open spec fn read_step<C: TransformFieldClassifier>(
    plan: ReadPlan,
    logical: Seq<FieldModel>,
    index: int,
    config: TableConfigurationModel,
    info: MetadataInfoModel,
    classifier: C,
) -> Result<ReadPlan, ErrorModel> {
    let f = logical[index];
    match classifier.classification(f, index, plan.last) {
        // The scan computes the field by itself.
        Some(t) => Ok(ReadPlan { transforms: plan.transforms.push(t), ..plan }),
        None => if config.metadata.partition_columns.contains(f.name) {
            // The value comes with the file.
            Ok(
                ReadPlan {
                    transforms: plan.transforms.push(
                        FieldTransformModel::MetadataDerivedColumn {
                            field_index: index,
                            insert_after: plan.last,
                        },
                    ),
                    ..plan
                },
            )
        } else {
            match f.metadata_column {
                Some(MetadataColumnSpec::RowId) => row_id_step(plan, logical, info),
                Some(MetadataColumnSpec::RowCommitVersion) => Err(
                    ErrorModel::Unsupported("Row commit versions not supported"@),
                ),
                _ => match physical_field(f, config.column_mapping_mode) {
                    Some(p) => if f.metadata_column is None && info.names.contains(p.name) {
                        Err(ErrorModel::Schema(physical_name_taken(f.name, p.name)))
                    } else {
                        Ok(
                            ReadPlan {
                                fields: plan.fields.push(p),
                                transforms: plan.transforms,
                                last: Some(p.name),
                            },
                        )
                    },
                    None => Err(ErrorModel::Schema(MISSING_ANNOTATION@)),
                },
            }
        },
    }
}

/// Reported where files hold a column under the name of a metadata column.
pub open spec fn physical_name_taken(logical: Seq<char>, physical: Seq<char>) -> Seq<char> {
    "Metadata column names must not match physical columns, but logical column '"@ + logical
        + "' has physical name '"@ + physical + "'"@
}

/// What a column of row ids adds to a plan: the column in which files keep row ids, and a step that
/// computes those that are missing from row indexes. Where the scan has no column of row indexes,
/// one is read as well, and left out again.
pub open spec fn row_id_step(
    plan: ReadPlan,
    logical: Seq<FieldModel>,
    info: MetadataInfoModel,
) -> Result<ReadPlan, ErrorModel> {
    match info.row_id {
        Some(row_id) => {
            let kept = plain_field(row_id, DataTypeModel::Primitive(PrimitiveType::Long), true);
            match info.row_index {
                Some(row_index) => Ok(
                    ReadPlan {
                        fields: plan.fields.push(kept),
                        transforms: plan.transforms.push(
                            FieldTransformModel::GenerateRowId {
                                field_name: row_id,
                                row_index_field_name: row_index,
                            },
                        ),
                        ..plan
                    },
                ),
                None => {
                    let row_index = free_row_index_name(logical);
                    Ok(
                        ReadPlan {
                            fields: plan.fields.push(
                                metadata_field(row_index, MetadataColumnSpec::RowIndex),
                            ).push(kept),
                            transforms: plan.transforms.push(
                                FieldTransformModel::StaticDrop { field_name: row_index },
                            ).push(
                                FieldTransformModel::GenerateRowId {
                                    field_name: row_id,
                                    row_index_field_name: row_index,
                                },
                            ),
                            ..plan
                        },
                    )
                },
            }
        },
        None => Err(
            ErrorModel::InternalError(
                "Should always return a materialized_row_id_column_name if selecting row ids"@,
            ),
        ),
    }
}

/// The plan for the first `n` fields of a scan, or why one of them cannot be read.
pub open spec fn read_plan<C: TransformFieldClassifier>(
    logical: Seq<FieldModel>,
    n: nat,
    config: TableConfigurationModel,
    info: MetadataInfoModel,
    classifier: C,
) -> Result<ReadPlan, ErrorModel>
    decreases n,
{
    if n == 0 {
        Ok(ReadPlan { fields: Seq::empty(), transforms: Seq::empty(), last: None })
    } else {
        match read_plan(logical, (n - 1) as nat, config, info, classifier) {
            Ok(plan) => read_step(plan, logical, n - 1, config, info, classifier),
            Err(e) => Err(e),
        }
    }
}

proof fn lemma_read_plan_error<C: TransformFieldClassifier>(
    logical: Seq<FieldModel>,
    m: nat,
    n: nat,
    config: TableConfigurationModel,
    info: MetadataInfoModel,
    classifier: C,
)
    requires
        m <= n,
        read_plan(logical, m, config, info, classifier) is Err,
    ensures
        read_plan(logical, n, config, info, classifier) == read_plan(
            logical,
            m,
            config,
            info,
            classifier,
        ),
    decreases n,
{
    if m < n {
        lemma_read_plan_error(logical, m, (n - 1) as nat, config, info, classifier);
    }
}

/// What a scan reads of files for a part of its fields, and the steps that yield them.
struct Reads {
    read_fields: Vec<StructField>,
    transform_spec: TransformSpec,
    last_physical_field: Option<String>,
}

impl View for Reads {
    type V = ReadPlan;

    closed spec fn view(&self) -> ReadPlan {
        ReadPlan {
            fields: fields_model(self.read_fields@),
            transforms: transforms_model(self.transform_spec@),
            last: text_option(self.last_physical_field),
        }
    }
}

impl Reads {
    fn add_transform(&mut self, t: FieldTransformSpec)
        ensures
            final(self)@ == (ReadPlan {
                transforms: old(self)@.transforms.push(t@),
                ..old(self)@
            }),
    {
        self.transform_spec.push(t);
        assert(transforms_model(self.transform_spec@) =~= old(self)@.transforms.push(t@));
    }

    fn add_field(&mut self, f: StructField)
        ensures
            final(self)@ == (ReadPlan { fields: old(self)@.fields.push(f@), ..old(self)@ }),
    {
        proof {
            lemma_fields_model_push(self.read_fields@, f);
        }
        self.read_fields.push(f);
    }

    fn last(&self) -> (r: Option<String>)
        ensures
            text_option(r) == self@.last,
    {
        match &self.last_physical_field {
            Some(name) => Some(name.clone()),
            None => None,
        }
    }

    /// Adds a column of row ids.
    fn add_row_id(&mut self, logical_schema: &StructType, info: &MetadataInfo) -> (r: DeltaResult<
        (),
    >)
        ensures
            match r {
                Ok(_) => row_id_step(old(self)@, logical_schema@, info@) == Ok::<
                    ReadPlan,
                    ErrorModel,
                >(final(self)@),
                Err(e) => row_id_step(old(self)@, logical_schema@, info@) == Err::<
                    ReadPlan,
                    ErrorModel,
                >(e@),
            },
    {
        let row_id = match &info.materialized_row_id_column_name {
            Some(name) => name,
            None => {
                return Err(
                    Error::InternalError(
                        "Should always return a materialized_row_id_column_name if selecting row ids".to_owned(),
                    ),
                );
            },
        };
        let row_index = match &info.selected_row_index_col_name {
            Some(name) => name.clone(),
            None => {
                let name = find_free_row_index_name(logical_schema);
                self.add_field(
                    StructField::create_metadata_column(
                        name.as_str(),
                        MetadataColumnSpec::RowIndex,
                    ),
                );
                self.add_transform(FieldTransformSpec::StaticDrop { field_name: name.clone() });
                name
            },
        };
        self.add_field(
            StructField::nullable(row_id.as_str(), DataType::Primitive(PrimitiveType::Long)),
        );
        self.add_transform(
            FieldTransformSpec::GenerateRowId {
                field_name: row_id.clone(),
                row_index_field_name: row_index,
            },
        );
        Ok(())
    }

    /// Adds the field at `index`.
    fn add<C: TransformFieldClassifier>(
        &mut self,
        logical_schema: &StructType,
        index: usize,
        table_configuration: &TableConfiguration,
        info: &MetadataInfo,
        classifier: &C,
    ) -> (r: DeltaResult<()>)
        requires
            index < logical_schema@.len(),
        ensures
            match r {
                Ok(_) => read_step(
                    old(self)@,
                    logical_schema@,
                    index as int,
                    table_configuration@,
                    info@,
                    *classifier,
                ) == Ok::<ReadPlan, ErrorModel>(final(self)@),
                Err(e) => read_step(
                    old(self)@,
                    logical_schema@,
                    index as int,
                    table_configuration@,
                    info@,
                    *classifier,
                ) == Err::<ReadPlan, ErrorModel>(e@),
            },
    {
        proof {
            lemma_fields_model(logical_schema.fields@);
        }
        let field = &logical_schema.fields[index];
        assert(logical_schema@[index as int] == field@);
        if let Some(t) = classifier.classify_field(field, index, &self.last_physical_field) {
            self.add_transform(t);
            return Ok(());
        }
        if contains_text(table_configuration.partition_columns().as_slice(), field.name.as_str()) {
            let insert_after = self.last();
            self.add_transform(
                FieldTransformSpec::MetadataDerivedColumn { field_index: index, insert_after },
            );
            return Ok(());
        }
        match field.get_metadata_column_spec() {
            Some(MetadataColumnSpec::RowId) => self.add_row_id(logical_schema, info),
            Some(MetadataColumnSpec::RowCommitVersion) => Err(
                Error::Unsupported("Row commit versions not supported".to_owned()),
            ),
            _ => {
                let physical = match field.make_physical(table_configuration.column_mapping_mode) {
                    Ok(physical) => physical,
                    Err(e) => {
                        return Err(e);
                    },
                };
                let name = physical.name.clone();
                if !field.is_metadata_column() && contains_text(
                    info.metadata_field_names.as_slice(),
                    name.as_str(),
                ) {
                    let start = join_texts(
                        "Metadata column names must not match physical columns, but logical column '",
                        field.name.as_str(),
                    );
                    let middle = join_texts(start.as_str(), "' has physical name '");
                    let end = join_texts(middle.as_str(), name.as_str());
                    return Err(Error::Schema(join_texts(end.as_str(), "'")));
                }
                self.last_physical_field = Some(name);
                self.add_field(physical);
                Ok(())
            },
        }
    }
}

// ---------------------------------------------------------------------------
// What data skipping reads
// ---------------------------------------------------------------------------
/// The same fields, without annotations, and each of them nullable.
pub open spec fn nullable_fields(fields: Seq<FieldModel>) -> Seq<FieldModel> {
    fields.map_values(|f: FieldModel| plain_field(f.name, f.data_type, true))
}

/// The partition columns that a predicate mentions. Their values come out of a map, so that each
/// of them may be null.
pub open spec fn predicate_partition_fields(
    predicate: PhysicalPredicateModel,
    partition_fields: Option<Seq<FieldModel>>,
) -> Option<Seq<FieldModel>> {
    match (partition_fields, predicate) {
        (Some(partition), PhysicalPredicateModel::Present(_, mentioned)) => {
            let kept = fields_filtered(mentioned, partition, true);
            if kept.len() == 0 {
                None
            } else {
                Some(nullable_fields(kept))
            }
        },
        _ => None,
    }
}

/// Where files hold the columns of `needed` that the table has.
pub open spec fn needed_columns(needed: Set<Path>, config: TableConfigurationModel) -> Set<Path> {
    Set::new(
        |p: Path|
            exists|c: Path| #[trigger]
                needed.contains(c) && physical_path(
                    config.logical_schema,
                    c,
                    config.column_mapping_mode,
                ) == Some(p),
    )
}

/// The statistics that a scan reads, and the partition columns by which it skips files.
/// `mentioned` are the columns that the scan's predicate mentions, `partition_fields` the columns
/// by which the table is partitioned.
pub open spec fn data_skipping_fields(
    output: StatsOutputModel,
    predicate: PhysicalPredicateModel,
    mentioned: Set<Path>,
    config: TableConfigurationModel,
    partition_fields: Option<Seq<FieldModel>>,
) -> (Option<Seq<FieldModel>>, Option<Seq<FieldModel>>) {
    let partition = predicate_partition_fields(predicate, partition_fields);
    let statistics = match output {
        StatsOutputModel::AllColumns => Some(expected_statistics(config, None)),
        StatsOutputModel::Columns(columns) if columns.len() > 0 => Some(
            expected_statistics(
                config,
                Some(needed_columns(columns.to_set().union(mentioned), config)),
            ),
        ),
        _ => match predicate {
            PhysicalPredicateModel::Present(_, fields) => match partition {
                Some(partition) => skipping_statistics(fields_filtered(fields, partition, false)),
                None => skipping_statistics(fields),
            },
            _ => None,
        },
    };
    (statistics, partition)
}

/// The content of an optional schema.
pub open spec fn schema_option(s: Option<SchemaRef>) -> Option<Seq<FieldModel>> {
    match s {
        Some(s) => Some(s@),
        None => None,
    }
}

fn build_nullable_fields(schema: &StructType) -> (r: StructType)
    ensures
        r@ == nullable_fields(schema@),
{
    let fields = schema.fields();
    let mut r: Vec<StructField> = Vec::new();
    let mut i: usize = 0;
    proof {
        lemma_fields_model(fields@);
    }
    while i < fields.len()
        invariant
            i <= fields.len(),
            fields_model(fields@) == schema@,
            schema@.len() == fields.len(),
            fields_model(r@).len() == i,
            forall|j: int|
                0 <= j < i ==> #[trigger] fields_model(r@)[j] == nullable_fields(schema@)[j],
        decreases fields.len() - i,
    {
        let f = StructField::nullable(fields[i].name.as_str(), fields[i].data_type.clone());
        proof {
            lemma_fields_model(fields@);
            assert(schema@[i as int] == fields@[i as int]@);
            lemma_fields_model_push(r@, f);
        }
        r.push(f);
        i = i + 1;
    }
    assert(fields_model(r@) =~= nullable_fields(schema@));
    StructType::new_unchecked(r)
}

/// Where files hold the columns of `requested` and `mentioned` that the table has.
fn find_needed_columns(
    requested: &Vec<ColumnName>,
    mentioned: &Vec<ColumnName>,
    table_configuration: &TableConfiguration,
) -> (r: Vec<ColumnName>)
    ensures
        paths(r@).to_set() == needed_columns(
            paths(requested@).to_set().union(paths(mentioned@).to_set()),
            table_configuration@,
        ),
{
    let ghost config = table_configuration@;
    let ghost all = paths(requested@).to_set().union(paths(mentioned@).to_set());
    let mut r: Vec<ColumnName> = Vec::new();
    add_needed_columns(requested, table_configuration, &mut r);
    add_needed_columns(mentioned, table_configuration, &mut r);
    proof {
        let one = needed_columns(paths(requested@).to_set(), config);
        let two = needed_columns(paths(mentioned@).to_set(), config);
        assert forall|p: Path| one.union(two).contains(p) == needed_columns(all, config).contains(
            p,
        ) by {
            if one.contains(p) {
                let c = choose|c: Path| #[trigger]
                    paths(requested@).to_set().contains(c) && physical_path(
                        config.logical_schema,
                        c,
                        config.column_mapping_mode,
                    ) == Some(p);
                assert(all.contains(c));
            }
            if two.contains(p) {
                let c = choose|c: Path| #[trigger]
                    paths(mentioned@).to_set().contains(c) && physical_path(
                        config.logical_schema,
                        c,
                        config.column_mapping_mode,
                    ) == Some(p);
                assert(all.contains(c));
            }
            if needed_columns(all, config).contains(p) {
                let c = choose|c: Path| #[trigger]
                    all.contains(c) && physical_path(
                        config.logical_schema,
                        c,
                        config.column_mapping_mode,
                    ) == Some(p);
                assert(paths(requested@).to_set().contains(c) || paths(
                    mentioned@,
                ).to_set().contains(c));
            }
        }
        assert(one.union(two) =~= needed_columns(all, config));
        assert(paths(r@).to_set() =~= one.union(two));
    }
    r
}

fn add_needed_columns(
    columns: &Vec<ColumnName>,
    table_configuration: &TableConfiguration,
    out: &mut Vec<ColumnName>,
)
    ensures
        paths(final(out)@).to_set() == paths(old(out)@).to_set().union(
            needed_columns(paths(columns@).to_set(), table_configuration@),
        ),
{
    let ghost config = table_configuration@;
    let ghost before = paths(out@).to_set();
    let ghost all = paths(columns@);
    let mut i: usize = 0;
    proof {
        assert(needed_columns(all.take(0).to_set(), config) =~= Set::empty()) by {
            assert(all.take(0).to_set() =~= Set::empty());
        }
        assert(paths(out@).to_set() =~= before.union(needed_columns(all.take(0).to_set(), config)));
    }
    while i < columns.len()
        invariant
            i <= columns.len(),
            all == paths(columns@),
            config == table_configuration@,
            paths(out@).to_set() == before.union(
                needed_columns(all.take(i as int).to_set(), config),
            ),
        decreases columns.len() - i,
    {
        let ghost kept = paths(out@);
        let ghost known = all.take(i as int).to_set();
        let ghost c = columns@[i as int]@;
        let found = get_any_level_column_physical_name(
            &table_configuration.logical_schema,
            &columns[i],
            table_configuration.column_mapping_mode,
        );
        proof {
            assert(all.take(i + 1) =~= all.take(i as int).push(c));
            lemma_to_set_push(all.take(i as int), c);
            lemma_needed_insert(known, c, config);
        }
        if let Ok(p) = found {
            out.push(p);
            proof {
                assert(paths(out@) =~= kept.push(p@));
                lemma_to_set_push(kept, p@);
                assert(paths(out@).to_set() =~= before.union(needed_columns(known, config)).insert(
                    p@,
                ));
                assert(paths(out@).to_set() =~= before.union(
                    needed_columns(known.insert(c), config),
                ));
            }
        }
        i = i + 1;
    }
    assert(all.take(i as int) =~= all);
}

proof fn lemma_needed_insert(needed: Set<Path>, c: Path, config: TableConfigurationModel)
    ensures
        match physical_path(config.logical_schema, c, config.column_mapping_mode) {
            Some(p) => needed_columns(needed.insert(c), config) == needed_columns(
                needed,
                config,
            ).insert(p),
            None => needed_columns(needed.insert(c), config) == needed_columns(needed, config),
        },
{
    let found = physical_path(config.logical_schema, c, config.column_mapping_mode);
    let more = needed_columns(needed.insert(c), config);
    let less = needed_columns(needed, config);
    assert forall|p: Path| more.contains(p) == (less.contains(p) || found == Some(p)) by {
        if less.contains(p) {
            let d = choose|d: Path| #[trigger]
                needed.contains(d) && physical_path(
                    config.logical_schema,
                    d,
                    config.column_mapping_mode,
                ) == Some(p);
            assert(needed.insert(c).contains(d));
        }
        if found == Some(p) {
            assert(needed.insert(c).contains(c));
        }
        if more.contains(p) {
            let d = choose|d: Path| #[trigger]
                needed.insert(c).contains(d) && physical_path(
                    config.logical_schema,
                    d,
                    config.column_mapping_mode,
                ) == Some(p);
            if d != c {
                assert(needed.contains(d));
            }
        }
    }
    match found {
        Some(p) => {
            assert(more =~= less.insert(p));
        },
        None => {
            assert(more =~= less);
        },
    }
}

/// The statistics that a scan reads, and the partition columns by which it skips files.
fn build_data_skipping_schemas(
    stats_output_mode: &StatsOutputMode,
    physical_predicate: &PhysicalPredicate,
    predicate_column_names: &Vec<ColumnName>,
    table_configuration: &TableConfiguration,
    table_partition_schema: &Option<SchemaRef>,
) -> (r: (Option<SchemaRef>, Option<SchemaRef>))
    ensures
        (schema_option(r.0), schema_option(r.1)) == data_skipping_fields(
            stats_output_mode@,
            physical_predicate@,
            paths(predicate_column_names@).to_set(),
            table_configuration@,
            schema_option(*table_partition_schema),
        ),
{
    let partition: Option<SchemaRef> = match (table_partition_schema, physical_predicate) {
        (Some(all), PhysicalPredicate::Present(_, mentioned)) => {
            match mentioned.with_fields_filtered_nonempty(all, true) {
                Some(kept) => Some(Arc::new(build_nullable_fields(&kept))),
                None => None,
            }
        },
        _ => None,
    };
    assert(schema_option(partition) == predicate_partition_fields(
        physical_predicate@,
        schema_option(*table_partition_schema),
    ));
    let statistics: Option<SchemaRef> = match stats_output_mode {
        StatsOutputMode::AllColumns => Some(table_configuration.build_expected_stats_schema(None)),
        StatsOutputMode::Columns(columns) if columns.len() > 0 => {
            let needed = find_needed_columns(columns, predicate_column_names, table_configuration);
            Some(table_configuration.build_expected_stats_schema(Some(&needed)))
        },
        _ => match physical_predicate {
            PhysicalPredicate::Present(_, fields) => match &partition {
                Some(partition) => match fields.with_fields_filtered_nonempty(partition, false) {
                    Some(data) => build_stats_schema(&data),
                    None => None,
                },
                None => build_stats_schema(fields),
            },
            _ => None,
        },
    };
    (statistics, partition)
}

// ---------------------------------------------------------------------------
// The state of a scan
// ---------------------------------------------------------------------------
/// All the state needed to process a scan.
#[derive(Debug)]
pub struct StateInfo {
    /// The schema of the rows that the scan hands out.
    pub logical_schema: SchemaRef,
    /// The schema of what it reads of files.
    pub physical_schema: SchemaRef,
    /// What its predicate says of files.
    pub physical_predicate: PhysicalPredicate,
    /// The steps from what is read to what is handed out, where there are any.
    pub transform_spec: Option<Arc<TransformSpec>>,
    pub column_mapping_mode: ColumnMappingMode,
    /// The schema of the statistics that it reads.
    pub physical_stats_schema: Option<SchemaRef>,
    /// The partition columns by which it skips files.
    pub physical_partition_schema: Option<SchemaRef>,
}

/// The content of a [`StateInfo`].
pub struct StateInfoModel {
    pub logical_schema: Seq<FieldModel>,
    pub physical_schema: Seq<FieldModel>,
    pub physical_predicate: PhysicalPredicateModel,
    pub transform_spec: Option<Seq<FieldTransformModel>>,
    pub column_mapping_mode: ColumnMappingMode,
    pub physical_stats_schema: Option<Seq<FieldModel>>,
    pub physical_partition_schema: Option<Seq<FieldModel>>,
}

impl View for StateInfo {
    type V = StateInfoModel;

    open spec fn view(&self) -> StateInfoModel {
        StateInfoModel {
            logical_schema: self.logical_schema@,
            physical_schema: self.physical_schema@,
            physical_predicate: self.physical_predicate@,
            transform_spec: match self.transform_spec {
                Some(t) => Some(transforms_model(t@)),
                None => None,
            },
            column_mapping_mode: self.column_mapping_mode,
            physical_stats_schema: schema_option(self.physical_stats_schema),
            physical_partition_schema: schema_option(self.physical_partition_schema),
        }
    }
}

impl Clone for StateInfo {
    fn clone(&self) -> (r: Self)
        ensures
            r@ == self@,
    {
        StateInfo {
            logical_schema: self.logical_schema.clone(),
            physical_schema: self.physical_schema.clone(),
            physical_predicate: self.physical_predicate.clone(),
            transform_spec: match &self.transform_spec {
                Some(t) => Some(t.clone()),
                None => None,
            },
            column_mapping_mode: self.column_mapping_mode,
            physical_stats_schema: match &self.physical_stats_schema {
                Some(s) => Some(s.clone()),
                None => None,
            },
            physical_partition_schema: match &self.physical_partition_schema {
                Some(s) => Some(s.clone()),
                None => None,
            },
        }
    }
}

/// What a scan's predicate, where it has one, says of files.
pub open spec fn scan_predicate(
    predicate: Option<PredicateModel>,
    logical: Seq<FieldModel>,
    mode: ColumnMappingMode,
) -> Result<PhysicalPredicateModel, ErrorModel> {
    match predicate {
        Some(p) => physical_predicate(p, logical, mode),
        None => Ok(PhysicalPredicateModel::Absent),
    }
}

/// The columns by which a table is partitioned, where a predicate could use them.
pub open spec fn table_partition_fields(
    predicate: PhysicalPredicateModel,
    config: TableConfigurationModel,
) -> Option<Seq<FieldModel>> {
    let fields = split_fields(config, true);
    if predicate is Present && config.metadata.partition_columns.len() > 0 && fields.len() > 0 {
        Some(fields)
    } else {
        None
    }
}

/// The state of a scan that hands out `logical`, or why there is none.
pub open spec fn state_info<C: TransformFieldClassifier>(
    logical: Seq<FieldModel>,
    config: TableConfigurationModel,
    predicate: Option<PredicateModel>,
    output: StatsOutputModel,
    classifier: C,
) -> Result<StateInfoModel, ErrorModel> {
    let mentioned = match predicate {
        Some(p) => predicate_references(p),
        None => Set::empty(),
    };
    match metadata_info(logical, config) {
        Err(e) => Err(e),
        Ok(info) => match read_plan(logical, logical.len(), config, info, classifier) {
            Err(e) => Err(e),
            Ok(plan) => match schema_error(plan.fields) {
                Some(e) => Err(e),
                None => match scan_predicate(predicate, logical, config.column_mapping_mode) {
                    Err(e) => Err(e),
                    Ok(physical_predicate) => {
                        let (physical_stats_schema, physical_partition_schema) =
                            data_skipping_fields(
                            output,
                            physical_predicate,
                            mentioned,
                            config,
                            table_partition_fields(physical_predicate, config),
                        );
                        Ok(
                            StateInfoModel {
                                logical_schema: logical,
                                physical_schema: plan.fields,
                                physical_predicate,
                                transform_spec: if plan.transforms.len() > 0
                                    || config.column_mapping_mode != ColumnMappingMode::NoMapping {
                                    Some(plan.transforms)
                                } else {
                                    None
                                },
                                column_mapping_mode: config.column_mapping_mode,
                                physical_stats_schema,
                                physical_partition_schema,
                            },
                        )
                    },
                },
            },
        },
    }
}

/// The content of an optional predicate.
pub open spec fn predicate_ref_option(p: Option<PredicateRef>) -> Option<PredicateModel> {
    match p {
        Some(p) => Some(p@),
        None => None,
    }
}

impl StateInfo {
    /// The state of a scan.
    ///
    /// `logical_schema` is what the scan hands out, partition columns included. `predicate` filters
    /// its rows. `stats_output_mode` says which statistics it hands out, and `classifier` which
    /// fields it computes by itself; `()` where there are none.
    pub fn try_new<C: TransformFieldClassifier>(
        logical_schema: SchemaRef,
        table_configuration: &TableConfiguration,
        predicate: Option<PredicateRef>,
        stats_output_mode: StatsOutputMode,
        classifier: C,
    ) -> (r: DeltaResult<Self>)
        ensures
            match r {
                Ok(s) => state_info(
                    logical_schema@,
                    table_configuration@,
                    predicate_ref_option(predicate),
                    stats_output_mode@,
                    classifier,
                ) == Ok::<StateInfoModel, ErrorModel>(s@),
                Err(e) => state_info(
                    logical_schema@,
                    table_configuration@,
                    predicate_ref_option(predicate),
                    stats_output_mode@,
                    classifier,
                ) == Err::<StateInfoModel, ErrorModel>(e@),
            },
    {
        let ghost config = table_configuration@;
        let ghost logical = logical_schema@;
        let mode = table_configuration.column_mapping_mode;
        let info = match validate_metadata_columns(&logical_schema, table_configuration) {
            Ok(info) => info,
            Err(e) => {
                return Err(e);
            },
        };
        let mut reads = Reads {
            read_fields: Vec::new(),
            transform_spec: Vec::new(),
            last_physical_field: None,
        };
        assert(reads@.fields =~= Seq::empty());
        assert(reads@.transforms =~= Seq::empty());
        let count: usize = logical_schema.num_fields();
        let mut index: usize = 0;
        while index < count
            invariant
                index <= count == logical.len(),
                config == table_configuration@,
                logical == logical_schema@,
                metadata_info(logical, config) == Ok::<MetadataInfoModel, ErrorModel>(info@),
                read_plan(logical, index as nat, config, info@, classifier) == Ok::<
                    ReadPlan,
                    ErrorModel,
                >(reads@),
            decreases count - index,
        {
            match reads.add(&logical_schema, index, table_configuration, &info, &classifier) {
                Ok(_) => {},
                Err(e) => {
                    proof {
                        lemma_read_plan_error(
                            logical,
                            (index + 1) as nat,
                            logical.len(),
                            config,
                            info@,
                            classifier,
                        );
                    }
                    return Err(e);
                },
            }
            index = index + 1;
        }
        let ghost plan = reads@;
        let physical_schema = match StructType::try_new(reads.read_fields) {
            Ok(s) => Arc::new(s),
            Err(e) => {
                return Err(e);
            },
        };
        let mut predicate_column_names: Vec<ColumnName> = Vec::new();
        assert(paths(predicate_column_names@).to_set() =~= Set::empty());
        let mut physical_predicate = PhysicalPredicate::Absent;
        if let Some(p) = &predicate {
            predicate_column_names = p.references();
            physical_predicate =
            match PhysicalPredicate::try_new(p, &logical_schema, mode) {
                Ok(physical) => physical,
                Err(e) => {
                    return Err(e);
                },
            };
        }
        let usable: bool = match &physical_predicate {
            PhysicalPredicate::Present(_, _) => true,
            _ => false,
        };
        let mut table_partition_schema: Option<SchemaRef> = None;
        if usable && table_configuration.partition_columns().len() > 0 {
            let fields = table_configuration.split_physical_fields(true);
            proof {
                lemma_fields_model(fields@);
            }
            if fields.len() > 0 {
                table_partition_schema = Some(Arc::new(StructType::new_unchecked(fields)));
            }
        }
        let (physical_stats_schema, physical_partition_schema) = build_data_skipping_schemas(
            &stats_output_mode,
            &physical_predicate,
            &predicate_column_names,
            table_configuration,
            &table_partition_schema,
        );
        let transform_spec: Option<Arc<TransformSpec>> = if reads.transform_spec.len() > 0 || mode
            != ColumnMappingMode::NoMapping {
            Some(Arc::new(reads.transform_spec))
        } else {
            None
        };
        Ok(
            StateInfo {
                logical_schema,
                physical_schema,
                physical_predicate,
                transform_spec,
                column_mapping_mode: mode,
                physical_stats_schema,
                physical_partition_schema,
            },
        )
    }

    /// How many files to make room for: tables whose statistics are read tend to be large.
    pub fn dedup_capacity_hint(&self) -> (r: usize)
        ensures
            r == (if self@.physical_stats_schema is Some {
                4096usize
            } else {
                512usize
            }),
    {
        if self.physical_stats_schema.is_some() {
            4096
        } else {
            512
        }
    }

    /// The same state, but reading other statistics.
    pub fn with_physical_stats_schema(&self, physical_stats_schema: Option<SchemaRef>) -> (r: Self)
        ensures
            r@ == (StateInfoModel {
                physical_stats_schema: schema_option(physical_stats_schema),
                ..self@
            }),
    {
        StateInfo { physical_stats_schema, ..self.clone() }
    }
}

// ---------------------------------------------------------------------------
// Laws
// ---------------------------------------------------------------------------
/// There is always a name that is free.
pub proof fn lemma_first_free_exists(fields: Seq<FieldModel>, n: nat) -> (m: nat)
    requires
        forall|k: nat| k < n ==> has_field(fields, #[trigger] row_index_name(k)),
    ensures
        is_first_free(fields, m),
    decreases fields.len() + 1 - n,
{
    lemma_names_taken(fields, n);
    if has_field(fields, row_index_name(n)) {
        lemma_names_taken(fields, n + 1);
        lemma_first_free_exists(fields, n + 1)
    } else {
        n
    }
}

/// The column of row indexes that a scan adds by itself has a name that no field of the scan has.
pub proof fn law_added_row_index_name_is_free(logical: Seq<FieldModel>)
    ensures
        !has_field(logical, free_row_index_name(logical)),
{
    let m = lemma_first_free_exists(logical, 0);
    assert(is_first_free(logical, m));
    let chosen = choose|n: nat| is_first_free(logical, n);
    assert(is_first_free(logical, chosen));
}

/// Where a scan has a column of row ids that can be read, it is known where files keep row ids.
proof fn lemma_row_id_is_known(fields: Seq<FieldModel>, config: TableConfigurationModel, i: int)
    requires
        metadata_info(fields, config) is Ok,
        0 <= i < fields.len(),
        fields[i].metadata_column == Some(MetadataColumnSpec::RowId),
    ensures
        metadata_info(fields, config)->Ok_0.row_id is Some,
    decreases fields.len(),
{
    if i < fields.len() - 1 {
        lemma_row_id_is_known(fields.drop_last(), config, i);
    }
}

proof fn lemma_no_internal_error_in_plan<C: TransformFieldClassifier>(
    logical: Seq<FieldModel>,
    n: nat,
    config: TableConfigurationModel,
    info: MetadataInfoModel,
    classifier: C,
)
    requires
        n <= logical.len(),
        metadata_info(logical, config) == Ok::<MetadataInfoModel, ErrorModel>(info),
    ensures
        read_plan(logical, n, config, info, classifier) matches Err(e) ==> !(e is InternalError),
    decreases n,
{
    if n > 0 {
        lemma_no_internal_error_in_plan(logical, (n - 1) as nat, config, info, classifier);
        if logical[n - 1].metadata_column == Some(MetadataColumnSpec::RowId) {
            lemma_row_id_is_known(logical, config, n - 1);
        }
    }
}

proof fn lemma_metadata_info_error_kind(fields: Seq<FieldModel>, config: TableConfigurationModel)
    ensures
        metadata_info(fields, config) matches Err(e) ==> !(e is InternalError),
    decreases fields.len(),
{
    if fields.len() > 0 {
        lemma_metadata_info_error_kind(fields.drop_last(), config);
    }
}

proof fn lemma_schema_error_kind(fields: Seq<FieldModel>, n: nat)
    ensures
        first_clash(fields, n) matches Some(e) ==> e is Schema,
    decreases n,
{
    if n > 0 {
        lemma_schema_error_kind(fields, (n - 1) as nat);
    }
}

proof fn lemma_referenced_error_kind(
    fields: Seq<FieldModel>,
    wanted: Set<Path>,
    prefix: Path,
    mode: ColumnMappingMode,
)
    ensures
        referenced_fields(fields, wanted, prefix, mode) matches Err(e) ==> e is Schema,
    decreases fields,
{
    reveal_with_fuel(referenced_fields, 2);
    reveal_with_fuel(referenced_field, 2);
    if fields.len() > 0 {
        let f = fields.last();
        lemma_referenced_error_kind(fields.drop_last(), wanted, prefix, mode);
        if let DataTypeModel::Struct(inner) = f.data_type {
            lemma_referenced_error_kind(inner, wanted, prefix.push(f.name), mode);
        }
    }
}

/// Setting up a scan never runs into a broken assumption of the library's own: a column of row ids
/// is only ever reached when it is known where files keep row ids.
pub proof fn law_no_internal_error<C: TransformFieldClassifier>(
    logical: Seq<FieldModel>,
    config: TableConfigurationModel,
    predicate: Option<PredicateModel>,
    output: StatsOutputModel,
    classifier: C,
)
    ensures
        state_info(logical, config, predicate, output, classifier) matches Err(e) ==> !(
        e is InternalError),
{
    lemma_metadata_info_error_kind(logical, config);
    if let Ok(info) = metadata_info(logical, config) {
        lemma_no_internal_error_in_plan(logical, logical.len(), config, info, classifier);
        if let Ok(plan) = read_plan(logical, logical.len(), config, info, classifier) {
            lemma_schema_error_kind(plan.fields, plan.fields.len());
            if let Some(p) = predicate {
                lemma_referenced_error_kind(
                    logical,
                    predicate_references(p),
                    Seq::empty(),
                    config.column_mapping_mode,
                );
            }
        }
    }
}

/// Of the first `n` fields of a scan, the physical counterparts of those by which the table is not
/// partitioned, in order.
pub open spec fn read_counterparts(
    logical: Seq<FieldModel>,
    n: nat,
    config: TableConfigurationModel,
) -> Seq<FieldModel>
    decreases n,
{
    if n == 0 {
        Seq::empty()
    } else {
        let init = read_counterparts(logical, (n - 1) as nat, config);
        if config.metadata.partition_columns.contains(logical[n - 1].name) {
            init
        } else {
            init.push(physical_field(logical[n - 1], config.column_mapping_mode)->0)
        }
    }
}

/// Of the first `n` fields of a scan, the steps that insert those by which the table is
/// partitioned: each after the last column that is read for a field before it.
pub open spec fn partition_insertions(
    logical: Seq<FieldModel>,
    n: nat,
    config: TableConfigurationModel,
) -> Seq<FieldTransformModel>
    decreases n,
{
    if n == 0 {
        Seq::empty()
    } else {
        let init = partition_insertions(logical, (n - 1) as nat, config);
        if config.metadata.partition_columns.contains(logical[n - 1].name) {
            init.push(
                FieldTransformModel::MetadataDerivedColumn {
                    field_index: n - 1,
                    insert_after: last_name(read_counterparts(logical, (n - 1) as nat, config)),
                },
            )
        } else {
            init
        }
    }
}

/// The name of the last field.
pub open spec fn last_name(fields: Seq<FieldModel>) -> Option<Seq<char>> {
    if fields.len() == 0 {
        None
    } else {
        Some(fields.last().name)
    }
}

/// Whether a field's values are row ids.
pub open spec fn is_row_id(f: FieldModel) -> bool {
    f.metadata_column == Some(MetadataColumnSpec::RowId)
}

proof fn lemma_plain_plan(
    logical: Seq<FieldModel>,
    n: nat,
    config: TableConfigurationModel,
    info: MetadataInfoModel,
)
    requires
        n <= logical.len(),
        forall|i: int| 0 <= i < logical.len() ==> !is_row_id(#[trigger] logical[i]),
    ensures
        read_plan(logical, n, config, info, ()) matches Ok(plan) ==> {
            &&& plan.fields == read_counterparts(logical, n, config)
            &&& plan.transforms == partition_insertions(logical, n, config)
            &&& plan.last == last_name(plan.fields)
        },
    decreases n,
{
    if n > 0 {
        lemma_plain_plan(logical, (n - 1) as nat, config, info);
        assert(!is_row_id(logical[n - 1]));
    }
}

/// A scan without row ids reads exactly the physical counterparts of the fields by which the table
/// is not partitioned, in their order. Each of the other fields is inserted after the last column
/// that is read for a field before it, or first where there is none, and nothing else is done to
/// the rows.
pub proof fn law_partition_columns_are_inserted(
    logical: Seq<FieldModel>,
    config: TableConfigurationModel,
    predicate: Option<PredicateModel>,
    output: StatsOutputModel,
)
    requires
        forall|i: int| 0 <= i < logical.len() ==> !is_row_id(#[trigger] logical[i]),
    ensures
        state_info(logical, config, predicate, output, ()) matches Ok(s) ==> {
            let insertions = partition_insertions(logical, logical.len(), config);
            &&& s.physical_schema == read_counterparts(logical, logical.len(), config)
            &&& s.transform_spec == (if insertions.len() > 0 || config.column_mapping_mode
                != ColumnMappingMode::NoMapping {
                Some(insertions)
            } else {
                None
            })
        },
{
    if let Ok(info) = metadata_info(logical, config) {
        lemma_plain_plan(logical, logical.len(), config, info);
    }
}

proof fn lemma_unmapped_counterparts(
    logical: Seq<FieldModel>,
    n: nat,
    config: TableConfigurationModel,
)
    requires
        n <= logical.len(),
        config.column_mapping_mode == ColumnMappingMode::NoMapping,
        forall|i: int|
            0 <= i < logical.len() ==> !config.metadata.partition_columns.contains(
                (#[trigger] logical[i]).name,
            ),
    ensures
        read_counterparts(logical, n, config) == logical.take(n as int),
        partition_insertions(logical, n, config).len() == 0,
    decreases n,
{
    if n > 0 {
        lemma_unmapped_counterparts(logical, (n - 1) as nat, config);
        law_unmapped_field_is_unchanged(logical[n - 1]);
        assert(logical.take(n as int) =~= logical.take(n - 1).push(logical[n - 1]));
    } else {
        assert(logical.take(0) =~= Seq::empty());
    }
}

/// A scan of plain columns reads its fields as they are, and does nothing to the rows: where names
/// are not mapped, no row ids are asked for and the table is not partitioned by a field of the scan.
pub proof fn law_plain_scan_reads_its_fields(
    logical: Seq<FieldModel>,
    config: TableConfigurationModel,
    predicate: Option<PredicateModel>,
    output: StatsOutputModel,
)
    requires
        config.column_mapping_mode == ColumnMappingMode::NoMapping,
        forall|i: int| 0 <= i < logical.len() ==> !is_row_id(#[trigger] logical[i]),
        forall|i: int|
            0 <= i < logical.len() ==> !config.metadata.partition_columns.contains(
                (#[trigger] logical[i]).name,
            ),
    ensures
        state_info(logical, config, predicate, output, ()) matches Ok(s) ==> {
            &&& s.physical_schema == logical
            &&& s.transform_spec is None
        },
{
    law_partition_columns_are_inserted(logical, config, predicate, output);
    lemma_unmapped_counterparts(logical, logical.len(), config);
    assert(logical.take(logical.len() as int) =~= logical);
}

/// Whether `fields` has a column of row indexes called `name`.
pub open spec fn has_row_indexes(fields: Seq<FieldModel>, name: Seq<char>) -> bool {
    exists|i: int|
        0 <= i < fields.len() && (#[trigger] fields[i]).name == name && fields[i].metadata_column
            == Some(MetadataColumnSpec::RowIndex)
}

proof fn lemma_has_row_indexes_push(fields: Seq<FieldModel>, f: FieldModel, name: Seq<char>)
    requires
        has_row_indexes(fields, name) || (f.name == name && f.metadata_column == Some(
            MetadataColumnSpec::RowIndex,
        )),
    ensures
        has_row_indexes(fields.push(f), name),
{
    let more = fields.push(f);
    if has_row_indexes(fields, name) {
        let i = choose|i: int|
            0 <= i < fields.len() && (#[trigger] fields[i]).name == name
                && fields[i].metadata_column == Some(MetadataColumnSpec::RowIndex);
        assert(more[i] == fields[i]);
    } else {
        assert(more[fields.len() as int] == f);
    }
}

/// The column of row indexes that a scan's metadata columns ask for is one of its fields, and not one
/// by which the table is partitioned.
proof fn lemma_selected_row_index(
    fields: Seq<FieldModel>,
    config: TableConfigurationModel,
    name: Seq<char>,
)
    requires
        metadata_info(fields, config) matches Ok(info) && info.row_index == Some(name),
    ensures
        has_row_indexes(fields, name),
        !config.metadata.partition_columns.contains(name),
    decreases fields.len(),
{
    let init = fields.drop_last();
    let f = fields.last();
    assert(fields =~= init.push(f));
    if f.metadata_column != Some(MetadataColumnSpec::RowIndex) {
        lemma_selected_row_index(init, config, name);
    }
    lemma_has_row_indexes_push(init, f, name);
}

/// A column of row indexes that the scan asks for is read under its own name.
proof fn lemma_row_indexes_are_read(
    logical: Seq<FieldModel>,
    n: nat,
    config: TableConfigurationModel,
    info: MetadataInfoModel,
    i: int,
)
    requires
        0 <= i < n <= logical.len(),
        logical[i].metadata_column == Some(MetadataColumnSpec::RowIndex),
        !config.metadata.partition_columns.contains(logical[i].name),
    ensures
        read_plan(logical, n, config, info, ()) matches Ok(plan) ==> has_row_indexes(
            plan.fields,
            logical[i].name,
        ),
    decreases n,
{
    if let Ok(plan) = read_plan(logical, n, config, info, ()) {
        let before = read_plan(logical, (n - 1) as nat, config, info, ())->Ok_0;
        let name = logical[i].name;
        if i < n - 1 {
            lemma_row_indexes_are_read(logical, (n - 1) as nat, config, info, i);
        }
        if plan.fields != before.fields {
            let one = before.fields.push(plan.fields[before.fields.len() as int]);
            if plan.fields.len() == before.fields.len() + 1 {
                assert(plan.fields =~= one);
                lemma_has_row_indexes_push(
                    before.fields,
                    plan.fields[before.fields.len() as int],
                    name,
                );
            } else {
                lemma_has_row_indexes_push(
                    before.fields,
                    plan.fields[before.fields.len() as int],
                    name,
                );
                lemma_has_row_indexes_push(one, plan.fields.last(), name);
                assert(plan.fields =~= one.push(plan.fields.last()));
            }
        }
    }
}

/// Where row ids are computed in a plan, row indexes come from the column that the scan asks for, or
/// else from one that is read besides, and left out again.
pub open spec fn row_ids_are_computable(
    plan: ReadPlan,
    logical: Seq<FieldModel>,
    info: MetadataInfoModel,
) -> bool {
    forall|k: int|
        0 <= k < plan.transforms.len() ==> match #[trigger] plan.transforms[k] {
            FieldTransformModel::GenerateRowId { field_name, row_index_field_name } => {
                match info.row_index {
                    Some(name) => row_index_field_name == name,
                    None => {
                        &&& row_index_field_name == free_row_index_name(logical)
                        &&& has_row_indexes(plan.fields, row_index_field_name)
                        &&& plan.transforms.contains(
                            FieldTransformModel::StaticDrop { field_name: row_index_field_name },
                        )
                    },
                }
            },
            _ => true,
        }
}

proof fn lemma_row_ids_are_computable(
    logical: Seq<FieldModel>,
    n: nat,
    config: TableConfigurationModel,
    info: MetadataInfoModel,
)
    requires
        n <= logical.len(),
    ensures
        read_plan(logical, n, config, info, ()) matches Ok(plan) ==> row_ids_are_computable(
            plan,
            logical,
            info,
        ),
    decreases n,
{
    if n > 0 {
        lemma_row_ids_are_computable(logical, (n - 1) as nat, config, info);
        if let Ok(plan) = read_plan(logical, n, config, info, ()) {
            let before = read_plan(logical, (n - 1) as nat, config, info, ())->Ok_0;
            let free = free_row_index_name(logical);
            let dropped = FieldTransformModel::StaticDrop { field_name: free };
            assert forall|k: int| 0 <= k < plan.transforms.len() implies match #[trigger] plan.transforms[k] {
                FieldTransformModel::GenerateRowId { field_name, row_index_field_name } => {
                    match info.row_index {
                        Some(name) => row_index_field_name == name,
                        None => {
                            &&& row_index_field_name == free
                            &&& has_row_indexes(plan.fields, row_index_field_name)
                            &&& plan.transforms.contains(dropped)
                        },
                    }
                },
                _ => true,
            } by {
                if plan.transforms[k] is GenerateRowId && info.row_index is None {
                    let f0 = before.fields;
                    if k < before.transforms.len() {
                        assert(plan.transforms[k] == before.transforms[k]);
                        assert(has_row_indexes(f0, free));
                        let m = choose|m: int|
                            0 <= m < before.transforms.len() && before.transforms[m] == dropped;
                        assert(plan.transforms[m] == dropped);
                        if plan.fields.len() == f0.len() + 1 {
                            assert(plan.fields =~= f0.push(plan.fields.last()));
                            lemma_has_row_indexes_push(f0, plan.fields.last(), free);
                        } else if plan.fields.len() == f0.len() + 2 {
                            let one = f0.push(plan.fields[f0.len() as int]);
                            assert(plan.fields =~= one.push(plan.fields.last()));
                            lemma_has_row_indexes_push(f0, plan.fields[f0.len() as int], free);
                            lemma_has_row_indexes_push(one, plan.fields.last(), free);
                        } else {
                            assert(plan.fields =~= f0);
                        }
                    } else {
                        assert(plan.transforms[before.transforms.len() as int] == dropped);
                        let one = f0.push(metadata_field(free, MetadataColumnSpec::RowIndex));
                        lemma_has_row_indexes_push(
                            f0,
                            metadata_field(free, MetadataColumnSpec::RowIndex),
                            free,
                        );
                        lemma_has_row_indexes_push(one, plan.fields.last(), free);
                        assert(plan.fields =~= one.push(plan.fields.last()));
                    }
                } else if k < before.transforms.len() {
                    assert(plan.transforms[k] == before.transforms[k]);
                }
            }
        }
    }
}

/// A scan that computes row ids reads the row indexes that it computes them from. Where it does not
/// hand out row indexes, their column has a name that no field of the scan has, and is left out of
/// the rows again.
pub proof fn law_row_ids_have_row_indexes(
    logical: Seq<FieldModel>,
    config: TableConfigurationModel,
    predicate: Option<PredicateModel>,
    output: StatsOutputModel,
    row_id: Seq<char>,
    row_index: Seq<char>,
)
    ensures
        state_info(logical, config, predicate, output, ()) matches Ok(s) ==> (
        s.transform_spec matches Some(transforms) ==> (transforms.contains(
            FieldTransformModel::GenerateRowId {
                field_name: row_id,
                row_index_field_name: row_index,
            },
        ) ==> {
            &&& has_row_indexes(s.physical_schema, row_index)
            &&& has_row_indexes(logical, row_index) || (!has_field(logical, row_index)
                && transforms.contains(FieldTransformModel::StaticDrop { field_name: row_index }))
        })),
{
    if let Ok(s) = state_info(logical, config, predicate, output, ()) {
        let info = metadata_info(logical, config)->Ok_0;
        let plan = read_plan(logical, logical.len(), config, info, ())->Ok_0;
        let step = FieldTransformModel::GenerateRowId {
            field_name: row_id,
            row_index_field_name: row_index,
        };
        if let Some(transforms) = s.transform_spec {
            if transforms.contains(step) {
                lemma_row_ids_are_computable(logical, logical.len(), config, info);
                let k = choose|k: int| 0 <= k < transforms.len() && transforms[k] == step;
                assert(plan.transforms[k] == step);
                law_added_row_index_name_is_free(logical);
                if let Some(name) = info.row_index {
                    lemma_selected_row_index(logical, config, name);
                    let i = choose|i: int|
                        0 <= i < logical.len() && (#[trigger] logical[i]).name == name
                            && logical[i].metadata_column == Some(MetadataColumnSpec::RowIndex);
                    lemma_row_indexes_are_read(logical, logical.len(), config, info, i);
                }
            }
        }
    }
}

/// A scan without a predicate skips no file: it has no predicate on files and no partition column to
/// skip by, and it reads statistics only where they are asked for.
pub proof fn law_without_predicate_nothing_is_skipped<C: TransformFieldClassifier>(
    logical: Seq<FieldModel>,
    config: TableConfigurationModel,
    output: StatsOutputModel,
    classifier: C,
)
    ensures
        state_info(logical, config, None, output, classifier) matches Ok(s) ==> {
            &&& s.physical_predicate is Absent
            &&& s.physical_partition_schema is None
            &&& s.physical_stats_schema is Some ==> (output is AllColumns || (
            output matches StatsOutputModel::Columns(columns) && columns.len() > 0))
        },
{
}

/// What a scan skips by: every partition column that it uses is nullable and stands for a column
/// that the predicate mentions and the table is partitioned by. And where no statistics are asked
/// for, a column that the predicate mentions is used in one way only: by its statistics exactly if
/// its partition value is not used.
pub proof fn law_columns_are_skipped_by_one_way<C: TransformFieldClassifier>(
    logical: Seq<FieldModel>,
    config: TableConfigurationModel,
    predicate: Option<PredicateModel>,
    output: StatsOutputModel,
    classifier: C,
    f: FieldModel,
)
    ensures
        state_info(logical, config, predicate, output, classifier) matches Ok(s) ==> {
            &&& s.physical_partition_schema matches Some(partition) ==> {
                &&& s.physical_predicate matches PhysicalPredicateModel::Present(_, mentioned)
                &&& partition.contains(f) ==> f.nullable && has_field(mentioned, f.name)
                    && has_field(split_fields(config, true), f.name)
            }
            &&& (output is Skip || output == StatsOutputModel::Columns(Seq::empty()))
                && s.physical_predicate is Present ==> {
                let mentioned = s.physical_predicate->Present_1;
                let data = match s.physical_partition_schema {
                    Some(partition) => fields_filtered(mentioned, partition, false),
                    None => mentioned,
                };
                &&& s.physical_stats_schema == skipping_statistics(data)
                &&& mentioned.contains(f) ==> (data.contains(f) <==> !(
                s.physical_partition_schema matches Some(partition) && has_field(
                    partition,
                    f.name,
                )))
            }
        },
{
    if let Ok(s) = state_info(logical, config, predicate, output, classifier) {
        if let Some(partition) = s.physical_partition_schema {
            let mentioned = s.physical_predicate->Present_1;
            let all = split_fields(config, true);
            let kept = fields_filtered(mentioned, all, true);
            assert(partition == nullable_fields(kept));
            if partition.contains(f) {
                let i = choose|i: int| 0 <= i < partition.len() && partition[i] == f;
                let g = kept[i];
                assert(f == plain_field(g.name, g.data_type, true));
                lemma_fields_filtered(mentioned, all, true, g);
                assert(kept.contains(g));
                let j = choose|j: int| 0 <= j < mentioned.len() && mentioned[j] == g;
                assert(mentioned[j].name == f.name);
            }
            lemma_fields_filtered(mentioned, partition, false, f);
        }
    }
}

/// Where statistics on some columns are asked for, those on the columns of the predicate are read as
/// well: a column of the table that is asked for, or that the predicate mentions, is among the
/// columns whose statistics are read.
pub proof fn law_requested_and_mentioned_columns_are_wanted(
    config: TableConfigurationModel,
    requested: Seq<Path>,
    mentioned: Set<Path>,
    column: Path,
)
    requires
        requested.contains(column) || mentioned.contains(column),
    ensures
        physical_path(config.logical_schema, column, config.column_mapping_mode) matches Some(p)
            ==> is_wanted(
            Some(needed_columns(requested.to_set().union(mentioned), config)),
            p,
        ),
{
    if let Some(p) = physical_path(config.logical_schema, column, config.column_mapping_mode) {
        let all = requested.to_set().union(mentioned);
        assert(all.contains(column));
        assert(needed_columns(all, config).contains(p));
        assert(p.is_prefix_of(p)) by {
            assert(p.subrange(0, p.len() as int) =~= p);
        }
        assert(lies_in(needed_columns(all, config), p));
    }
}

/// What a metadata column is refused for: the name of a partition column; row ids, where row tracking is
/// not switched on, or where the table does not say in which column it keeps them. Each has its own
/// kind of error. Another column is never refused.
pub proof fn law_metadata_columns_are_refused_for_a_reason(
    info: MetadataInfoModel,
    f: FieldModel,
    config: TableConfigurationModel,
)
    ensures
        ({
            let r = metadata_step(info, f, config);
            let partition = config.metadata.partition_columns.contains(f.name);
            let switched_on = lookup(config.metadata.configuration, "delta.enableRowTracking"@)
                == Some("true"@);
            let kept = lookup(
                config.metadata.configuration,
                "delta.rowTracking.materializedRowIdColumnName"@,
            );
            &&& f.metadata_column is None ==> r == Ok::<MetadataInfoModel, ErrorModel>(info)
            &&& f.metadata_column is Some && partition ==> (r matches Err(e) && e is Schema)
            &&& is_row_id(f) && !partition && !switched_on ==> (r matches Err(e) && e is Unsupported)
            &&& is_row_id(f) && !partition && switched_on && kept is None ==> (r matches Err(e)
                && e is Generic)
            &&& f.metadata_column is Some && !partition && (!is_row_id(f) || (switched_on
                && kept is Some)) ==> r is Ok
        }),
{
    law_row_tracking_is_switched_by_property(config.metadata.configuration);
}

/// What a field is refused for when it is to be read: row commit versions; an annotation that is
/// missing; and a name in files that is that of a metadata column. Each has its own kind of error. A
/// field that a classifier computes, or that the table is partitioned by, is never refused.
pub proof fn law_fields_are_refused_for_a_reason<C: TransformFieldClassifier>(
    plan: ReadPlan,
    logical: Seq<FieldModel>,
    index: int,
    config: TableConfigurationModel,
    info: MetadataInfoModel,
    classifier: C,
)
    ensures
        ({
            let f = logical[index];
            let r = read_step(plan, logical, index, config, info, classifier);
            let computed = classifier.classification(f, index, plan.last) is Some;
            let partition = config.metadata.partition_columns.contains(f.name);
            let counterpart = physical_field(f, config.column_mapping_mode);
            let versions = f.metadata_column == Some(MetadataColumnSpec::RowCommitVersion);
            &&& computed || partition ==> r is Ok
            &&& !computed && !partition && versions ==> (r matches Err(e) && e is Unsupported)
            &&& !computed && !partition && !versions && !is_row_id(f) ==> {
                &&& counterpart is None ==> (r matches Err(e) && e is Schema)
                &&& counterpart matches Some(p) ==> {
                    let taken = f.metadata_column is None && info.names.contains(p.name);
                    &&& taken ==> (r matches Err(e) && e is Schema)
                    &&& !taken ==> r is Ok
                }
            }
        }),
{
}

/// States with the same content are the same in every respect.
pub proof fn law_content_of_a_state(a: StateInfo, b: StateInfo)
    requires
        a@ == b@,
    ensures
        a.logical_schema@ == b.logical_schema@,
        a.physical_schema@ == b.physical_schema@,
        a.physical_predicate@ == b.physical_predicate@,
        a.transform_spec is Some <==> b.transform_spec is Some,
        a.transform_spec matches Some(s) ==> (b.transform_spec matches Some(t) && transforms_model(
            s@,
        ) == transforms_model(t@)),
        a.column_mapping_mode == b.column_mapping_mode,
        schema_option(a.physical_stats_schema) == schema_option(b.physical_stats_schema),
        schema_option(a.physical_partition_schema) == schema_option(b.physical_partition_schema),
{
}

} // verus!
