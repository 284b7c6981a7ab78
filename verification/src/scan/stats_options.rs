//! Which statistics a scan reads, and the actions of a commit that it reads.
use std::sync::Arc;
use vstd::prelude::*;

use crate::expressions::{paths, ColumnName, Path};
use crate::schema::{
    data_type_model, fields_model, keeps_in_order, lemma_fields_model, lemma_fields_model_push,
    plain_field, DataType, DataTypeModel, FieldModel, PrimitiveType, SchemaRef, StructField, StructType,
};
use crate::text::same_text;

verus! {

/// Which typed statistics a scan hands out.
#[derive(Debug, PartialEq, Eq)]
pub enum StructStats {
    /// None.
    Skip,
    /// Those on the named columns.
    Columns(Vec<ColumnName>),
    /// Those on every column.
    All,
}

/// The content of a [`StructStats`].
pub enum StructStatsModel {
    Skip,
    Columns(Seq<Path>),
    All,
}

impl View for StructStats {
    type V = StructStatsModel;

    open spec fn view(&self) -> StructStatsModel {
        match *self {
            StructStats::Skip => StructStatsModel::Skip,
            StructStats::Columns(columns) => StructStatsModel::Columns(paths(columns@)),
            StructStats::All => StructStatsModel::All,
        }
    }
}

/// Which statistics a scan hands out.
#[derive(Debug, PartialEq, Eq)]
pub struct StatsOptions {
    /// Whether statistics come as JSON text.
    pub synthesize_json: bool,
    /// Which statistics come typed.
    pub struct_stats: StructStats,
    /// Whether the JSON text of a checkpoint is read where it has no typed statistics.
    pub checkpoint_stats_json_fallback: bool,
}

impl StatsOptions {
    /// The given statistics. The JSON text of checkpoints is read where nothing is said of it.
    pub fn from_parts(
        synthesize_json: bool,
        struct_stats: StructStats,
        checkpoint_stats_json_fallback: Option<bool>,
    ) -> (r: Self)
        ensures
            r.synthesize_json == synthesize_json,
            r.struct_stats == struct_stats,
            r.checkpoint_stats_json_fallback == (match checkpoint_stats_json_fallback {
                Some(fallback) => fallback,
                None => true,
            }),
    {
        StatsOptions {
            synthesize_json,
            struct_stats,
            checkpoint_stats_json_fallback: match checkpoint_stats_json_fallback {
                Some(fallback) => fallback,
                None => true,
            },
        }
    }

    /// JSON text only.
    pub fn json_only() -> (r: Self)
        ensures
            r.synthesize_json,
            r.struct_stats@ == StructStatsModel::Skip,
            r.checkpoint_stats_json_fallback,
    {
        StatsOptions {
            synthesize_json: true,
            struct_stats: StructStats::Skip,
            checkpoint_stats_json_fallback: true,
        }
    }

    /// Typed statistics only, on every column.
    pub fn all_struct() -> (r: Self)
        ensures
            !r.synthesize_json,
            r.struct_stats@ == StructStatsModel::All,
            r.checkpoint_stats_json_fallback,
    {
        StatsOptions {
            synthesize_json: false,
            struct_stats: StructStats::All,
            checkpoint_stats_json_fallback: true,
        }
    }

    /// Typed statistics only, on the named columns.
    pub fn struct_columns(columns: Vec<ColumnName>) -> (r: Self)
        ensures
            !r.synthesize_json,
            r.struct_stats@ == StructStatsModel::Columns(paths(columns@)),
            r.checkpoint_stats_json_fallback,
    {
        StatsOptions {
            synthesize_json: false,
            struct_stats: StructStats::Columns(columns),
            checkpoint_stats_json_fallback: true,
        }
    }

    /// JSON text, and typed statistics on every column.
    pub fn all() -> (r: Self)
        ensures
            r.synthesize_json,
            r.struct_stats@ == StructStatsModel::All,
            r.checkpoint_stats_json_fallback,
    {
        StatsOptions {
            synthesize_json: true,
            struct_stats: StructStats::All,
            checkpoint_stats_json_fallback: true,
        }
    }

    /// No statistics.
    pub fn none() -> (r: Self)
        ensures
            !r.synthesize_json,
            r.struct_stats@ == StructStatsModel::Skip,
            r.checkpoint_stats_json_fallback,
    {
        StatsOptions {
            synthesize_json: false,
            struct_stats: StructStats::Skip,
            checkpoint_stats_json_fallback: true,
        }
    }

    /// The same statistics, with the given choice for checkpoints without typed statistics.
    pub fn with_checkpoint_stats_json_fallback(self, fallback: bool) -> (r: Self)
        ensures
            r.synthesize_json == self.synthesize_json,
            r.struct_stats == self.struct_stats,
            r.checkpoint_stats_json_fallback == fallback,
    {
        StatsOptions {
            synthesize_json: self.synthesize_json,
            struct_stats: self.struct_stats,
            checkpoint_stats_json_fallback: fallback,
        }
    }
}

impl Default for StatsOptions {
    /// JSON text only.
    fn default() -> (r: Self)
        ensures
            r.synthesize_json,
            r.struct_stats@ == StructStatsModel::Skip,
            r.checkpoint_stats_json_fallback,
    {
        StatsOptions::json_only()
    }
}

// ---------------------------------------------------------------------------
// The actions of a commit
// ---------------------------------------------------------------------------
/// The action that adds a file.
pub const ADD_NAME: &'static str = "add";

/// The action that removes a file.
pub const REMOVE_NAME: &'static str = "remove";

/// The field of an action that holds statistics as JSON text.
pub const STATS_NAME: &'static str = "stats";

/// A map from text to text.
pub open spec fn text_map() -> DataTypeModel {
    DataTypeModel::MapOf(
        Box::new(DataTypeModel::Primitive(PrimitiveType::String)),
        Box::new(DataTypeModel::Primitive(PrimitiveType::String)),
        true,
    )
}

fn build_text_map() -> (r: DataType)
    ensures
        r@ == text_map(),
{
    let key = DataType::Primitive(PrimitiveType::String);
    let value = DataType::Primitive(PrimitiveType::String);
    proof {
        reveal_with_fuel(data_type_model, 2);
    }
    DataType::MapOf(Box::new(key), Box::new(value), true)
}

fn push_field(fields: &mut Vec<StructField>, f: StructField)
    ensures
        fields_model(final(fields)@) == fields_model(old(fields)@).push(f@),
{
    proof {
        lemma_fields_model_push(fields@, f);
    }
    fields.push(f);
}

/// The fields of a deletion vector.
pub open spec fn deletion_vector_fields() -> Seq<FieldModel> {
    Seq::empty()
        .push(plain_field("storageType"@, DataTypeModel::Primitive(PrimitiveType::String), false))
        .push(plain_field("pathOrInlineDv"@, DataTypeModel::Primitive(PrimitiveType::String), false))
        .push(plain_field("offset"@, DataTypeModel::Primitive(PrimitiveType::Integer), true))
        .push(plain_field("sizeInBytes"@, DataTypeModel::Primitive(PrimitiveType::Integer), false))
        .push(plain_field("cardinality"@, DataTypeModel::Primitive(PrimitiveType::Long), false))
}

fn build_deletion_vector_fields() -> (r: Vec<StructField>)
    ensures
        fields_model(r@) == deletion_vector_fields(),
{
    let mut r: Vec<StructField> = Vec::new();
    push_field(&mut r, StructField::not_null("storageType", DataType::Primitive(PrimitiveType::String)));
    push_field(&mut r, StructField::not_null("pathOrInlineDv", DataType::Primitive(PrimitiveType::String)));
    push_field(&mut r, StructField::nullable("offset", DataType::Primitive(PrimitiveType::Integer)));
    push_field(&mut r, StructField::not_null("sizeInBytes", DataType::Primitive(PrimitiveType::Integer)));
    push_field(&mut r, StructField::not_null("cardinality", DataType::Primitive(PrimitiveType::Long)));
    r
}

/// The fields of the action that adds a file.
pub open spec fn add_fields() -> Seq<FieldModel> {
    Seq::empty()
        .push(plain_field("path"@, DataTypeModel::Primitive(PrimitiveType::String), false))
        .push(plain_field("partitionValues"@, text_map(), false))
        .push(plain_field("size"@, DataTypeModel::Primitive(PrimitiveType::Long), false))
        .push(plain_field("modificationTime"@, DataTypeModel::Primitive(PrimitiveType::Long), false))
        .push(plain_field("dataChange"@, DataTypeModel::Primitive(PrimitiveType::Boolean), false))
        .push(plain_field("stats"@, DataTypeModel::Primitive(PrimitiveType::String), true))
        .push(plain_field("tags"@, text_map(), true))
        .push(plain_field("deletionVector"@, DataTypeModel::Struct(deletion_vector_fields()), true))
        .push(plain_field("baseRowId"@, DataTypeModel::Primitive(PrimitiveType::Long), true))
        .push(plain_field("defaultRowCommitVersion"@, DataTypeModel::Primitive(PrimitiveType::Long), true))
        .push(plain_field("clusteringProvider"@, DataTypeModel::Primitive(PrimitiveType::String), true))
}

fn build_add_fields() -> (r: Vec<StructField>)
    ensures
        fields_model(r@) == add_fields(),
{
    let mut r: Vec<StructField> = Vec::new();
    push_field(&mut r, StructField::not_null("path", DataType::Primitive(PrimitiveType::String)));
    push_field(&mut r, StructField::not_null("partitionValues", build_text_map()));
    push_field(&mut r, StructField::not_null("size", DataType::Primitive(PrimitiveType::Long)));
    push_field(&mut r, StructField::not_null("modificationTime", DataType::Primitive(PrimitiveType::Long)));
    push_field(&mut r, StructField::not_null("dataChange", DataType::Primitive(PrimitiveType::Boolean)));
    push_field(&mut r, StructField::nullable("stats", DataType::Primitive(PrimitiveType::String)));
    push_field(&mut r, StructField::nullable("tags", build_text_map()));
    push_field(&mut r, StructField::nullable("deletionVector", DataType::Struct(Box::new(StructType::new_unchecked(build_deletion_vector_fields())))));
    push_field(&mut r, StructField::nullable("baseRowId", DataType::Primitive(PrimitiveType::Long)));
    push_field(&mut r, StructField::nullable("defaultRowCommitVersion", DataType::Primitive(PrimitiveType::Long)));
    push_field(&mut r, StructField::nullable("clusteringProvider", DataType::Primitive(PrimitiveType::String)));
    r
}

/// The fields of the action that removes a file.
pub open spec fn remove_fields() -> Seq<FieldModel> {
    Seq::empty()
        .push(plain_field("path"@, DataTypeModel::Primitive(PrimitiveType::String), false))
        .push(plain_field("deletionTimestamp"@, DataTypeModel::Primitive(PrimitiveType::Long), true))
        .push(plain_field("dataChange"@, DataTypeModel::Primitive(PrimitiveType::Boolean), false))
        .push(plain_field("extendedFileMetadata"@, DataTypeModel::Primitive(PrimitiveType::Boolean), true))
        .push(plain_field("partitionValues"@, text_map(), true))
        .push(plain_field("size"@, DataTypeModel::Primitive(PrimitiveType::Long), true))
        .push(plain_field("stats"@, DataTypeModel::Primitive(PrimitiveType::String), true))
        .push(plain_field("tags"@, text_map(), true))
        .push(plain_field("deletionVector"@, DataTypeModel::Struct(deletion_vector_fields()), true))
        .push(plain_field("baseRowId"@, DataTypeModel::Primitive(PrimitiveType::Long), true))
        .push(plain_field("defaultRowCommitVersion"@, DataTypeModel::Primitive(PrimitiveType::Long), true))
}

fn build_remove_fields() -> (r: Vec<StructField>)
    ensures
        fields_model(r@) == remove_fields(),
{
    let mut r: Vec<StructField> = Vec::new();
    push_field(&mut r, StructField::not_null("path", DataType::Primitive(PrimitiveType::String)));
    push_field(&mut r, StructField::nullable("deletionTimestamp", DataType::Primitive(PrimitiveType::Long)));
    push_field(&mut r, StructField::not_null("dataChange", DataType::Primitive(PrimitiveType::Boolean)));
    push_field(&mut r, StructField::nullable("extendedFileMetadata", DataType::Primitive(PrimitiveType::Boolean)));
    push_field(&mut r, StructField::nullable("partitionValues", build_text_map()));
    push_field(&mut r, StructField::nullable("size", DataType::Primitive(PrimitiveType::Long)));
    push_field(&mut r, StructField::nullable("stats", DataType::Primitive(PrimitiveType::String)));
    push_field(&mut r, StructField::nullable("tags", build_text_map()));
    push_field(&mut r, StructField::nullable("deletionVector", DataType::Struct(Box::new(StructType::new_unchecked(build_deletion_vector_fields())))));
    push_field(&mut r, StructField::nullable("baseRowId", DataType::Primitive(PrimitiveType::Long)));
    push_field(&mut r, StructField::nullable("defaultRowCommitVersion", DataType::Primitive(PrimitiveType::Long)));
    r
}

/// The actions of a commit that a scan reads.
pub open spec fn commit_read_fields() -> Seq<FieldModel> {
    Seq::empty().push(plain_field(ADD_NAME@, DataTypeModel::Struct(add_fields()), true)).push(
        plain_field(REMOVE_NAME@, DataTypeModel::Struct(remove_fields()), true),
    )
}

/// The schema of the actions of a commit that a scan reads.
pub fn commit_read_schema() -> (r: SchemaRef)
    ensures
        r@ == commit_read_fields(),
{
    let mut r: Vec<StructField> = Vec::new();
    let add_action = StructType::new_unchecked(build_add_fields());
    let remove_action = StructType::new_unchecked(build_remove_fields());
    push_field(&mut r, StructField::nullable(ADD_NAME, DataType::Struct(Box::new(add_action))));
    push_field(&mut r, StructField::nullable(REMOVE_NAME, DataType::Struct(Box::new(remove_action))));
    Arc::new(StructType::new_unchecked(r))
}

/// The fields that are not called `name`, in order.
pub open spec fn without_field(fields: Seq<FieldModel>, name: Seq<char>) -> Seq<FieldModel> {
    fields.filter(|f: FieldModel| f.name != name)
}

/// A field without the fields called `name` directly inside it.
pub open spec fn without_nested(f: FieldModel, name: Seq<char>) -> FieldModel {
    match f.data_type {
        DataTypeModel::Struct(inner) => FieldModel {
            data_type: DataTypeModel::Struct(without_field(inner, name)),
            ..f
        },
        _ => f,
    }
}

fn drop_field(fields: &Vec<StructField>, name: &str) -> (r: Vec<StructField>)
    ensures
        fields_model(r@) == without_field(fields_model(fields@), name@),
{
    let ghost model = fields_model(fields@);
    let ghost keep = |f: FieldModel| f.name != name@;
    let mut r: Vec<StructField> = Vec::new();
    let mut i: usize = 0;
    proof {
        lemma_fields_model(fields@);
        reveal(Seq::filter);
    }
    while i < fields.len()
        invariant
            i <= fields.len(),
            model == fields_model(fields@),
            model.len() == fields.len(),
            keep == (|f: FieldModel| f.name != name@),
            fields_model(r@) == model.take(i as int).filter(keep),
        decreases fields.len() - i,
    {
        proof {
            reveal(Seq::filter);
            lemma_fields_model(fields@);
            assert(model[i as int] == fields@[i as int]@);
            assert(model.take(i + 1).drop_last() =~= model.take(i as int));
        }
        if !same_text(fields[i].name.as_str(), name) {
            push_field(&mut r, fields[i].clone());
        }
        i = i + 1;
    }
    assert(model.take(i as int) =~= model);
    r
}

/// A schema whose fields lack the fields called `name` directly inside them.
pub fn omit_nested(schema: &StructType, name: &str) -> (r: StructType)
    ensures
        r@ == schema@.map_values(|f: FieldModel| without_nested(f, name@)),
{
    let fields = schema.fields();
    let ghost wanted = schema@.map_values(|f: FieldModel| without_nested(f, name@));
    let mut r: Vec<StructField> = Vec::new();
    let mut i: usize = 0;
    proof {
        lemma_fields_model(fields@);
    }
    while i < fields.len()
        invariant
            i <= fields.len(),
            fields_model(fields@) == schema@,
            schema@.len() == fields.len(),
            wanted == schema@.map_values(|f: FieldModel| without_nested(f, name@)),
            fields_model(r@) == wanted.take(i as int),
        decreases fields.len() - i,
    {
        let f = fields[i].clone();
        proof {
            lemma_fields_model(fields@);
            assert(schema@[i as int] == fields@[i as int]@);
            assert(wanted.take(i + 1) =~= wanted.take(i as int).push(wanted[i as int]));
        }
        match &f.data_type {
            DataType::Struct(inner) => {
                let kept = StructType::new_unchecked(drop_field(&inner.fields, name));
                let g = StructField {
                    name: f.name.clone(),
                    data_type: DataType::Struct(Box::new(kept)),
                    nullable: f.nullable,
                    metadata: f.metadata,
                    metadata_column: f.metadata_column,
                };
                push_field(&mut r, g);
            },
            _ => {
                push_field(&mut r, f);
            },
        }
        i = i + 1;
    }
    assert(wanted.take(i as int) =~= wanted);
    StructType::new_unchecked(r)
}

/// The actions of a commit that a scan without statistics reads.
pub open spec fn commit_read_fields_no_json_stats() -> Seq<FieldModel> {
    commit_read_fields().map_values(|f: FieldModel| without_nested(f, STATS_NAME@))
}

/// The schema of the actions of a commit that a scan without statistics reads: the same actions,
/// without their statistics.
pub fn commit_read_schema_no_json_stats() -> (r: SchemaRef)
    ensures
        r@ == commit_read_fields_no_json_stats(),
{
    Arc::new(omit_nested(&commit_read_schema(), STATS_NAME))
}

/// A scan without statistics reads the same actions of a commit as any other, and of each action the
/// same fields in the same order, but for the statistics.
pub proof fn law_no_stats_schema_omits_only_stats()
    ensures
        commit_read_fields_no_json_stats().len() == commit_read_fields().len(),
        forall|i: int|
            0 <= i < commit_read_fields().len() ==> {
                let before = #[trigger] commit_read_fields()[i];
                let after = commit_read_fields_no_json_stats()[i];
                &&& after.name == before.name
                &&& before.data_type matches DataTypeModel::Struct(fields) && after.data_type
                    == DataTypeModel::Struct(without_field(fields, STATS_NAME@))
            },
{
}

/// Leaving out a name leaves out the fields of that name, and keeps every other one, in order.
pub proof fn law_only_that_name_is_left_out(fields: Seq<FieldModel>, name: Seq<char>) -> (positions:
    Seq<int>)
    ensures
        keeps_in_order(
            fields,
            |i: int| fields[i].name != name,
            without_field(fields, name),
            positions,
        ),
    decreases fields.len(),
{
    reveal(Seq::filter);
    let passes = |i: int| fields[i].name != name;
    if fields.len() == 0 {
        Seq::empty()
    } else {
        let init = fields.drop_last();
        let n = init.len() as int;
        let before = law_only_that_name_is_left_out(init, name);
        let passes_before = |i: int| init[i].name != name;
        let kept = without_field(fields, name);
        let positions = if passes(n) {
            before.push(n)
        } else {
            before
        };
        assert forall|k: int| 0 <= k < kept.len() implies 0 <= #[trigger] positions[k] < fields.len()
            && kept[k] == fields[positions[k]] && passes(positions[k]) by {
            if k < before.len() {
                assert(positions[k] == before[k]);
                assert(init[before[k]] == fields[before[k]]);
                assert(passes_before(before[k]));
            }
        }
        assert forall|i: int| 0 <= i < fields.len() && #[trigger] passes(
            i,
        ) implies positions.contains(i) by {
            if i < n {
                assert(init[i] == fields[i]);
                assert(passes_before(i));
                assert(before.contains(i));
                let k = choose|k: int| 0 <= k < before.len() && before[k] == i;
                assert(positions[k] == i);
            } else {
                assert(positions[before.len() as int] == n);
            }
        }
        positions
    }
}

/// A field from which nested fields are left out is otherwise as it was, and one that holds no fields is
/// as it was altogether.
pub proof fn law_leaving_out_changes_nothing_else(f: FieldModel, name: Seq<char>)
    ensures
        ({
            let g = without_nested(f, name);
            &&& g.name == f.name
            &&& g.nullable == f.nullable
            &&& g.metadata == f.metadata
            &&& g.metadata_column == f.metadata_column
            &&& !(f.data_type is Struct) ==> g.data_type == f.data_type
            &&& f.data_type matches DataTypeModel::Struct(inner) ==> (
            g.data_type matches DataTypeModel::Struct(kept) && kept == without_field(inner, name))
        }),
{
}

} // verus!
