//! The schema of the statistics that describe a file.
use std::sync::Arc;
use vstd::prelude::*;

use crate::expressions::{paths, ColumnName, Path};
use crate::scan::columns::has_leaf;
use crate::schema::{
    fields_model, keeps_in_order, lemma_fields_model, lemma_fields_model_push, plain_field,
    DataType, DataTypeModel, FieldModel, PrimitiveType, SchemaRef, StructField, StructType,
};
use crate::table_configuration::{TableConfiguration, TableConfigurationModel};
use crate::text::{contains_text, same_text};

verus! {

/// The number of rows in a file.
pub const NUM_RECORDS: &'static str = "numRecords";

/// For each column, how many of its values are null.
pub const NULL_COUNT: &'static str = "nullCount";

/// For each column, a lower bound of its values.
pub const MIN_VALUES: &'static str = "minValues";

/// For each column, an upper bound of its values.
pub const MAX_VALUES: &'static str = "maxValues";

/// Whether the bounds are met by values of the file.
pub const TIGHT_BOUNDS: &'static str = "tightBounds";

/// Whether columns of a type have bounds.
pub open spec fn has_bounds(p: PrimitiveType) -> bool {
    p != PrimitiveType::Boolean && p != PrimitiveType::Binary
}

/// Whether the column at `path` is, or lies inside, one of `columns`.
pub open spec fn lies_in(columns: Set<Path>, path: Path) -> bool {
    exists|c: Path| #[trigger] columns.contains(c) && c.is_prefix_of(path)
}

/// Whether the column at `path` is wanted. Without a choice every column is.
pub open spec fn is_wanted(wanted: Option<Set<Path>>, path: Path) -> bool {
    match wanted {
        Some(columns) => lies_in(columns, path),
        None => true,
    }
}

/// The statistic on a field inside `prefix`: its bounds, which have its type, or the count of its
/// nulls. A struct has a statistic for every field inside it that has one.
pub open spec fn field_statistic(
    f: FieldModel,
    bounds: bool,
    wanted: Option<Set<Path>>,
    prefix: Path,
) -> Option<FieldModel>
    decreases f,
{
    let path = prefix.push(f.name);
    match f.data_type {
        DataTypeModel::Struct(inner) => {
            let kept = field_statistics(inner, bounds, wanted, path);
            if kept.len() == 0 {
                None
            } else {
                Some(plain_field(f.name, DataTypeModel::Struct(kept), true))
            }
        },
        DataTypeModel::Primitive(p) => if !is_wanted(wanted, path) || (bounds && !has_bounds(p)) {
            None
        } else if bounds {
            Some(plain_field(f.name, f.data_type, true))
        } else {
            Some(plain_field(f.name, DataTypeModel::Primitive(PrimitiveType::Long), true))
        },
        _ => if bounds || !is_wanted(wanted, path) {
            None
        } else {
            Some(plain_field(f.name, DataTypeModel::Primitive(PrimitiveType::Long), true))
        },
    }
}

/// The statistics on `fields`, in order.
pub open spec fn field_statistics(
    fields: Seq<FieldModel>,
    bounds: bool,
    wanted: Option<Set<Path>>,
    prefix: Path,
) -> Seq<FieldModel>
    decreases fields,
{
    if fields.len() == 0 {
        Seq::empty()
    } else {
        let init = field_statistics(fields.drop_last(), bounds, wanted, prefix);
        match field_statistic(fields.last(), bounds, wanted, prefix) {
            Some(f) => init.push(f),
            None => init,
        }
    }
}

/// A struct of statistics called `name`, where it has a field.
pub open spec fn statistics_group(name: Seq<char>, fields: Seq<FieldModel>) -> Seq<FieldModel> {
    if fields.len() == 0 {
        Seq::empty()
    } else {
        seq![plain_field(name, DataTypeModel::Struct(fields), true)]
    }
}

/// The statistics on a file whose columns are `fields`.
pub open spec fn file_statistics(
    fields: Seq<FieldModel>,
    wanted: Option<Set<Path>>,
) -> Seq<FieldModel> {
    let bounds = field_statistics(fields, true, wanted, Seq::empty());
    seq![plain_field(NUM_RECORDS@, DataTypeModel::Primitive(PrimitiveType::Long), true)]
        + statistics_group(NULL_COUNT@, field_statistics(fields, false, wanted, Seq::empty()))
        + statistics_group(MIN_VALUES@, bounds) + statistics_group(MAX_VALUES@, bounds)
}

/// The statistics that skip files for a predicate on `fields`. There are none where no field has
/// any.
pub open spec fn skipping_statistics(fields: Seq<FieldModel>) -> Option<Seq<FieldModel>> {
    if field_statistics(fields, false, None, Seq::empty()).len() == 0 {
        None
    } else {
        Some(file_statistics(fields, None))
    }
}

/// Of the first `n` physical fields, those that stand for a partition column (`partition`) or for
/// another column (not `partition`).
pub open spec fn split_fields_to(
    logical: Seq<FieldModel>,
    physical: Seq<FieldModel>,
    partition_columns: Seq<Seq<char>>,
    partition: bool,
    n: nat,
) -> Seq<FieldModel>
    decreases n,
{
    if n == 0 {
        Seq::empty()
    } else {
        let init = split_fields_to(logical, physical, partition_columns, partition, (n - 1) as nat);
        if partition_columns.contains(logical[n - 1].name) == partition {
            init.push(physical[n - 1])
        } else {
            init
        }
    }
}

/// The physical fields of a table by which it is partitioned (`partition`), or the other ones (not
/// `partition`). A logical field and its physical counterpart stand at the same position.
pub open spec fn split_fields(config: TableConfigurationModel, partition: bool) -> Seq<FieldModel> {
    let n = if config.logical_schema.len() <= config.physical_schema.len() {
        config.logical_schema.len()
    } else {
        config.physical_schema.len()
    };
    split_fields_to(
        config.logical_schema,
        config.physical_schema,
        config.metadata.partition_columns,
        partition,
        n,
    )
}

/// The statistics that the files of a table are expected to have.
pub open spec fn expected_statistics(
    config: TableConfigurationModel,
    wanted: Option<Set<Path>>,
) -> Seq<FieldModel> {
    file_statistics(split_fields(config, false), wanted).push(
        plain_field(TIGHT_BOUNDS@, DataTypeModel::Primitive(PrimitiveType::Boolean), true),
    )
}

// ---------------------------------------------------------------------------
// Building the schemas
// ---------------------------------------------------------------------------
/// The columns of an optional list.
pub open spec fn wanted_columns(wanted: Option<&Vec<ColumnName>>) -> Option<Set<Path>> {
    match wanted {
        Some(columns) => Some(paths(columns@).to_set()),
        None => None,
    }
}

/// Whether `outer` is `column`, or leads to it.
fn leads_to(outer: &ColumnName, column: &ColumnName) -> (r: bool)
    ensures
        r == outer@.is_prefix_of(column@),
{
    if outer.path.len() > column.path.len() {
        return false;
    }
    let mut i: usize = 0;
    while i < outer.path.len()
        invariant
            i <= outer.path.len() <= column.path.len(),
            forall|j: int| 0 <= j < i ==> outer@[j] == column@[j],
        decreases outer.path.len() - i,
    {
        if !same_text(outer.path[i].as_str(), column.path[i].as_str()) {
            assert(outer@[i as int] != column@[i as int]);
            assert(column@.subrange(0, outer@.len() as int)[i as int] == column@[i as int]);
            return false;
        }
        i = i + 1;
    }
    assert(outer@ =~= column@.subrange(0, outer@.len() as int));
    true
}

fn wants(wanted: Option<&Vec<ColumnName>>, column: &ColumnName) -> (r: bool)
    ensures
        r == is_wanted(wanted_columns(wanted), column@),
{
    match wanted {
        None => true,
        Some(columns) => {
            let ghost all = paths(columns@).to_set();
            let mut i: usize = 0;
            while i < columns.len()
                invariant
                    i <= columns.len(),
                    all == paths(columns@).to_set(),
                    wanted_columns(wanted) == Some(all),
                    forall|j: int|
                        0 <= j < i ==> !(#[trigger] columns@[j])@.is_prefix_of(column@),
                decreases columns.len() - i,
            {
                if leads_to(&columns[i], column) {
                    assert(paths(columns@)[i as int] == columns@[i as int]@);
                    assert(all.contains(columns@[i as int]@));
                    return true;
                }
                i = i + 1;
            }
            assert forall|c: Path| #[trigger] all.contains(c) implies !c.is_prefix_of(column@) by {
                let j = choose|j: int| 0 <= j < paths(columns@).len() && paths(columns@)[j] == c;
                assert(columns@[j]@ == c);
            }
            false
        },
    }
}

fn has_bounds_of(p: PrimitiveType) -> (r: bool)
    ensures
        r == has_bounds(p),
{
    p != PrimitiveType::Boolean && p != PrimitiveType::Binary
}

fn build_field_statistic(
    f: &StructField,
    bounds: bool,
    wanted: Option<&Vec<ColumnName>>,
    prefix: &ColumnName,
) -> (r: Option<StructField>)
    ensures
        match r {
            Some(s) => field_statistic(f@, bounds, wanted_columns(wanted), prefix@) == Some(s@),
            None => field_statistic(f@, bounds, wanted_columns(wanted), prefix@) is None,
        },
    decreases f,
{
    let mut own: Vec<String> = Vec::new();
    own.push(f.name.clone());
    let path = prefix.join(&ColumnName::new(own));
    assert(path@ =~= prefix@.push(f@.name));
    match &f.data_type {
        DataType::Struct(inner) => {
            let kept = build_field_statistics(&inner.fields, bounds, wanted, &path);
            proof {
                lemma_fields_model(kept@);
            }
            if kept.len() == 0 {
                None
            } else {
                Some(
                    StructField::nullable(
                        f.name.as_str(),
                        DataType::Struct(Box::new(StructType::new_unchecked(kept))),
                    ),
                )
            }
        },
        DataType::Primitive(p) => if !wants(wanted, &path) || (bounds && !has_bounds_of(*p)) {
            None
        } else if bounds {
            Some(StructField::nullable(f.name.as_str(), DataType::Primitive(*p)))
        } else {
            Some(StructField::nullable(f.name.as_str(), DataType::Primitive(PrimitiveType::Long)))
        },
        _ => if bounds || !wants(wanted, &path) {
            None
        } else {
            Some(StructField::nullable(f.name.as_str(), DataType::Primitive(PrimitiveType::Long)))
        },
    }
}

fn build_field_statistics(
    fields: &Vec<StructField>,
    bounds: bool,
    wanted: Option<&Vec<ColumnName>>,
    prefix: &ColumnName,
) -> (r: Vec<StructField>)
    ensures
        fields_model(r@) == field_statistics(
            fields_model(fields@),
            bounds,
            wanted_columns(wanted),
            prefix@,
        ),
    decreases fields,
{
    let ghost model = fields_model(fields@);
    let mut r: Vec<StructField> = Vec::new();
    let mut i: usize = 0;
    proof {
        lemma_fields_model(fields@);
    }
    while i < fields.len()
        invariant
            i <= fields.len(),
            model == fields_model(fields@),
            model.len() == fields.len(),
            fields_model(r@) == field_statistics(
                model.take(i as int),
                bounds,
                wanted_columns(wanted),
                prefix@,
            ),
        decreases fields.len() - i,
    {
        proof {
            lemma_fields_model(fields@);
            assert(model[i as int] == fields@[i as int]@);
            assert(model.take(i + 1).drop_last() =~= model.take(i as int));
        }
        if let Some(f) = build_field_statistic(&fields[i], bounds, wanted, prefix) {
            proof {
                lemma_fields_model_push(r@, f);
            }
            r.push(f);
        }
        i = i + 1;
    }
    assert(model.take(i as int) =~= model);
    r
}

fn add_group(name: &str, fields: Vec<StructField>, out: &mut Vec<StructField>)
    ensures
        fields_model(final(out)@) == fields_model(old(out)@) + statistics_group(
            name@,
            fields_model(fields@),
        ),
{
    proof {
        lemma_fields_model(fields@);
    }
    if fields.len() > 0 {
        let group = StructField::nullable(
            name,
            DataType::Struct(Box::new(StructType::new_unchecked(fields))),
        );
        proof {
            lemma_fields_model_push(out@, group);
        }
        out.push(group);
        assert(fields_model(out@) =~= fields_model(old(out)@) + seq![group@]);
    } else {
        assert(fields_model(out@) =~= fields_model(old(out)@) + Seq::empty());
    }
}

fn build_file_statistics(fields: &Vec<StructField>, wanted: Option<&Vec<ColumnName>>) -> (r: Vec<
    StructField,
>)
    ensures
        fields_model(r@) == file_statistics(fields_model(fields@), wanted_columns(wanted)),
{
    let root = ColumnName::new(Vec::new());
    assert(root@ =~= Seq::empty());
    let nulls = build_field_statistics(fields, false, wanted, &root);
    let lower = build_field_statistics(fields, true, wanted, &root);
    let upper = build_field_statistics(fields, true, wanted, &root);
    let mut r: Vec<StructField> = Vec::new();
    let records = StructField::nullable(NUM_RECORDS, DataType::Primitive(PrimitiveType::Long));
    proof {
        lemma_fields_model_push(r@, records);
    }
    r.push(records);
    assert(fields_model(r@) =~= seq![records@]);
    add_group(NULL_COUNT, nulls, &mut r);
    add_group(MIN_VALUES, lower, &mut r);
    add_group(MAX_VALUES, upper, &mut r);
    r
}

/// The schema of the statistics that skip files for a predicate on the columns of
/// `referenced_schema`. There is none where no column has statistics.
pub fn build_stats_schema(referenced_schema: &StructType) -> (r: Option<SchemaRef>)
    ensures
        match r {
            Some(s) => skipping_statistics(referenced_schema@) == Some(s@),
            None => skipping_statistics(referenced_schema@) is None,
        },
{
    let root = ColumnName::new(Vec::new());
    assert(root@ =~= Seq::empty());
    let nulls = build_field_statistics(&referenced_schema.fields, false, None, &root);
    proof {
        lemma_fields_model(nulls@);
    }
    if nulls.len() == 0 {
        None
    } else {
        Some(
            Arc::new(
                StructType::new_unchecked(build_file_statistics(&referenced_schema.fields, None)),
            ),
        )
    }
}

impl TableConfiguration {
    /// The physical fields by which the table is partitioned (`partition`), or the other ones.
    pub fn split_physical_fields(&self, partition: bool) -> (r: Vec<StructField>)
        ensures
            fields_model(r@) == split_fields(self@, partition),
    {
        let logical = &self.logical_schema.fields;
        let physical = &self.physical_schema.fields;
        let ghost config = self@;
        let mut r: Vec<StructField> = Vec::new();
        let mut i: usize = 0;
        proof {
            lemma_fields_model(logical@);
            lemma_fields_model(physical@);
        }
        while i < logical.len() && i < physical.len()
            invariant
                i <= logical.len(),
                i <= physical.len(),
                config == self@,
                config.logical_schema == fields_model(logical@),
                config.physical_schema == fields_model(physical@),
                fields_model(r@) == split_fields_to(
                    config.logical_schema,
                    config.physical_schema,
                    config.metadata.partition_columns,
                    partition,
                    i as nat,
                ),
            decreases logical.len() - i,
        {
            proof {
                lemma_fields_model(logical@);
                lemma_fields_model(physical@);
                assert(config.logical_schema[i as int] == logical@[i as int]@);
                assert(config.physical_schema[i as int] == physical@[i as int]@);
            }
            if contains_text(self.metadata.partition_columns.as_slice(), logical[i].name.as_str())
                == partition {
                let f = physical[i].clone();
                proof {
                    lemma_fields_model_push(r@, f);
                }
                r.push(f);
            }
            i = i + 1;
        }
        proof {
            lemma_fields_model(logical@);
            lemma_fields_model(physical@);
        }
        r
    }

    /// The schema of the statistics that the table's files are expected to have: on all columns of
    /// files, or only on those that `requested` names by their physical paths.
    pub fn build_expected_stats_schema(&self, requested: Option<&Vec<ColumnName>>) -> (r: SchemaRef)
        ensures
            r@ == expected_statistics(self@, wanted_columns(requested)),
    {
        let columns = self.split_physical_fields(false);
        let mut fields = build_file_statistics(&columns, requested);
        let tight = StructField::nullable(
            TIGHT_BOUNDS,
            DataType::Primitive(PrimitiveType::Boolean),
        );
        proof {
            lemma_fields_model_push(fields@, tight);
        }
        fields.push(tight);
        Arc::new(StructType::new_unchecked(fields))
    }
}

/// The statistics on fields are those on each of them.
pub proof fn lemma_field_statistics(
    fields: Seq<FieldModel>,
    bounds: bool,
    wanted: Option<Set<Path>>,
    prefix: Path,
    i: int,
)
    requires
        0 <= i < fields.len(),
        field_statistic(fields[i], bounds, wanted, prefix) is Some,
    ensures
        field_statistics(fields, bounds, wanted, prefix).contains(
            field_statistic(fields[i], bounds, wanted, prefix)->0,
        ),
    decreases fields.len(),
{
    let init = fields.drop_last();
    let before = field_statistics(init, bounds, wanted, prefix);
    let after = field_statistics(fields, bounds, wanted, prefix);
    let s = field_statistic(fields[i], bounds, wanted, prefix)->0;
    if i < init.len() {
        lemma_field_statistics(init, bounds, wanted, prefix, i);
        let k = choose|k: int| 0 <= k < before.len() && before[k] == s;
        assert(after[k] == s);
    } else {
        assert(after[after.len() - 1] == s);
    }
}

/// Which columns have statistics: a column of files that is wanted has bounds, unless its type has
/// none, and they have its type; and the nulls of every wanted column are counted.
pub proof fn law_wanted_columns_have_statistics(
    fields: Seq<FieldModel>,
    wanted: Option<Set<Path>>,
    f: FieldModel,
)
    requires
        fields.contains(f),
        f.data_type is Primitive,
        is_wanted(wanted, seq![f.name]),
    ensures
        has_bounds(f.data_type->Primitive_0) ==> {
            let bounds = field_statistics(fields, true, wanted, Seq::empty());
            &&& bounds.contains(plain_field(f.name, f.data_type, true))
            &&& file_statistics(fields, wanted).contains(
                plain_field(MIN_VALUES@, DataTypeModel::Struct(bounds), true),
            )
            &&& file_statistics(fields, wanted).contains(
                plain_field(MAX_VALUES@, DataTypeModel::Struct(bounds), true),
            )
        },
        ({
            let nulls = field_statistics(fields, false, wanted, Seq::empty());
            &&& nulls.contains(
                plain_field(f.name, DataTypeModel::Primitive(PrimitiveType::Long), true),
            )
            &&& file_statistics(fields, wanted).contains(
                plain_field(NULL_COUNT@, DataTypeModel::Struct(nulls), true),
            )
        }),
{
    let i = choose|i: int| 0 <= i < fields.len() && fields[i] == f;
    let root: Path = Seq::empty();
    assert(root.push(f.name) =~= seq![f.name]);
    let all = file_statistics(fields, wanted);
    let bounds = field_statistics(fields, true, wanted, root);
    let nulls = field_statistics(fields, false, wanted, root);
    assert(field_statistic(f, false, wanted, root) is Some);
    lemma_field_statistics(fields, false, wanted, root, i);
    assert(nulls.len() > 0);
    assert(all[1] == plain_field(NULL_COUNT@, DataTypeModel::Struct(nulls), true));
    if has_bounds(f.data_type->Primitive_0) {
        assert(field_statistic(f, true, wanted, root) is Some);
        lemma_field_statistics(fields, true, wanted, root, i);
        assert(bounds.len() > 0);
        assert(all[2] == plain_field(MIN_VALUES@, DataTypeModel::Struct(bounds), true));
        assert(all[3] == plain_field(MAX_VALUES@, DataTypeModel::Struct(bounds), true));
    }
}

/// Whether `outer` is `path`, or leads to it.
pub open spec fn is_inside(outer: Path, path: Path) -> bool {
    outer.len() <= path.len() && forall|k: int| 0 <= k < outer.len() ==> outer[k] == path[k]
}

/// Whether the column at `path` is asked for: it is, or lies inside, one of the named columns.
/// Without names every column is.
pub open spec fn is_asked_for(wanted: Option<Set<Path>>, path: Path) -> bool {
    match wanted {
        Some(columns) => exists|c: Path| #[trigger] columns.contains(c) && is_inside(c, path),
        None => true,
    }
}

proof fn lemma_is_asked_for(wanted: Option<Set<Path>>, path: Path)
    ensures
        is_wanted(wanted, path) == is_asked_for(wanted, path),
{
    if let Some(columns) = wanted {
        assert forall|c: Path| c.is_prefix_of(path) == #[trigger] is_inside(c, path) by {
            if is_inside(c, path) {
                assert(c =~= path.subrange(0, c.len() as int));
            }
            if c.is_prefix_of(path) {
                assert forall|k: int| 0 <= k < c.len() implies c[k] == path[k] by {
                    assert(path.subrange(0, c.len() as int)[k] == path[k]);
                }
            }
        }
        if lies_in(columns, path) {
            let c = choose|c: Path| #[trigger] columns.contains(c) && c.is_prefix_of(path);
            assert(columns.contains(c) && is_inside(c, path));
        }
        if is_asked_for(wanted, path) {
            let c = choose|c: Path| #[trigger] columns.contains(c) && is_inside(c, path);
            assert(columns.contains(c) && c.is_prefix_of(path));
        }
    }
}

/// The path of a column inside a group of statistics.
pub open spec fn in_group(group: Seq<char>, path: Path) -> Path {
    seq![group] + path
}

/// What counts the nulls of the column at `path`.
pub open spec fn null_count_leaf(path: Path) -> FieldModel {
    FieldModel {
        name: path.last(),
        data_type: DataTypeModel::Primitive(PrimitiveType::Long),
        nullable: true,
        metadata: Map::empty(),
        metadata_column: None,
    }
}

/// What bounds the values of the column at `path`, which is of the given type.
pub open spec fn bound_leaf(path: Path, data_type: DataTypeModel) -> FieldModel {
    FieldModel {
        name: path.last(),
        data_type,
        nullable: true,
        metadata: Map::empty(),
        metadata_column: None,
    }
}

/// Whether values of a type are bounded: all but flags and bytes.
pub open spec fn is_bounded(t: DataTypeModel) -> bool {
    t matches DataTypeModel::Primitive(p) && !(p is Boolean) && !(p is Binary)
}

/// Whether `stats` are the statistics on the columns that `is_column` says: the number of rows, of
/// each column that is no struct the number of nulls, and of each column of a bounded type a lower
/// and an upper bound of that type; and none on any other column.
pub open spec fn are_statistics_on(
    stats: Seq<FieldModel>,
    is_column: spec_fn(Path, FieldModel) -> bool,
) -> bool {
    &&& has_leaf(
        stats,
        seq!["numRecords"@],
        bound_leaf(seq!["numRecords"@], DataTypeModel::Primitive(PrimitiveType::Long)),
    )
    &&& forall|path: Path, leaf: FieldModel|
        path.len() > 0 && !(leaf.data_type is Struct) ==> (#[trigger] has_leaf(
            stats,
            in_group("nullCount"@, path),
            leaf,
        ) <==> leaf == null_count_leaf(path) && exists|f: FieldModel| #[trigger]
            is_column(path, f) && !(f.data_type is Struct))
    &&& forall|path: Path, leaf: FieldModel|
        path.len() > 0 && !(leaf.data_type is Struct) ==> (#[trigger] has_leaf(
            stats,
            in_group("minValues"@, path),
            leaf,
        ) <==> exists|f: FieldModel| #[trigger]
            is_column(path, f) && is_bounded(f.data_type) && leaf == bound_leaf(path, f.data_type))
    &&& forall|path: Path, leaf: FieldModel|
        path.len() > 0 && !(leaf.data_type is Struct) ==> (#[trigger] has_leaf(
            stats,
            in_group("maxValues"@, path),
            leaf,
        ) <==> exists|f: FieldModel| #[trigger]
            is_column(path, f) && is_bounded(f.data_type) && leaf == bound_leaf(path, f.data_type))
}

proof fn lemma_statistic_comes_of_a_field(
    fields: Seq<FieldModel>,
    bounds: bool,
    wanted: Option<Set<Path>>,
    prefix: Path,
    k: int,
) -> (i: int)
    requires
        0 <= k < field_statistics(fields, bounds, wanted, prefix).len(),
    ensures
        0 <= i < fields.len(),
        field_statistic(fields[i], bounds, wanted, prefix) == Some(
            field_statistics(fields, bounds, wanted, prefix)[k],
        ),
    decreases fields.len(),
{
    let init = fields.drop_last();
    let before = field_statistics(init, bounds, wanted, prefix);
    if k < before.len() {
        let i = lemma_statistic_comes_of_a_field(init, bounds, wanted, prefix, k);
        assert(init[i] == fields[i]);
        i
    } else {
        fields.len() - 1
    }
}

/// Whether a field has a statistic of the given kind, and `leaf` is that.
spec fn has_statistic(f: FieldModel, bounds: bool, path: Path, leaf: FieldModel) -> bool {
    if bounds {
        is_bounded(f.data_type) && leaf == bound_leaf(path, f.data_type)
    } else {
        !(f.data_type is Struct) && leaf == null_count_leaf(path)
    }
}

proof fn lemma_statistics_on_columns(
    fields: Seq<FieldModel>,
    bounds: bool,
    wanted: Option<Set<Path>>,
    prefix: Path,
    path: Path,
    leaf: FieldModel,
)
    requires
        !(leaf.data_type is Struct),
    ensures
        has_leaf(field_statistics(fields, bounds, wanted, prefix), path, leaf) <==> is_asked_for(
            wanted,
            prefix + path,
        ) && exists|f: FieldModel| #[trigger]
            has_leaf(fields, path, f) && has_statistic(f, bounds, path, leaf),
    decreases path.len(),
{
    reveal_with_fuel(field_statistic, 2);
    let stats = field_statistics(fields, bounds, wanted, prefix);
    if has_leaf(stats, path, leaf) {
        let k = choose|k: int|
            0 <= k < stats.len() && (#[trigger] stats[k]).name == path[0] && if path.len() == 1 {
                stats[k] == leaf
            } else {
                match stats[k].data_type {
                    DataTypeModel::Struct(inner) => has_leaf(inner, path.drop_first(), leaf),
                    _ => false,
                }
            };
        let i = lemma_statistic_comes_of_a_field(fields, bounds, wanted, prefix, k);
        let f = fields[i];
        let inside = prefix.push(f.name);
        if path.len() == 1 {
            assert(prefix + path =~= inside);
            lemma_is_asked_for(wanted, inside);
            assert(has_leaf(fields, path, f) && has_statistic(f, bounds, path, leaf));
        } else {
            let inner = f.data_type->Struct_0;
            let rest = path.drop_first();
            assert(prefix + path =~= inside + rest);
            assert(rest.last() == path.last());
            lemma_statistics_on_columns(inner, bounds, wanted, inside, rest, leaf);
            let g = choose|g: FieldModel| #[trigger]
                has_leaf(inner, rest, g) && has_statistic(g, bounds, rest, leaf);
            assert(has_leaf(fields, path, g) && has_statistic(g, bounds, path, leaf));
        }
    }
    if is_asked_for(wanted, prefix + path) && exists|f: FieldModel| #[trigger]
        has_leaf(fields, path, f) && has_statistic(f, bounds, path, leaf) {
        let g = choose|f: FieldModel| #[trigger]
            has_leaf(fields, path, f) && has_statistic(f, bounds, path, leaf);
        let i = choose|i: int|
            0 <= i < fields.len() && (#[trigger] fields[i]).name == path[0] && if path.len() == 1 {
                fields[i] == g
            } else {
                match fields[i].data_type {
                    DataTypeModel::Struct(inner) => has_leaf(inner, path.drop_first(), g),
                    _ => false,
                }
            };
        let f = fields[i];
        let inside = prefix.push(f.name);
        if path.len() == 1 {
            assert(prefix + path =~= inside);
            lemma_is_asked_for(wanted, inside);
            assert(field_statistic(f, bounds, wanted, prefix) == Some(leaf));
        } else {
            let inner = f.data_type->Struct_0;
            let rest = path.drop_first();
            assert(prefix + path =~= inside + rest);
            assert(rest.last() == path.last());
            assert(has_leaf(inner, rest, g) && has_statistic(g, bounds, rest, leaf));
            lemma_statistics_on_columns(inner, bounds, wanted, inside, rest, leaf);
            assert(field_statistics(inner, bounds, wanted, inside).len() > 0);
        }
        lemma_field_statistics(fields, bounds, wanted, prefix, i);
        let s = field_statistic(f, bounds, wanted, prefix)->0;
        let k = choose|k: int| 0 <= k < stats.len() && stats[k] == s;
        assert(stats[k].name == path[0]);
    }
}

proof fn lemma_group_names()
    ensures
        "numRecords"@ != "nullCount"@,
        "numRecords"@ != "minValues"@,
        "numRecords"@ != "maxValues"@,
        "nullCount"@ != "minValues"@,
        "nullCount"@ != "maxValues"@,
        "minValues"@ != "maxValues"@,
        "tightBounds"@ != "nullCount"@,
        "tightBounds"@ != "minValues"@,
        "tightBounds"@ != "maxValues"@,
{
    reveal_strlit("numRecords");
    reveal_strlit("nullCount");
    reveal_strlit("minValues");
    reveal_strlit("maxValues");
    reveal_strlit("tightBounds");
    assert("numRecords"@.len() == 10);
    assert("tightBounds"@.len() == 11);
    assert("nullCount"@[0] == 'n');
    assert("minValues"@[1] == 'i');
    assert("maxValues"@[1] == 'a');
    assert("nullCount"@[1] == 'u');
    assert("minValues"@[0] == 'm');
    assert("maxValues"@[0] == 'm');
}

/// A leaf inside one of the groups of statistics is a leaf of the fields of that group.
proof fn lemma_leaf_in_group(
    stats: Seq<FieldModel>,
    group: Seq<char>,
    inner: Seq<FieldModel>,
    path: Path,
    leaf: FieldModel,
)
    requires
        path.len() > 0,
        forall|i: int|
            0 <= i < stats.len() && (#[trigger] stats[i]).name == group ==> stats[i].data_type
                == DataTypeModel::Struct(inner),
        inner.len() > 0 ==> exists|i: int|
            0 <= i < stats.len() && (#[trigger] stats[i]).name == group,
    ensures
        has_leaf(stats, in_group(group, path), leaf) <==> has_leaf(inner, path, leaf),
{
    let whole = in_group(group, path);
    assert(whole.drop_first() =~= path);
    assert(whole[0] == group);
    if has_leaf(inner, path, leaf) {
        assert(inner.len() > 0);
        let i = choose|i: int| 0 <= i < stats.len() && (#[trigger] stats[i]).name == group;
        assert(stats[i].name == whole[0]);
    }
}

proof fn lemma_statistics_are_complete(
    fields: Seq<FieldModel>,
    wanted: Option<Set<Path>>,
    stats: Seq<FieldModel>,
)
    requires
        stats == file_statistics(fields, wanted) || stats == file_statistics(fields, wanted).push(
            plain_field(TIGHT_BOUNDS@, DataTypeModel::Primitive(PrimitiveType::Boolean), true),
        ),
    ensures
        are_statistics_on(
            stats,
            |path: Path, f: FieldModel| is_asked_for(wanted, path) && has_leaf(fields, path, f),
        ),
{
    let is_column = |path: Path, f: FieldModel|
        is_asked_for(wanted, path) && has_leaf(fields, path, f);
    let root: Path = Seq::empty();
    let nulls = field_statistics(fields, false, wanted, root);
    let bounds = field_statistics(fields, true, wanted, root);
    let base = file_statistics(fields, wanted);
    lemma_group_names();
    let records = plain_field(NUM_RECORDS@, DataTypeModel::Primitive(PrimitiveType::Long), true);
    assert(base[0] == records);
    assert(stats[0] == records);
    assert(has_leaf(stats, seq!["numRecords"@], records));
    let n = if nulls.len() > 0 {
        1int
    } else {
        0int
    };
    if nulls.len() > 0 {
        assert(base[1] == plain_field(NULL_COUNT@, DataTypeModel::Struct(nulls), true));
        assert(stats[1].name == "nullCount"@);
    }
    if bounds.len() > 0 {
        assert(base[n + 1] == plain_field(MIN_VALUES@, DataTypeModel::Struct(bounds), true));
        assert(base[n + 2] == plain_field(MAX_VALUES@, DataTypeModel::Struct(bounds), true));
        assert(stats[n + 1].name == "minValues"@);
        assert(stats[n + 2].name == "maxValues"@);
    }
    assert forall|path: Path, leaf: FieldModel| path.len() > 0 && !(leaf.data_type is Struct) implies (#[trigger] has_leaf(
        stats,
        in_group("nullCount"@, path),
        leaf,
    ) <==> leaf == null_count_leaf(path) && exists|f: FieldModel| #[trigger]
        is_column(path, f) && !(f.data_type is Struct)) by {
        lemma_leaf_in_group(stats, "nullCount"@, nulls, path, leaf);
        assert(root + path =~= path);
        if !(leaf.data_type is Struct) {
            lemma_statistics_on_columns(fields, false, wanted, root, path, leaf);
            if has_leaf(nulls, path, leaf) {
                let f = choose|f: FieldModel| #[trigger]
                    has_leaf(fields, path, f) && has_statistic(f, false, path, leaf);
                assert(is_column(path, f));
            }
            if leaf == null_count_leaf(path) && exists|f: FieldModel| #[trigger]
                is_column(path, f) && !(f.data_type is Struct) {
                let f = choose|f: FieldModel| #[trigger]
                    is_column(path, f) && !(f.data_type is Struct);
                assert(has_leaf(fields, path, f) && has_statistic(f, false, path, leaf));
            }
        }
    }
    assert forall|path: Path, leaf: FieldModel| path.len() > 0 implies (has_leaf(
        stats,
        #[trigger] in_group("minValues"@, path),
        leaf,
    ) <==> #[trigger] has_leaf(bounds, path, leaf)) && (has_leaf(
        stats,
        in_group("maxValues"@, path),
        leaf,
    ) <==> has_leaf(bounds, path, leaf)) by {
        lemma_leaf_in_group(stats, "minValues"@, bounds, path, leaf);
        lemma_leaf_in_group(stats, "maxValues"@, bounds, path, leaf);
    }
    assert forall|path: Path, leaf: FieldModel| path.len() > 0 && !(leaf.data_type is Struct) implies (#[trigger] has_leaf(
        bounds,
        path,
        leaf,
    ) <==> exists|f: FieldModel| #[trigger]
        is_column(path, f) && is_bounded(f.data_type) && leaf == bound_leaf(path, f.data_type)) by {
        assert(root + path =~= path);
        if !(leaf.data_type is Struct) {
            lemma_statistics_on_columns(fields, true, wanted, root, path, leaf);
            if has_leaf(bounds, path, leaf) {
                let f = choose|f: FieldModel| #[trigger]
                    has_leaf(fields, path, f) && has_statistic(f, true, path, leaf);
                assert(is_column(path, f));
            }
            if exists|f: FieldModel| #[trigger]
                is_column(path, f) && is_bounded(f.data_type) && leaf == bound_leaf(
                    path,
                    f.data_type,
                ) {
                let f = choose|f: FieldModel| #[trigger]
                    is_column(path, f) && is_bounded(f.data_type) && leaf == bound_leaf(
                        path,
                        f.data_type,
                    );
                assert(has_leaf(fields, path, f) && has_statistic(f, true, path, leaf));
            }
        }
    }
    assert forall|path: Path, leaf: FieldModel| path.len() > 0 && !(leaf.data_type is Struct) implies (#[trigger] has_leaf(
        stats,
        in_group("minValues"@, path),
        leaf,
    ) <==> exists|f: FieldModel| #[trigger]
        is_column(path, f) && is_bounded(f.data_type) && leaf == bound_leaf(path, f.data_type)) by {
        assert(has_leaf(stats, in_group("minValues"@, path), leaf) <==> has_leaf(bounds, path, leaf));
    }
    assert forall|path: Path, leaf: FieldModel| path.len() > 0 && !(leaf.data_type is Struct) implies (#[trigger] has_leaf(
        stats,
        in_group("maxValues"@, path),
        leaf,
    ) <==> exists|f: FieldModel| #[trigger]
        is_column(path, f) && is_bounded(f.data_type) && leaf == bound_leaf(path, f.data_type)) by {
        assert(has_leaf(stats, in_group("minValues"@, path), leaf) <==> has_leaf(bounds, path, leaf));
    }
}

/// Statistics on the same columns are the same.
pub proof fn lemma_statistics_on_the_same_columns(
    stats: Seq<FieldModel>,
    a: spec_fn(Path, FieldModel) -> bool,
    b: spec_fn(Path, FieldModel) -> bool,
)
    requires
        are_statistics_on(stats, a),
        forall|path: Path, f: FieldModel| path.len() > 0 ==> a(path, f) == #[trigger] b(path, f),
    ensures
        are_statistics_on(stats, b),
{
    assert forall|path: Path, leaf: FieldModel|
        path.len() > 0 && !(leaf.data_type is Struct) implies (#[trigger] has_leaf(
        stats,
        in_group("nullCount"@, path),
        leaf,
    ) <==> leaf == null_count_leaf(path) && exists|f: FieldModel| #[trigger]
        b(path, f) && !(f.data_type is Struct)) by {
        if exists|f: FieldModel| #[trigger] a(path, f) && !(f.data_type is Struct) {
            let f = choose|f: FieldModel| #[trigger] a(path, f) && !(f.data_type is Struct);
            assert(b(path, f));
        }
    }
    assert forall|path: Path, leaf: FieldModel|
        path.len() > 0 && !(leaf.data_type is Struct) implies ((exists|f: FieldModel| #[trigger]
        a(path, f) && is_bounded(f.data_type) && #[trigger] bound_leaf(path, f.data_type) == leaf)
        <==> exists|f: FieldModel| #[trigger]
        b(path, f) && is_bounded(f.data_type) && leaf == bound_leaf(path, f.data_type)) by {
        if exists|f: FieldModel| #[trigger]
            a(path, f) && is_bounded(f.data_type) && leaf == bound_leaf(path, f.data_type) {
            let f = choose|f: FieldModel| #[trigger]
                a(path, f) && is_bounded(f.data_type) && leaf == bound_leaf(path, f.data_type);
            assert(b(path, f));
        }
        if exists|f: FieldModel| #[trigger]
            b(path, f) && is_bounded(f.data_type) && leaf == bound_leaf(path, f.data_type) {
            let f = choose|f: FieldModel| #[trigger]
                b(path, f) && is_bounded(f.data_type) && leaf == bound_leaf(path, f.data_type);
            assert(a(path, f));
        }
    }
}

/// The statistics on a file are on the columns of it that are asked for, and on no other.
pub proof fn law_statistics_are_on_the_columns_asked_for(
    fields: Seq<FieldModel>,
    wanted: Option<Set<Path>>,
)
    ensures
        are_statistics_on(
            file_statistics(fields, wanted),
            |path: Path, f: FieldModel| is_asked_for(wanted, path) && has_leaf(fields, path, f),
        ),
{
    lemma_statistics_are_complete(fields, wanted, file_statistics(fields, wanted));
}

/// Whether `path` leads to the field `f` of the table's files: of a column by which it is not
/// partitioned, as files hold it.
pub open spec fn is_data_column(config: TableConfigurationModel, path: Path, f: FieldModel) -> bool {
    exists|i: int|
        0 <= i < config.logical_schema.len() && i < config.physical_schema.len()
            && !config.metadata.partition_columns.contains(config.logical_schema[i].name)
            && has_leaf(seq![#[trigger] config.physical_schema[i]], path, f)
}

proof fn lemma_split_fields_to(
    logical: Seq<FieldModel>,
    physical: Seq<FieldModel>,
    partition_columns: Seq<Seq<char>>,
    partition: bool,
    n: nat,
    g: FieldModel,
)
    requires
        n <= logical.len(),
        n <= physical.len(),
    ensures
        split_fields_to(logical, physical, partition_columns, partition, n).contains(g)
            <==> exists|i: int|
            0 <= i < n && partition_columns.contains(logical[i].name) == partition
                && #[trigger] physical[i] == g,
    decreases n,
{
    if n > 0 {
        let before = split_fields_to(
            logical,
            physical,
            partition_columns,
            partition,
            (n - 1) as nat,
        );
        let after = split_fields_to(logical, physical, partition_columns, partition, n);
        lemma_split_fields_to(
            logical,
            physical,
            partition_columns,
            partition,
            (n - 1) as nat,
            g,
        );
        if before.contains(g) {
            let k = choose|k: int| 0 <= k < before.len() && before[k] == g;
            assert(after[k] == g);
        }
        if after.contains(g) && !before.contains(g) {
            let k = choose|k: int| 0 <= k < after.len() && after[k] == g;
            if k < before.len() {
                assert(before[k] == g);
            }
            assert(physical[n - 1] == g);
        }
        if partition_columns.contains(logical[n - 1].name) == partition && physical[n - 1] == g {
            assert(after[after.len() - 1] == g);
        }
    }
}

/// The physical fields of a table by which it is partitioned are those that stand for a partition
/// column, and the other ones are the others.
pub proof fn law_fields_are_split_by_partition(
    config: TableConfigurationModel,
    partition: bool,
    g: FieldModel,
)
    ensures
        split_fields(config, partition).contains(g) <==> exists|i: int|
            0 <= i < config.logical_schema.len() && i < config.physical_schema.len()
                && config.metadata.partition_columns.contains(config.logical_schema[i].name)
                == partition && #[trigger] config.physical_schema[i] == g,
{
    let n = if config.logical_schema.len() <= config.physical_schema.len() {
        config.logical_schema.len()
    } else {
        config.physical_schema.len()
    };
    lemma_split_fields_to(
        config.logical_schema,
        config.physical_schema,
        config.metadata.partition_columns,
        partition,
        n,
        g,
    );
}

/// What fields lead to is what one of them leads to.
pub proof fn lemma_leaf_of_one(fields: Seq<FieldModel>, path: Path, f: FieldModel)
    ensures
        has_leaf(fields, path, f) <==> exists|g: FieldModel| #[trigger]
            fields.contains(g) && has_leaf(seq![g], path, f),
{
    if has_leaf(fields, path, f) {
        let i = choose|i: int|
            0 <= i < fields.len() && (#[trigger] fields[i]).name == path[0] && if path.len() == 1 {
                fields[i] == f
            } else {
                match fields[i].data_type {
                    DataTypeModel::Struct(inner) => has_leaf(inner, path.drop_first(), f),
                    _ => false,
                }
            };
        let one = seq![fields[i]];
        assert(one[0] == fields[i]);
        assert(fields.contains(fields[i]) && has_leaf(one, path, f));
    }
    if exists|g: FieldModel| #[trigger] fields.contains(g) && has_leaf(seq![g], path, f) {
        let g = choose|g: FieldModel| #[trigger] fields.contains(g) && has_leaf(seq![g], path, f);
        let i = choose|i: int| 0 <= i < fields.len() && fields[i] == g;
        let one = seq![g];
        assert(one[0] == g);
        assert(fields[i].name == path[0]);
    }
}

proof fn lemma_data_columns(config: TableConfigurationModel, path: Path, f: FieldModel)
    ensures
        has_leaf(split_fields(config, false), path, f) <==> is_data_column(config, path, f),
{
    let fields = split_fields(config, false);
    lemma_leaf_of_one(fields, path, f);
    if has_leaf(fields, path, f) {
        let g = choose|g: FieldModel| #[trigger] fields.contains(g) && has_leaf(seq![g], path, f);
        law_fields_are_split_by_partition(config, false, g);
    }
    if is_data_column(config, path, f) {
        let i = choose|i: int|
            0 <= i < config.logical_schema.len() && i < config.physical_schema.len()
                && !config.metadata.partition_columns.contains(config.logical_schema[i].name)
                && has_leaf(seq![#[trigger] config.physical_schema[i]], path, f);
        let g = config.physical_schema[i];
        law_fields_are_split_by_partition(config, false, g);
        assert(fields.contains(g) && has_leaf(seq![g], path, f));
    }
}

/// The statistics that the files of a table are expected to have are on the columns that are asked
/// for, of those by which the table is not partitioned, and on no other. They say whether bounds are
/// tight.
pub proof fn law_expected_statistics_are_on_data_columns(
    config: TableConfigurationModel,
    wanted: Option<Set<Path>>,
)
    ensures
        are_statistics_on(
            expected_statistics(config, wanted),
            |path: Path, f: FieldModel|
                is_asked_for(wanted, path) && is_data_column(config, path, f),
        ),
        has_leaf(
            expected_statistics(config, wanted),
            seq!["tightBounds"@],
            bound_leaf(seq!["tightBounds"@], DataTypeModel::Primitive(PrimitiveType::Boolean)),
        ),
{
    let stats = expected_statistics(config, wanted);
    let fields = split_fields(config, false);
    let a = |path: Path, f: FieldModel| is_asked_for(wanted, path) && has_leaf(fields, path, f);
    let b = |path: Path, f: FieldModel|
        is_asked_for(wanted, path) && is_data_column(config, path, f);
    lemma_statistics_are_complete(fields, wanted, stats);
    assert forall|path: Path, f: FieldModel| path.len() > 0 implies a(path, f) == #[trigger] b(
        path,
        f,
    ) by {
        lemma_data_columns(config, path, f);
    }
    lemma_statistics_on_the_same_columns(stats, a, b);
    let tight = plain_field(TIGHT_BOUNDS@, DataTypeModel::Primitive(PrimitiveType::Boolean), true);
    assert(stats[stats.len() - 1] == tight);
}

/// The statistics that skip files for a predicate are on all of its columns, and on no other. There
/// are some exactly where there is such a column.
pub proof fn law_skipping_statistics_are_on_all_columns(fields: Seq<FieldModel>)
    ensures
        skipping_statistics(fields) matches Some(stats) ==> are_statistics_on(
            stats,
            |path: Path, f: FieldModel| has_leaf(fields, path, f),
        ),
        skipping_statistics(fields) is Some <==> exists|path: Path, f: FieldModel| #[trigger]
            has_leaf(fields, path, f) && !(f.data_type is Struct),
{
    let a = |path: Path, f: FieldModel| is_asked_for(None, path) && has_leaf(fields, path, f);
    let b = |path: Path, f: FieldModel| has_leaf(fields, path, f);
    let root: Path = Seq::empty();
    let nulls = field_statistics(fields, false, None, root);
    if let Some(stats) = skipping_statistics(fields) {
        lemma_statistics_are_complete(fields, None, stats);
        lemma_statistics_on_the_same_columns(stats, a, b);
        let (path, f) = lemma_statistic_has_a_column(fields, None, root);
        assert(has_leaf(fields, path, f) && !(f.data_type is Struct));
    }
    if exists|path: Path, f: FieldModel| #[trigger]
        has_leaf(fields, path, f) && !(f.data_type is Struct) {
        let (path, f) = choose|path: Path, f: FieldModel| #[trigger]
            has_leaf(fields, path, f) && !(f.data_type is Struct);
        let leaf = null_count_leaf(path);
        assert(has_leaf(fields, path, f) && has_statistic(f, false, path, leaf));
        lemma_statistics_on_columns(fields, false, None, root, path, leaf);
        assert(has_leaf(nulls, path, leaf));
    }
}

proof fn lemma_statistic_has_a_column(
    fields: Seq<FieldModel>,
    wanted: Option<Set<Path>>,
    prefix: Path,
) -> (r: (Path, FieldModel))
    requires
        field_statistics(fields, false, wanted, prefix).len() > 0,
    ensures
        has_leaf(fields, r.0, r.1),
        !(r.1.data_type is Struct),
    decreases fields,
{
    reveal_with_fuel(field_statistic, 2);
    let i = lemma_statistic_comes_of_a_field(fields, false, wanted, prefix, 0);
    let f = fields[i];
    match f.data_type {
        DataTypeModel::Struct(inner) => {
            let (path, g) = lemma_statistic_has_a_column(inner, wanted, prefix.push(f.name));
            let whole = seq![f.name] + path;
            assert(whole.drop_first() =~= path);
            assert(whole[0] == f.name);
            assert(has_leaf(fields, whole, g));
            (whole, g)
        },
        _ => {
            let path: Path = seq![f.name];
            assert(has_leaf(fields, path, f));
            (path, f)
        },
    }
}

/// The statistics on fields stand in the order of the fields, at most one for each, under its name.
pub proof fn law_statistics_stand_in_the_order_of_fields(
    fields: Seq<FieldModel>,
    bounds: bool,
    wanted: Option<Set<Path>>,
    prefix: Path,
) -> (positions: Seq<int>)
    ensures
        ({
            let stats = field_statistics(fields, bounds, wanted, prefix);
            &&& positions.len() == stats.len()
            &&& forall|k: int|
                0 <= k < stats.len() ==> 0 <= #[trigger] positions[k] < fields.len()
                    && stats[k].name == fields[positions[k]].name
            &&& forall|k: int, l: int|
                0 <= k < l < positions.len() ==> #[trigger] positions[k] < #[trigger] positions[l]
        }),
    decreases fields.len(),
{
    reveal_with_fuel(field_statistic, 2);
    if fields.len() == 0 {
        Seq::empty()
    } else {
        let init = fields.drop_last();
        let before = law_statistics_stand_in_the_order_of_fields(init, bounds, wanted, prefix);
        let stats = field_statistics(fields, bounds, wanted, prefix);
        let positions = if field_statistic(fields.last(), bounds, wanted, prefix) is Some {
            before.push(init.len() as int)
        } else {
            before
        };
        assert forall|k: int| 0 <= k < stats.len() implies 0 <= #[trigger] positions[k]
            < fields.len() && stats[k].name == fields[positions[k]].name by {
            if k < before.len() {
                assert(positions[k] == before[k]);
                assert(init[before[k]] == fields[before[k]]);
            }
        }
        positions
    }
}

/// The physical fields by which a table is partitioned, and the other ones, stand in the order of the
/// schema.
pub proof fn law_split_fields_stand_in_the_order_of_the_schema(
    logical: Seq<FieldModel>,
    physical: Seq<FieldModel>,
    partition_columns: Seq<Seq<char>>,
    partition: bool,
    n: nat,
) -> (positions: Seq<int>)
    requires
        n <= logical.len(),
        n <= physical.len(),
    ensures
        keeps_in_order(
            physical.take(n as int),
            |i: int| partition_columns.contains(logical[i].name) == partition,
            split_fields_to(logical, physical, partition_columns, partition, n),
            positions,
        ),
    decreases n,
{
    let passes = |i: int| partition_columns.contains(logical[i].name) == partition;
    if n == 0 {
        Seq::empty()
    } else {
        let m = n - 1;
        let before = law_split_fields_stand_in_the_order_of_the_schema(
            logical,
            physical,
            partition_columns,
            partition,
            m as nat,
        );
        let kept = split_fields_to(logical, physical, partition_columns, partition, n);
        let whole = physical.take(n as int);
        let part = physical.take(m);
        let positions = if passes(m) {
            before.push(m)
        } else {
            before
        };
        assert forall|k: int| 0 <= k < kept.len() implies 0 <= #[trigger] positions[k] < whole.len()
            && kept[k] == whole[positions[k]] && passes(positions[k]) by {
            if k < before.len() {
                assert(positions[k] == before[k]);
                assert(part[before[k]] == whole[before[k]]);
            }
        }
        assert forall|i: int| 0 <= i < whole.len() && #[trigger] passes(i) implies positions.contains(
            i,
        ) by {
            if i < m {
                assert(before.contains(i));
                let k = choose|k: int| 0 <= k < before.len() && before[k] == i;
                assert(positions[k] == i);
            } else {
                assert(positions[before.len() as int] == m);
            }
        }
        positions
    }
}

} // verus!
