//! The rows that a scan hands out.
//!
//! A scan reads columns of files, and steps turn them into its fields. This is what the steps do, and
//! that they yield the fields that were asked for.
use vstd::prelude::*;

use crate::error::ErrorModel;
use crate::expressions::PredicateModel;
use crate::properties::lookup;
use crate::scan::state_info::{
    free_row_index_name, is_first_free, is_row_id, last_name, law_added_row_index_name_is_free,
    lemma_first_free_exists, metadata_info, read_plan, row_index_name, state_info,
    MetadataInfoModel, ReadPlan, StatsOutputModel,
};
use crate::scan::transform_spec::{FieldTransformModel, TransformFieldClassifier};
use crate::schema::{
    has_field, law_schema_fields_do_not_clash, metadata_field, physical_field, plain_field,
    ColumnMappingMode, DataTypeModel, FieldModel, MetadataColumnSpec, PrimitiveType,
};
use crate::table_configuration::TableConfigurationModel;
use crate::text::decimal_text;

verus! {

// ---------------------------------------------------------------------------
// What the steps do
// ---------------------------------------------------------------------------
/// Where the values of a column of a scan's rows come from.
pub enum Source {
    /// A column that is read.
    Column(FieldModel),
    /// The file: the value of the scan's field at that position.
    File(int),
    /// Row ids: those that the named column holds, and where it holds none, those that follow from the
    /// row indexes of the other one.
    RowIds { kept: Seq<char>, row_index: Seq<char> },
}

/// What is inserted after the column called `after`, in order. Without a name, what comes first.
pub open spec fn inserted(steps: Seq<FieldTransformModel>, after: Option<Seq<char>>) -> Seq<Source>
    decreases steps.len(),
{
    if steps.len() == 0 {
        Seq::empty()
    } else {
        let init = inserted(steps.drop_last(), after);
        match steps.last() {
            FieldTransformModel::MetadataDerivedColumn {
                field_index,
                insert_after,
            } if insert_after == after => init.push(Source::File(field_index)),
            _ => init,
        }
    }
}

/// The row indexes from which row ids are computed for the column called `name`, if they are.
pub open spec fn row_index_of(steps: Seq<FieldTransformModel>, name: Seq<char>) -> Option<Seq<char>>
    decreases steps.len(),
{
    if steps.len() == 0 {
        None
    } else {
        match steps.last() {
            FieldTransformModel::GenerateRowId {
                field_name,
                row_index_field_name,
            } if field_name == name => Some(row_index_field_name),
            _ => row_index_of(steps.drop_last(), name),
        }
    }
}

/// What becomes of a column that is read.
pub open spec fn becomes(f: FieldModel, steps: Seq<FieldTransformModel>) -> Seq<Source> {
    if steps.contains(FieldTransformModel::StaticDrop { field_name: f.name }) {
        Seq::empty()
    } else {
        match row_index_of(steps, f.name) {
            Some(row_index) => seq![Source::RowIds { kept: f.name, row_index }],
            None => seq![Source::Column(f)],
        }
    }
}

/// What becomes of the columns that are read, in order, each followed by what is inserted after it.
pub open spec fn become_rows(fields: Seq<FieldModel>, steps: Seq<FieldTransformModel>) -> Seq<Source>
    decreases fields.len(),
{
    if fields.len() == 0 {
        Seq::empty()
    } else {
        become_rows(fields.drop_last(), steps) + becomes(fields.last(), steps) + inserted(
            steps,
            Some(fields.last().name),
        )
    }
}

/// The columns of the rows that come out when `fields` are read and the steps are done.
pub open spec fn rows_of(fields: Seq<FieldModel>, steps: Seq<FieldTransformModel>) -> Seq<Source> {
    inserted(steps, None) + become_rows(fields, steps)
}

// ---------------------------------------------------------------------------
// Steps that do not concern a column
// ---------------------------------------------------------------------------
/// Whether a step names a column that is read.
spec fn names_column(t: FieldTransformModel, name: Seq<char>) -> bool {
    match t {
        FieldTransformModel::MetadataDerivedColumn { insert_after, .. } => insert_after == Some(
            name,
        ),
        FieldTransformModel::StaticDrop { field_name } => field_name == name,
        FieldTransformModel::GenerateRowId { field_name, .. } => field_name == name,
    }
}

/// Whether every column that a step names is among `fields`.
spec fn steps_name_columns_of(steps: Seq<FieldTransformModel>, fields: Seq<FieldModel>) -> bool {
    forall|k: int, name: Seq<char>|
        0 <= k < steps.len() && #[trigger] names_column(steps[k], name) ==> has_field(fields, name)
}

/// Whether no two fields have the same name.
pub open spec fn names_are_distinct(fields: Seq<FieldModel>) -> bool {
    forall|i: int, j: int|
        0 <= i < j < fields.len() ==> (#[trigger] fields[i]).name != (#[trigger] fields[j]).name
}

proof fn lemma_unnamed_column(steps: Seq<FieldTransformModel>, f: FieldModel)
    requires
        forall|k: int| 0 <= k < steps.len() ==> !names_column(#[trigger] steps[k], f.name),
    ensures
        becomes(f, steps) == seq![Source::Column(f)],
        inserted(steps, Some(f.name)) == Seq::<Source>::empty(),
        row_index_of(steps, f.name) is None,
        !steps.contains(FieldTransformModel::StaticDrop { field_name: f.name }),
    decreases steps.len(),
{
    let dropped = FieldTransformModel::StaticDrop { field_name: f.name };
    if steps.contains(dropped) {
        let k = choose|k: int| 0 <= k < steps.len() && steps[k] == dropped;
        assert(names_column(steps[k], f.name));
    }
    if steps.len() > 0 {
        let init = steps.drop_last();
        assert forall|k: int| 0 <= k < init.len() implies !names_column(
            #[trigger] init[k],
            f.name,
        ) by {
            assert(init[k] == steps[k]);
        }
        lemma_unnamed_column(init, f);
        assert(!names_column(steps[steps.len() - 1], f.name));
    }
}

/// A step changes nothing about columns that it does not name.
proof fn lemma_other_step(
    fields: Seq<FieldModel>,
    steps: Seq<FieldTransformModel>,
    t: FieldTransformModel,
)
    requires
        forall|i: int| 0 <= i < fields.len() ==> !names_column(t, (#[trigger] fields[i]).name),
    ensures
        become_rows(fields, steps.push(t)) == become_rows(fields, steps),
    decreases fields.len(),
{
    if fields.len() > 0 {
        let init = fields.drop_last();
        let f = fields.last();
        let more = steps.push(t);
        assert forall|i: int| 0 <= i < init.len() implies !names_column(
            t,
            (#[trigger] init[i]).name,
        ) by {
            assert(init[i] == fields[i]);
        }
        lemma_other_step(init, steps, t);
        assert(!names_column(t, fields[fields.len() - 1].name));
        assert(more.drop_last() =~= steps);
        assert(more.last() == t);
        let dropped = FieldTransformModel::StaticDrop { field_name: f.name };
        assert(more.contains(dropped) <==> steps.contains(dropped)) by {
            if steps.contains(dropped) {
                let k = choose|k: int| 0 <= k < steps.len() && steps[k] == dropped;
                assert(more[k] == dropped);
            }
            if more.contains(dropped) {
                let k = choose|k: int| 0 <= k < more.len() && more[k] == dropped;
                if k < steps.len() {
                    assert(steps[k] == dropped);
                }
            }
        }
    }
}

proof fn lemma_more_fields(
    fields: Seq<FieldModel>,
    f: FieldModel,
    steps: Seq<FieldTransformModel>,
)
    ensures
        become_rows(fields.push(f), steps) == become_rows(fields, steps) + becomes(f, steps)
            + inserted(steps, Some(f.name)),
{
    assert(fields.push(f).drop_last() =~= fields);
}

// ---------------------------------------------------------------------------
// The rows of a plan
// ---------------------------------------------------------------------------
/// Where the values of the scan's field `i` should come from.
pub open spec fn source_of(
    logical: Seq<FieldModel>,
    i: int,
    config: TableConfigurationModel,
    kept: Seq<char>,
    row_index: Seq<char>,
) -> Source {
    if config.metadata.partition_columns.contains(logical[i].name) {
        Source::File(i)
    } else if is_row_id(logical[i]) {
        Source::RowIds { kept, row_index }
    } else {
        Source::Column(physical_field(logical[i], config.column_mapping_mode)->0)
    }
}

spec fn sources(
    logical: Seq<FieldModel>,
    n: nat,
    config: TableConfigurationModel,
    kept: Seq<char>,
    row_index: Seq<char>,
) -> Seq<Source> {
    Seq::new(n, |i: int| source_of(logical, i, config, kept, row_index))
}

/// Whether the value of the field at `i` is read from a column of the same field: it is neither that
/// of a partition column nor a row id.
pub open spec fn is_read(logical: Seq<FieldModel>, i: int, config: TableConfigurationModel) -> bool {
    !config.metadata.partition_columns.contains(logical[i].name) && !is_row_id(logical[i])
}

/// Whether a column that is read follows every row id before position `n`.
pub open spec fn row_ids_are_followed(
    logical: Seq<FieldModel>,
    n: int,
    config: TableConfigurationModel,
) -> bool {
    forall|i: int|
        0 <= i < n && is_row_id(#[trigger] logical[i]) ==> exists|k: int|
            i < k < n && #[trigger] is_read(logical, k, config)
}

spec fn index_name(logical: Seq<FieldModel>, info: MetadataInfoModel) -> Seq<char> {
    match info.row_index {
        Some(name) => name,
        None => free_row_index_name(logical),
    }
}

proof fn lemma_fields_grow(
    logical: Seq<FieldModel>,
    n: nat,
    config: TableConfigurationModel,
    info: MetadataInfoModel,
)
    requires
        0 < n <= logical.len(),
        read_plan(logical, n, config, info, ()) is Ok,
    ensures
        read_plan(logical, (n - 1) as nat, config, info, ()) is Ok,
        ({
            let before = read_plan(logical, (n - 1) as nat, config, info, ())->Ok_0;
            let after = read_plan(logical, n, config, info, ())->Ok_0;
            &&& before.fields.len() <= after.fields.len()
            &&& forall|i: int|
                0 <= i < before.fields.len() ==> #[trigger] after.fields[i] == before.fields[i]
        }),
{
}

proof fn lemma_rows_of_plan(
    logical: Seq<FieldModel>,
    n: nat,
    config: TableConfigurationModel,
    info: MetadataInfoModel,
)
    requires
        n <= logical.len(),
        read_plan(logical, n, config, info, ()) matches Ok(plan) && names_are_distinct(plan.fields),
        forall|i: int|
            0 <= i < n && is_row_id(#[trigger] logical[i])
                ==> !config.metadata.partition_columns.contains(logical[i].name),
        forall|i: int|
            0 <= i < n && config.metadata.partition_columns.contains((#[trigger] logical[i]).name)
                ==> row_ids_are_followed(logical, i, config),
    ensures
        ({
            let plan = read_plan(logical, n, config, info, ())->Ok_0;
            &&& rows_of(plan.fields, plan.transforms) == sources(
                logical,
                n,
                config,
                info.row_id->0,
                index_name(logical, info),
            )
            &&& steps_name_columns_of(plan.transforms, plan.fields)
            &&& row_ids_are_followed(logical, n as int, config) ==> plan.last == last_name(
                plan.fields,
            )
        }),
    decreases n,
{
    let plan = read_plan(logical, n, config, info, ())->Ok_0;
    let kept = info.row_id->0;
    let row_index = index_name(logical, info);
    if n == 0 {
        assert(rows_of(plan.fields, plan.transforms) =~= sources(
            logical,
            0,
            config,
            kept,
            row_index,
        ));
    } else {
        let m = (n - 1) as nat;
        lemma_fields_grow(logical, n, config, info);
        let before = read_plan(logical, m, config, info, ())->Ok_0;
        let f = logical[n - 1];
        assert forall|i: int, j: int| 0 <= i < j < before.fields.len() implies (
        #[trigger] before.fields[i]).name != (#[trigger] before.fields[j]).name by {
            assert(plan.fields[i] == before.fields[i]);
            assert(plan.fields[j] == before.fields[j]);
        }
        lemma_rows_of_plan(logical, m, config, info);
        let old_rows = rows_of(before.fields, before.transforms);
        let all = sources(logical, n, config, kept, row_index);
        let some = sources(logical, m, config, kept, row_index);
        assert(all =~= some.push(source_of(logical, n - 1, config, kept, row_index)));
        if config.metadata.partition_columns.contains(f.name) {
            assert(logical[n - 1] == f);
            assert(row_ids_are_followed(logical, n - 1, config));
            lemma_insert(before.fields, before.transforms, n - 1);
            let t = FieldTransformModel::MetadataDerivedColumn {
                field_index: n - 1,
                insert_after: before.last,
            };
            assert(plan.transforms == before.transforms.push(t));
            assert(plan.fields == before.fields);
            lemma_steps_push(before.transforms, t, before.fields, before.fields);
            if row_ids_are_followed(logical, n as int, config) {
                lemma_still_followed(logical, n as int, config);
            }
        } else if is_row_id(f) {
            let k = plain_field(kept, DataTypeModel::Primitive(PrimitiveType::Long), true);
            let generate = FieldTransformModel::GenerateRowId {
                field_name: kept,
                row_index_field_name: row_index,
            };
            if info.row_index is Some {
                assert(plan.fields == before.fields.push(k));
                lemma_generate(before.fields, before.transforms, k, row_index);
            } else {
                let r = metadata_field(row_index, MetadataColumnSpec::RowIndex);
                assert(plan.fields == before.fields.push(r).push(k));
                lemma_generate_with_row_index(before.fields, before.transforms, r, k);
            }
            if row_ids_are_followed(logical, n as int, config) {
                assert(is_row_id(logical[n - 1]));
            }
        } else {
            let p = physical_field(f, config.column_mapping_mode)->0;
            assert(plan.fields == before.fields.push(p));
            assert(plan.transforms == before.transforms);
            lemma_new_column_is_unnamed(before.fields, p, before.transforms);
            lemma_unnamed_column(before.transforms, p);
            lemma_more_fields(before.fields, p, before.transforms);
            lemma_steps_kept(before.transforms, before.fields, p);
            assert(rows_of(plan.fields, plan.transforms) =~= old_rows.push(Source::Column(p)));
        }
    }
}

proof fn lemma_still_followed(logical: Seq<FieldModel>, n: int, config: TableConfigurationModel)
    requires
        0 < n <= logical.len(),
        row_ids_are_followed(logical, n, config),
        !is_read(logical, n - 1, config),
    ensures
        row_ids_are_followed(logical, n - 1, config),
{
    assert forall|i: int| 0 <= i < n - 1 && is_row_id(#[trigger] logical[i]) implies exists|k: int|
        i < k < n - 1 && #[trigger] is_read(logical, k, config) by {
        let k = choose|k: int| i < k < n && #[trigger] is_read(logical, k, config);
        assert(k != n - 1);
        assert(i < k < n - 1 && is_read(logical, k, config));
    }
}

proof fn lemma_has_field_push(fields: Seq<FieldModel>, f: FieldModel, name: Seq<char>)
    ensures
        has_field(fields.push(f), name) <==> has_field(fields, name) || f.name == name,
{
    let more = fields.push(f);
    if has_field(fields, name) {
        let i = choose|i: int| 0 <= i < fields.len() && (#[trigger] fields[i]).name == name;
        assert(more[i].name == name);
    }
    assert(more[fields.len() as int] == f);
    if has_field(more, name) {
        let i = choose|i: int| 0 <= i < more.len() && (#[trigger] more[i]).name == name;
        if i < fields.len() {
            assert(fields[i].name == name);
        }
    }
}

proof fn lemma_steps_kept(steps: Seq<FieldTransformModel>, fields: Seq<FieldModel>, f: FieldModel)
    requires
        steps_name_columns_of(steps, fields),
    ensures
        steps_name_columns_of(steps, fields.push(f)),
{
    assert forall|k: int, name: Seq<char>|
        0 <= k < steps.len() && #[trigger] names_column(steps[k], name) implies has_field(
        fields.push(f),
        name,
    ) by {
        lemma_has_field_push(fields, f, name);
    }
}

proof fn lemma_steps_push(
    steps: Seq<FieldTransformModel>,
    t: FieldTransformModel,
    fields: Seq<FieldModel>,
    more: Seq<FieldModel>,
)
    requires
        steps_name_columns_of(steps, more),
        forall|name: Seq<char>| #[trigger] names_column(t, name) ==> has_field(more, name),
    ensures
        steps_name_columns_of(steps.push(t), more),
{
    assert forall|k: int, name: Seq<char>|
        0 <= k < steps.push(t).len() && #[trigger] names_column(
            steps.push(t)[k],
            name,
        ) implies has_field(more, name) by {
        if k < steps.len() {
            assert(names_column(steps[k], name));
        } else {
            assert(names_column(t, name));
        }
    }
}

proof fn lemma_new_column_is_unnamed(
    fields: Seq<FieldModel>,
    f: FieldModel,
    steps: Seq<FieldTransformModel>,
)
    requires
        names_are_distinct(fields.push(f)),
        steps_name_columns_of(steps, fields),
    ensures
        !has_field(fields, f.name),
        forall|k: int| 0 <= k < steps.len() ==> !names_column(#[trigger] steps[k], f.name),
{
    let more = fields.push(f);
    assert(!has_field(fields, f.name)) by {
        if has_field(fields, f.name) {
            let i = choose|i: int| 0 <= i < fields.len() && (#[trigger] fields[i]).name == f.name;
            assert(more[i].name != more[fields.len() as int].name);
        }
    }
    assert forall|k: int| 0 <= k < steps.len() implies !names_column(
        #[trigger] steps[k],
        f.name,
    ) by {
        if names_column(steps[k], f.name) {
            assert(has_field(fields, f.name));
        }
    }
}

/// Inserting a column after the last one that is read puts it last.
proof fn lemma_insert(fields: Seq<FieldModel>, steps: Seq<FieldTransformModel>, index: int)
    requires
        names_are_distinct(fields),
    ensures
        rows_of(
            fields,
            steps.push(
                FieldTransformModel::MetadataDerivedColumn {
                    field_index: index,
                    insert_after: last_name(fields),
                },
            ),
        ) == rows_of(fields, steps).push(Source::File(index)),
{
    let t = FieldTransformModel::MetadataDerivedColumn {
        field_index: index,
        insert_after: last_name(fields),
    };
    let more = steps.push(t);
    assert(more.drop_last() =~= steps);
    assert(more.last() == t);
    if fields.len() == 0 {
        assert(rows_of(fields, more) =~= rows_of(fields, steps).push(Source::File(index)));
    } else {
        let init = fields.drop_last();
        let f = fields.last();
        assert forall|i: int| 0 <= i < init.len() implies !names_column(
            t,
            (#[trigger] init[i]).name,
        ) by {
            assert(fields[i].name != fields[fields.len() - 1].name);
            assert(init[i] == fields[i]);
        }
        lemma_other_step(init, steps, t);
        let dropped = FieldTransformModel::StaticDrop { field_name: f.name };
        assert(more.contains(dropped) <==> steps.contains(dropped)) by {
            if steps.contains(dropped) {
                let k = choose|k: int| 0 <= k < steps.len() && steps[k] == dropped;
                assert(more[k] == dropped);
            }
            if more.contains(dropped) {
                let k = choose|k: int| 0 <= k < more.len() && more[k] == dropped;
                if k < steps.len() {
                    assert(steps[k] == dropped);
                }
            }
        }
        assert(becomes(f, more) == becomes(f, steps));
        assert(inserted(more, Some(f.name)) == inserted(steps, Some(f.name)).push(
            Source::File(index),
        ));
        assert(rows_of(fields, more) =~= rows_of(fields, steps).push(Source::File(index)));
    }
}

/// Reading a column and computing row ids for it puts row ids last.
proof fn lemma_generate(
    fields: Seq<FieldModel>,
    steps: Seq<FieldTransformModel>,
    k: FieldModel,
    row_index: Seq<char>,
)
    requires
        names_are_distinct(fields.push(k)),
        steps_name_columns_of(steps, fields),
    ensures
        ({
            let more = steps.push(
                FieldTransformModel::GenerateRowId {
                    field_name: k.name,
                    row_index_field_name: row_index,
                },
            );
            &&& rows_of(fields.push(k), more) == rows_of(fields, steps).push(
                Source::RowIds { kept: k.name, row_index },
            )
            &&& steps_name_columns_of(more, fields.push(k))
        }),
{
    let t = FieldTransformModel::GenerateRowId {
        field_name: k.name,
        row_index_field_name: row_index,
    };
    let more = steps.push(t);
    assert(more.drop_last() =~= steps);
    assert(more.last() == t);
    lemma_new_column_is_unnamed(fields, k, steps);
    lemma_unnamed_column(steps, k);
    lemma_more_fields(fields, k, more);
    assert forall|i: int| 0 <= i < fields.len() implies !names_column(
        t,
        (#[trigger] fields[i]).name,
    ) by {
        if fields[i].name == k.name {
            assert(has_field(fields, k.name));
        }
    }
    lemma_other_step(fields, steps, t);
    let dropped = FieldTransformModel::StaticDrop { field_name: k.name };
    assert(!more.contains(dropped)) by {
        if more.contains(dropped) {
            let i = choose|i: int| 0 <= i < more.len() && more[i] == dropped;
            assert(steps[i] == dropped);
        }
    }
    assert(becomes(k, more) =~= seq![Source::RowIds { kept: k.name, row_index }]);
    assert(inserted(more, Some(k.name)) =~= Seq::empty());
    assert(inserted(more, None) == inserted(steps, None));
    assert(rows_of(fields.push(k), more) =~= rows_of(fields, steps).push(
        Source::RowIds { kept: k.name, row_index },
    ));
    lemma_steps_kept(steps, fields, k);
    assert forall|name: Seq<char>| #[trigger] names_column(t, name) implies has_field(
        fields.push(k),
        name,
    ) by {
        lemma_has_field_push(fields, k, name);
    }
    lemma_steps_push(steps, t, fields, fields.push(k));
}

/// Reading row indexes besides, and leaving them out again, adds nothing more to the rows.
proof fn lemma_generate_with_row_index(
    fields: Seq<FieldModel>,
    steps: Seq<FieldTransformModel>,
    r: FieldModel,
    k: FieldModel,
)
    requires
        names_are_distinct(fields.push(r).push(k)),
        steps_name_columns_of(steps, fields),
    ensures
        ({
            let more = steps.push(FieldTransformModel::StaticDrop { field_name: r.name }).push(
                FieldTransformModel::GenerateRowId {
                    field_name: k.name,
                    row_index_field_name: r.name,
                },
            );
            &&& rows_of(fields.push(r).push(k), more) == rows_of(fields, steps).push(
                Source::RowIds { kept: k.name, row_index: r.name },
            )
            &&& steps_name_columns_of(more, fields.push(r).push(k))
        }),
{
    let t = FieldTransformModel::StaticDrop { field_name: r.name };
    let more = steps.push(t);
    let with = fields.push(r);
    assert(more.drop_last() =~= steps);
    assert(more.last() == t);
    assert forall|i: int, j: int| 0 <= i < j < with.len() implies (#[trigger] with[i]).name != (
    #[trigger] with[j]).name by {
        assert(with.push(k)[i] == with[i]);
        assert(with.push(k)[j] == with[j]);
    }
    lemma_new_column_is_unnamed(fields, r, steps);
    lemma_unnamed_column(steps, r);
    lemma_more_fields(fields, r, more);
    assert forall|i: int| 0 <= i < fields.len() implies !names_column(
        t,
        (#[trigger] fields[i]).name,
    ) by {
        if fields[i].name == r.name {
            assert(has_field(fields, r.name));
        }
    }
    lemma_other_step(fields, steps, t);
    assert(more[steps.len() as int] == t);
    assert(more.contains(t));
    assert(becomes(r, more) =~= Seq::empty());
    assert(inserted(more, Some(r.name)) =~= Seq::empty());
    assert(inserted(more, None) == inserted(steps, None));
    assert(rows_of(with, more) =~= rows_of(fields, steps));
    lemma_steps_kept(steps, fields, r);
    assert forall|name: Seq<char>| #[trigger] names_column(t, name) implies has_field(
        with,
        name,
    ) by {
        lemma_has_field_push(fields, r, name);
    }
    lemma_steps_push(steps, t, fields, with);
    lemma_generate(with, more, k, r.name);
}

// ---------------------------------------------------------------------------
// Metadata columns
// ---------------------------------------------------------------------------
/// What the metadata columns among the fields of a scan say.
proof fn lemma_metadata_info(fields: Seq<FieldModel>, config: TableConfigurationModel)
    requires
        metadata_info(fields, config) is Ok,
    ensures
        ({
            let info = metadata_info(fields, config)->Ok_0;
            &&& info.row_id matches Some(kept) ==> {
                &&& lookup(
                    config.metadata.configuration,
                    "delta.rowTracking.materializedRowIdColumnName"@,
                ) == Some(kept)
                &&& lookup(config.metadata.configuration, "delta.enableRowTracking"@) == Some(
                    "true"@,
                )
            }
            &&& info.row_id is Some <==> exists|i: int|
                0 <= i < fields.len() && is_row_id(#[trigger] fields[i])
            &&& info.row_index is Some <==> exists|i: int|
                0 <= i < fields.len() && (#[trigger] fields[i]).metadata_column == Some(
                    MetadataColumnSpec::RowIndex,
                )
            &&& forall|name: Seq<char>| #[trigger]
                info.names.contains(name) <==> exists|i: int|
                    0 <= i < fields.len() && (#[trigger] fields[i]).name == name
                        && fields[i].metadata_column is Some
            &&& forall|i: int|
                0 <= i < fields.len() && (#[trigger] fields[i]).metadata_column is Some
                    ==> !config.metadata.partition_columns.contains(fields[i].name)
        }),
    decreases fields.len(),
{
    if fields.len() > 0 {
        let init = fields.drop_last();
        let f = fields.last();
        lemma_metadata_info(init, config);
        let before = metadata_info(init, config)->Ok_0;
        let info = metadata_info(fields, config)->Ok_0;
        assert(fields[fields.len() - 1] == f);
        assert forall|i: int| 0 <= i < init.len() implies #[trigger] init[i] == fields[i] by {}
        assert(info.row_id is Some <==> exists|i: int|
            0 <= i < fields.len() && is_row_id(#[trigger] fields[i])) by {
            if before.row_id is Some {
                let i = choose|i: int| 0 <= i < init.len() && is_row_id(#[trigger] init[i]);
                assert(is_row_id(fields[i]));
            }
            if exists|i: int| 0 <= i < fields.len() && is_row_id(#[trigger] fields[i]) {
                let i = choose|i: int| 0 <= i < fields.len() && is_row_id(#[trigger] fields[i]);
                if i < init.len() {
                    assert(is_row_id(init[i]));
                }
            }
        }
        assert(info.row_index is Some <==> exists|i: int|
            0 <= i < fields.len() && (#[trigger] fields[i]).metadata_column == Some(
                MetadataColumnSpec::RowIndex,
            )) by {
            if before.row_index is Some {
                let i = choose|i: int|
                    0 <= i < init.len() && (#[trigger] init[i]).metadata_column == Some(
                        MetadataColumnSpec::RowIndex,
                    );
                assert(fields[i].metadata_column == Some(MetadataColumnSpec::RowIndex));
            }
            if exists|i: int|
                0 <= i < fields.len() && (#[trigger] fields[i]).metadata_column == Some(
                    MetadataColumnSpec::RowIndex,
                ) {
                let i = choose|i: int|
                    0 <= i < fields.len() && (#[trigger] fields[i]).metadata_column == Some(
                        MetadataColumnSpec::RowIndex,
                    );
                if i < init.len() {
                    assert(init[i].metadata_column == Some(MetadataColumnSpec::RowIndex));
                }
            }
        }
        assert forall|name: Seq<char>| #[trigger] info.names.contains(name) <==> exists|i: int|
            0 <= i < fields.len() && (#[trigger] fields[i]).name == name
                && fields[i].metadata_column is Some by {
            if before.names.contains(name) {
                let i = choose|i: int|
                    0 <= i < init.len() && (#[trigger] init[i]).name == name
                        && init[i].metadata_column is Some;
                assert(fields[i].name == name && fields[i].metadata_column is Some);
            }
            if exists|i: int|
                0 <= i < fields.len() && (#[trigger] fields[i]).name == name
                    && fields[i].metadata_column is Some {
                let i = choose|i: int|
                    0 <= i < fields.len() && (#[trigger] fields[i]).name == name
                        && fields[i].metadata_column is Some;
                if i < init.len() {
                    assert(init[i].name == name && init[i].metadata_column is Some);
                }
            }
        }
        assert forall|i: int|
            0 <= i < fields.len() && (
            #[trigger] fields[i]).metadata_column is Some implies !config.metadata.partition_columns.contains(
        fields[i].name) by {
            if i < init.len() {
                assert(init[i].metadata_column is Some);
            }
        }
    }
}

/// The column in which files keep row ids, as it is read: whole numbers, where a file has them.
pub open spec fn is_kept_row_id(f: FieldModel, name: Seq<char>) -> bool {
    &&& f.name == name
    &&& f.data_type == DataTypeModel::Primitive(PrimitiveType::Long)
    &&& f.nullable
    &&& f.metadata_column is None
}

spec fn row_ids_are_read(
    plan: ReadPlan,
    logical: Seq<FieldModel>,
    n: int,
    config: TableConfigurationModel,
    info: MetadataInfoModel,
) -> bool {
    &&& forall|k: int|
        0 <= k < plan.transforms.len() ==> match #[trigger] plan.transforms[k] {
            FieldTransformModel::GenerateRowId { field_name, row_index_field_name } => {
                &&& info.row_id == Some(field_name)
                &&& row_index_field_name == index_name(logical, info)
                &&& exists|j: int|
                    0 <= j < plan.fields.len() && is_kept_row_id(
                        #[trigger] plan.fields[j],
                        field_name,
                    )
            },
            _ => true,
        }
    &&& forall|i: int|
        0 <= i < n && is_row_id(#[trigger] logical[i])
            && !config.metadata.partition_columns.contains(logical[i].name)
            ==> plan.transforms.contains(
            FieldTransformModel::GenerateRowId {
                field_name: info.row_id->0,
                row_index_field_name: index_name(logical, info),
            },
        )
}

proof fn lemma_row_ids_are_read(
    logical: Seq<FieldModel>,
    n: nat,
    config: TableConfigurationModel,
    info: MetadataInfoModel,
)
    requires
        n <= logical.len(),
    ensures
        read_plan(logical, n, config, info, ()) matches Ok(plan) ==> row_ids_are_read(
            plan,
            logical,
            n as int,
            config,
            info,
        ),
    decreases n,
{
    if n > 0 && read_plan(logical, n, config, info, ()) is Ok {
        lemma_row_ids_are_read(logical, (n - 1) as nat, config, info);
        lemma_fields_grow(logical, n, config, info);
        let before = read_plan(logical, (n - 1) as nat, config, info, ())->Ok_0;
        let plan = read_plan(logical, n, config, info, ())->Ok_0;
        let generate = FieldTransformModel::GenerateRowId {
            field_name: info.row_id->0,
            row_index_field_name: index_name(logical, info),
        };
        let f = logical[n - 1];
        assert(forall|k: int|
            0 <= k < before.transforms.len() ==> #[trigger] plan.transforms[k]
                == before.transforms[k]);
        assert forall|k: int| 0 <= k < plan.transforms.len() implies match #[trigger] plan.transforms[k] {
            FieldTransformModel::GenerateRowId { field_name, row_index_field_name } => {
                &&& info.row_id == Some(field_name)
                &&& row_index_field_name == index_name(logical, info)
                &&& exists|j: int|
                    0 <= j < plan.fields.len() && is_kept_row_id(
                        #[trigger] plan.fields[j],
                        field_name,
                    )
            },
            _ => true,
        } by {
            if k < before.transforms.len() {
                if let FieldTransformModel::GenerateRowId { field_name, .. } = before.transforms[k] {
                    let j = choose|j: int|
                        0 <= j < before.fields.len() && is_kept_row_id(
                            #[trigger] before.fields[j],
                            field_name,
                        );
                    assert(plan.fields[j] == before.fields[j]);
                    assert(is_kept_row_id(plan.fields[j], field_name));
                }
            } else if plan.transforms[k] is GenerateRowId {
                assert(is_kept_row_id(plan.fields[plan.fields.len() - 1], info.row_id->0));
            }
        }
        assert forall|i: int|
            0 <= i < n && is_row_id(#[trigger] logical[i])
                && !config.metadata.partition_columns.contains(
                logical[i].name,
            ) implies plan.transforms.contains(generate) by {
            if i < n - 1 {
                let k = choose|k: int|
                    0 <= k < before.transforms.len() && before.transforms[k] == generate;
                assert(plan.transforms[k] == generate);
            } else {
                assert(plan.transforms[plan.transforms.len() - 1] == generate);
            }
        }
    }
}

/// The steps of a scan.
pub open spec fn steps_of(transform_spec: Option<Seq<FieldTransformModel>>) -> Seq<
    FieldTransformModel,
> {
    match transform_spec {
        Some(steps) => steps,
        None => Seq::empty(),
    }
}

/// A scan that computes row ids reads the column in which the table's files keep them: a nullable
/// column of whole numbers, with the name that the table's properties give. And row ids are computed
/// exactly where a field of the scan asks for them, on a table that has row tracking switched on.
pub proof fn law_row_ids_are_read_where_files_keep_them(
    logical: Seq<FieldModel>,
    config: TableConfigurationModel,
    predicate: Option<PredicateModel>,
    output: StatsOutputModel,
    kept: Seq<char>,
    row_index: Seq<char>,
)
    ensures
        state_info(logical, config, predicate, output, ()) matches Ok(s) ==> {
            let steps = steps_of(s.transform_spec);
            &&& steps.contains(
                FieldTransformModel::GenerateRowId {
                    field_name: kept,
                    row_index_field_name: row_index,
                },
            ) ==> {
                &&& lookup(
                    config.metadata.configuration,
                    "delta.rowTracking.materializedRowIdColumnName"@,
                ) == Some(kept)
                &&& lookup(config.metadata.configuration, "delta.enableRowTracking"@) == Some(
                    "true"@,
                )
                &&& exists|j: int|
                    0 <= j < s.physical_schema.len() && is_kept_row_id(
                        #[trigger] s.physical_schema[j],
                        kept,
                    )
                &&& exists|i: int| 0 <= i < logical.len() && is_row_id(#[trigger] logical[i])
            }
            &&& (exists|i: int| 0 <= i < logical.len() && is_row_id(#[trigger] logical[i]))
                ==> exists|k: int|
                0 <= k < steps.len() && (#[trigger] steps[k]) is GenerateRowId
        },
{
    if let Ok(s) = state_info(logical, config, predicate, output, ()) {
        let info = metadata_info(logical, config)->Ok_0;
        let steps = steps_of(s.transform_spec);
        let plan = read_plan(logical, logical.len(), config, info, ())->Ok_0;
        assert(steps =~= plan.transforms);
        assert(s.physical_schema == plan.fields);
        lemma_metadata_info(logical, config);
        lemma_row_ids_are_read(logical, logical.len(), config, info);
        let generate = FieldTransformModel::GenerateRowId {
            field_name: kept,
            row_index_field_name: row_index,
        };
        if steps.contains(generate) {
            let k = choose|k: int| 0 <= k < steps.len() && steps[k] == generate;
            assert(plan.transforms[k] == generate);
            let j = choose|j: int|
                0 <= j < plan.fields.len() && is_kept_row_id(#[trigger] plan.fields[j], kept);
            assert(is_kept_row_id(s.physical_schema[j], kept));
        }
        if exists|i: int| 0 <= i < logical.len() && is_row_id(#[trigger] logical[i]) {
            let i = choose|i: int| 0 <= i < logical.len() && is_row_id(#[trigger] logical[i]);
            let step = FieldTransformModel::GenerateRowId {
                field_name: info.row_id->0,
                row_index_field_name: index_name(logical, info),
            };
            assert(steps.contains(step));
            let k = choose|k: int| 0 <= k < steps.len() && steps[k] == step;
            assert(steps[k] is GenerateRowId);
        }
    }
}

/// The rows of a scan have the fields that were asked for, in their order: the steps make of the
/// columns that are read, for each field, the value that comes with the file where the table is
/// partitioned by it, row ids where it asks for them, and otherwise its counterpart in files. This
/// leaves out scans in which a partition column follows row ids without a column in between that is
/// read: such a partition column is inserted before the row ids.
pub proof fn law_rows_are_the_fields_asked_for(
    logical: Seq<FieldModel>,
    config: TableConfigurationModel,
    predicate: Option<PredicateModel>,
    output: StatsOutputModel,
    i: int,
)
    requires
        0 <= i < logical.len(),
        forall|j: int|
            0 <= j < logical.len() && config.metadata.partition_columns.contains(
                (#[trigger] logical[j]).name,
            ) ==> row_ids_are_followed(logical, j, config),
    ensures
        state_info(logical, config, predicate, output, ()) matches Ok(s) ==> {
            let rows = rows_of(s.physical_schema, steps_of(s.transform_spec));
            &&& s.logical_schema == logical
            &&& s.column_mapping_mode == config.column_mapping_mode
            &&& rows.len() == logical.len()
            &&& if config.metadata.partition_columns.contains(logical[i].name) {
                rows[i] == Source::File(i)
            } else if is_row_id(logical[i]) {
                rows[i] matches Source::RowIds { kept, row_index } && lookup(
                    config.metadata.configuration,
                    "delta.rowTracking.materializedRowIdColumnName"@,
                ) == Some(kept)
            } else {
                rows[i] matches Source::Column(f) && physical_field(
                    logical[i],
                    config.column_mapping_mode,
                ) == Some(f)
            }
        },
{
    if let Ok(s) = state_info(logical, config, predicate, output, ()) {
        let info = metadata_info(logical, config)->Ok_0;
        let plan = read_plan(logical, logical.len(), config, info, ())->Ok_0;
        lemma_metadata_info(logical, config);
        law_schema_fields_do_not_clash(plan.fields);
        assert(steps_of(s.transform_spec) =~= plan.transforms);
        lemma_rows_of_plan(logical, logical.len(), config, info);
        lemma_counterpart_exists(logical, logical.len(), config, info, i);
    }
}

proof fn lemma_counterpart_exists(
    logical: Seq<FieldModel>,
    n: nat,
    config: TableConfigurationModel,
    info: MetadataInfoModel,
    i: int,
)
    requires
        0 <= i < n <= logical.len(),
        read_plan(logical, n, config, info, ()) is Ok,
    ensures
        is_read(logical, i, config) ==> physical_field(logical[i], config.column_mapping_mode) is Some,
    decreases n,
{
    if i < n - 1 {
        lemma_counterpart_exists(logical, (n - 1) as nat, config, info, i);
    }
}

/// What keeps the fields of a scan from being read: a metadata column with the name of a partition
/// column; row ids of a table that has row tracking not switched on, or does not say where it keeps
/// them; row commit versions; a field that has no name in files; and a column that has the name of a
/// metadata column there.
pub open spec fn cannot_be_read(
    logical: Seq<FieldModel>,
    i: int,
    config: TableConfigurationModel,
) -> bool {
    let f = logical[i];
    let partition = config.metadata.partition_columns.contains(f.name);
    ||| f.metadata_column is Some && partition
    ||| is_row_id(f) && (lookup(config.metadata.configuration, "delta.enableRowTracking"@) != Some(
        "true"@,
    ) || lookup(
        config.metadata.configuration,
        "delta.rowTracking.materializedRowIdColumnName"@,
    ) is None)
    ||| f.metadata_column == Some(MetadataColumnSpec::RowCommitVersion)
    ||| is_read(logical, i, config) && match physical_field(f, config.column_mapping_mode) {
        Some(p) => f.metadata_column is None && exists|j: int|
            0 <= j < logical.len() && (#[trigger] logical[j]).metadata_column is Some
                && logical[j].name == p.name,
        None => true,
    }
}

/// The fields of a scan are refused exactly where one of them cannot be read, two columns that would
/// be read clash, or the predicate is refused.
pub proof fn law_scans_are_refused_for_a_reason(
    logical: Seq<FieldModel>,
    config: TableConfigurationModel,
    predicate: Option<PredicateModel>,
    output: StatsOutputModel,
)
    ensures
        state_info(logical, config, predicate, output, ()) is Ok ==> forall|i: int|
            0 <= i < logical.len() ==> !#[trigger] cannot_be_read(logical, i, config),
        (forall|i: int| 0 <= i < logical.len() ==> !#[trigger] cannot_be_read(logical, i, config))
            ==> (metadata_info(logical, config) matches Ok(info) && (read_plan(
            logical,
            logical.len(),
            config,
            info,
            (),
        ) matches Ok(plan) && (state_info(logical, config, predicate, output, ()) is Err ==> !(
        forall|i: int, j: int|
            0 <= i < j < plan.fields.len() ==> (#[trigger] plan.fields[i]).name != (
            #[trigger] plan.fields[j]).name && !(plan.fields[i].metadata_column is Some
                && plan.fields[i].metadata_column == plan.fields[j].metadata_column)) || (
        predicate matches Some(p) && crate::scan::physical_predicate::physical_predicate(
            p,
            logical,
            config.column_mapping_mode,
        ) is Err)))),
{
    let n = logical.len();
    if let Ok(s) = state_info(logical, config, predicate, output, ()) {
        let info = metadata_info(logical, config)->Ok_0;
        lemma_metadata_info(logical, config);
        assert forall|i: int| 0 <= i < n implies !#[trigger] cannot_be_read(
            logical,
            i,
            config,
        ) by {
            lemma_read_field_can_be_read(logical, n, config, info, i);
        }
    }
    if forall|i: int| 0 <= i < n ==> !#[trigger] cannot_be_read(logical, i, config) {
        assert(logical.take(n as int) =~= logical);
        lemma_readable_metadata(logical, n, config);
        let info = metadata_info(logical, config)->Ok_0;
        lemma_metadata_info(logical, config);
        lemma_readable_plan(logical, n, config, info);
        let plan = read_plan(logical, n, config, info, ())->Ok_0;
        law_schema_fields_do_not_clash(plan.fields);
    }
}

proof fn lemma_read_field_can_be_read(
    logical: Seq<FieldModel>,
    n: nat,
    config: TableConfigurationModel,
    info: MetadataInfoModel,
    i: int,
)
    requires
        0 <= i < n <= logical.len(),
        metadata_info(logical, config) == Ok::<MetadataInfoModel, ErrorModel>(info),
        read_plan(logical, n, config, info, ()) is Ok,
    ensures
        !cannot_be_read(logical, i, config),
    decreases n,
{
    lemma_metadata_info(logical, config);
    if i < n - 1 {
        lemma_read_field_can_be_read(logical, (n - 1) as nat, config, info, i);
    } else {
        let f = logical[i];
        if f.metadata_column is Some {
            assert(!config.metadata.partition_columns.contains(logical[i].name));
        }
        if is_row_id(f) {
            assert(is_row_id(logical[i]));
            assert(info.row_id is Some);
        }
        if is_read(logical, i, config) && f.metadata_column is None {
            let p = physical_field(f, config.column_mapping_mode)->0;
            assert(!info.names.contains(p.name));
        }
    }
}

proof fn lemma_readable_metadata(logical: Seq<FieldModel>, n: nat, config: TableConfigurationModel)
    requires
        n <= logical.len(),
        forall|i: int| 0 <= i < logical.len() ==> !#[trigger] cannot_be_read(logical, i, config),
    ensures
        metadata_info(logical.take(n as int), config) is Ok,
    decreases n,
{
    if n > 0 {
        lemma_readable_metadata(logical, (n - 1) as nat, config);
        assert(logical.take(n as int).drop_last() =~= logical.take(n - 1));
        assert(logical.take(n as int).last() == logical[n - 1]);
        assert(!cannot_be_read(logical, n - 1, config));
    }
}

proof fn lemma_readable_plan(
    logical: Seq<FieldModel>,
    n: nat,
    config: TableConfigurationModel,
    info: MetadataInfoModel,
)
    requires
        n <= logical.len(),
        metadata_info(logical, config) == Ok::<MetadataInfoModel, ErrorModel>(info),
        forall|i: int| 0 <= i < logical.len() ==> !#[trigger] cannot_be_read(logical, i, config),
    ensures
        read_plan(logical, n, config, info, ()) is Ok,
    decreases n,
{
    lemma_metadata_info(logical, config);
    if n > 0 {
        lemma_readable_plan(logical, (n - 1) as nat, config, info);
        assert(!cannot_be_read(logical, n - 1, config));
        if is_row_id(logical[n - 1]) {
            assert(info.row_id is Some);
        }
    }
}

// ---------------------------------------------------------------------------
// What is read, and what is done with it
// ---------------------------------------------------------------------------
/// Whether `f` is the counterpart in files of a field of the scan that is read.
pub open spec fn is_counterpart(
    logical: Seq<FieldModel>,
    i: int,
    config: TableConfigurationModel,
    f: FieldModel,
) -> bool {
    is_read(logical, i, config) && physical_field(logical[i], config.column_mapping_mode) == Some(f)
}

/// Whether `insert_after` is the name that files give the last column that is read for a field before
/// position `j`, and nothing where there is none.
pub open spec fn follows_the_last_read(
    logical: Seq<FieldModel>,
    j: int,
    config: TableConfigurationModel,
    insert_after: Option<Seq<char>>,
) -> bool {
    match insert_after {
        Some(name) => exists|k: int|
            0 <= k < j && is_read(logical, k, config) && (physical_field(
                #[trigger] logical[k],
                config.column_mapping_mode,
            ) matches Some(f) && f.name == name) && forall|l: int|
                k < l < j ==> !#[trigger] is_read(logical, l, config),
        None => forall|l: int| 0 <= l < j ==> !#[trigger] is_read(logical, l, config),
    }
}

/// Whether the scan has a reason to read `f`.
spec fn has_reason(
    f: FieldModel,
    logical: Seq<FieldModel>,
    n: int,
    config: TableConfigurationModel,
    info: MetadataInfoModel,
) -> bool {
    ||| exists|i: int| 0 <= i < n && #[trigger] is_counterpart(logical, i, config, f)
    ||| exists|i: int|
        0 <= i < n && is_row_id(#[trigger] logical[i]) && (is_kept_row_id(f, info.row_id->0) || (
        info.row_index is None && f.name == index_name(logical, info) && f.metadata_column == Some(
            MetadataColumnSpec::RowIndex,
        )))
}

spec fn plan_is_right(
    plan: ReadPlan,
    logical: Seq<FieldModel>,
    n: int,
    config: TableConfigurationModel,
    info: MetadataInfoModel,
) -> bool {
    &&& forall|i: int|
        0 <= i < n && #[trigger] is_read(logical, i, config) ==> exists|k: int|
            0 <= k < plan.fields.len() && is_counterpart(
                logical,
                i,
                config,
                #[trigger] plan.fields[k],
            )
    &&& forall|k: int|
        0 <= k < plan.fields.len() ==> has_reason(
            #[trigger] plan.fields[k],
            logical,
            n,
            config,
            info,
        )
    &&& forall|j: int|
        0 <= j < n && config.metadata.partition_columns.contains((#[trigger] logical[j]).name)
            ==> exists|k: int|
            0 <= k < plan.transforms.len() && #[trigger] inserts(
                plan.transforms[k],
                logical,
                j,
                config,
            )
    &&& forall|k: int|
        0 <= k < plan.transforms.len() ==> match #[trigger] plan.transforms[k] {
            FieldTransformModel::MetadataDerivedColumn { field_index, .. } => 0 <= field_index < n
                && config.metadata.partition_columns.contains(logical[field_index].name)
                && inserts(plan.transforms[k], logical, field_index, config),
            FieldTransformModel::StaticDrop { field_name } => info.row_index is None && field_name
                == index_name(logical, info) && exists|i: int|
                0 <= i < n && is_row_id(#[trigger] logical[i]),
            FieldTransformModel::GenerateRowId { .. } => exists|i: int|
                0 <= i < n && is_row_id(#[trigger] logical[i]),
        }
    &&& follows_the_last_read(logical, n, config, plan.last)
}

/// Whether a step inserts the partition column at position `j` after the last column that is read for
/// a field before it.
pub open spec fn inserts(
    t: FieldTransformModel,
    logical: Seq<FieldModel>,
    j: int,
    config: TableConfigurationModel,
) -> bool {
    t matches FieldTransformModel::MetadataDerivedColumn { field_index, insert_after } && field_index
        == j && follows_the_last_read(logical, j, config, insert_after)
}

proof fn lemma_reason_stays(
    f: FieldModel,
    logical: Seq<FieldModel>,
    n: int,
    config: TableConfigurationModel,
    info: MetadataInfoModel,
)
    requires
        has_reason(f, logical, n, config, info),
    ensures
        has_reason(f, logical, n + 1, config, info),
{
    if exists|i: int| 0 <= i < n && #[trigger] is_counterpart(logical, i, config, f) {
        let i = choose|i: int| 0 <= i < n && #[trigger] is_counterpart(logical, i, config, f);
        assert(0 <= i < n + 1 && is_counterpart(logical, i, config, f));
    } else {
        let i = choose|i: int|
            0 <= i < n && is_row_id(#[trigger] logical[i]) && (is_kept_row_id(f, info.row_id->0) || (
            info.row_index is None && f.name == index_name(logical, info) && f.metadata_column
                == Some(MetadataColumnSpec::RowIndex)));
        assert(0 <= i < n + 1 && is_row_id(logical[i]));
    }
}

proof fn lemma_last_read_stays(
    logical: Seq<FieldModel>,
    j: int,
    config: TableConfigurationModel,
    last: Option<Seq<char>>,
)
    requires
        0 <= j,
        follows_the_last_read(logical, j, config, last),
        !is_read(logical, j, config),
    ensures
        follows_the_last_read(logical, j + 1, config, last),
{
    if let Some(name) = last {
        let k = choose|k: int|
            0 <= k < j && is_read(logical, k, config) && (physical_field(
                #[trigger] logical[k],
                config.column_mapping_mode,
            ) matches Some(f) && f.name == name) && forall|l: int|
                k < l < j ==> !#[trigger] is_read(logical, l, config);
        assert forall|l: int| k < l < j + 1 implies !#[trigger] is_read(logical, l, config) by {}
        assert(0 <= k < j + 1 && is_read(logical, k, config) && (physical_field(
            logical[k],
            config.column_mapping_mode,
        ) matches Some(f) && f.name == name));
    }
}

proof fn lemma_plan_is_right(
    logical: Seq<FieldModel>,
    n: nat,
    config: TableConfigurationModel,
    info: MetadataInfoModel,
)
    requires
        n <= logical.len(),
        forall|i: int|
            0 <= i < logical.len() && is_row_id(#[trigger] logical[i])
                ==> !config.metadata.partition_columns.contains(logical[i].name),
    ensures
        read_plan(logical, n, config, info, ()) matches Ok(plan) ==> plan_is_right(
            plan,
            logical,
            n as int,
            config,
            info,
        ),
    decreases n,
{
    if n > 0 && read_plan(logical, n, config, info, ()) is Ok {
        let m = n - 1;
        lemma_plan_is_right(logical, m as nat, config, info);
        lemma_fields_grow(logical, n, config, info);
        let before = read_plan(logical, m as nat, config, info, ())->Ok_0;
        let plan = read_plan(logical, n, config, info, ())->Ok_0;
        let f = logical[m];
        assert(forall|k: int|
            0 <= k < before.transforms.len() ==> #[trigger] plan.transforms[k]
                == before.transforms[k]);
        assert(plan.transforms.len() >= before.transforms.len());
        let partition = config.metadata.partition_columns.contains(f.name);
        if is_read(logical, m, config) {
            let p = physical_field(f, config.column_mapping_mode)->0;
            assert(plan.fields[before.fields.len() as int] == p);
            assert(is_counterpart(logical, m, config, p));
            assert(plan.last == Some(p.name));
            assert(follows_the_last_read(logical, n as int, config, plan.last));
        } else {
            lemma_last_read_stays(logical, m, config, before.last);
        }
        if partition {
            assert(inserts(plan.transforms[before.transforms.len() as int], logical, m, config));
        }
        assert forall|i: int| 0 <= i < n && #[trigger] is_read(
            logical,
            i,
            config,
        ) implies exists|k: int|
            0 <= k < plan.fields.len() && is_counterpart(
                logical,
                i,
                config,
                #[trigger] plan.fields[k],
            ) by {
            if i < m {
                let k = choose|k: int|
                    0 <= k < before.fields.len() && is_counterpart(
                        logical,
                        i,
                        config,
                        #[trigger] before.fields[k],
                    );
                assert(plan.fields[k] == before.fields[k]);
            } else {
                let k = before.fields.len() as int;
                assert(is_counterpart(logical, i, config, plan.fields[k]));
            }
        }
        assert forall|k: int| 0 <= k < plan.fields.len() implies has_reason(
            #[trigger] plan.fields[k],
            logical,
            n as int,
            config,
            info,
        ) by {
            if k < before.fields.len() {
                assert(plan.fields[k] == before.fields[k]);
                lemma_reason_stays(before.fields[k], logical, m, config, info);
            } else if is_read(logical, m, config) {
                assert(is_counterpart(logical, m, config, plan.fields[k]));
            } else {
                assert(is_row_id(logical[m]));
            }
        }
        assert forall|j: int|
            0 <= j < n && config.metadata.partition_columns.contains(
                (#[trigger] logical[j]).name,
            ) implies exists|k: int|
            0 <= k < plan.transforms.len() && #[trigger] inserts(
                plan.transforms[k],
                logical,
                j,
                config,
            ) by {
            if j < m {
                let k = choose|k: int|
                    0 <= k < before.transforms.len() && #[trigger] inserts(
                        before.transforms[k],
                        logical,
                        j,
                        config,
                    );
                assert(plan.transforms[k] == before.transforms[k]);
                assert(inserts(plan.transforms[k], logical, j, config));
            } else {
                let k = before.transforms.len() as int;
                assert(inserts(plan.transforms[k], logical, j, config));
            }
        }
        assert forall|k: int| 0 <= k < plan.transforms.len() implies match #[trigger] plan.transforms[k] {
            FieldTransformModel::MetadataDerivedColumn { field_index, .. } => 0 <= field_index < n
                && config.metadata.partition_columns.contains(logical[field_index].name)
                && inserts(plan.transforms[k], logical, field_index, config),
            FieldTransformModel::StaticDrop { field_name } => info.row_index is None && field_name
                == index_name(logical, info) && exists|i: int|
                0 <= i < n && is_row_id(#[trigger] logical[i]),
            FieldTransformModel::GenerateRowId { .. } => exists|i: int|
                0 <= i < n && is_row_id(#[trigger] logical[i]),
        } by {
            if k < before.transforms.len() {
                assert(plan.transforms[k] == before.transforms[k]);
                if exists|i: int| 0 <= i < m && is_row_id(#[trigger] logical[i]) {
                    let i = choose|i: int| 0 <= i < m && is_row_id(#[trigger] logical[i]);
                    assert(0 <= i < n && is_row_id(logical[i]));
                }
            } else if !partition {
                assert(is_row_id(logical[m]));
            }
        }
    }
}

/// What a scan reads, and what it does with it. It reads the counterpart in files of every field that
/// is neither one by which the table is partitioned nor a row id. It inserts every field by which the
/// table is partitioned, after the last such counterpart before it, or first where there is none. And
/// besides it does nothing but what row ids take: it reads where files keep them, and row indexes that
/// it leaves out again where it does not hand them out, and computes row ids from these.
pub proof fn law_every_field_is_provided(
    logical: Seq<FieldModel>,
    config: TableConfigurationModel,
    predicate: Option<PredicateModel>,
    output: StatsOutputModel,
)
    ensures
        state_info(logical, config, predicate, output, ()) matches Ok(s) ==> {
            let steps = steps_of(s.transform_spec);
            let row_ids = exists|i: int| 0 <= i < logical.len() && is_row_id(#[trigger] logical[i]);
            let row_indexes = exists|i: int|
                0 <= i < logical.len() && (#[trigger] logical[i]).metadata_column == Some(
                    MetadataColumnSpec::RowIndex,
                );
            &&& forall|i: int|
                0 <= i < logical.len() && #[trigger] is_read(logical, i, config) ==> exists|k: int|
                    0 <= k < s.physical_schema.len() && is_counterpart(
                        logical,
                        i,
                        config,
                        #[trigger] s.physical_schema[k],
                    )
            &&& forall|k: int|
                0 <= k < s.physical_schema.len() ==> {
                    ||| exists|i: int|
                        0 <= i < logical.len() && #[trigger] is_counterpart(
                            logical,
                            i,
                            config,
                            #[trigger] s.physical_schema[k],
                        )
                    ||| row_ids && (lookup(
                        config.metadata.configuration,
                        "delta.rowTracking.materializedRowIdColumnName"@,
                    ) matches Some(kept) && is_kept_row_id(s.physical_schema[k], kept))
                    ||| row_ids && !row_indexes && s.physical_schema[k].metadata_column == Some(
                        MetadataColumnSpec::RowIndex,
                    ) && !has_field(logical, s.physical_schema[k].name)
                }
            &&& forall|j: int|
                0 <= j < logical.len() && config.metadata.partition_columns.contains(
                    (#[trigger] logical[j]).name,
                ) ==> exists|k: int|
                    0 <= k < steps.len() && #[trigger] inserts(steps[k], logical, j, config)
            &&& forall|k: int|
                0 <= k < steps.len() ==> match #[trigger] steps[k] {
                    FieldTransformModel::MetadataDerivedColumn { field_index, .. } => 0
                        <= field_index < logical.len()
                        && config.metadata.partition_columns.contains(logical[field_index].name)
                        && inserts(steps[k], logical, field_index, config),
                    FieldTransformModel::StaticDrop { field_name } => row_ids && !row_indexes
                        && !has_field(logical, field_name),
                    FieldTransformModel::GenerateRowId { .. } => row_ids,
                }
        },
{
    if let Ok(s) = state_info(logical, config, predicate, output, ()) {
        let info = metadata_info(logical, config)->Ok_0;
        let n = logical.len();
        let plan = read_plan(logical, n, config, info, ())->Ok_0;
        let steps = steps_of(s.transform_spec);
        assert(steps =~= plan.transforms);
        lemma_metadata_info(logical, config);
        lemma_plan_is_right(logical, n, config, info);
        law_added_row_index_name_is_free(logical);
        assert forall|k: int| 0 <= k < s.physical_schema.len() implies has_reason(
            #[trigger] s.physical_schema[k],
            logical,
            n as int,
            config,
            info,
        ) by {}
    }
}

/// What a scan computes by itself it leaves out of what it reads: where a classifier yields a step for
/// a field, the scan does that step. Where it yields none, the field is provided for as usual.
pub proof fn law_classified_fields_are_computed<C: TransformFieldClassifier>(
    logical: Seq<FieldModel>,
    config: TableConfigurationModel,
    predicate: Option<PredicateModel>,
    output: StatsOutputModel,
    classifier: C,
    i: int,
    step: FieldTransformModel,
)
    requires
        0 <= i < logical.len(),
    ensures
        state_info(logical, config, predicate, output, classifier) matches Ok(s) ==> {
            let steps = steps_of(s.transform_spec);
            &&& (forall|last: Option<Seq<char>>|
                #[trigger] classifier.classification(logical[i], i, last) == Some(step))
                ==> steps.contains(step)
            &&& (forall|last: Option<Seq<char>>|
                (#[trigger] classifier.classification(logical[i], i, last)) is None) ==> {
                &&& is_read(logical, i, config) ==> (physical_field(
                    logical[i],
                    config.column_mapping_mode,
                ) matches Some(f) && s.physical_schema.contains(f))
                &&& config.metadata.partition_columns.contains(logical[i].name) ==> exists|k: int|
                    0 <= k < steps.len() && ((#[trigger] steps[k]) matches
                        FieldTransformModel::MetadataDerivedColumn { field_index, .. } && field_index
                        == i)
            }
        },
{
    if let Ok(s) = state_info(logical, config, predicate, output, classifier) {
        let info = metadata_info(logical, config)->Ok_0;
        let plan = read_plan(logical, logical.len(), config, info, classifier)->Ok_0;
        assert(steps_of(s.transform_spec) =~= plan.transforms);
        lemma_classified(logical, logical.len(), config, info, classifier, i, step);
    }
}

spec fn classified(
    plan: ReadPlan,
    logical: Seq<FieldModel>,
    config: TableConfigurationModel,
    i: int,
    step: Option<FieldTransformModel>,
) -> bool {
    match step {
        Some(step) => plan.transforms.contains(step),
        None => {
            &&& is_read(logical, i, config) ==> (physical_field(
                logical[i],
                config.column_mapping_mode,
            ) matches Some(f) && plan.fields.contains(f))
            &&& config.metadata.partition_columns.contains(logical[i].name) ==> exists|k: int|
                0 <= k < plan.transforms.len() && ((#[trigger] plan.transforms[k]) matches
                    FieldTransformModel::MetadataDerivedColumn { field_index, .. } && field_index
                    == i)
        },
    }
}

proof fn lemma_classified<C: TransformFieldClassifier>(
    logical: Seq<FieldModel>,
    n: nat,
    config: TableConfigurationModel,
    info: MetadataInfoModel,
    classifier: C,
    i: int,
    step: FieldTransformModel,
)
    requires
        0 <= i < n <= logical.len(),
        read_plan(logical, n, config, info, classifier) is Ok,
    ensures
        (forall|last: Option<Seq<char>>|
            #[trigger] classifier.classification(logical[i], i, last) == Some(step)) ==> classified(
            read_plan(logical, n, config, info, classifier)->Ok_0,
            logical,
            config,
            i,
            Some(step),
        ),
        (forall|last: Option<Seq<char>>|
            (#[trigger] classifier.classification(logical[i], i, last)) is None) ==> classified(
            read_plan(logical, n, config, info, classifier)->Ok_0,
            logical,
            config,
            i,
            None,
        ),
    decreases n,
{
    let before = read_plan(logical, (n - 1) as nat, config, info, classifier)->Ok_0;
    let plan = read_plan(logical, n, config, info, classifier)->Ok_0;
    let f = logical[n - 1];
    let own = classifier.classification(f, n - 1, before.last);
    assert(before.transforms.len() <= plan.transforms.len());
    assert(before.fields.len() <= plan.fields.len());
    assert(forall|k: int|
        0 <= k < before.transforms.len() ==> #[trigger] plan.transforms[k] == before.transforms[k]);
    assert(forall|k: int|
        0 <= k < before.fields.len() ==> #[trigger] plan.fields[k] == before.fields[k]);
    if i < n - 1 {
        lemma_classified(logical, (n - 1) as nat, config, info, classifier, i, step);
        if before.transforms.contains(step) {
            let k = choose|k: int| 0 <= k < before.transforms.len() && before.transforms[k] == step;
            assert(plan.transforms[k] == step);
        }
        if let Some(g) = physical_field(logical[i], config.column_mapping_mode) {
            if before.fields.contains(g) {
                let k = choose|k: int| 0 <= k < before.fields.len() && before.fields[k] == g;
                assert(plan.fields[k] == g);
            }
        }
        if exists|k: int|
            0 <= k < before.transforms.len() && ((#[trigger] before.transforms[k]) matches
                FieldTransformModel::MetadataDerivedColumn { field_index, .. } && field_index == i) {
            let k = choose|k: int|
                0 <= k < before.transforms.len() && ((#[trigger] before.transforms[k]) matches
                    FieldTransformModel::MetadataDerivedColumn { field_index, .. } && field_index
                    == i);
            assert(plan.transforms[k] == before.transforms[k]);
        }
    } else if let Some(t) = own {
        assert(plan.transforms[before.transforms.len() as int] == t);
    } else if config.metadata.partition_columns.contains(f.name) {
        assert(plan.transforms[before.transforms.len() as int] is MetadataDerivedColumn);
    } else if is_read(logical, i, config) {
        assert(plan.fields[before.fields.len() as int] == physical_field(
            f,
            config.column_mapping_mode,
        )->0);
    }
}

/// How many of the first `n` positions pass.
pub open spec fn how_many(n: nat, passes: spec_fn(int) -> bool) -> nat
    decreases n,
{
    if n == 0 {
        0
    } else {
        how_many((n - 1) as nat, passes) + if passes(n - 1) {
            1nat
        } else {
            0nat
        }
    }
}

proof fn lemma_order_of_columns(
    logical: Seq<FieldModel>,
    n: nat,
    config: TableConfigurationModel,
    info: MetadataInfoModel,
)
    requires
        n <= logical.len(),
        forall|i: int|
            0 <= i < logical.len() && is_row_id(#[trigger] logical[i])
                ==> !config.metadata.partition_columns.contains(logical[i].name),
    ensures
        read_plan(logical, n, config, info, ()) matches Ok(plan) ==> {
            let extra = if info.row_index is Some {
                1nat
            } else {
                2nat
            };
            let row_ids = how_many(n, |i: int| is_row_id(logical[i]));
            &&& forall|i: int, k: int|
                0 <= i < k < n && #[trigger] is_read(logical, i, config) && #[trigger] is_read(
                    logical,
                    k,
                    config,
                ) ==> stand_in_order(plan.fields, logical, i, k, config)
            &&& plan.fields.len() == how_many(n, |i: int| is_read(logical, i, config)) + extra
                * row_ids
            &&& plan.transforms.len() == how_many(
                n,
                |i: int| config.metadata.partition_columns.contains(logical[i].name),
            ) + extra * row_ids
        },
    decreases n,
{
    if n > 0 && read_plan(logical, n, config, info, ()) is Ok {
        let m = n - 1;
        lemma_order_of_columns(logical, m as nat, config, info);
        lemma_plan_is_right(logical, m as nat, config, info);
        lemma_fields_grow(logical, n, config, info);
        let before = read_plan(logical, m as nat, config, info, ())->Ok_0;
        let plan = read_plan(logical, n, config, info, ())->Ok_0;
        let is_id = |i: int| is_row_id(logical[i]);
        let read = |i: int| is_read(logical, i, config);
        let partition = |i: int| config.metadata.partition_columns.contains(logical[i].name);
        let extra = if info.row_index is Some {
            1nat
        } else {
            2nat
        };
        assert(is_id(m) == is_row_id(logical[m]));
        assert(read(m) == is_read(logical, m, config));
        assert(partition(m) == config.metadata.partition_columns.contains(logical[m].name));
        let ids = how_many(m as nat, is_id);
        assert(extra * (ids + 1) == extra * ids + extra) by (nonlinear_arith);
        assert forall|i: int, k: int|
            0 <= i < k < n && #[trigger] is_read(logical, i, config) && #[trigger] is_read(
                logical,
                k,
                config,
            ) implies stand_in_order(plan.fields, logical, i, k, config) by {
            if k < m {
                assert(stand_in_order(before.fields, logical, i, k, config));
                let (a, b) = choose|a: int, b: int|
                    0 <= a < b < before.fields.len() && is_counterpart(
                        logical,
                        i,
                        config,
                        #[trigger] before.fields[a],
                    ) && is_counterpart(logical, k, config, #[trigger] before.fields[b]);
                assert(plan.fields[a] == before.fields[a]);
                assert(plan.fields[b] == before.fields[b]);
            } else {
                let a = choose|a: int|
                    0 <= a < before.fields.len() && is_counterpart(
                        logical,
                        i,
                        config,
                        #[trigger] before.fields[a],
                    );
                let b = before.fields.len() as int;
                assert(plan.fields[a] == before.fields[a]);
                assert(is_counterpart(logical, k, config, plan.fields[b]));
            }
        }
    }
}

/// Whether the counterparts in files of the fields at `i` and `k` stand among `fields` in that order.
pub open spec fn stand_in_order(
    fields: Seq<FieldModel>,
    logical: Seq<FieldModel>,
    i: int,
    k: int,
    config: TableConfigurationModel,
) -> bool {
    exists|a: int, b: int|
        0 <= a < b < fields.len() && is_counterpart(logical, i, config, #[trigger] fields[a])
            && is_counterpart(logical, k, config, #[trigger] fields[b])
}

/// Columns are read in the order of the fields that they are read for, each once, and each partition
/// column is inserted once. A field of row ids takes one more column and one more step, and another of
/// each where the scan does not hand out row indexes.
pub proof fn law_columns_are_read_once_and_in_order(
    logical: Seq<FieldModel>,
    config: TableConfigurationModel,
    predicate: Option<PredicateModel>,
    output: StatsOutputModel,
)
    ensures
        state_info(logical, config, predicate, output, ()) matches Ok(s) ==> {
            let extra = if exists|i: int|
                0 <= i < logical.len() && (#[trigger] logical[i]).metadata_column == Some(
                    MetadataColumnSpec::RowIndex,
                ) {
                1nat
            } else {
                2nat
            };
            let row_ids = how_many(logical.len(), |i: int| is_row_id(logical[i]));
            &&& forall|i: int, k: int|
                0 <= i < k < logical.len() && #[trigger] is_read(logical, i, config)
                    && #[trigger] is_read(logical, k, config) ==> stand_in_order(
                    s.physical_schema,
                    logical,
                    i,
                    k,
                    config,
                )
            &&& s.physical_schema.len() == how_many(
                logical.len(),
                |i: int| is_read(logical, i, config),
            ) + extra * row_ids
            &&& steps_of(s.transform_spec).len() == how_many(
                logical.len(),
                |i: int| config.metadata.partition_columns.contains(logical[i].name),
            ) + extra * row_ids
        },
{
    if let Ok(s) = state_info(logical, config, predicate, output, ()) {
        let info = metadata_info(logical, config)->Ok_0;
        lemma_metadata_info(logical, config);
        lemma_order_of_columns(logical, logical.len(), config, info);
    }
}

/// The steps are there to be done: where there is one, or where names are mapped, the scan says so.
pub proof fn law_steps_are_handed_on<C: TransformFieldClassifier>(
    logical: Seq<FieldModel>,
    config: TableConfigurationModel,
    predicate: Option<PredicateModel>,
    output: StatsOutputModel,
    classifier: C,
)
    ensures
        state_info(logical, config, predicate, output, classifier) matches Ok(s) ==> {
            &&& s.transform_spec is Some <==> steps_of(s.transform_spec).len() > 0
                || config.column_mapping_mode != ColumnMappingMode::NoMapping
            &&& s.logical_schema == logical
            &&& s.column_mapping_mode == config.column_mapping_mode
        },
{
}

/// The name of a column of row indexes that a scan adds by itself: the first of the names in a row that
/// no field of the scan has.
pub proof fn law_added_row_index_name_is_the_first_free(logical: Seq<FieldModel>)
    ensures
        exists|n: nat|
            free_row_index_name(logical) == "row_indexes_for_row_id_"@ + #[trigger] decimal_text(n)
                && forall|m: nat|
                m < n ==> has_field(logical, "row_indexes_for_row_id_"@ + #[trigger] decimal_text(m)),
        !has_field(logical, free_row_index_name(logical)),
{
    law_added_row_index_name_is_free(logical);
    let n = lemma_first_free_exists(logical, 0);
    let chosen = choose|k: nat| is_first_free(logical, k);
    assert(is_first_free(logical, chosen));
    assert forall|m: nat| m < chosen implies has_field(
        logical,
        "row_indexes_for_row_id_"@ + #[trigger] decimal_text(m),
    ) by {
        assert(has_field(logical, row_index_name(m)));
    }
    assert(free_row_index_name(logical) == "row_indexes_for_row_id_"@ + decimal_text(chosen));
}

} // verus!
