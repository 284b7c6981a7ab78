//! Columns at any depth of a schema.
use vstd::prelude::*;

use crate::error::{DeltaResult, Error, ErrorModel};
use crate::expressions::{ColumnName, Path};
use crate::schema::{
    field_position, has_field, lemma_field_position, lemma_physical_fields, physical_data_type,
    physical_field, physical_fields, physical_name, ColumnMappingMode, DataType, DataTypeModel,
    FieldModel, StructType,
};
use crate::text::texts;

verus! {

/// The type of the column at `path`, where `fields` has one.
pub open spec fn column_type(fields: Seq<FieldModel>, path: Path) -> Option<DataTypeModel>
    decreases path.len(),
{
    if path.len() == 0 {
        None
    } else {
        match field_position(fields, path[0]) {
            Some(i) => if path.len() == 1 {
                Some(fields[i].data_type)
            } else {
                match fields[i].data_type {
                    DataTypeModel::Struct(inner) => column_type(inner, path.drop_first()),
                    _ => None,
                }
            },
            None => None,
        }
    }
}

/// Whether `path` leads to a column of a primitive type.
pub open spec fn is_primitive_column(fields: Seq<FieldModel>, path: Path) -> bool {
    column_type(fields, path) matches Some(DataTypeModel::Primitive(_))
}

/// Where files hold the column at `path`: every field on the way is named as files name it. There
/// is no such path where `fields` has no such column, or an annotation is missing on the way.
pub open spec fn physical_path(
    fields: Seq<FieldModel>,
    path: Path,
    mode: ColumnMappingMode,
) -> Option<Path>
    decreases path.len(),
{
    if path.len() == 0 {
        None
    } else {
        match field_position(fields, path[0]) {
            Some(i) => match physical_name(fields[i], mode) {
                Some(name) => if path.len() == 1 {
                    Some(seq![name])
                } else {
                    match fields[i].data_type {
                        DataTypeModel::Struct(inner) => match physical_path(
                            inner,
                            path.drop_first(),
                            mode,
                        ) {
                            Some(rest) => Some(seq![name] + rest),
                            None => None,
                        },
                        _ => None,
                    }
                },
                None => None,
            },
            None => None,
        }
    }
}

/// Whether `path` leads to the field `leaf`.
pub open spec fn has_leaf(fields: Seq<FieldModel>, path: Path, leaf: FieldModel) -> bool
    decreases path.len(),
{
    path.len() > 0 && exists|i: int|
        0 <= i < fields.len() && (#[trigger] fields[i]).name == path[0] && if path.len() == 1 {
            fields[i] == leaf
        } else {
            match fields[i].data_type {
                DataTypeModel::Struct(inner) => has_leaf(inner, path.drop_first(), leaf),
                _ => false,
            }
        }
}

/// Whether `path` leads to the field `leaf`, and files name the fields on the way as `held` says.
pub open spec fn has_held_leaf(
    fields: Seq<FieldModel>,
    path: Path,
    held: Path,
    leaf: FieldModel,
    mode: ColumnMappingMode,
) -> bool
    decreases path.len(),
{
    path.len() > 0 && held.len() == path.len() && exists|i: int|
        0 <= i < fields.len() && (#[trigger] fields[i]).name == path[0] && physical_name(
            fields[i],
            mode,
        ) == Some(held[0]) && if path.len() == 1 {
            fields[i] == leaf
        } else {
            match fields[i].data_type {
                DataTypeModel::Struct(inner) => has_held_leaf(
                    inner,
                    path.drop_first(),
                    held.drop_first(),
                    leaf,
                    mode,
                ),
                _ => false,
            }
        }
}

/// Whether the part of `column` after its first `from` fields is a primitive column of `schema`.
fn is_primitive_from(schema: &StructType, column: &ColumnName, from: usize) -> (r: bool)
    requires
        from <= column.path@.len(),
    ensures
        r == is_primitive_column(schema@, column@.skip(from as int)),
    decreases column.path@.len() - from,
{
    let ghost path = column@.skip(from as int);
    if from == column.path.len() {
        return false;
    }
    assert(path[0] == column.path@[from as int]@);
    proof {
        lemma_field_position(schema@, path[0]);
    }
    match schema.field(column.path[from].as_str()) {
        Some(field) => if from + 1 == column.path.len() {
            match &field.data_type {
                DataType::Primitive(_) => true,
                _ => false,
            }
        } else {
            assert(path.drop_first() =~= column@.skip(from + 1));
            match &field.data_type {
                DataType::Struct(inner) => is_primitive_from(inner, column, from + 1),
                _ => false,
            }
        },
        None => false,
    }
}

/// Whether `column` is a column of a primitive type.
pub fn is_primitive(schema: &StructType, column: &ColumnName) -> (r: bool)
    ensures
        r == is_primitive_column(schema@, column@),
{
    assert(column@.skip(0) =~= column@);
    is_primitive_from(schema, column, 0)
}

/// Appends to `out` where files hold the part of `column` after its first `from` fields. Where
/// there is no such place, `out` is left with fields that mean nothing.
fn add_physical_path(
    schema: &StructType,
    column: &ColumnName,
    from: usize,
    mode: ColumnMappingMode,
    out: &mut Vec<String>,
) -> (found: bool)
    requires
        from <= column.path@.len(),
    ensures
        match physical_path(schema@, column@.skip(from as int), mode) {
            Some(p) => found && texts(final(out)@) == texts(old(out)@) + p,
            None => !found,
        },
    decreases column.path@.len() - from,
{
    let ghost path = column@.skip(from as int);
    let ghost before = texts(out@);
    if from == column.path.len() {
        return false;
    }
    assert(path[0] == column.path@[from as int]@);
    proof {
        lemma_field_position(schema@, path[0]);
    }
    match schema.field(column.path[from].as_str()) {
        Some(field) => match field.physical_name(mode) {
            Some(name) => {
                out.push(name);
                assert(texts(out@) =~= before + seq![name@]);
                if from + 1 == column.path.len() {
                    true
                } else {
                    assert(path.drop_first() =~= column@.skip(from + 1));
                    match &field.data_type {
                        DataType::Struct(inner) => {
                            let found = add_physical_path(inner, column, from + 1, mode, out);
                            proof {
                                if found {
                                    let rest = physical_path(inner@, path.drop_first(), mode)->0;
                                    assert(before + seq![name@] + rest =~= before + (seq![name@]
                                        + rest));
                                }
                            }
                            found
                        },
                        _ => false,
                    }
                }
            },
            None => false,
        },
        None => false,
    }
}

/// Reported where a column has no place in files.
pub const NO_PHYSICAL_COLUMN: &'static str = "Could not resolve a column to its physical name";

/// Where files hold `column`.
pub fn get_any_level_column_physical_name(
    schema: &StructType,
    column: &ColumnName,
    mode: ColumnMappingMode,
) -> (r: DeltaResult<ColumnName>)
    ensures
        match r {
            Ok(c) => physical_path(schema@, column@, mode) == Some(c@),
            Err(e) => physical_path(schema@, column@, mode) is None && e@ == ErrorModel::Generic(
                NO_PHYSICAL_COLUMN@,
            ),
        },
{
    let mut path: Vec<String> = Vec::new();
    assert(column@.skip(0) =~= column@);
    let found = add_physical_path(schema, column, 0, mode, &mut path);
    if found {
        assert(texts(path@) =~= physical_path(schema@, column@, mode)->0);
        Ok(ColumnName::new(path))
    } else {
        Err(Error::Generic(NO_PHYSICAL_COLUMN.to_owned()))
    }
}

// ---------------------------------------------------------------------------
// Laws
// ---------------------------------------------------------------------------
/// Where names are not mapped, files hold every column under its own path.
pub proof fn law_unmapped_path_is_unchanged(fields: Seq<FieldModel>, path: Path)
    ensures
        physical_path(fields, path, ColumnMappingMode::NoMapping) == (if column_type(fields, path)
            is Some {
            Some(path)
        } else {
            None
        }),
    decreases path.len(),
{
    if path.len() > 0 {
        if let Some(i) = field_position(fields, path[0]) {
            lemma_field_position(fields, path[0]);
            if path.len() == 1 {
                assert(path =~= seq![path[0]]);
            } else if let DataTypeModel::Struct(inner) = fields[i].data_type {
                law_unmapped_path_is_unchanged(inner, path.drop_first());
                assert(path =~= seq![path[0]] + path.drop_first());
            }
        }
    }
}

/// A column is found in files where they hold it: the field at its end, and every field on the way,
/// has the name that files give it. And it is found wherever all of these have one.
pub proof fn law_physical_path_leads_to_the_column(
    fields: Seq<FieldModel>,
    path: Path,
    mode: ColumnMappingMode,
)
    ensures
        physical_path(fields, path, mode) matches Some(held) ==> exists|leaf: FieldModel|
            #[trigger] has_held_leaf(fields, path, held, leaf, mode) && column_type(fields, path)
                == Some(leaf.data_type),
        column_type(fields, path) is None ==> physical_path(fields, path, mode) is None,
    decreases path.len(),
{
    if path.len() > 0 {
        if let Some(i) = field_position(fields, path[0]) {
            lemma_field_position(fields, path[0]);
            let f = fields[i];
            if path.len() == 1 {
                if let Some(held) = physical_path(fields, path, mode) {
                    assert(has_held_leaf(fields, path, held, f, mode));
                }
            } else if let DataTypeModel::Struct(inner) = f.data_type {
                law_physical_path_leads_to_the_column(inner, path.drop_first(), mode);
                if let Some(held) = physical_path(fields, path, mode) {
                    let rest = physical_path(inner, path.drop_first(), mode)->0;
                    let leaf = choose|leaf: FieldModel| #[trigger]
                        has_held_leaf(inner, path.drop_first(), rest, leaf, mode) && column_type(
                            inner,
                            path.drop_first(),
                        ) == Some(leaf.data_type);
                    assert(held.drop_first() =~= rest);
                    assert(has_held_leaf(fields, path, held, leaf, mode));
                }
            }
        }
    }
}

/// The physical schema has a column where the physical path of a logical column leads: each column
/// of a schema that has a physical counterpart has a physical path, and finds there the counterpart
/// of its type.
pub proof fn law_physical_path_leads_into_the_physical_schema(
    fields: Seq<FieldModel>,
    path: Path,
    mode: ColumnMappingMode,
)
    requires
        physical_fields(fields, mode) is Some,
        column_type(fields, path) is Some,
    ensures
        physical_path(fields, path, mode) is Some,
        exists|leaf: FieldModel| #[trigger]
            has_leaf(
                physical_fields(fields, mode)->0,
                physical_path(fields, path, mode)->0,
                leaf,
            ) && Some(leaf.data_type) == physical_data_type(column_type(fields, path)->0, mode),
    decreases path.len(),
{
    let ps = physical_fields(fields, mode)->0;
    lemma_physical_fields(fields, mode);
    lemma_field_position(fields, path[0]);
    let i = field_position(fields, path[0])->0;
    let f = fields[i];
    let p = ps[i];
    assert(physical_field(f, mode) == Some(p));
    if path.len() == 1 {
        assert(physical_path(fields, path, mode) == Some(seq![p.name]));
        assert(Some(p.data_type) == physical_data_type(f.data_type, mode));
        assert(has_leaf(ps, seq![p.name], p));
        assert(has_leaf(ps, physical_path(fields, path, mode)->0, p) && Some(p.data_type)
            == physical_data_type(column_type(fields, path)->0, mode));
    } else {
        let inner = f.data_type->Struct_0;
        let rest = path.drop_first();
        law_physical_path_leads_into_the_physical_schema(inner, rest, mode);
        let found = physical_path(inner, rest, mode)->0;
        let leaf = choose|leaf: FieldModel| #[trigger]
            has_leaf(physical_fields(inner, mode)->0, found, leaf) && Some(leaf.data_type)
                == physical_data_type(column_type(inner, rest)->0, mode);
        let held = seq![p.name] + found;
        assert(held.drop_first() =~= found);
        assert(p.data_type == DataTypeModel::Struct(physical_fields(inner, mode)->0));
        assert(has_leaf(ps, held, leaf));
        assert(physical_path(fields, path, mode) == Some(held));
        assert(column_type(fields, path) == column_type(inner, rest));
        assert(has_leaf(ps, physical_path(fields, path, mode)->0, leaf) && Some(leaf.data_type)
            == physical_data_type(column_type(fields, path)->0, mode));
    }
}

/// Whether no two fields beside each other have the same name, at any depth.
pub open spec fn names_differ(fields: Seq<FieldModel>) -> bool
    decreases fields,
{
    &&& forall|i: int, j: int|
        0 <= i < j < fields.len() ==> (#[trigger] fields[i]).name != (#[trigger] fields[j]).name
    &&& forall|i: int|
        0 <= i < fields.len() ==> match (#[trigger] fields[i]).data_type {
            DataTypeModel::Struct(inner) => names_differ(inner),
            _ => true,
        }
}

/// A path leads to a column where it leads to a field, and the column has the type of that field: at the
/// top, or inside structs, at any depth. Where names differ there is only one such field.
pub proof fn law_paths_lead_to_columns(fields: Seq<FieldModel>, path: Path, leaf: FieldModel)
    ensures
        column_type(fields, path) matches Some(t) ==> exists|f: FieldModel| #[trigger]
            has_leaf(fields, path, f) && f.data_type == t,
        names_differ(fields) && has_leaf(fields, path, leaf) ==> column_type(fields, path) == Some(
            leaf.data_type,
        ),
        names_differ(fields) && has_leaf(fields, path, leaf) ==> (is_primitive_column(fields, path)
            <==> leaf.data_type is Primitive),
    decreases path.len(),
{
    if path.len() > 0 {
        lemma_field_position(fields, path[0]);
        if let Some(p) = field_position(fields, path[0]) {
            if path.len() == 1 {
                assert(has_leaf(fields, path, fields[p]));
            } else if let DataTypeModel::Struct(inner) = fields[p].data_type {
                law_paths_lead_to_columns(inner, path.drop_first(), leaf);
                if let Some(t) = column_type(fields, path) {
                    let f = choose|f: FieldModel| #[trigger]
                        has_leaf(inner, path.drop_first(), f) && f.data_type == t;
                    assert(has_leaf(fields, path, f));
                }
            }
        }
        if names_differ(fields) && has_leaf(fields, path, leaf) {
            let i = choose|i: int|
                0 <= i < fields.len() && (#[trigger] fields[i]).name == path[0] && if path.len()
                    == 1 {
                    fields[i] == leaf
                } else {
                    match fields[i].data_type {
                        DataTypeModel::Struct(inner) => has_leaf(inner, path.drop_first(), leaf),
                        _ => false,
                    }
                };
            assert(has_field(fields, path[0]));
            let p = field_position(fields, path[0])->0;
            if i < p {
                assert(fields[i].name != path[0]);
            } else if p < i {
                assert(fields[p].name != fields[i].name);
            }
            assert(i == p);
        }
    }
}

/// Where names differ, a column has a physical path exactly where files have a name for every field on
/// the way, and that is the path of these names.
pub proof fn law_physical_path_is_made_of_names_in_files(
    fields: Seq<FieldModel>,
    path: Path,
    held: Path,
    leaf: FieldModel,
    mode: ColumnMappingMode,
)
    requires
        names_differ(fields),
        has_held_leaf(fields, path, held, leaf, mode),
    ensures
        physical_path(fields, path, mode) == Some(held),
    decreases path.len(),
{
    lemma_field_position(fields, path[0]);
    let i = choose|i: int|
        0 <= i < fields.len() && (#[trigger] fields[i]).name == path[0] && physical_name(
            fields[i],
            mode,
        ) == Some(held[0]) && if path.len() == 1 {
            fields[i] == leaf
        } else {
            match fields[i].data_type {
                DataTypeModel::Struct(inner) => has_held_leaf(
                    inner,
                    path.drop_first(),
                    held.drop_first(),
                    leaf,
                    mode,
                ),
                _ => false,
            }
        };
    assert(has_field(fields, path[0]));
    let p = field_position(fields, path[0])->0;
    if i < p {
        assert(fields[i].name != path[0]);
    } else if p < i {
        assert(fields[p].name != fields[i].name);
    }
    assert(i == p);
    if path.len() == 1 {
        assert(held =~= seq![held[0]]);
    } else {
        let inner = fields[i].data_type->Struct_0;
        law_physical_path_is_made_of_names_in_files(
            inner,
            path.drop_first(),
            held.drop_first(),
            leaf,
            mode,
        );
        assert(held =~= seq![held[0]] + held.drop_first());
    }
}

} // verus!
