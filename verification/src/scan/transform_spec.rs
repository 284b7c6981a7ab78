//! How the rows of a file become rows of a scan.
use vstd::prelude::*;

use crate::schema::{FieldModel, StructField};
use crate::table_configuration::text_option;

verus! {

/// A step from the columns of a file to those of a scan.
#[derive(Debug, PartialEq, Eq)]
pub enum FieldTransformSpec {
    /// Insert the scan's column at `field_index`, whose value comes with the file, after the named
    /// column of the file. Without a name it comes first.
    MetadataDerivedColumn { field_index: usize, insert_after: Option<String> },
    /// Leave out a column of the file.
    StaticDrop { field_name: String },
    /// Compute row ids where the column `field_name` has none, from the row's index.
    GenerateRowId { field_name: String, row_index_field_name: String },
}

/// The steps of a scan, in order.
pub type TransformSpec = Vec<FieldTransformSpec>;

/// The content of a [`FieldTransformSpec`].
pub enum FieldTransformModel {
    MetadataDerivedColumn { field_index: int, insert_after: Option<Seq<char>> },
    StaticDrop { field_name: Seq<char> },
    GenerateRowId { field_name: Seq<char>, row_index_field_name: Seq<char> },
}

impl View for FieldTransformSpec {
    type V = FieldTransformModel;

    open spec fn view(&self) -> FieldTransformModel {
        match *self {
            FieldTransformSpec::MetadataDerivedColumn { field_index, insert_after } =>
                FieldTransformModel::MetadataDerivedColumn {
                    field_index: field_index as int,
                    insert_after: text_option(insert_after),
                },
            FieldTransformSpec::StaticDrop { field_name } => FieldTransformModel::StaticDrop {
                field_name: field_name@,
            },
            FieldTransformSpec::GenerateRowId { field_name, row_index_field_name } =>
                FieldTransformModel::GenerateRowId {
                    field_name: field_name@,
                    row_index_field_name: row_index_field_name@,
                },
        }
    }
}

/// The contents of a list of steps.
pub open spec fn transforms_model(s: Seq<FieldTransformSpec>) -> Seq<FieldTransformModel> {
    s.map_values(|t: FieldTransformSpec| t@)
}

/// The content of an optional step.
pub open spec fn transform_option(t: Option<FieldTransformSpec>) -> Option<FieldTransformModel> {
    match t {
        Some(t) => Some(t@),
        None => None,
    }
}

/// Decides which fields of a scan a kind of scan computes by itself.
pub trait TransformFieldClassifier {
    /// The step that yields a field, where the classifier knows one. `index` is the field's
    /// position, `last_physical_field` the column of the file that precedes it.
    spec fn classification(
        &self,
        field: FieldModel,
        index: int,
        last_physical_field: Option<Seq<char>>,
    ) -> Option<FieldTransformModel>;

    /// The step that yields a field, where the classifier knows one.
    fn classify_field(
        &self,
        field: &StructField,
        index: usize,
        last_physical_field: &Option<String>,
    ) -> (r: Option<FieldTransformSpec>)
        ensures
            transform_option(r) == self.classification(
                field@,
                index as int,
                text_option(*last_physical_field),
            ),
    ;
}

/// Knows no step.
impl TransformFieldClassifier for () {
    open spec fn classification(
        &self,
        field: FieldModel,
        index: int,
        last_physical_field: Option<Seq<char>>,
    ) -> Option<FieldTransformModel> {
        None
    }

    fn classify_field(
        &self,
        field: &StructField,
        index: usize,
        last_physical_field: &Option<String>,
    ) -> (r: Option<FieldTransformSpec>) {
        None
    }
}

/// Steps with the same content do the same.
pub proof fn law_content_of_a_step(a: FieldTransformSpec, b: FieldTransformSpec)
    requires
        a@ == b@,
    ensures
        match (a, b) {
            (
                FieldTransformSpec::MetadataDerivedColumn { field_index: i, insert_after: c },
                FieldTransformSpec::MetadataDerivedColumn { field_index: j, insert_after: d },
            ) => i == j && text_option(c) == text_option(d),
            (
                FieldTransformSpec::StaticDrop { field_name: c },
                FieldTransformSpec::StaticDrop { field_name: d },
            ) => c@ == d@,
            (
                FieldTransformSpec::GenerateRowId { field_name: c, row_index_field_name: i },
                FieldTransformSpec::GenerateRowId { field_name: d, row_index_field_name: j },
            ) => c@ == d@ && i@ == j@,
            _ => false,
        },
{
}

} // verus!
