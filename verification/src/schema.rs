//! Logical and physical schemas.
use std::sync::Arc;
use vstd::prelude::*;

use crate::error::{DeltaResult, Error, ErrorModel};
use crate::properties::{by_key, clone_entries, find_entry, lookup, same_entries};
use crate::text::{join_texts, same_text};

verus! {

/// The types of single values.
#[derive(Debug, Clone, Copy, PartialEq, Eq, Structural)]
pub enum PrimitiveType {
    String,
    Long,
    Integer,
    Short,
    Byte,
    Float,
    Double,
    Boolean,
    Binary,
    Date,
    Timestamp,
    TimestampNtz,
    Decimal { precision: u8, scale: u8 },
}

/// The type of a column.
#[derive(Debug, Eq)]
pub enum DataType {
    Primitive(PrimitiveType),
    /// An array of elements, and whether an element may be null.
    Array(Box<DataType>, bool),
    Struct(Box<StructType>),
    /// A map from keys to values, and whether a value may be null.
    MapOf(Box<DataType>, Box<DataType>, bool),
}

/// Columns that the reader computes instead of reading them from a file.
#[derive(Debug, Clone, Copy, PartialEq, Eq, Structural)]
pub enum MetadataColumnSpec {
    RowIndex,
    RowId,
    RowCommitVersion,
    FilePath,
}

/// How a logical column finds its physical counterpart.
#[derive(Debug, Clone, Copy, PartialEq, Eq, Structural)]
pub enum ColumnMappingMode {
    /// Physical columns carry their logical names.
    NoMapping,
    /// Physical columns are found by field id.
    Id,
    /// Physical columns are found by an assigned name.
    Name,
}

/// A value in a field's metadata.
#[derive(Debug, Eq)]
pub enum MetadataValue {
    Number(i64),
    String(String),
    Boolean(bool),
}

/// A column of a schema.
#[derive(Debug, Eq)]
pub struct StructField {
    pub name: String,
    pub data_type: DataType,
    pub nullable: bool,
    /// Annotations by key. Of two entries with one key the later one counts.
    pub metadata: Vec<(String, MetadataValue)>,
    /// Set on a column that the reader computes.
    pub metadata_column: Option<MetadataColumnSpec>,
}

/// An ordered list of columns.
#[derive(Debug, Eq)]
pub struct StructType {
    pub fields: Vec<StructField>,
}

/// A shared schema.
pub type SchemaRef = Arc<StructType>;

/// The metadata key under which a field's physical name is kept.
pub const PHYSICAL_NAME_KEY: &'static str = "delta.columnMapping.physicalName";

// ---------------------------------------------------------------------------
// Models
// ---------------------------------------------------------------------------
/// The content of a [`DataType`].
pub enum DataTypeModel {
    Primitive(PrimitiveType),
    Array(Box<DataTypeModel>, bool),
    Struct(Seq<FieldModel>),
    MapOf(Box<DataTypeModel>, Box<DataTypeModel>, bool),
}

/// The content of a [`MetadataValue`].
pub enum MetadataValueModel {
    Number(int),
    String(Seq<char>),
    Boolean(bool),
}

/// The content of a [`StructField`].
pub struct FieldModel {
    pub name: Seq<char>,
    pub data_type: DataTypeModel,
    pub nullable: bool,
    pub metadata: Map<Seq<char>, MetadataValueModel>,
    pub metadata_column: Option<MetadataColumnSpec>,
}

impl View for MetadataValue {
    type V = MetadataValueModel;

    open spec fn view(&self) -> MetadataValueModel {
        match *self {
            MetadataValue::Number(n) => MetadataValueModel::Number(n as int),
            MetadataValue::String(s) => MetadataValueModel::String(s@),
            MetadataValue::Boolean(b) => MetadataValueModel::Boolean(b),
        }
    }
}

/// The content of a data type.
pub open spec fn data_type_model(d: DataType) -> DataTypeModel
    decreases d,
{
    match d {
        DataType::Primitive(p) => DataTypeModel::Primitive(p),
        DataType::Array(e, n) => DataTypeModel::Array(Box::new(data_type_model(*e)), n),
        DataType::Struct(s) => DataTypeModel::Struct(fields_model(s.fields@)),
        DataType::MapOf(k, v, n) => DataTypeModel::MapOf(
            Box::new(data_type_model(*k)),
            Box::new(data_type_model(*v)),
            n,
        ),
    }
}

/// The content of a field.
pub open spec fn field_model(f: StructField) -> FieldModel
    decreases f,
{
    FieldModel {
        name: f.name@,
        data_type: data_type_model(f.data_type),
        nullable: f.nullable,
        metadata: by_key(f.metadata@),
        metadata_column: f.metadata_column,
    }
}

/// The content of a list of fields.
pub open spec fn fields_model(s: Seq<StructField>) -> Seq<FieldModel>
    decreases s,
{
    if s.len() == 0 {
        Seq::empty()
    } else {
        fields_model(s.drop_last()).push(field_model(s.last()))
    }
}

impl View for DataType {
    type V = DataTypeModel;

    open spec fn view(&self) -> DataTypeModel {
        data_type_model(*self)
    }
}

impl View for StructField {
    type V = FieldModel;

    open spec fn view(&self) -> FieldModel {
        field_model(*self)
    }
}

impl View for StructType {
    type V = Seq<FieldModel>;

    open spec fn view(&self) -> Seq<FieldModel> {
        fields_model(self.fields@)
    }
}

/// A list of fields and its content agree position by position.
pub broadcast proof fn lemma_fields_model(s: Seq<StructField>)
    ensures
        (#[trigger] fields_model(s)).len() == s.len(),
        forall|i: int| 0 <= i < s.len() ==> #[trigger] fields_model(s)[i] == field_model(s[i]),
    decreases s.len(),
{
    if s.len() > 0 {
        lemma_fields_model(s.drop_last());
        assert forall|i: int| 0 <= i < s.len() implies #[trigger] fields_model(s)[i] == field_model(
            s[i],
        ) by {
            if i < s.len() - 1 {
                assert(fields_model(s.drop_last())[i] == field_model(s.drop_last()[i]));
            }
        }
    }
}

/// Whether `fields` has a field called `name`.
pub open spec fn has_field(fields: Seq<FieldModel>, name: Seq<char>) -> bool {
    exists|i: int| 0 <= i < fields.len() && (#[trigger] fields[i]).name == name
}

/// The first position at which `fields` has a field called `name`, if there is one.
pub open spec fn field_position(fields: Seq<FieldModel>, name: Seq<char>) -> Option<int>
    decreases fields.len(),
{
    if fields.len() == 0 {
        None
    } else {
        match field_position(fields.drop_last(), name) {
            Some(i) => Some(i),
            None => if fields.last().name == name {
                Some(fields.len() - 1)
            } else {
                None
            },
        }
    }
}

/// What [`field_position`] finds is a field of that name, and the first one.
pub proof fn lemma_field_position(fields: Seq<FieldModel>, name: Seq<char>)
    ensures
        match field_position(fields, name) {
            Some(p) => {
                &&& 0 <= p < fields.len()
                &&& fields[p].name == name
                &&& forall|i: int| 0 <= i < p ==> (#[trigger] fields[i]).name != name
            },
            None => !has_field(fields, name),
        },
        field_position(fields, name) is Some <==> has_field(fields, name),
    decreases fields.len(),
{
    if fields.len() > 0 {
        let init = fields.drop_last();
        lemma_field_position(init, name);
        match field_position(init, name) {
            Some(p) => {
                assert(fields[p] == init[p]);
                assert forall|i: int| 0 <= i < p implies (#[trigger] fields[i]).name != name by {
                    assert(fields[i] == init[i]);
                }
            },
            None => {
                assert forall|i: int| 0 <= i < init.len() implies (#[trigger] fields[i]).name
                    != name by {
                    assert(fields[i] == init[i]);
                }
                if fields.last().name == name {
                    assert(fields[fields.len() - 1].name == name);
                }
            },
        }
    }
}

// ---------------------------------------------------------------------------
// Copies
// ---------------------------------------------------------------------------
/// Appending a field appends its content.
pub proof fn lemma_fields_model_push(s: Seq<StructField>, f: StructField)
    ensures
        fields_model(s.push(f)) == fields_model(s).push(field_model(f)),
{
    assert(s.push(f).drop_last() =~= s);
}

fn clone_metadata_value(v: &MetadataValue) -> (r: MetadataValue)
    ensures
        r@ == v@,
{
    match v {
        MetadataValue::Number(n) => MetadataValue::Number(*n),
        MetadataValue::String(s) => MetadataValue::String(s.clone()),
        MetadataValue::Boolean(b) => MetadataValue::Boolean(*b),
    }
}

fn clone_data_type(d: &DataType) -> (r: DataType)
    ensures
        r@ == d@,
    decreases d,
{
    match d {
        DataType::Primitive(p) => DataType::Primitive(*p),
        DataType::Array(e, n) => DataType::Array(Box::new(clone_data_type(e)), *n),
        DataType::Struct(s) => DataType::Struct(
            Box::new(StructType { fields: clone_fields(&s.fields) }),
        ),
        DataType::MapOf(k, v, n) => DataType::MapOf(
            Box::new(clone_data_type(k)),
            Box::new(clone_data_type(v)),
            *n,
        ),
    }
}

fn clone_field(f: &StructField) -> (r: StructField)
    ensures
        r@ == f@,
    decreases f,
{
    StructField {
        name: f.name.clone(),
        data_type: clone_data_type(&f.data_type),
        nullable: f.nullable,
        metadata: clone_entries(&f.metadata),
        metadata_column: f.metadata_column,
    }
}

fn clone_fields(v: &Vec<StructField>) -> (r: Vec<StructField>)
    ensures
        fields_model(r@) == fields_model(v@),
    decreases v,
{
    let mut r: Vec<StructField> = Vec::new();
    let mut i: usize = 0;
    while i < v.len()
        invariant
            i <= v.len(),
            fields_model(r@) == fields_model(v@.take(i as int)),
        decreases v.len() - i,
    {
        let f = clone_field(&v[i]);
        proof {
            lemma_fields_model_push(r@, f);
            lemma_fields_model_push(v@.take(i as int), v@[i as int]);
            assert(v@.take(i as int).push(v@[i as int]) =~= v@.take(i + 1));
        }
        r.push(f);
        i = i + 1;
    }
    assert(v@.take(i as int) =~= v@);
    r
}

impl Clone for DataType {
    fn clone(&self) -> (r: Self)
        ensures
            r@ == self@,
    {
        clone_data_type(self)
    }
}

impl Clone for MetadataValue {
    fn clone(&self) -> (r: Self)
        ensures
            r@ == self@,
    {
        clone_metadata_value(self)
    }
}

impl Clone for StructField {
    fn clone(&self) -> (r: Self)
        ensures
            r@ == self@,
    {
        clone_field(self)
    }
}

impl Clone for StructType {
    fn clone(&self) -> (r: Self)
        ensures
            r@ == self@,
    {
        StructType { fields: clone_fields(&self.fields) }
    }
}

// ---------------------------------------------------------------------------
// Comparisons
// ---------------------------------------------------------------------------
fn same_data_type(a: &DataType, b: &DataType) -> (r: bool)
    ensures
        r == (a@ == b@),
    decreases a,
{
    match (a, b) {
        (DataType::Primitive(a), DataType::Primitive(b)) => *a == *b,
        (DataType::Array(a, m), DataType::Array(b, n)) => *m == *n && same_data_type(a, b),
        (DataType::Struct(a), DataType::Struct(b)) => same_fields(&a.fields, &b.fields),
        (DataType::MapOf(k, v, m), DataType::MapOf(l, w, n)) => *m == *n && same_data_type(k, l)
            && same_data_type(v, w),
        _ => false,
    }
}

fn same_column_spec(a: Option<MetadataColumnSpec>, b: Option<MetadataColumnSpec>) -> (r: bool)
    ensures
        r == (a == b),
{
    match (a, b) {
        (Some(a), Some(b)) => a == b,
        (None, None) => true,
        _ => false,
    }
}

fn same_field(a: &StructField, b: &StructField) -> (r: bool)
    ensures
        r == (a@ == b@),
    decreases a,
{
    same_text(a.name.as_str(), b.name.as_str()) && same_data_type(&a.data_type, &b.data_type)
        && a.nullable == b.nullable && same_entries(&a.metadata, &b.metadata) && same_column_spec(
        a.metadata_column,
        b.metadata_column,
    )
}

fn same_fields(a: &Vec<StructField>, b: &Vec<StructField>) -> (r: bool)
    ensures
        r == (fields_model(a@) == fields_model(b@)),
    decreases a,
{
    proof {
        lemma_fields_model(a@);
        lemma_fields_model(b@);
    }
    if a.len() != b.len() {
        return false;
    }
    let mut i: usize = 0;
    while i < a.len()
        invariant
            i <= a.len(),
            a.len() == b.len(),
            forall|j: int| 0 <= j < i ==> field_model(#[trigger] a@[j]) == field_model(b@[j]),
        decreases a.len() - i,
    {
        proof {
            lemma_fields_model(a@);
            lemma_fields_model(b@);
        }
        if !same_field(&a[i], &b[i]) {
            assert(fields_model(a@)[i as int] != fields_model(b@)[i as int]);
            return false;
        }
        i = i + 1;
    }
    assert(fields_model(a@) =~= fields_model(b@));
    true
}

impl PartialEq for MetadataValue {
    fn eq(&self, other: &Self) -> (r: bool) {
        match (self, other) {
            (MetadataValue::Number(a), MetadataValue::Number(b)) => *a == *b,
            (MetadataValue::String(a), MetadataValue::String(b)) => same_text(
                a.as_str(),
                b.as_str(),
            ),
            (MetadataValue::Boolean(a), MetadataValue::Boolean(b)) => *a == *b,
            _ => false,
        }
    }
}

impl vstd::std_specs::cmp::PartialEqSpecImpl for MetadataValue {
    open spec fn obeys_eq_spec() -> bool {
        true
    }

    open spec fn eq_spec(&self, other: &Self) -> bool {
        self@ == other@
    }
}

impl PartialEq for DataType {
    fn eq(&self, other: &Self) -> (r: bool) {
        same_data_type(self, other)
    }
}

impl vstd::std_specs::cmp::PartialEqSpecImpl for DataType {
    open spec fn obeys_eq_spec() -> bool {
        true
    }

    open spec fn eq_spec(&self, other: &Self) -> bool {
        self@ == other@
    }
}

/// Columns are equal where they have the same content: the order of annotations does not matter.
impl PartialEq for StructField {
    fn eq(&self, other: &Self) -> (r: bool) {
        same_field(self, other)
    }
}

impl vstd::std_specs::cmp::PartialEqSpecImpl for StructField {
    open spec fn obeys_eq_spec() -> bool {
        true
    }

    open spec fn eq_spec(&self, other: &Self) -> bool {
        self@ == other@
    }
}

impl PartialEq for StructType {
    fn eq(&self, other: &Self) -> (r: bool) {
        same_fields(&self.fields, &other.fields)
    }
}

impl vstd::std_specs::cmp::PartialEqSpecImpl for StructType {
    open spec fn obeys_eq_spec() -> bool {
        true
    }

    open spec fn eq_spec(&self, other: &Self) -> bool {
        self@ == other@
    }
}

// ---------------------------------------------------------------------------
// Fields
// ---------------------------------------------------------------------------
/// A field that may be null, or not, without annotations.
pub open spec fn plain_field(name: Seq<char>, data_type: DataTypeModel, nullable: bool) -> FieldModel {
    FieldModel { name, data_type, nullable, metadata: Map::empty(), metadata_column: None }
}

/// The column through which the reader hands out `spec` under `name`.
pub open spec fn metadata_field(name: Seq<char>, spec: MetadataColumnSpec) -> FieldModel {
    FieldModel {
        name,
        data_type: DataTypeModel::Primitive(
            if spec == MetadataColumnSpec::FilePath {
                PrimitiveType::String
            } else {
                PrimitiveType::Long
            },
        ),
        nullable: false,
        metadata: Map::empty(),
        metadata_column: Some(spec),
    }
}

/// The name under which files hold a field, where it has one: a column that the reader computes
/// keeps its name, and so does every column where names are not mapped. Otherwise the name is the
/// field's annotation.
pub open spec fn physical_name(f: FieldModel, mode: ColumnMappingMode) -> Option<Seq<char>> {
    if mode == ColumnMappingMode::NoMapping || f.metadata_column is Some {
        Some(f.name)
    } else {
        match lookup(f.metadata, PHYSICAL_NAME_KEY@) {
            Some(MetadataValueModel::String(s)) => Some(s),
            _ => None,
        }
    }
}

/// A data type with every field inside it named as files name it.
pub open spec fn physical_data_type(d: DataTypeModel, mode: ColumnMappingMode) -> Option<
    DataTypeModel,
>
    decreases d,
{
    match d {
        DataTypeModel::Primitive(p) => Some(d),
        DataTypeModel::Array(e, n) => match physical_data_type(*e, mode) {
            Some(e) => Some(DataTypeModel::Array(Box::new(e), n)),
            None => None,
        },
        DataTypeModel::Struct(s) => match physical_fields(s, mode) {
            Some(s) => Some(DataTypeModel::Struct(s)),
            None => None,
        },
        DataTypeModel::MapOf(k, v, n) => match (
            physical_data_type(*k, mode),
            physical_data_type(*v, mode),
        ) {
            (Some(k), Some(v)) => Some(DataTypeModel::MapOf(Box::new(k), Box::new(v), n)),
            _ => None,
        },
    }
}

/// A field, and every field inside it, named as files name it. There is none where an annotation
/// is missing.
pub open spec fn physical_field(f: FieldModel, mode: ColumnMappingMode) -> Option<FieldModel>
    decreases f,
{
    match (physical_name(f, mode), physical_data_type(f.data_type, mode)) {
        (Some(name), Some(data_type)) => Some(FieldModel { name, data_type, ..f }),
        _ => None,
    }
}

/// The physical counterparts of `fields`, in order.
pub open spec fn physical_fields(fields: Seq<FieldModel>, mode: ColumnMappingMode) -> Option<
    Seq<FieldModel>,
>
    decreases fields,
{
    if fields.len() == 0 {
        Some(Seq::empty())
    } else {
        match (physical_fields(fields.drop_last(), mode), physical_field(fields.last(), mode)) {
            (Some(init), Some(last)) => Some(init.push(last)),
            _ => None,
        }
    }
}

/// Reported where column mapping is on and a field lacks its physical name.
pub const MISSING_ANNOTATION: &'static str = "Column mapping is enabled, but a field has no physical name";

/// A field and its physical counterpart stand at the same position.
pub proof fn lemma_physical_fields(fields: Seq<FieldModel>, mode: ColumnMappingMode)
    ensures
        match physical_fields(fields, mode) {
            Some(p) => p.len() == fields.len() && forall|i: int|
                0 <= i < fields.len() ==> physical_field(fields[i], mode) == Some(#[trigger] p[i]),
            None => exists|i: int|
                0 <= i < fields.len() && physical_field(#[trigger] fields[i], mode) is None,
        },
    decreases fields.len(),
{
    if fields.len() > 0 {
        let init = fields.drop_last();
        lemma_physical_fields(init, mode);
        if physical_fields(init, mode) is None {
            let i = choose|i: int|
                0 <= i < init.len() && physical_field(#[trigger] init[i], mode) is None;
            assert(physical_field(fields[i], mode) is None);
        } else if physical_field(fields.last(), mode) is None {
            assert(physical_field(fields[fields.len() - 1], mode) is None);
        } else {
            let p = physical_fields(fields, mode)->0;
            let q = physical_fields(init, mode)->0;
            assert forall|i: int| 0 <= i < fields.len() implies physical_field(fields[i], mode)
                == Some(#[trigger] p[i]) by {
                if i < init.len() {
                    assert(q[i] == p[i]);
                    assert(init[i] == fields[i]);
                }
            }
        }
    }
}

/// Where names are not mapped, files hold a data type as it is.
pub proof fn law_unmapped_data_type_is_unchanged(d: DataTypeModel)
    ensures
        physical_data_type(d, ColumnMappingMode::NoMapping) == Some(d),
    decreases d,
{
    match d {
        DataTypeModel::Primitive(_) => {},
        DataTypeModel::Array(e, _) => {
            law_unmapped_data_type_is_unchanged(*e);
        },
        DataTypeModel::Struct(s) => {
            law_unmapped_fields_are_unchanged(s);
        },
        DataTypeModel::MapOf(k, v, _) => {
            law_unmapped_data_type_is_unchanged(*k);
            law_unmapped_data_type_is_unchanged(*v);
        },
    }
}

/// Where names are not mapped, files hold a field as it is.
pub proof fn law_unmapped_field_is_unchanged(f: FieldModel)
    ensures
        physical_field(f, ColumnMappingMode::NoMapping) == Some(f),
    decreases f,
{
    law_unmapped_data_type_is_unchanged(f.data_type);
}

/// Where names are not mapped, files hold fields as they are.
pub proof fn law_unmapped_fields_are_unchanged(fields: Seq<FieldModel>)
    ensures
        physical_fields(fields, ColumnMappingMode::NoMapping) == Some(fields),
    decreases fields,
{
    if fields.len() > 0 {
        law_unmapped_fields_are_unchanged(fields.drop_last());
        law_unmapped_field_is_unchanged(fields.last());
        assert(fields.drop_last().push(fields.last()) =~= fields);
    } else {
        assert(fields =~= Seq::empty());
    }
}

fn missing_annotation() -> (r: Error)
    ensures
        r@ == ErrorModel::Schema(MISSING_ANNOTATION@),
{
    Error::Schema(MISSING_ANNOTATION.to_owned())
}

fn make_physical_data_type(d: &DataType, mode: ColumnMappingMode) -> (r: DeltaResult<DataType>)
    ensures
        match r {
            Ok(p) => physical_data_type(d@, mode) == Some(p@),
            Err(e) => physical_data_type(d@, mode) is None && e@ == ErrorModel::Schema(
                MISSING_ANNOTATION@,
            ),
        },
    decreases d,
{
    match d {
        DataType::Primitive(p) => Ok(DataType::Primitive(*p)),
        DataType::Array(e, n) => match make_physical_data_type(e, mode) {
            Ok(e) => Ok(DataType::Array(Box::new(e), *n)),
            Err(e) => Err(e),
        },
        DataType::Struct(s) => match make_physical_fields(&s.fields, mode) {
            Ok(fields) => Ok(DataType::Struct(Box::new(StructType { fields }))),
            Err(e) => Err(e),
        },
        DataType::MapOf(k, v, n) => match make_physical_data_type(k, mode) {
            Ok(k) => match make_physical_data_type(v, mode) {
                Ok(v) => Ok(DataType::MapOf(Box::new(k), Box::new(v), *n)),
                Err(e) => Err(e),
            },
            Err(e) => Err(e),
        },
    }
}

fn make_physical_field(f: &StructField, mode: ColumnMappingMode) -> (r: DeltaResult<StructField>)
    ensures
        match r {
            Ok(p) => physical_field(f@, mode) == Some(p@),
            Err(e) => physical_field(f@, mode) is None && e@ == ErrorModel::Schema(
                MISSING_ANNOTATION@,
            ),
        },
    decreases f,
{
    let name: String = match f.physical_name(mode) {
        Some(name) => name,
        None => {
            return Err(missing_annotation());
        },
    };
    match make_physical_data_type(&f.data_type, mode) {
        Ok(data_type) => Ok(
            StructField {
                name,
                data_type,
                nullable: f.nullable,
                metadata: clone_entries(&f.metadata),
                metadata_column: f.metadata_column,
            },
        ),
        Err(e) => Err(e),
    }
}

fn make_physical_fields(v: &Vec<StructField>, mode: ColumnMappingMode) -> (r: DeltaResult<
    Vec<StructField>,
>)
    ensures
        match r {
            Ok(p) => physical_fields(fields_model(v@), mode) == Some(fields_model(p@)),
            Err(e) => physical_fields(fields_model(v@), mode) is None && e@ == ErrorModel::Schema(
                MISSING_ANNOTATION@,
            ),
        },
    decreases v,
{
    let mut r: Vec<StructField> = Vec::new();
    let mut i: usize = 0;
    while i < v.len()
        invariant
            i <= v.len(),
            physical_fields(fields_model(v@.take(i as int)), mode) == Some(fields_model(r@)),
        decreases v.len() - i,
    {
        proof {
            lemma_fields_model_push(v@.take(i as int), v@[i as int]);
            assert(v@.take(i as int).push(v@[i as int]) =~= v@.take(i + 1));
            assert(fields_model(v@.take(i + 1)).drop_last() =~= fields_model(v@.take(i as int)));
        }
        match make_physical_field(&v[i], mode) {
            Ok(f) => {
                proof {
                    lemma_fields_model_push(r@, f);
                }
                r.push(f);
            },
            Err(e) => {
                proof {
                    lemma_fields_model(v@);
                    lemma_physical_fields(fields_model(v@), mode);
                    if physical_fields(fields_model(v@), mode) is Some {
                        let p = physical_fields(fields_model(v@), mode)->0;
                        assert(physical_field(fields_model(v@)[i as int], mode) == Some(p[i as int]));
                    }
                }
                return Err(e);
            },
        }
        i = i + 1;
    }
    assert(v@.take(i as int) =~= v@);
    Ok(r)
}

impl StructField {
    /// A column that may hold null.
    pub fn nullable(name: &str, data_type: DataType) -> (r: Self)
        ensures
            r@ == plain_field(name@, data_type@, true),
    {
        StructField {
            name: name.to_owned(),
            data_type,
            nullable: true,
            metadata: Vec::new(),
            metadata_column: None,
        }
    }

    /// A column that never holds null.
    pub fn not_null(name: &str, data_type: DataType) -> (r: Self)
        ensures
            r@ == plain_field(name@, data_type@, false),
    {
        StructField {
            name: name.to_owned(),
            data_type,
            nullable: false,
            metadata: Vec::new(),
            metadata_column: None,
        }
    }

    /// A column that the reader computes.
    pub fn create_metadata_column(name: &str, spec: MetadataColumnSpec) -> (r: Self)
        ensures
            r@ == metadata_field(name@, spec),
    {
        let data_type = if spec == MetadataColumnSpec::FilePath {
            DataType::Primitive(PrimitiveType::String)
        } else {
            DataType::Primitive(PrimitiveType::Long)
        };
        StructField {
            name: name.to_owned(),
            data_type,
            nullable: false,
            metadata: Vec::new(),
            metadata_column: Some(spec),
        }
    }

    /// The column with other annotations.
    pub fn with_metadata(self, metadata: Vec<(String, MetadataValue)>) -> (r: Self)
        ensures
            r@ == (FieldModel { metadata: by_key(metadata@), ..self@ }),
    {
        StructField {
            name: self.name,
            data_type: self.data_type,
            nullable: self.nullable,
            metadata,
            metadata_column: self.metadata_column,
        }
    }

    pub fn name(&self) -> (r: &String)
        ensures
            r@ == self@.name,
    {
        &self.name
    }

    pub fn data_type(&self) -> (r: &DataType)
        ensures
            r@ == self@.data_type,
    {
        &self.data_type
    }

    /// What the reader computes for this column, if it does.
    pub fn get_metadata_column_spec(&self) -> (r: Option<MetadataColumnSpec>)
        ensures
            r == self@.metadata_column,
    {
        self.metadata_column
    }

    /// Whether the reader computes this column.
    pub fn is_metadata_column(&self) -> (r: bool)
        ensures
            r == (self@.metadata_column is Some),
    {
        self.metadata_column.is_some()
    }

    /// The name under which files hold this column.
    pub fn physical_name(&self, mode: ColumnMappingMode) -> (r: Option<String>)
        ensures
            match r {
                Some(name) => physical_name(self@, mode) == Some(name@),
                None => physical_name(self@, mode) is None,
            },
    {
        if mode == ColumnMappingMode::NoMapping || self.metadata_column.is_some() {
            return Some(self.name.clone());
        }
        match find_entry(&self.metadata, PHYSICAL_NAME_KEY) {
            Some(MetadataValue::String(s)) => Some(s.clone()),
            _ => None,
        }
    }

    /// The column as files hold it: named, and with every column inside it named, as `mode` says.
    /// Fails where a needed annotation is missing.
    pub fn make_physical(&self, mode: ColumnMappingMode) -> (r: DeltaResult<StructField>)
        ensures
            match r {
                Ok(p) => physical_field(self@, mode) == Some(p@),
                Err(e) => physical_field(self@, mode) is None && e@ == ErrorModel::Schema(
                    MISSING_ANNOTATION@,
                ),
            },
    {
        make_physical_field(self, mode)
    }
}

// ---------------------------------------------------------------------------
// Schemas
// ---------------------------------------------------------------------------
/// What keeps field `i` out of a schema that holds the fields before it: a field of the same
/// name, or one through which the reader hands out the same thing.
pub open spec fn clash(fields: Seq<FieldModel>, i: int) -> Option<ErrorModel> {
    if has_field(fields.take(i), fields[i].name) {
        Some(ErrorModel::Schema("Duplicate field name: "@ + fields[i].name))
    } else if fields[i].metadata_column is Some && exists|j: int|
        0 <= j < i && (#[trigger] fields[j]).metadata_column == fields[i].metadata_column {
        Some(ErrorModel::Schema("Duplicate metadata column: "@ + fields[i].name))
    } else {
        None
    }
}

/// What keeps `fields` from being a schema: the first clash among them.
pub open spec fn first_clash(fields: Seq<FieldModel>, n: nat) -> Option<ErrorModel>
    decreases n,
{
    if n == 0 {
        None
    } else {
        match first_clash(fields, (n - 1) as nat) {
            Some(e) => Some(e),
            None => clash(fields, n - 1),
        }
    }
}

/// What keeps `fields` from being a schema.
pub open spec fn schema_error(fields: Seq<FieldModel>) -> Option<ErrorModel> {
    first_clash(fields, fields.len())
}

/// The fields whose name `names` has (`wanted`) or lacks (not `wanted`), in order.
pub open spec fn fields_filtered(
    fields: Seq<FieldModel>,
    names: Seq<FieldModel>,
    wanted: bool,
) -> Seq<FieldModel>
    decreases fields.len(),
{
    if fields.len() == 0 {
        Seq::empty()
    } else {
        let init = fields_filtered(fields.drop_last(), names, wanted);
        if has_field(names, fields.last().name) == wanted {
            init.push(fields.last())
        } else {
            init
        }
    }
}

/// A filtered list holds exactly the fields that pass.
pub proof fn lemma_fields_filtered(
    fields: Seq<FieldModel>,
    names: Seq<FieldModel>,
    wanted: bool,
    f: FieldModel,
)
    ensures
        fields_filtered(fields, names, wanted).contains(f) <==> fields.contains(f) && has_field(
            names,
            f.name,
        ) == wanted,
    decreases fields.len(),
{
    if fields.len() > 0 {
        let init = fields.drop_last();
        let kept = fields_filtered(init, names, wanted);
        lemma_fields_filtered(init, names, wanted, f);
        assert(fields.contains(f) <==> init.contains(f) || fields.last() == f) by {
            if fields.contains(f) {
                let i = choose|i: int| 0 <= i < fields.len() && fields[i] == f;
                if i < init.len() {
                    assert(init[i] == f);
                }
            }
            if init.contains(f) {
                let i = choose|i: int| 0 <= i < init.len() && init[i] == f;
                assert(fields[i] == f);
            }
            assert(fields[fields.len() - 1] == fields.last());
        }
        let more = kept.push(fields.last());
        assert(more.contains(f) <==> kept.contains(f) || fields.last() == f) by {
            if kept.contains(f) {
                let i = choose|i: int| 0 <= i < kept.len() && kept[i] == f;
                assert(more[i] == f);
            }
            assert(more[more.len() - 1] == fields.last());
        }
    }
}

/// Fields make up a schema exactly where no two of them have the same name, and no two are ones
/// through which the reader hands out the same thing.
pub proof fn law_schema_fields_do_not_clash(fields: Seq<FieldModel>)
    ensures
        schema_error(fields) is None <==> forall|i: int, j: int|
            0 <= i < j < fields.len() ==> (#[trigger] fields[i]).name != (#[trigger] fields[j]).name
                && !(fields[i].metadata_column is Some && fields[i].metadata_column
                == fields[j].metadata_column),
{
    lemma_no_clash(fields, fields.len());
}

proof fn lemma_no_clash(fields: Seq<FieldModel>, n: nat)
    requires
        n <= fields.len(),
    ensures
        first_clash(fields, n) is None <==> forall|i: int, j: int|
            0 <= i < j < n ==> (#[trigger] fields[i]).name != (#[trigger] fields[j]).name && !(
            fields[i].metadata_column is Some && fields[i].metadata_column
                == fields[j].metadata_column),
    decreases n,
{
    if n > 0 {
        lemma_no_clash(fields, (n - 1) as nat);
        let last = fields[n - 1];
        let before = fields.take(n - 1);
        if clash(fields, n - 1) is None {
            assert forall|i: int, j: int|
                0 <= i < j < n && first_clash(fields, (n - 1) as nat) is None implies (
            #[trigger] fields[i]).name != (#[trigger] fields[j]).name && !(
            fields[i].metadata_column is Some && fields[i].metadata_column
                == fields[j].metadata_column) by {
                if j == n - 1 {
                    assert(before[i] == fields[i]);
                    assert(before[i].name != last.name);
                }
            }
        } else if has_field(before, last.name) {
            let i = choose|i: int|
                0 <= i < before.len() && (#[trigger] before[i]).name == last.name;
            assert(fields[i].name == fields[n - 1].name);
        } else {
            let i = choose|i: int|
                0 <= i < n - 1 && (#[trigger] fields[i]).metadata_column == last.metadata_column;
            assert(fields[i].metadata_column == fields[n - 1].metadata_column);
        }
    }
}

impl StructType {
    /// A schema of fields that are known not to clash.
    pub fn new_unchecked(fields: Vec<StructField>) -> (r: Self)
        ensures
            r@ == fields_model(fields@),
    {
        StructType { fields }
    }

    /// A schema of `fields`, unless two of them clash.
    pub fn try_new(fields: Vec<StructField>) -> (r: DeltaResult<Self>)
        ensures
            match r {
                Ok(s) => schema_error(fields_model(fields@)) is None && s@ == fields_model(fields@),
                Err(e) => schema_error(fields_model(fields@)) == Some(e@),
            },
    {
        broadcast use lemma_fields_model;

        let ghost model = fields_model(fields@);
        let mut i: usize = 0;
        while i < fields.len()
            invariant
                i <= fields.len(),
                model == fields_model(fields@),
                first_clash(model, i as nat) is None,
            decreases fields.len() - i,
        {
            broadcast use lemma_fields_model;

            let mut same_spec: bool = false;
            let mut j: usize = 0;
            while j < i
                invariant
                    j <= i < fields.len(),
                    model == fields_model(fields@),
                    first_clash(model, i as nat) is None,
                    forall|k: int| 0 <= k < j ==> (#[trigger] model[k]).name != model[i as int].name,
                    model[i as int].metadata_column is Some ==> (same_spec <==> exists|k: int|
                        0 <= k < j && (#[trigger] model[k]).metadata_column
                            == model[i as int].metadata_column),
                    model[i as int].metadata_column is None ==> !same_spec,
                decreases i - j,
            {
                broadcast use lemma_fields_model;

                assert(model[j as int] == fields@[j as int]@);
                assert(model[i as int] == fields@[i as int]@);
                if same_text(fields[j].name.as_str(), fields[i].name.as_str()) {
                    proof {
                        assert(model.take(i as int)[j as int].name == model[i as int].name);
                        lemma_first_clash(model, i as nat, model.len());
                    }
                    return Err(
                        Error::Schema(join_texts("Duplicate field name: ", fields[i].name.as_str())),
                    );
                }
                if let Some(spec) = fields[i].metadata_column {
                    if let Some(earlier) = fields[j].metadata_column {
                        if earlier == spec {
                            same_spec = true;
                        }
                    }
                }
                j = j + 1;
            }
            assert(!has_field(model.take(i as int), model[i as int].name)) by {
                if has_field(model.take(i as int), model[i as int].name) {
                    let k = choose|k: int|
                        0 <= k < i && (#[trigger] model.take(i as int)[k]).name
                            == model[i as int].name;
                    assert(model[k].name == model[i as int].name);
                }
            }
            assert(model[i as int] == fields@[i as int]@);
            if same_spec {
                proof {
                    lemma_first_clash(model, i as nat, model.len());
                }
                return Err(
                    Error::Schema(join_texts("Duplicate metadata column: ", fields[i].name.as_str())),
                );
            }
            i = i + 1;
        }
        Ok(StructType { fields })
    }

    /// The field called `name`.
    pub fn field(&self, name: &str) -> (r: Option<&StructField>)
        ensures
            match r {
                Some(f) => field_position(self@, name@) is Some && f@ == self@[field_position(
                    self@,
                    name@,
                )->0],
                None => !has_field(self@, name@),
            },
            r is Some <==> has_field(self@, name@),
    {
        broadcast use lemma_fields_model;

        proof {
            lemma_field_position(self@, name@);
        }
        let mut i: usize = 0;
        while i < self.fields.len()
            invariant
                i <= self.fields.len(),
                self@ == fields_model(self.fields@),
                forall|k: int| 0 <= k < i ==> (#[trigger] self@[k]).name != name@,
            decreases self.fields.len() - i,
        {
            broadcast use lemma_fields_model;

            if same_text(self.fields[i].name.as_str(), name) {
                proof {
                    assert(self@[i as int].name == name@);
                    lemma_field_position(self@, name@);
                }
                return Some(&self.fields[i]);
            }
            i = i + 1;
        }
        None
    }

    /// The fields, in order.
    pub fn fields(&self) -> (r: &Vec<StructField>)
        ensures
            fields_model(r@) == self@,
    {
        &self.fields
    }

    pub fn num_fields(&self) -> (r: usize)
        ensures
            r == self@.len(),
    {
        broadcast use lemma_fields_model;

        self.fields.len()
    }

    /// The schema with one more column, which the reader computes. Fails where it clashes.
    pub fn add_metadata_column(&self, name: &str, spec: MetadataColumnSpec) -> (r: DeltaResult<Self>)
        ensures
            match r {
                Ok(s) => s@ == self@.push(metadata_field(name@, spec)) && schema_error(s@) is None,
                Err(e) => schema_error(self@.push(metadata_field(name@, spec))) == Some(e@),
            },
    {
        let mut fields: Vec<StructField> = clone_fields(&self.fields);
        let f = StructField::create_metadata_column(name, spec);
        proof {
            lemma_fields_model_push(fields@, f);
        }
        fields.push(f);
        StructType::try_new(fields)
    }

    /// The schema as files hold it. Fails where a needed annotation is missing.
    pub fn make_physical(&self, mode: ColumnMappingMode) -> (r: DeltaResult<StructType>)
        ensures
            match r {
                Ok(p) => physical_fields(self@, mode) == Some(p@),
                Err(e) => physical_fields(self@, mode) is None && e@ == ErrorModel::Schema(
                    MISSING_ANNOTATION@,
                ),
            },
    {
        match make_physical_fields(&self.fields, mode) {
            Ok(fields) => Ok(StructType { fields }),
            Err(e) => Err(e),
        }
    }

    /// The schema of the fields whose name `names` has (`wanted`) or lacks (not `wanted`). There
    /// is none where no field is left.
    pub fn with_fields_filtered_nonempty(&self, names: &StructType, wanted: bool) -> (r: Option<
        StructType,
    >)
        ensures
            match r {
                Some(s) => s@ == fields_filtered(self@, names@, wanted) && s@.len() > 0,
                None => fields_filtered(self@, names@, wanted).len() == 0,
            },
    {
        let mut kept: Vec<StructField> = Vec::new();
        let mut i: usize = 0;
        while i < self.fields.len()
            invariant
                i <= self.fields.len(),
                fields_model(kept@) == fields_filtered(
                    fields_model(self.fields@.take(i as int)),
                    names@,
                    wanted,
                ),
            decreases self.fields.len() - i,
        {
            proof {
                let prefix = self.fields@.take(i as int);
                lemma_fields_model_push(prefix, self.fields@[i as int]);
                assert(prefix.push(self.fields@[i as int]) =~= self.fields@.take(i + 1));
                assert(fields_model(self.fields@.take(i + 1)).drop_last() =~= fields_model(prefix));
            }
            if names.field(self.fields[i].name.as_str()).is_some() == wanted {
                let f = clone_field(&self.fields[i]);
                proof {
                    lemma_fields_model_push(kept@, f);
                }
                kept.push(f);
            }
            i = i + 1;
        }
        proof {
            assert(self.fields@.take(i as int) =~= self.fields@);
            lemma_fields_model(kept@);
        }
        if kept.len() == 0 {
            None
        } else {
            Some(StructType { fields: kept })
        }
    }
}

proof fn lemma_first_clash(fields: Seq<FieldModel>, i: nat, n: nat)
    requires
        i < n,
        first_clash(fields, i) is None,
        clash(fields, i as int) is Some,
    ensures
        first_clash(fields, n) == clash(fields, i as int),
    decreases n,
{
    if n > i + 1 {
        lemma_first_clash(fields, i, (n - 1) as nat);
    }
}

/// The counterpart of a field in files has the name that files give it: where names are mapped that
/// is the field's annotation, except on a column that the reader computes. There is no counterpart
/// where that, or one inside the field, is missing. Everything else about the field stays, at every
/// depth: an array of elements becomes an array of their counterparts, and so on.
pub proof fn law_counterpart_differs_in_names_only(f: FieldModel, mode: ColumnMappingMode)
    ensures
        physical_field(f, mode) matches Some(p) ==> {
            &&& p.nullable == f.nullable
            &&& p.metadata == f.metadata
            &&& p.metadata_column == f.metadata_column
            &&& mode == ColumnMappingMode::NoMapping || f.metadata_column is Some ==> p.name == f.name
            &&& mode != ColumnMappingMode::NoMapping && f.metadata_column is None ==> lookup(
                f.metadata,
                "delta.columnMapping.physicalName"@,
            ) == Some(MetadataValueModel::String(p.name))
            &&& match f.data_type {
                DataTypeModel::Primitive(_) => p.data_type == f.data_type,
                DataTypeModel::Array(e, nulls) => {
                    p.data_type matches DataTypeModel::Array(d, n) && n == nulls
                        && physical_data_type(*e, mode) == Some(*d)
                },
                DataTypeModel::Struct(fields) => {
                    p.data_type matches DataTypeModel::Struct(inner) && inner.len() == fields.len()
                        && forall|i: int|
                        0 <= i < fields.len() ==> physical_field(fields[i], mode) == Some(
                            #[trigger] inner[i],
                        )
                },
                DataTypeModel::MapOf(k, v, nulls) => {
                    p.data_type matches DataTypeModel::MapOf(l, w, n) && n == nulls
                        && physical_data_type(*k, mode) == Some(*l) && physical_data_type(*v, mode)
                        == Some(*w)
                },
            }
        },
        physical_field(f, mode) is None <==> {
            ||| mode != ColumnMappingMode::NoMapping && f.metadata_column is None && !(lookup(
                f.metadata,
                "delta.columnMapping.physicalName"@,
            ) matches Some(MetadataValueModel::String(_)))
            ||| match f.data_type {
                DataTypeModel::Primitive(_) => false,
                DataTypeModel::Array(e, _) => physical_data_type(*e, mode) is None,
                DataTypeModel::Struct(fields) => exists|i: int|
                    0 <= i < fields.len() && physical_field(#[trigger] fields[i], mode) is None,
                DataTypeModel::MapOf(k, v, _) => physical_data_type(*k, mode) is None
                    || physical_data_type(*v, mode) is None,
            }
        },
{
    reveal_with_fuel(physical_field, 2);
    reveal_with_fuel(physical_data_type, 2);
    if let DataTypeModel::Struct(fields) = f.data_type {
        lemma_physical_fields(fields, mode);
        if let Some(inner) = physical_fields(fields, mode) {
            assert forall|i: int| 0 <= i < fields.len() implies physical_field(
                #[trigger] fields[i],
                mode,
            ) is Some by {
                assert(physical_field(fields[i], mode) == Some(inner[i]));
            }
        }
    }
}

/// The counterpart of a type in files is that of what it is made of.
pub proof fn law_counterpart_of_a_type(d: DataTypeModel, mode: ColumnMappingMode)
    ensures
        match d {
            DataTypeModel::Primitive(_) => physical_data_type(d, mode) == Some(d),
            DataTypeModel::Array(e, nulls) => match physical_data_type(*e, mode) {
                Some(p) => physical_data_type(d, mode) == Some(
                    DataTypeModel::Array(Box::new(p), nulls),
                ),
                None => physical_data_type(d, mode) is None,
            },
            DataTypeModel::Struct(fields) => match physical_data_type(d, mode) {
                Some(DataTypeModel::Struct(inner)) => inner.len() == fields.len() && forall|i: int|
                    0 <= i < fields.len() ==> physical_field(fields[i], mode) == Some(
                        #[trigger] inner[i],
                    ),
                Some(_) => false,
                None => exists|i: int|
                    0 <= i < fields.len() && physical_field(#[trigger] fields[i], mode) is None,
            },
            DataTypeModel::MapOf(k, v, nulls) => match (
                physical_data_type(*k, mode),
                physical_data_type(*v, mode),
            ) {
                (Some(p), Some(q)) => physical_data_type(d, mode) == Some(
                    DataTypeModel::MapOf(Box::new(p), Box::new(q), nulls),
                ),
                _ => physical_data_type(d, mode) is None,
            },
        },
{
    reveal_with_fuel(physical_data_type, 2);
    if let DataTypeModel::Struct(fields) = d {
        lemma_physical_fields(fields, mode);
    }
}

/// Whether `positions` select `kept` of `fields`, in the same order: exactly those that pass.
pub open spec fn keeps_in_order(
    fields: Seq<FieldModel>,
    passes: spec_fn(int) -> bool,
    kept: Seq<FieldModel>,
    positions: Seq<int>,
) -> bool {
    &&& positions.len() == kept.len()
    &&& forall|k: int|
        0 <= k < kept.len() ==> 0 <= #[trigger] positions[k] < fields.len() && kept[k]
            == fields[positions[k]] && passes(positions[k])
    &&& forall|k: int, l: int|
        0 <= k < l < positions.len() ==> #[trigger] positions[k] < #[trigger] positions[l]
    &&& forall|i: int| 0 <= i < fields.len() && #[trigger] passes(i) ==> positions.contains(i)
}

/// Filtering by names keeps exactly the fields whose name is (or is not) among them, in their order.
pub proof fn law_filtering_keeps_the_order(
    fields: Seq<FieldModel>,
    names: Seq<FieldModel>,
    wanted: bool,
) -> (positions: Seq<int>)
    ensures
        keeps_in_order(
            fields,
            |i: int|
                wanted == exists|j: int|
                    0 <= j < names.len() && (#[trigger] names[j]).name == fields[i].name,
            fields_filtered(fields, names, wanted),
            positions,
        ),
    decreases fields.len(),
{
    let passes = |i: int|
        wanted == exists|j: int|
            0 <= j < names.len() && (#[trigger] names[j]).name == fields[i].name;
    if fields.len() == 0 {
        Seq::empty()
    } else {
        let init = fields.drop_last();
        let n = init.len() as int;
        let before = law_filtering_keeps_the_order(init, names, wanted);
        let passes_before = |i: int|
            wanted == exists|j: int|
                0 <= j < names.len() && (#[trigger] names[j]).name == init[i].name;
        let kept = fields_filtered(fields, names, wanted);
        assert(passes(n) == (has_field(names, fields.last().name) == wanted));
        let positions = if passes(n) {
            before.push(n)
        } else {
            before
        };
        assert forall|k: int| 0 <= k < kept.len() implies 0 <= #[trigger] positions[k] < fields.len()
            && kept[k] == fields[positions[k]] && passes(positions[k]) by {
            if k < before.len() {
                assert(positions[k] == before[k]);
                assert(init[before[k]] == fields[before[k]]);
                assert(passes_before(before[k]));
            }
        }
        assert forall|i: int| 0 <= i < fields.len() && #[trigger] passes(
            i,
        ) implies positions.contains(i) by {
            if i < n {
                assert(init[i] == fields[i]);
                assert(passes_before(i));
                assert(before.contains(i));
                let k = choose|k: int| 0 <= k < before.len() && before[k] == i;
                assert(positions[k] == i);
            } else {
                assert(positions[before.len() as int] == n);
            }
        }
        positions
    }
}

/// Columns with the same content are the same in every respect.
pub proof fn law_content_of_a_column(a: StructField, b: StructField)
    requires
        a@ == b@,
    ensures
        a.name@ == b.name@,
        a.data_type@ == b.data_type@,
        a.nullable == b.nullable,
        by_key(a.metadata@) == by_key(b.metadata@),
        a.metadata_column == b.metadata_column,
{
}

/// Types with the same content are of the same kind, and are made of types with the same content.
pub proof fn law_content_of_a_type(a: DataType, b: DataType)
    requires
        a@ == b@,
    ensures
        match (a, b) {
            (DataType::Primitive(p), DataType::Primitive(q)) => p == q,
            (DataType::Array(d, m), DataType::Array(e, n)) => d@ == e@ && m == n,
            (DataType::Struct(s), DataType::Struct(t)) => s.fields@.len() == t.fields@.len()
                && forall|i: int|
                0 <= i < s.fields@.len() ==> (#[trigger] s.fields@[i])@ == t.fields@[i]@,
            (DataType::MapOf(k, v, m), DataType::MapOf(l, w, n)) => k@ == l@ && v@ == w@ && m == n,
            _ => false,
        },
{
    if let (DataType::Struct(s), DataType::Struct(t)) = (a, b) {
        lemma_fields_model(s.fields@);
        lemma_fields_model(t.fields@);
        assert forall|i: int| 0 <= i < s.fields@.len() implies (#[trigger] s.fields@[i])@
            == t.fields@[i]@ by {
            assert(fields_model(s.fields@)[i] == field_model(s.fields@[i]));
            assert(fields_model(t.fields@)[i] == field_model(t.fields@[i]));
        }
    }
}

} // verus!
