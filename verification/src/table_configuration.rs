//! The configuration of a table at one version.
use std::sync::Arc;
use url::Url;
use vstd::prelude::*;

use crate::error::{DeltaResult, ErrorModel};
use crate::properties::{by_key, clone_entries, find_entry, lookup, same_entries};
use crate::schema::{
    lemma_physical_fields, physical_field, physical_fields, ColumnMappingMode, FieldModel,
    SchemaRef, MISSING_ANNOTATION,
};
use crate::text::{contains_text, same_text, same_texts, texts};

verus! {

/// The version of a table.
pub type Version = u64;

/// The format of a table's data files.
#[derive(Debug, Eq)]
pub struct Format {
    pub provider: String,
    /// Options by key. Of two entries with one key the later one counts.
    pub options: Vec<(String, String)>,
}

/// The action that describes a table.
#[derive(Debug, Eq)]
pub struct Metadata {
    pub id: String,
    pub name: Option<String>,
    pub description: Option<String>,
    pub format: Format,
    pub schema_string: String,
    pub partition_columns: Vec<String>,
    pub created_time: Option<i64>,
    /// Table properties by key. Of two entries with one key the later one counts.
    pub configuration: Vec<(String, String)>,
}

/// The action that says what reading and writing a table takes.
#[derive(Debug, PartialEq, Eq)]
pub struct Protocol {
    pub min_reader_version: i32,
    pub min_writer_version: i32,
    pub reader_features: Option<Vec<String>>,
    pub writer_features: Option<Vec<String>>,
}

/// A table's metadata and protocol at one version, with the schemas that follow from them.
#[derive(Debug, PartialEq, Eq)]
pub struct TableConfiguration {
    pub metadata: Metadata,
    pub protocol: Protocol,
    pub table_root: Url,
    pub version: Version,
    pub logical_schema: SchemaRef,
    pub physical_schema: SchemaRef,
    pub column_mapping_mode: ColumnMappingMode,
}

/// The property that switches column mapping on.
pub const COLUMN_MAPPING_MODE_KEY: &'static str = "delta.columnMapping.mode";

/// The reader feature that column mapping takes.
pub const COLUMN_MAPPING_FEATURE: &'static str = "columnMapping";

/// The property that switches row tracking on.
pub const ENABLE_ROW_TRACKING_KEY: &'static str = "delta.enableRowTracking";

// ---------------------------------------------------------------------------
// Models
// ---------------------------------------------------------------------------
/// The content of an optional text.
pub open spec fn text_option(s: Option<String>) -> Option<Seq<char>> {
    match s {
        Some(s) => Some(s@),
        None => None,
    }
}

/// The content of an optional list of texts.
pub open spec fn texts_option(v: Option<Vec<String>>) -> Option<Seq<Seq<char>>> {
    match v {
        Some(v) => Some(texts(v@)),
        None => None,
    }
}

/// The content of a [`Format`].
pub struct FormatModel {
    pub provider: Seq<char>,
    pub options: Map<Seq<char>, Seq<char>>,
}

/// The content of a [`Metadata`].
pub struct MetadataModel {
    pub id: Seq<char>,
    pub name: Option<Seq<char>>,
    pub description: Option<Seq<char>>,
    pub format: FormatModel,
    pub schema_string: Seq<char>,
    pub partition_columns: Seq<Seq<char>>,
    pub created_time: Option<i64>,
    pub configuration: Map<Seq<char>, Seq<char>>,
}

/// The content of a [`Protocol`].
pub struct ProtocolModel {
    pub min_reader_version: i32,
    pub min_writer_version: i32,
    pub reader_features: Option<Seq<Seq<char>>>,
    pub writer_features: Option<Seq<Seq<char>>>,
}

/// The content of a [`TableConfiguration`].
pub struct TableConfigurationModel {
    pub metadata: MetadataModel,
    pub protocol: ProtocolModel,
    pub table_root: Url,
    pub version: Version,
    pub logical_schema: Seq<FieldModel>,
    pub physical_schema: Seq<FieldModel>,
    pub column_mapping_mode: ColumnMappingMode,
}

impl View for Format {
    type V = FormatModel;

    open spec fn view(&self) -> FormatModel {
        FormatModel { provider: self.provider@, options: by_key(self.options@) }
    }
}

impl View for Metadata {
    type V = MetadataModel;

    open spec fn view(&self) -> MetadataModel {
        MetadataModel {
            id: self.id@,
            name: text_option(self.name),
            description: text_option(self.description),
            format: self.format@,
            schema_string: self.schema_string@,
            partition_columns: texts(self.partition_columns@),
            created_time: self.created_time,
            configuration: by_key(self.configuration@),
        }
    }
}

impl View for Protocol {
    type V = ProtocolModel;

    open spec fn view(&self) -> ProtocolModel {
        ProtocolModel {
            min_reader_version: self.min_reader_version,
            min_writer_version: self.min_writer_version,
            reader_features: texts_option(self.reader_features),
            writer_features: texts_option(self.writer_features),
        }
    }
}

impl View for TableConfiguration {
    type V = TableConfigurationModel;

    open spec fn view(&self) -> TableConfigurationModel {
        TableConfigurationModel {
            metadata: self.metadata@,
            protocol: self.protocol@,
            table_root: self.table_root,
            version: self.version,
            logical_schema: self.logical_schema@,
            physical_schema: self.physical_schema@,
            column_mapping_mode: self.column_mapping_mode,
        }
    }
}

/// How the columns of a table are mapped: as its properties say, where its protocol allows for
/// column mapping, which is at reader version 2, or with the reader feature.
pub open spec fn mapping_mode(
    protocol: ProtocolModel,
    properties: Map<Seq<char>, Seq<char>>,
) -> ColumnMappingMode {
    let allowed = protocol.min_reader_version == 2 || (match protocol.reader_features {
        Some(features) => features.contains(COLUMN_MAPPING_FEATURE@),
        None => false,
    });
    match lookup(properties, COLUMN_MAPPING_MODE_KEY@) {
        Some(mode) => if allowed && mode == "name"@ {
            ColumnMappingMode::Name
        } else if allowed && mode == "id"@ {
            ColumnMappingMode::Id
        } else {
            ColumnMappingMode::NoMapping
        },
        None => ColumnMappingMode::NoMapping,
    }
}

/// Whether row tracking is switched on, where the properties say so.
pub open spec fn row_tracking(properties: Map<Seq<char>, Seq<char>>) -> Option<bool> {
    match lookup(properties, ENABLE_ROW_TRACKING_KEY@) {
        Some(value) => if value == "true"@ {
            Some(true)
        } else if value == "false"@ {
            Some(false)
        } else {
            None
        },
        None => None,
    }
}

/// The configuration that follows from a table's metadata and protocol, with the given logical
/// schema. There is none where a field lacks the annotation that column mapping takes.
pub open spec fn configuration(
    metadata: MetadataModel,
    protocol: ProtocolModel,
    table_root: Url,
    version: Version,
    logical_schema: Seq<FieldModel>,
) -> Option<TableConfigurationModel> {
    let column_mapping_mode = mapping_mode(protocol, metadata.configuration);
    match physical_fields(logical_schema, column_mapping_mode) {
        Some(physical_schema) => Some(
            TableConfigurationModel {
                metadata,
                protocol,
                table_root,
                version,
                logical_schema,
                physical_schema,
                column_mapping_mode,
            },
        ),
        None => None,
    }
}

// ---------------------------------------------------------------------------
// Copies
// ---------------------------------------------------------------------------
fn clone_texts(v: &Vec<String>) -> (r: Vec<String>)
    ensures
        texts(r@) == texts(v@),
{
    let mut r: Vec<String> = Vec::new();
    let mut i: usize = 0;
    while i < v.len()
        invariant
            i <= v.len(),
            r.len() == i,
            forall|j: int| 0 <= j < i ==> (#[trigger] r@[j])@ == v@[j]@,
        decreases v.len() - i,
    {
        r.push(v[i].clone());
        i = i + 1;
    }
    assert(texts(r@) =~= texts(v@));
    r
}

fn clone_text_option(s: &Option<String>) -> (r: Option<String>)
    ensures
        text_option(r) == text_option(*s),
{
    match s {
        Some(s) => Some(s.clone()),
        None => None,
    }
}

fn clone_texts_option(v: &Option<Vec<String>>) -> (r: Option<Vec<String>>)
    ensures
        texts_option(r) == texts_option(*v),
{
    match v {
        Some(v) => Some(clone_texts(v)),
        None => None,
    }
}

impl Clone for Format {
    fn clone(&self) -> (r: Self)
        ensures
            r@ == self@,
    {
        Format { provider: self.provider.clone(), options: clone_entries(&self.options) }
    }
}

impl Clone for Metadata {
    fn clone(&self) -> (r: Self)
        ensures
            r@ == self@,
    {
        Metadata {
            id: self.id.clone(),
            name: clone_text_option(&self.name),
            description: clone_text_option(&self.description),
            format: self.format.clone(),
            schema_string: self.schema_string.clone(),
            partition_columns: clone_texts(&self.partition_columns),
            created_time: self.created_time,
            configuration: clone_entries(&self.configuration),
        }
    }
}

impl Clone for Protocol {
    fn clone(&self) -> (r: Self)
        ensures
            r@ == self@,
    {
        Protocol {
            min_reader_version: self.min_reader_version,
            min_writer_version: self.min_writer_version,
            reader_features: clone_texts_option(&self.reader_features),
            writer_features: clone_texts_option(&self.writer_features),
        }
    }
}

// ---------------------------------------------------------------------------
// Comparisons
// ---------------------------------------------------------------------------
fn same_text_option(a: &Option<String>, b: &Option<String>) -> (r: bool)
    ensures
        r == (text_option(*a) == text_option(*b)),
{
    match (a, b) {
        (Some(a), Some(b)) => same_text(a.as_str(), b.as_str()),
        (None, None) => true,
        _ => false,
    }
}

/// Formats are equal where they have the same content: the order of options does not matter.
impl PartialEq for Format {
    fn eq(&self, other: &Self) -> (r: bool) {
        same_text(self.provider.as_str(), other.provider.as_str()) && same_entries(
            &self.options,
            &other.options,
        )
    }
}

impl vstd::std_specs::cmp::PartialEqSpecImpl for Format {
    open spec fn obeys_eq_spec() -> bool {
        true
    }

    open spec fn eq_spec(&self, other: &Self) -> bool {
        self@ == other@
    }
}

/// Descriptions are equal where they have the same content: the order of properties does not
/// matter.
impl PartialEq for Metadata {
    fn eq(&self, other: &Self) -> (r: bool) {
        same_text(self.id.as_str(), other.id.as_str())
            && same_text_option(&self.name, &other.name)
            && same_text_option(&self.description, &other.description)
            && self.format == other.format
            && same_text(self.schema_string.as_str(), other.schema_string.as_str())
            && same_texts(&self.partition_columns, &other.partition_columns)
            && self.created_time == other.created_time
            && same_entries(&self.configuration, &other.configuration)
    }
}

impl vstd::std_specs::cmp::PartialEqSpecImpl for Metadata {
    open spec fn obeys_eq_spec() -> bool {
        true
    }

    open spec fn eq_spec(&self, other: &Self) -> bool {
        self@ == other@
    }
}

// ---------------------------------------------------------------------------
// Configurations
// ---------------------------------------------------------------------------
impl Metadata {
    /// The property under `key`.
    pub fn property(&self, key: &str) -> (r: Option<&String>)
        ensures
            match r {
                Some(value) => lookup(self@.configuration, key@) == Some(value@),
                None => lookup(self@.configuration, key@) is None,
            },
    {
        find_entry(&self.configuration, key)
    }

    /// Whether row tracking is switched on, where the properties say so.
    pub fn enable_row_tracking(&self) -> (r: Option<bool>)
        ensures
            r == row_tracking(self@.configuration),
    {
        match self.property(ENABLE_ROW_TRACKING_KEY) {
            Some(value) => if same_text(value.as_str(), "true") {
                Some(true)
            } else if same_text(value.as_str(), "false") {
                Some(false)
            } else {
                None
            },
            None => None,
        }
    }
}

fn column_mapping_mode(protocol: &Protocol, metadata: &Metadata) -> (r: ColumnMappingMode)
    ensures
        r == mapping_mode(protocol@, metadata@.configuration),
{
    let allowed: bool = protocol.min_reader_version == 2 || match &protocol.reader_features {
        Some(features) => contains_text(features.as_slice(), COLUMN_MAPPING_FEATURE),
        None => false,
    };
    match metadata.property(COLUMN_MAPPING_MODE_KEY) {
        Some(mode) => if allowed && same_text(mode.as_str(), "name") {
            ColumnMappingMode::Name
        } else if allowed && same_text(mode.as_str(), "id") {
            ColumnMappingMode::Id
        } else {
            ColumnMappingMode::NoMapping
        },
        None => ColumnMappingMode::NoMapping,
    }
}

impl TableConfiguration {
    /// The configuration of a table with the given metadata and protocol, read with
    /// `logical_schema`.
    pub fn try_new_inner(
        metadata: Metadata,
        protocol: Protocol,
        table_root: Url,
        version: Version,
        logical_schema: SchemaRef,
    ) -> (r: DeltaResult<Self>)
        ensures
            match r {
                Ok(c) => configuration(
                    metadata@,
                    protocol@,
                    table_root,
                    version,
                    logical_schema@,
                ) == Some(c@),
                Err(e) => configuration(
                    metadata@,
                    protocol@,
                    table_root,
                    version,
                    logical_schema@,
                ) is None && e@ == ErrorModel::Schema(MISSING_ANNOTATION@),
            },
    {
        let mode: ColumnMappingMode = column_mapping_mode(&protocol, &metadata);
        match logical_schema.make_physical(mode) {
            Ok(physical) => Ok(
                TableConfiguration {
                    metadata,
                    protocol,
                    table_root,
                    version,
                    logical_schema,
                    physical_schema: Arc::new(physical),
                    column_mapping_mode: mode,
                },
            ),
            Err(e) => Err(e),
        }
    }

    /// The logical names of the columns by which the table is partitioned.
    pub fn partition_columns(&self) -> (r: &Vec<String>)
        ensures
            texts(r@) == self@.metadata.partition_columns,
    {
        &self.metadata.partition_columns
    }
}

/// Columns are mapped by name or by id where the table's properties say so and its protocol allows for
/// it: at reader version 2, or with the reader feature. Otherwise they are not mapped.
pub proof fn law_protocol_allows_for_column_mapping(
    protocol: ProtocolModel,
    properties: Map<Seq<char>, Seq<char>>,
)
    ensures
        ({
            let allowed = protocol.min_reader_version == 2 || (
            protocol.reader_features matches Some(features) && features.contains("columnMapping"@));
            let asked = lookup(properties, "delta.columnMapping.mode"@);
            let mode = mapping_mode(protocol, properties);
            &&& mode == ColumnMappingMode::Name <==> allowed && asked == Some("name"@)
            &&& mode == ColumnMappingMode::Id <==> allowed && asked == Some("id"@)
            &&& mode == ColumnMappingMode::NoMapping <==> !allowed || (asked != Some("name"@)
                && asked != Some("id"@))
        }),
{
    reveal_strlit("name");
    reveal_strlit("id");
    assert("name"@.len() == 4 && "id"@.len() == 2);
}

/// Row tracking is on or off where the table's properties say so, in these words.
pub proof fn law_row_tracking_is_switched_by_property(properties: Map<Seq<char>, Seq<char>>)
    ensures
        row_tracking(properties) == Some(true) <==> lookup(properties, "delta.enableRowTracking"@)
            == Some("true"@),
        row_tracking(properties) == Some(false) <==> lookup(properties, "delta.enableRowTracking"@)
            == Some("false"@),
{
    reveal_strlit("true");
    reveal_strlit("false");
    assert("true"@.len() == 4 && "false"@.len() == 5);
}

/// A configuration holds what it is made of, and of each field of its logical schema the counterpart
/// in files, in the same order. There is none exactly where a field has no counterpart.
pub proof fn law_configuration_holds_what_is_given(
    metadata: MetadataModel,
    protocol: ProtocolModel,
    table_root: Url,
    version: Version,
    logical_schema: Seq<FieldModel>,
)
    ensures
        match configuration(metadata, protocol, table_root, version, logical_schema) {
            Some(c) => {
                &&& c.metadata == metadata
                &&& c.protocol == protocol
                &&& c.table_root == table_root
                &&& c.version == version
                &&& c.logical_schema == logical_schema
                &&& c.column_mapping_mode == mapping_mode(protocol, metadata.configuration)
                &&& c.physical_schema.len() == logical_schema.len()
                &&& forall|i: int|
                    0 <= i < logical_schema.len() ==> physical_field(
                        logical_schema[i],
                        c.column_mapping_mode,
                    ) == Some(#[trigger] c.physical_schema[i])
            },
            None => exists|i: int|
                0 <= i < logical_schema.len() && physical_field(
                    #[trigger] logical_schema[i],
                    mapping_mode(protocol, metadata.configuration),
                ) is None,
        },
{
    lemma_physical_fields(logical_schema, mapping_mode(protocol, metadata.configuration));
}

/// Descriptions and protocols with the same content are the same in every respect.
pub proof fn law_content_of_a_description(a: Metadata, b: Metadata, p: Protocol, q: Protocol)
    ensures
        a@ == b@ ==> {
            &&& a.id@ == b.id@
            &&& text_option(a.name) == text_option(b.name)
            &&& text_option(a.description) == text_option(b.description)
            &&& a.format.provider@ == b.format.provider@
            &&& by_key(a.format.options@) == by_key(b.format.options@)
            &&& a.schema_string@ == b.schema_string@
            &&& texts(a.partition_columns@) == texts(b.partition_columns@)
            &&& a.created_time == b.created_time
            &&& by_key(a.configuration@) == by_key(b.configuration@)
        },
        p@ == q@ ==> {
            &&& p.min_reader_version == q.min_reader_version
            &&& p.min_writer_version == q.min_writer_version
            &&& texts_option(p.reader_features) == texts_option(q.reader_features)
            &&& texts_option(p.writer_features) == texts_option(q.writer_features)
        },
{
}

} // verus!
