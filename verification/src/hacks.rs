//! Snapshots of a table that is read with another schema than its own.
use url::Url;
use vstd::prelude::*;

use crate::error::{DeltaResult, ErrorModel};
use crate::schema::{FieldModel, SchemaRef, MISSING_ANNOTATION};
use crate::snapshot::Snapshot;
use crate::table_configuration::{
    configuration, MetadataModel, ProtocolModel, TableConfiguration, Version,
};

verus! {

/// The configuration of the same table at the same version, read with another logical schema.
pub fn new_kernel_table_configuration(input: &TableConfiguration, logical: &SchemaRef) -> (r:
    DeltaResult<TableConfiguration>)
    ensures
        match r {
            Ok(c) => configuration(
                input@.metadata,
                input@.protocol,
                input@.table_root,
                input@.version,
                logical@,
            ) == Some(c@),
            Err(e) => configuration(
                input@.metadata,
                input@.protocol,
                input@.table_root,
                input@.version,
                logical@,
            ) is None && e@ == ErrorModel::Schema(MISSING_ANNOTATION@),
        },
{
    let metadata = input.metadata.clone();
    let protocol = input.protocol.clone();
    let table_root = input.table_root.clone();
    let version = input.version;
    TableConfiguration::try_new_inner(metadata, protocol, table_root, version, logical.clone())
}

/// The same snapshot, with another configuration. It shares the span and the checksum: what one of
/// the two snapshots loads, the other has.
pub fn new_kernel_snapshot<C>(input: &Snapshot<C>, table_configuration: TableConfiguration) -> (r:
    Snapshot<C>)
    ensures
        r.span == input.span,
        r.log_segment@ == input.log_segment@,
        r.table_configuration == table_configuration,
        r.crc == input.crc,
{
    Snapshot {
        span: input.span.clone(),
        log_segment: input.log_segment.clone(),
        table_configuration,
        crc: input.crc.clone(),
    }
}

/// Reading a table with its own schema changes nothing about its configuration.
pub proof fn law_own_schema_changes_nothing(
    metadata: MetadataModel,
    protocol: ProtocolModel,
    table_root: Url,
    version: Version,
    logical_schema: Seq<FieldModel>,
)
    ensures
        configuration(metadata, protocol, table_root, version, logical_schema) matches Some(c)
            ==> configuration(
            c.metadata,
            c.protocol,
            c.table_root,
            c.version,
            c.logical_schema,
        ) == Some(c),
{
}

} // verus!
