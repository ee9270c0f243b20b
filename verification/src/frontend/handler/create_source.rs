//! CREATE SOURCE.

use vstd::prelude::*;

use crate::catalog::ColumnDesc;
use crate::common::error::{fails, ErrorCode};
use crate::common::string_map::StringMap;

verus! {

/// A table in the catalog.
#[derive(Debug)]
pub struct SourceTable {
    pub table_name: String,
    pub column_descs: Vec<ColumnDesc>,
    pub row_format: String,
    pub row_schema_location: String,
    pub is_source: bool,
    pub properties: StringMap<String>,
    pub append_only: bool,
}

/// The table that a CREATE SOURCE statement with a Protobuf schema makes, given
/// the columns that the schema describes.
pub fn create_source_table(
    source_name: String,
    row_schema_location: &str,
    columns: Result<Vec<ColumnDesc>, ErrorCode>,
    properties: StringMap<String>,
) -> (r: Result<SourceTable, ErrorCode>)
    ensures
        match columns {
            Err(e) => fails(r, e@),
            Ok(descs) => {
                &&& r matches Ok(table)
                &&& table.table_name == source_name
                &&& table.column_descs == descs
                &&& table.row_format@ == row_schema_location@
                &&& table.row_schema_location@ == row_schema_location@
                &&& table.is_source
                &&& table.properties == properties
                &&& table.append_only
            },
        },
{
    match columns {
        Ok(column_descs) => Ok(
            SourceTable {
                table_name: source_name,
                column_descs,
                row_format: row_schema_location.to_owned(),
                row_schema_location: row_schema_location.to_owned(),
                is_source: true,
                properties,
                append_only: true,
            },
        ),
        Err(e) => Err(e),
    }
}

} // verus!
