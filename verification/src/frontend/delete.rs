//! Binding DELETE statements.

use vstd::prelude::*;

use crate::catalog::ColumnDesc;
use crate::common::error::{fails, ErrorCode, ErrorView};
use crate::frontend::binder::Bound;
use crate::frontend::expr::ExprImpl;

verus! {

/// A source that rows can be written to.
#[derive(Debug)]
pub struct BoundTableSource {
    pub name: String,
    pub source_id: u32,
    pub columns: Vec<ColumnDesc>,
}

/// A table that rows can be read from.
#[derive(Debug)]
pub struct BoundBaseTable {
    pub name: String,
    pub table_id: u32,
    pub columns: Vec<ColumnDesc>,
}

/// A DELETE statement whose names are bound.
#[derive(Debug)]
pub struct BoundDelete {
    /// Used for injecting deletion chunks to the source.
    pub table_source: BoundTableSource,
    /// Used for scanning the records to delete with the `selection`.
    pub table: BoundBaseTable,
    pub selection: Option<ExprImpl>,
}

/// The first error of a DELETE statement.
pub open spec fn delete_error(
    table_source: Result<BoundTableSource, ErrorCode>,
    table: Result<BoundBaseTable, ErrorCode>,
    selection: Option<Bound>,
) -> Option<ErrorView> {
    match (table_source, table, selection) {
        (Err(e), _, _) => Some(e@),
        (Ok(_), Err(e), _) => Some(e@),
        (Ok(_), Ok(_), Some(Err(e))) => Some(e@),
        _ => None,
    }
}

/// Binds a DELETE statement, given what the binding of its parts gave.
pub fn bind_delete(
    table_source: Result<BoundTableSource, ErrorCode>,
    table: Result<BoundBaseTable, ErrorCode>,
    selection: Option<Bound>,
) -> (r: Result<BoundDelete, ErrorCode>)
    ensures
        match delete_error(table_source, table, selection) {
            Some(e) => fails(r, e),
            None => {
                &&& r matches Ok(delete)
                &&& delete.table_source == table_source->Ok_0
                &&& delete.table == table->Ok_0
                &&& delete.selection == match selection {
                    Some(Ok(e)) => Some(e),
                    _ => None,
                }
            },
        },
{
    let bound_source = match table_source {
        Ok(source) => source,
        Err(e) => {
            return Err(e);
        },
    };
    let bound_table = match table {
        Ok(t) => t,
        Err(e) => {
            return Err(e);
        },
    };
    let bound_selection = match selection {
        Some(Ok(e)) => Some(e),
        Some(Err(e)) => {
            return Err(e);
        },
        None => None,
    };
    Ok(BoundDelete { table_source: bound_source, table: bound_table, selection: bound_selection })
}

/// A DELETE statement is bound exactly if its source, its table and its condition are; otherwise the first
/// of them that is not gives the error.
pub proof fn law_first_part_decides_error(
    table_source: Result<BoundTableSource, ErrorCode>,
    table: Result<BoundBaseTable, ErrorCode>,
    selection: Option<Bound>,
)
    ensures
        table_source matches Err(e) ==> delete_error(table_source, table, selection) == Some(e@),
        table_source is Ok ==> (table matches Err(e) ==> delete_error(table_source, table, selection) == Some(e@)),
        table_source is Ok && table is Ok ==> (selection matches Some(Err(e)) ==> delete_error(
            table_source,
            table,
            selection,
        ) == Some(e@)),
        table_source is Ok && table is Ok && !(selection matches Some(Err(_))) ==> delete_error(
            table_source,
            table,
            selection,
        ) is None,
{
}

} // verus!
