//! CREATE TABLE.

use std::sync::Arc;
use vstd::prelude::*;

use crate::catalog::{ColumnDesc, ColumnId, DataType, OrderType};
use crate::common::error::{fails, ErrorCode, ErrorView};
use crate::frontend::column_catalog::ColumnCatalog;

verus! {

/// The name of the column that holds row ids.
pub const ROWID_NAME: &'static str = "_row_id";

/// A column of a CREATE TABLE statement, with what the binding of its type gave.
#[derive(Debug)]
pub struct ColumnDef {
    pub name: String,
    pub data_type: Result<DataType, ErrorCode>,
}

/// A column without columns within it.
pub open spec fn is_simple(desc: ColumnDesc, data_type: DataType, id: int, name: Seq<char>) -> bool {
    &&& desc.data_type == data_type
    &&& desc.column_id == id as ColumnId
    &&& desc.name@ == name
    &&& desc.field_descs@.len() == 0
    &&& desc.struct_type_name@.len() == 0
}

/// The columns of a table: the row id, then the columns of the statement.
pub open spec fn is_table_columns(descs: Seq<ColumnDesc>, columns: Seq<ColumnDef>) -> bool {
    &&& descs.len() == columns.len() + 1
    &&& is_simple(descs[0], DataType::Int64, 0, ROWID_NAME@)
    &&& forall|i: int|
        0 <= i < columns.len() ==> is_simple(
            #[trigger] descs[i + 1],
            columns[i].data_type->Ok_0,
            i + 1,
            columns[i].name@,
        )
}

/// The first error in the types of the first `n` columns.
pub open spec fn type_error(columns: Seq<ColumnDef>, n: int) -> Option<ErrorView>
    decreases n,
{
    if n <= 0 {
        None
    } else {
        match type_error(columns, n - 1) {
            Some(e) => Some(e),
            None => match columns[n - 1].data_type {
                Ok(_) => None,
                Err(e) => Some(e@),
            },
        }
    }
}

proof fn lemma_type_error_stays(columns: Seq<ColumnDef>, i: int, n: int)
    requires
        0 <= i <= n,
        type_error(columns, i) is Some,
    ensures
        type_error(columns, n) == type_error(columns, i),
    decreases n,
{
    if i < n {
        lemma_type_error_stays(columns, i, n - 1);
    }
}

/// A column without columns within it.
fn simple_column(data_type: DataType, column_id: ColumnId, name: String) -> (r: ColumnDesc)
    ensures
        r.data_type == data_type,
        r.column_id == column_id,
        r.name == name,
        r.field_descs@.len() == 0,
        r.struct_type_name@.len() == 0,
{
    ColumnDesc {
        data_type,
        column_id,
        name,
        field_descs: Arc::new(Vec::new()),
        struct_type_name: String::new(),
    }
}

/// The columns of the table that a CREATE TABLE statement makes.
pub fn table_columns(columns: &Vec<ColumnDef>) -> (r: Result<Vec<ColumnDesc>, ErrorCode>)
    ensures
        match type_error(columns@, columns@.len() as int) {
            Some(e) => fails(r, e),
            None => r matches Ok(descs) && is_table_columns(descs@, columns@),
        },
{
    let mut descs: Vec<ColumnDesc> = Vec::new();
    descs.push(simple_column(DataType::Int64, 0, ROWID_NAME.to_owned()));
    let n: usize = columns.len();
    let mut i: usize = 0;
    while i < n
        invariant
            i <= n,
            n == columns@.len(),
            type_error(columns@, i as int) is None,
            descs@.len() == i + 1,
            is_simple(descs@[0], DataType::Int64, 0, ROWID_NAME@),
            forall|j: int|
                0 <= j < i ==> is_simple(
                    #[trigger] descs@[j + 1],
                    columns@[j].data_type->Ok_0,
                    j + 1,
                    columns@[j].name@,
                ),
        decreases n - i,
    {
        match &columns[i].data_type {
            Ok(data_type) => {
                descs.push(simple_column(data_type.copy(), (i + 1) as ColumnId, columns[i].name.clone()));
            },
            Err(e) => {
                proof {
                    assert(type_error(columns@, i + 1) is Some);
                    lemma_type_error_stays(columns@, i + 1, n as int);
                }
                return Err(e.copy());
            },
        }
        i = i + 1;
    }
    Ok(descs)
}

/// Where a table is created, and the number that stands for one that it does not have yet.
#[derive(Clone, Copy, Debug, PartialEq, Eq, Structural)]
pub struct TablePlace {
    pub placeholder_id: u32,
    pub database_id: u32,
    pub schema_id: u32,
}

/// The source of a table in the catalog.
#[derive(Debug)]
pub struct SourceRecord {
    pub id: u32,
    pub schema_id: u32,
    pub database_id: u32,
    pub name: String,
    pub columns: Vec<ColumnCatalog>,
}

/// A table in the catalog.
#[derive(Debug)]
pub struct TableRecord {
    pub id: u32,
    pub schema_id: u32,
    pub database_id: u32,
    pub name: String,
    pub columns: Vec<ColumnCatalog>,
    pub pk_column_ids: Vec<ColumnId>,
    pub pk_orders: Vec<OrderType>,
    pub dependent_relations: Vec<u32>,
    pub associated_source_id: Option<u32>,
}

/// The descriptions of columns.
pub open spec fn descs_of(columns: Seq<ColumnCatalog>) -> Seq<ColumnDesc> {
    Seq::new(columns.len(), |i: int| columns[i].column_desc)
}

/// Columns without columns within them, of which only the first is hidden.
pub open spec fn first_hidden(columns: Seq<ColumnCatalog>) -> bool {
    forall|i: int|
        0 <= i < columns.len() ==> {
            &&& (#[trigger] columns[i]).is_hidden == (i == 0)
            &&& columns[i].catalogs@.len() == 0
            &&& columns[i].struct_type_name@.len() == 0
        }
}

/// The source that a CREATE TABLE statement makes.
pub open spec fn is_table_source(r: SourceRecord, place: TablePlace, name: Seq<char>, columns: Seq<ColumnDef>) -> bool {
    &&& r.id == place.placeholder_id
    &&& r.schema_id == place.schema_id
    &&& r.database_id == place.database_id
    &&& r.name@ == name
    &&& is_table_columns(descs_of(r.columns@), columns)
    &&& first_hidden(r.columns@)
}

/// The table that a CREATE TABLE statement makes: its key is the row id.
pub open spec fn is_table(r: TableRecord, place: TablePlace, name: Seq<char>, columns: Seq<ColumnDef>) -> bool {
    &&& r.id == place.placeholder_id
    &&& r.schema_id == place.schema_id
    &&& r.database_id == place.database_id
    &&& r.name@ == name
    &&& is_table_columns(descs_of(r.columns@), columns)
    &&& first_hidden(r.columns@)
    &&& r.pk_column_ids@ == seq![0 as ColumnId]
    &&& r.pk_orders@ == seq![OrderType::Ascending]
    &&& r.dependent_relations@.len() == 0
    &&& r.associated_source_id is None
}

/// Columns for the catalog, with the first one hidden.
fn hide_first(descs: &Vec<ColumnDesc>) -> (r: Vec<ColumnCatalog>)
    ensures
        descs_of(r@) == descs@,
        first_hidden(r@),
{
    let mut r: Vec<ColumnCatalog> = Vec::new();
    let mut i: usize = 0;
    while i < descs.len()
        invariant
            i <= descs@.len(),
            descs_of(r@) == descs@.subrange(0, i as int),
            first_hidden(r@),
        decreases descs@.len() - i,
    {
        let ghost before = r@;
        assert(descs_of(before).len() == before.len());
        r.push(
            ColumnCatalog {
                column_desc: descs[i].copy(),
                is_hidden: i == 0,
                catalogs: Vec::new(),
                struct_type_name: String::new(),
            },
        );
        i = i + 1;
        proof {
            assert(descs_of(r@) =~= descs@.subrange(0, i as int));
        }
    }
    proof {
        assert(descs@.subrange(0, i as int) =~= descs@);
    }
    r
}

/// The source and the table that a CREATE TABLE statement adds to the catalog.
pub fn handle_create_table(place: TablePlace, table_name: &str, columns: &Vec<ColumnDef>) -> (r: Result<
    (SourceRecord, TableRecord),
    ErrorCode,
>)
    ensures
        match type_error(columns@, columns@.len() as int) {
            Some(e) => fails(r, e),
            None => r matches Ok(records) && is_table_source(records.0, place, table_name@, columns@) && is_table(
                records.1,
                place,
                table_name@,
                columns@,
            ),
        },
{
    let descs = match table_columns(columns) {
        Ok(descs) => descs,
        Err(e) => {
            return Err(e);
        },
    };
    let source = SourceRecord {
        id: place.placeholder_id,
        schema_id: place.schema_id,
        database_id: place.database_id,
        name: table_name.to_owned(),
        columns: hide_first(&descs),
    };
    let mut pk_column_ids: Vec<ColumnId> = Vec::new();
    // RowId column as key
    pk_column_ids.push(0);
    let mut pk_orders: Vec<OrderType> = Vec::new();
    pk_orders.push(OrderType::Ascending);
    let table = TableRecord {
        id: place.placeholder_id,
        schema_id: place.schema_id,
        database_id: place.database_id,
        name: table_name.to_owned(),
        columns: hide_first(&descs),
        pk_column_ids,
        pk_orders,
        dependent_relations: Vec::new(),
        associated_source_id: None,
    };
    Ok((source, table))
}

proof fn lemma_type_error(columns: Seq<ColumnDef>, n: int)
    requires
        0 <= n <= columns.len(),
    ensures
        match type_error(columns, n) {
            None => forall|i: int| 0 <= i < n ==> (#[trigger] columns[i]).data_type is Ok,
            Some(e) => exists|i: int|
                0 <= i < n && (#[trigger] columns[i]).data_type is Err && columns[i].data_type->Err_0@ == e && forall|j: int|
                    0 <= j < i ==> (#[trigger] columns[j]).data_type is Ok,
        },
    decreases n,
{
    if n > 0 {
        lemma_type_error(columns, n - 1);
        if type_error(columns, n - 1) is None && columns[n - 1].data_type is Err {
            assert(columns[n - 1].data_type->Err_0@ == type_error(columns, n)->0);
        }
    }
}

/// A table is created exactly if all of its columns have types; otherwise the error of the first that has
/// none is given.
pub proof fn law_first_type_error_counts(columns: Seq<ColumnDef>)
    ensures
        match type_error(columns, columns.len() as int) {
            None => forall|i: int| 0 <= i < columns.len() ==> (#[trigger] columns[i]).data_type is Ok,
            Some(e) => exists|i: int|
                0 <= i < columns.len() && (#[trigger] columns[i]).data_type is Err && columns[i].data_type->Err_0@ == e
                    && forall|j: int| 0 <= j < i ==> (#[trigger] columns[j]).data_type is Ok,
        },
{
    lemma_type_error(columns, columns.len() as int);
}

/// A new table starts with a hidden column of row ids, which is its key; the columns of the statement
/// follow in their order, numbered from one on, and none of them is hidden. Its source has the same
/// columns.
pub proof fn law_row_id_comes_first(
    source: SourceRecord,
    table: TableRecord,
    place: TablePlace,
    name: Seq<char>,
    columns: Seq<ColumnDef>,
    i: int,
)
    requires
        is_table_source(source, place, name, columns),
        is_table(table, place, name, columns),
        0 <= i < columns.len() < 0x7fff_ffff,
    ensures
        table.columns@.len() == columns.len() + 1,
        source.columns@.len() == columns.len() + 1,
        table.columns@[0].is_hidden && source.columns@[0].is_hidden,
        table.columns@[0].column_desc.column_id == 0,
        table.columns@[0].column_desc.data_type == DataType::Int64,
        table.columns@[0].column_desc.name@ == "_row_id"@,
        table.pk_column_ids@.len() == 1 && table.pk_column_ids@[0] == 0,
        table.pk_orders@.len() == 1 && table.pk_orders@[0] == OrderType::Ascending,
        !table.columns@[i + 1].is_hidden && !source.columns@[i + 1].is_hidden,
        table.columns@[i + 1].column_desc.column_id == i + 1,
        table.columns@[i + 1].column_desc.name@ == columns[i].name@,
        columns[i].data_type matches Ok(t) ==> table.columns@[i + 1].column_desc.data_type == t
            && source.columns@[i + 1].column_desc.data_type == t,
        table.id == source.id && table.schema_id == place.schema_id && table.database_id == place.database_id,
        source.schema_id == place.schema_id && source.database_id == place.database_id,
{
    let (t, s) = (descs_of(table.columns@), descs_of(source.columns@));
    assert(t[i + 1] == table.columns@[i + 1].column_desc);
    assert(s[i + 1] == source.columns@[i + 1].column_desc);
    assert(t[0] == table.columns@[0].column_desc);
    assert(is_simple(t[i + 1], columns[i].data_type->Ok_0, i + 1, columns[i].name@));
    assert(is_simple(s[i + 1], columns[i].data_type->Ok_0, i + 1, columns[i].name@));
}

/// A simple column has its type, its number and its name, and nothing within it.
pub proof fn law_simple_columns_are_empty(desc: ColumnDesc, data_type: DataType, id: int, name: Seq<char>)
    requires
        is_simple(desc, data_type, id, name),
        0 <= id <= i32::MAX,
    ensures
        desc.data_type == data_type,
        desc.column_id == id,
        desc.name@ == name,
        desc.field_descs@.len() == 0,
        desc.struct_type_name@.len() == 0,
{
}

} // verus!
