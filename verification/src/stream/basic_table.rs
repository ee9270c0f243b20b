//! A small table to try executors on.

use vstd::prelude::*;

use crate::catalog::{is_unnamed, ColumnDesc, DataType, OrderType};
use crate::common::scalar::{Datum, ScalarImpl};
use crate::storage::cell_based_table::CellBasedTable;

verus! {

/// A row that holds its number in each of three columns.
pub open spec fn basic_row(idx: int) -> Seq<Datum> {
    let d: Datum = Some(ScalarImpl::Int32(idx as i32));
    seq![d, d, d]
}

/// A table of three numbers per row, ordered by the first column and, in descending
/// order, by the second; and the rows to fill it with.
pub fn gen_basic_table(keyspace: Vec<u8>, row_count: usize) -> (r: (CellBasedTable, Vec<Vec<Datum>>))
    ensures
        r.0.wf(),
        r.0.keyspace == keyspace,
        r.0.column_descs@.len() == 3,
        forall|i: int| 0 <= i < 3 ==> is_unnamed(#[trigger] r.0.column_descs@[i], i as i32, DataType::Int32),
        r.0.pk_order matches Some(order) && order@ == seq![OrderType::Ascending, OrderType::Descending],
        r.1@.len() == row_count,
        forall|i: int| 0 <= i < row_count ==> (#[trigger] r.1@[i])@ == basic_row(i),
{
    let mut order_types: Vec<OrderType> = Vec::new();
    order_types.push(OrderType::Ascending);
    order_types.push(OrderType::Descending);
    let mut column_descs: Vec<ColumnDesc> = Vec::new();
    column_descs.push(ColumnDesc::unnamed(0, DataType::Int32));
    column_descs.push(ColumnDesc::unnamed(1, DataType::Int32));
    column_descs.push(ColumnDesc::unnamed(2, DataType::Int32));
    let ghost order = order_types@;
    let table = CellBasedTable::new(keyspace, column_descs, Some(order_types), None);
    proof {
        assert(order =~= seq![OrderType::Ascending, OrderType::Descending]);
    }
    let mut rows: Vec<Vec<Datum>> = Vec::new();
    let mut i: usize = 0;
    while i < row_count
        invariant
            i <= row_count,
            rows@.len() == i,
            forall|j: int| 0 <= j < i ==> (#[trigger] rows@[j])@ == basic_row(j),
        decreases row_count - i,
    {
        let idx: i32 = i as i32;
        let mut row: Vec<Datum> = Vec::new();
        row.push(Some(ScalarImpl::Int32(idx)));
        row.push(Some(ScalarImpl::Int32(idx)));
        row.push(Some(ScalarImpl::Int32(idx)));
        proof {
            assert(row@ =~= basic_row(i as int));
        }
        rows.push(row);
        i = i + 1;
    }
    (table, rows)
}

/// A row of the table has three columns, which all hold the number of the row.
pub proof fn law_rows_hold_their_number(idx: int, i: int)
    requires
        0 <= idx <= i32::MAX,
        0 <= i < 3,
    ensures
        basic_row(idx).len() == 3,
        basic_row(idx)[i] matches Some(ScalarImpl::Int32(n)) && n == idx,
{
}

} // verus!
