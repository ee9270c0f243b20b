//! UPDATE: each row becomes a pair of its old and its new version.

use vstd::prelude::*;

use crate::catalog::{is_plain_field, same_types, DataType, Field, Schema};
use crate::common::chunk::{is_visible, visible_rows, DataChunk, Op, StreamChunk};
use crate::common::error::{fails, ErrorCode, ErrorView};
use crate::common::scalar::{copy_datum, copy_datums, Datum, ScalarImpl};

verus! {

/// [`UpdateExecutor`] implements table updation with values from its child executor and given
/// expressions.
#[derive(Debug)]
pub struct UpdateExecutor {
    /// Target table id.
    pub table_id: u32,
    /// The schema of the child.
    pub child_schema: Schema,
    pub schema: Schema,
    pub identity: String,
}

/// The rows of a chunk that are not hidden, in their order.
pub open spec fn kept_rows(chunk: DataChunk<Datum>, n: int) -> Seq<Seq<Datum>>
    decreases n,
{
    if n <= 0 {
        Seq::empty()
    } else if is_visible(chunk, n - 1) {
        kept_rows(chunk, n - 1).push(chunk.rows@[n - 1]@)
    } else {
        kept_rows(chunk, n - 1)
    }
}

/// Rows by their values.
pub open spec fn row_values(rows: Seq<Vec<Datum>>) -> Seq<Seq<Datum>> {
    Seq::new(rows.len(), |i: int| rows[i]@)
}

/// The row at `i` of a list of columns.
pub open spec fn row_at(columns: Seq<Vec<Datum>>, i: int) -> Seq<Datum> {
    Seq::new(columns.len(), |c: int| columns[c]@[i])
}

/// Pairs of old and new rows: the old one at each even position, the new one after it.
pub open spec fn paired(old_rows: Seq<Seq<Datum>>, columns: Seq<Vec<Datum>>) -> Seq<Seq<Datum>> {
    Seq::new(
        2 * old_rows.len(),
        |k: int|
            if k % 2 == 0 {
                old_rows[k / 2]
            } else {
                row_at(columns, k / 2)
            },
    )
}

/// `U-`, `U+`, `U-`, `U+`, ...
pub open spec fn update_ops(n: nat) -> Seq<Op> {
    Seq::new(
        2 * n,
        |k: int|
            if k % 2 == 0 {
                Op::UpdateDelete
            } else {
                Op::UpdateInsert
            },
    )
}

/// The sum of the first `n` numbers.
pub open spec fn total(counts: Seq<usize>, n: int) -> int
    decreases n,
{
    if n <= 0 {
        0
    } else {
        total(counts, n - 1) + counts[n - 1]
    }
}

proof fn lemma_total_rises(counts: Seq<usize>, i: int, n: int)
    requires
        0 <= i <= n <= counts.len(),
    ensures
        0 <= total(counts, i) <= total(counts, n),
    decreases n,
{
    if i < n {
        lemma_total_rises(counts, i, n - 1);
    } else if n > 0 {
        lemma_total_rises(counts, i - 1, n - 1);
    }
}

/// The rows of a chunk that are not hidden.
pub fn compact(chunk: &DataChunk<Datum>) -> (r: DataChunk<Datum>)
    requires
        chunk.wf(),
    ensures
        r.wf(),
        r.visibility is None,
        row_values(r.rows@) == kept_rows(*chunk, chunk.rows@.len() as int),
{
    let mut rows: Vec<Vec<Datum>> = Vec::new();
    let mut i: usize = 0;
    proof {
        assert(row_values(rows@) =~= Seq::empty());
    }
    while i < chunk.rows.len()
        invariant
            i <= chunk.rows@.len(),
            chunk.wf(),
            row_values(rows@) == kept_rows(*chunk, i as int),
        decreases chunk.rows@.len() - i,
    {
        if chunk.visible(i) {
            let ghost before = rows@;
            let row = copy_datums(&chunk.rows[i]);
            rows.push(row);
            proof {
                assert(row_values(rows@) =~= row_values(before).push(row@));
            }
        }
        i = i + 1;
    }
    DataChunk { rows, visibility: None }
}

/// As many rows are left as are not hidden.
pub proof fn law_compact_keeps_cardinality(chunk: DataChunk<Datum>, n: int)
    ensures
        kept_rows(chunk, n).len() == visible_rows(chunk, n).len(),
    decreases n,
{
    if n > 0 {
        law_compact_keeps_cardinality(chunk, n - 1);
    }
}

impl UpdateExecutor {
    /// An executor that updates the given table.
    pub fn new(table_id: u32, child_schema: Schema) -> (r: Self)
        ensures
            r.table_id == table_id,
            r.child_schema == child_schema,
            r.schema@.len() == 1,
            is_plain_field(r.schema@[0], DataType::Int64, Seq::empty()),
            r.identity@ == "UpdateExecutor"@,
    {
        let mut fields: Vec<Field> = Vec::new();
        fields.push(Field::unnamed(DataType::Int64));
        UpdateExecutor { table_id, child_schema, schema: Schema::new(fields), identity: "UpdateExecutor".to_owned() }
    }

    /// The schema of the result: how many rows were updated.
    pub fn schema(&self) -> (r: &Schema)
        ensures
            *r == self.schema,
    {
        &self.schema
    }

    /// The name of the executor.
    pub fn identity(&self) -> (r: &str)
        ensures
            r@ == self.identity@,
    {
        self.identity.as_str()
    }

    /// The changes that the table gets for a chunk of the child: each row with its new
    /// values. `columns` is what the evaluation of the expressions gave, column by
    /// column; there are as many as the child has, each with one value per row.
    pub fn update_chunk(
        &self,
        data_chunk: DataChunk<Datum>,
        columns: Result<Vec<Vec<Datum>>, ErrorCode>,
    ) -> (r: Result<StreamChunk<Datum>, ErrorCode>)
        requires
            data_chunk.visibility is None,
            2 * data_chunk.rows@.len() <= usize::MAX,
            forall|i: int| 0 <= i < data_chunk.rows@.len() ==> (#[trigger] data_chunk.rows@[i])@.len() == self.child_schema@.len(),
            columns matches Ok(cols) ==> cols@.len() == self.child_schema@.len() && forall|c: int|
                0 <= c < cols@.len() ==> (#[trigger] cols@[c])@.len() == data_chunk.rows@.len(),
        ensures
            match columns {
                Err(e) => r == Err::<StreamChunk<Datum>, ErrorCode>(e),
                Ok(cols) => {
                    &&& r matches Ok(chunk)
                    &&& chunk.wf()
                    &&& chunk.data.visibility is None
                    &&& chunk.ops@ == update_ops(data_chunk.rows@.len())
                    &&& row_values(chunk.data.rows@) == paired(row_values(data_chunk.rows@), cols@)
                    &&& chunk.ops@.len() == 2 * data_chunk.rows@.len()
                    &&& chunk.data.rows@.len() == 2 * data_chunk.rows@.len()
                    &&& forall|i: int|
                        #![trigger data_chunk.rows@[i]]
                        0 <= i < data_chunk.rows@.len() ==> {
                            &&& chunk.ops@[2 * i] == Op::UpdateDelete
                            &&& chunk.ops@[2 * i + 1] == Op::UpdateInsert
                            &&& chunk.data.rows@[2 * i]@ == data_chunk.rows@[i]@
                            &&& chunk.data.rows@[2 * i + 1]@.len() == cols@.len()
                            &&& forall|c: int|
                                0 <= c < cols@.len() ==> chunk.data.rows@[2 * i + 1]@[c] == (#[trigger] cols@[c])@[i]
                        }
                },
            },
    {
        let columns = match columns {
            Ok(columns) => columns,
            Err(e) => {
                return Err(e);
            },
        };
        let len: usize = data_chunk.rows.len();
        let mut rows: Vec<Vec<Datum>> = Vec::new();
        let mut ops: Vec<Op> = Vec::new();
        let ghost pairs = paired(row_values(data_chunk.rows@), columns@);
        let mut i: usize = 0;
        while i < len
            invariant
                i <= len,
                len == data_chunk.rows@.len(),
                2 * len <= usize::MAX,
                forall|c: int| 0 <= c < columns@.len() ==> (#[trigger] columns@[c])@.len() == len,
                pairs == paired(row_values(data_chunk.rows@), columns@),
                rows@.len() == 2 * i,
                ops@.len() == 2 * i,
                forall|k: int| 0 <= k < 2 * i ==> (#[trigger] rows@[k])@ == pairs[k],
                forall|k: int| 0 <= k < 2 * i ==> #[trigger] ops@[k] == update_ops(len as nat)[k],
            decreases len - i,
        {
            let old_row = copy_datums(&data_chunk.rows[i]);
            let new_row = take_row(&columns, i);
            rows.push(old_row);
            rows.push(new_row);
            ops.push(Op::UpdateDelete);
            ops.push(Op::UpdateInsert);
            proof {
                assert((2 * i) % 2 == 0 && (2 * i) / 2 == i);
                assert((2 * i + 1) % 2 == 1 && (2 * i + 1) / 2 == i);
                assert(pairs[2 * i] == row_values(data_chunk.rows@)[i as int]);
                assert(pairs[2 * i + 1] == row_at(columns@, i as int));
            }
            i = i + 1;
        }
        proof {
            assert(row_values(rows@) =~= pairs);
            assert(ops@ =~= update_ops(len as nat));
            assert forall|i: int| #![trigger data_chunk.rows@[i]] 0 <= i < len implies {
                &&& rows@[2 * i]@ == data_chunk.rows@[i]@
                &&& rows@[2 * i + 1]@ == row_at(columns@, i)
                &&& ops@[2 * i] == Op::UpdateDelete
                &&& ops@[2 * i + 1] == Op::UpdateInsert
            } by {
                assert((2 * i) % 2 == 0 && (2 * i) / 2 == i);
                assert((2 * i + 1) % 2 == 1 && (2 * i + 1) / 2 == i);
                assert(rows@[2 * i]@ == pairs[2 * i]);
                assert(rows@[2 * i + 1]@ == pairs[2 * i + 1]);
            }
        }
        Ok(StreamChunk { ops, data: DataChunk { rows, visibility: None } })
    }

    /// The result: how many rows were updated, given how many changes each chunk was
    /// taken with. A chunk that was not taken is an error.
    pub fn finish(&self, notified: Vec<Result<usize, ()>>) -> (r: Result<DataChunk<Datum>, ErrorCode>)
        requires
            all_taken(notified@) ==> total(taken(notified@), notified@.len() as int) <= usize::MAX,
        ensures
            if all_taken(notified@) {
                &&& r matches Ok(chunk)
                &&& chunk.visibility is None
                &&& row_values(chunk.rows@) == seq![
                    seq![
                        Some(
                            ScalarImpl::Int64((total(taken(notified@), notified@.len() as int) / 2) as usize as i64),
                        ),
                    ],
                ]
            } else {
                fails(r, ErrorView::InternalError("failed to wait chunks to be written"@))
            },
    {
        let n: usize = notified.len();
        let mut i: usize = 0;
        while i < n
            invariant
                i <= n,
                n == notified@.len(),
                forall|k: int| 0 <= k < i ==> (#[trigger] notified@[k]) is Ok,
            decreases n - i,
        {
            if let Err(_) = notified[i] {
                return Err(ErrorCode::InternalError("failed to wait chunks to be written".to_owned()));
            }
            i = i + 1;
        }
        let mut sum: usize = 0;
        let mut k: usize = 0;
        while k < n
            invariant
                k <= n,
                n == notified@.len(),
                all_taken(notified@),
                total(taken(notified@), n as int) <= usize::MAX,
                sum == total(taken(notified@), k as int),
            decreases n - k,
        {
            if let Ok(count) = notified[k] {
                proof {
                    lemma_total_rises(taken(notified@), k + 1, n as int);
                }
                sum = sum + count;
            }
            k = k + 1;
        }
        let rows_updated: usize = sum / 2;
        let mut row: Vec<Datum> = Vec::new();
        row.push(Some(ScalarImpl::Int64(rows_updated as i64)));
        let mut rows: Vec<Vec<Datum>> = Vec::new();
        rows.push(row);
        Ok(DataChunk { rows, visibility: None })
    }
}

/// Every chunk was taken.
pub open spec fn all_taken(notified: Seq<Result<usize, ()>>) -> bool {
    forall|i: int| 0 <= i < notified.len() ==> (#[trigger] notified[i]) is Ok
}

/// With how many changes each chunk was taken.
pub open spec fn taken(notified: Seq<Result<usize, ()>>) -> Seq<usize> {
    Seq::new(notified.len(), |i: int| notified[i]->Ok_0)
}

/// The row at `i` of a list of columns.
fn take_row(columns: &Vec<Vec<Datum>>, i: usize) -> (r: Vec<Datum>)
    requires
        forall|c: int| 0 <= c < columns@.len() ==> (#[trigger] columns@[c])@.len() > i,
    ensures
        r@ == row_at(columns@, i as int),
{
    let mut r: Vec<Datum> = Vec::new();
    let mut c: usize = 0;
    while c < columns.len()
        invariant
            c <= columns@.len(),
            forall|k: int| 0 <= k < columns@.len() ==> (#[trigger] columns@[k])@.len() > i,
            r@.len() == c,
            forall|k: int| 0 <= k < c ==> #[trigger] r@[k] == row_at(columns@, i as int)[k],
        decreases columns@.len() - c,
    {
        r.push(copy_datum(&columns[c][i]));
        c = c + 1;
    }
    proof {
        assert(r@ =~= row_at(columns@, i as int));
    }
    r
}

/// A chunk of `n` rows is written as `2 * n` changes, so half the changes that are
/// reported is the number of rows that were updated.
pub proof fn law_half_the_changes(rows: Seq<nat>, counts: Seq<usize>, n: int)
    requires
        rows.len() == counts.len(),
        0 <= n <= rows.len(),
        forall|i: int| 0 <= i < n ==> #[trigger] counts[i] == update_ops(rows[i]).len(),
    ensures
        total(counts, n) == 2 * row_total(rows, n),
        total(counts, n) / 2 == row_total(rows, n),
    decreases n,
{
    if n > 0 {
        law_half_the_changes(rows, counts, n - 1);
    }
}

/// How many rows the first `n` chunks have.
pub open spec fn row_total(rows: Seq<nat>, n: int) -> int
    decreases n,
{
    if n <= 0 {
        0
    } else {
        row_total(rows, n - 1) + rows[n - 1]
    }
}

/// The node of an UPDATE, and the types of its expressions.
#[derive(Debug)]
pub enum UpdateNode {
    Update { table_id: u32, expr_types: Result<Vec<DataType>, ErrorCode> },
    Other,
}

/// Builds executors of UPDATE.
pub fn new_boxed_executor2(
    node: UpdateNode,
    child_schema: Option<Result<Schema, ErrorCode>>,
) -> (r: Result<UpdateExecutor, ErrorCode>)
    requires
        node matches UpdateNode::Update { expr_types: Ok(types), .. } ==> (child_schema matches Some(Ok(schema))
            ==> same_types(
            Seq::new(schema@.len(), |i: int| schema@[i].data_type),
            types@,
        )),
    ensures
        match node {
            UpdateNode::Other => fails(r, ErrorView::InternalError("expects Update"@)),
            UpdateNode::Update { table_id, expr_types } => match expr_types {
                Err(e) => r == Err::<UpdateExecutor, ErrorCode>(e),
                Ok(_) => match child_schema {
                    None => fails(r, ErrorView::InternalError("Child interpreting error"@)),
                    Some(Err(e)) => r == Err::<UpdateExecutor, ErrorCode>(e),
                    Some(Ok(schema)) => r matches Ok(executor) && executor.table_id == table_id && executor.child_schema == schema,
                },
            },
        },
{
    match node {
        UpdateNode::Other => Err(ErrorCode::InternalError("expects Update".to_owned())),
        UpdateNode::Update { table_id, expr_types } => {
            if let Err(e) = expr_types {
                return Err(e);
            }
            match child_schema {
                None => Err(ErrorCode::InternalError("Child interpreting error".to_owned())),
                Some(Err(e)) => Err(e),
                Some(Ok(schema)) => Ok(UpdateExecutor::new(table_id, schema)),
            }
        },
    }
}

/// A compacted chunk holds the rows that are not hidden, in their order.
pub proof fn law_compact_keeps_visible_rows(chunk: DataChunk<Datum>, n: int, k: int)
    requires
        0 <= k < visible_rows(chunk, n).len(),
    ensures
        kept_rows(chunk, n).len() == visible_rows(chunk, n).len(),
        kept_rows(chunk, n)[k] == chunk.rows@[visible_rows(chunk, n)[k]]@,
    decreases n,
{
    law_compact_keeps_cardinality(chunk, n);
    if n > 0 {
        law_compact_keeps_cardinality(chunk, n - 1);
        if k < visible_rows(chunk, n - 1).len() {
            law_compact_keeps_visible_rows(chunk, n - 1, k);
        }
    }
}

} // verus!
