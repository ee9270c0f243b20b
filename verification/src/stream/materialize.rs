//! Writing a stream of changes into a materialized view.

use vstd::prelude::*;
use vstd::string::StringExecFns;

use crate::catalog::{ColumnId, OrderPair, OrderType};
use crate::common::chunk::{is_visible, Op, StreamChunk};
use crate::common::scalar::{copy_datum, copy_datums, Datum};
use crate::common::text::{hexadecimal, hexadecimal_text};
use crate::stream::message::{Barrier, Message};

verus! {

/// A change to the view.
#[derive(Debug)]
pub enum MViewWrite {
    /// The row stands under the key.
    Put(Vec<Datum>, Vec<Datum>),
    /// No row stands under the key.
    Delete(Vec<Datum>),
}

/// A change by its meaning.
pub enum WriteView {
    Put(Seq<Datum>, Seq<Datum>),
    Delete(Seq<Datum>),
}

impl View for MViewWrite {
    type V = WriteView;

    open spec fn view(&self) -> WriteView {
        match self {
            MViewWrite::Put(key, row) => WriteView::Put(key@, row@),
            MViewWrite::Delete(key) => WriteView::Delete(key@),
        }
    }
}

/// Changes by their meaning.
pub open spec fn write_views(writes: Seq<MViewWrite>) -> Seq<WriteView> {
    Seq::new(writes.len(), |i: int| writes[i]@)
}

/// The values of the given columns.
pub open spec fn projected(row: Seq<Datum>, columns: Seq<usize>) -> Seq<Datum> {
    Seq::new(columns.len(), |i: int| row[columns[i] as int])
}

/// The change that a row stands for.
pub open spec fn write_of(op: Op, row: Seq<Datum>, key_columns: Seq<usize>) -> WriteView {
    match op {
        Op::Insert | Op::UpdateInsert => WriteView::Put(projected(row, key_columns), row),
        Op::Delete | Op::UpdateDelete => WriteView::Delete(projected(row, key_columns)),
    }
}

/// The changes that the first `n` rows of a chunk stand for; hidden rows are none.
pub open spec fn writes_of(chunk: StreamChunk<Datum>, key_columns: Seq<usize>, n: int) -> Seq<WriteView>
    decreases n,
{
    if n <= 0 {
        Seq::empty()
    } else if is_visible(chunk.data, n - 1) {
        writes_of(chunk, key_columns, n - 1).push(
            write_of(chunk.ops@[n - 1], chunk.data.rows@[n - 1]@, key_columns),
        )
    } else {
        writes_of(chunk, key_columns, n - 1)
    }
}

/// The rows of a view after the first `n` changes.
pub open spec fn content_after(
    content: Map<Seq<Datum>, Seq<Datum>>,
    writes: Seq<WriteView>,
    n: int,
) -> Map<Seq<Datum>, Seq<Datum>>
    decreases n,
{
    if n <= 0 {
        content
    } else {
        let before = content_after(content, writes, n - 1);
        match writes[n - 1] {
            WriteView::Put(key, row) => before.insert(key, row),
            WriteView::Delete(key) => before.remove(key),
        }
    }
}

/// The key that a change is about.
pub open spec fn key_of(write: WriteView) -> Seq<Datum> {
    match write {
        WriteView::Put(key, _) => key,
        WriteView::Delete(key) => key,
    }
}

/// The last change to a key counts, whatever came before it.
pub proof fn law_last_write_counts(content: Map<Seq<Datum>, Seq<Datum>>, writes: Seq<WriteView>, k: int, n: int)
    requires
        0 <= k < n <= writes.len(),
        forall|j: int| k < j < n ==> key_of(#[trigger] writes[j]) != key_of(writes[k]),
    ensures
        match writes[k] {
            WriteView::Put(key, row) => content_after(content, writes, n).contains_key(key) && content_after(
                content,
                writes,
                n,
            )[key] == row,
            WriteView::Delete(key) => !content_after(content, writes, n).contains_key(key),
        },
    decreases n,
{
    if k < n - 1 {
        law_last_write_counts(content, writes, k, n - 1);
        assert(key_of(writes[n - 1]) != key_of(writes[k]));
    }
}

/// A key that no change is about keeps its row.
pub proof fn law_other_keys_stay(content: Map<Seq<Datum>, Seq<Datum>>, writes: Seq<WriteView>, key: Seq<Datum>, n: int)
    requires
        0 <= n <= writes.len(),
        forall|j: int| 0 <= j < n ==> key_of(#[trigger] writes[j]) != key,
    ensures
        content_after(content, writes, n).contains_key(key) == content.contains_key(key),
        content.contains_key(key) ==> content_after(content, writes, n)[key] == content[key],
    decreases n,
{
    if n > 0 {
        law_other_keys_stay(content, writes, key, n - 1);
        assert(key_of(writes[n - 1]) != key);
    }
}

/// The change that comes from row `k` of a chunk, after those of the rows before it.
proof fn lemma_write_of_row(chunk: StreamChunk<Datum>, key_columns: Seq<usize>, k: int, n: int)
    requires
        0 <= k < n,
        is_visible(chunk.data, k),
    ensures
        0 <= writes_of(chunk, key_columns, k).len() < writes_of(chunk, key_columns, n).len(),
        writes_of(chunk, key_columns, n)[writes_of(chunk, key_columns, k).len() as int] == write_of(
            chunk.ops@[k],
            chunk.data.rows@[k]@,
            key_columns,
        ),
    decreases n,
{
    if k < n - 1 {
        lemma_write_of_row(chunk, key_columns, k, n - 1);
    }
}

/// Each change comes from a row that is not hidden; the changes are in the order of the rows.
proof fn lemma_row_of_write(chunk: StreamChunk<Datum>, key_columns: Seq<usize>, j: int, n: int) -> (k: int)
    requires
        0 <= j < writes_of(chunk, key_columns, n).len(),
    ensures
        0 <= k < n,
        is_visible(chunk.data, k),
        writes_of(chunk, key_columns, k).len() == j,
        writes_of(chunk, key_columns, n)[j] == write_of(chunk.ops@[k], chunk.data.rows@[k]@, key_columns),
    decreases n,
{
    let before = writes_of(chunk, key_columns, n - 1);
    if j < before.len() {
        lemma_row_of_write(chunk, key_columns, j, n - 1)
    } else {
        n - 1
    }
}

proof fn lemma_writes_rise(chunk: StreamChunk<Datum>, key_columns: Seq<usize>, a: int, b: int)
    requires
        0 <= a <= b,
    ensures
        writes_of(chunk, key_columns, a).len() <= writes_of(chunk, key_columns, b).len(),
    decreases b,
{
    if a < b {
        lemma_writes_rise(chunk, key_columns, a, b - 1);
    }
}

/// `key` holds the values of the key columns of the row.
pub open spec fn has_key(row: Seq<Datum>, key_columns: Seq<usize>, key: Seq<Datum>) -> bool {
    key.len() == key_columns.len() && forall|i: int|
        0 <= i < key.len() ==> #[trigger] key[i] == row[key_columns[i] as int]
}

/// Once a chunk has been written, the last row with a key that is not hidden decides what the
/// view holds under the key: the row itself if it was inserted or is the new row of an update,
/// and nothing if it was deleted or is the old row of an update.
pub proof fn law_last_row_of_key_decides(
    content: Map<Seq<Datum>, Seq<Datum>>,
    chunk: StreamChunk<Datum>,
    key_columns: Seq<usize>,
    key: Seq<Datum>,
    k: int,
)
    requires
        chunk.wf(),
        0 <= k < chunk.data.rows@.len(),
        is_visible(chunk.data, k),
        has_key(chunk.data.rows@[k]@, key_columns, key),
        forall|j: int|
            #![trigger chunk.data.rows@[j]]
            k < j < chunk.data.rows@.len() && is_visible(chunk.data, j) ==> !has_key(
                chunk.data.rows@[j]@,
                key_columns,
                key,
            ),
    ensures
        ({
            let writes = writes_of(chunk, key_columns, chunk.data.rows@.len() as int);
            let after = content_after(content, writes, writes.len() as int);
            match chunk.ops@[k] {
                Op::Insert => after.contains_key(key) && after[key] == chunk.data.rows@[k]@,
                Op::UpdateInsert => after.contains_key(key) && after[key] == chunk.data.rows@[k]@,
                Op::Delete => !after.contains_key(key),
                Op::UpdateDelete => !after.contains_key(key),
            }
        }),
{
    let n = chunk.data.rows@.len() as int;
    let writes = writes_of(chunk, key_columns, n);
    let at = writes_of(chunk, key_columns, k).len() as int;
    lemma_write_of_row(chunk, key_columns, k, n);
    assert(projected(chunk.data.rows@[k]@, key_columns) =~= key);
    assert forall|j: int| at < j < writes.len() implies key_of(#[trigger] writes[j]) != key_of(writes[at]) by {
        let row = lemma_row_of_write(chunk, key_columns, j, n);
        if row <= k {
            lemma_writes_rise(chunk, key_columns, row, k);
        }
        assert(!has_key(chunk.data.rows@[row]@, key_columns, key));
        let other = projected(chunk.data.rows@[row]@, key_columns);
        if other == key {
            assert(has_key(chunk.data.rows@[row]@, key_columns, key));
        }
    }
    law_last_write_counts(content, writes, at, writes.len() as int);
}

/// What the view holds under a key stays as it was, unless a row of the chunk that is not
/// hidden has the key.
pub proof fn law_keys_without_row_stay(
    content: Map<Seq<Datum>, Seq<Datum>>,
    chunk: StreamChunk<Datum>,
    key_columns: Seq<usize>,
    key: Seq<Datum>,
)
    requires
        chunk.wf(),
        forall|j: int|
            #![trigger chunk.data.rows@[j]]
            0 <= j < chunk.data.rows@.len() && is_visible(chunk.data, j) ==> !has_key(
                chunk.data.rows@[j]@,
                key_columns,
                key,
            ),
    ensures
        ({
            let writes = writes_of(chunk, key_columns, chunk.data.rows@.len() as int);
            let after = content_after(content, writes, writes.len() as int);
            &&& after.contains_key(key) == content.contains_key(key)
            &&& content.contains_key(key) ==> after[key] == content[key]
        }),
{
    let n = chunk.data.rows@.len() as int;
    let writes = writes_of(chunk, key_columns, n);
    assert forall|j: int| 0 <= j < writes.len() implies key_of(#[trigger] writes[j]) != key by {
        let row = lemma_row_of_write(chunk, key_columns, j, n);
        let other = projected(chunk.data.rows@[row]@, key_columns);
        if other == key {
            assert(has_key(chunk.data.rows@[row]@, key_columns, key));
        }
    }
    law_other_keys_stay(content, writes, key, writes.len() as int);
}

/// A materialized view as it is sent to the workers.
#[derive(Debug)]
pub struct MaterializeNode {
    pub table_id: u32,
    pub column_orders: Vec<OrderPair>,
    pub column_ids: Vec<i32>,
}

/// `MaterializeExecutor` materializes changes in stream into a materialized view on storage.
#[derive(Debug)]
pub struct MaterializeExecutor {
    /// The table under which the changes are written.
    table_id: u32,
    /// The changes since the last barrier.
    local_state: Vec<MViewWrite>,
    column_ids: Vec<ColumnId>,
    /// Columns of primary keys
    pk_columns: Vec<usize>,
    pk_order_types: Vec<OrderType>,
    /// Columns of group keys
    ///
    /// Group columns will only be used to create a shared arrangement. For normal materialized
    /// view created from source, there should be no group columns.
    group_columns: Vec<usize>,
    group_order_types: Vec<OrderType>,
    /// Identity string
    identity: String,
    /// Logical Operator Info
    op_info: String,
}

/// The columns of an ordering.
pub open spec fn columns_of(keys: Seq<OrderPair>) -> Seq<usize> {
    Seq::new(keys.len(), |i: int| keys[i].column_idx)
}

/// The directions of an ordering.
pub open spec fn directions_of(keys: Seq<OrderPair>) -> Seq<OrderType> {
    Seq::new(keys.len(), |i: int| keys[i].order_type)
}

/// Builds executors of materialized views.
#[derive(Debug)]
pub struct MaterializeExecutorBuilder {}

impl MaterializeExecutorBuilder {
    /// The executor of a view.
    pub fn new_boxed_executor(node: MaterializeNode, executor_id: u64, op_info: String) -> (r: MaterializeExecutor)
        ensures
            r.pending() == Seq::<WriteView>::empty(),
            r.table() == node.table_id,
            r.key_columns() == columns_of(node.column_orders@),
            r.pk() == columns_of(node.column_orders@),
            r.directions() == directions_of(node.column_orders@),
            r.ids() == node.column_ids@,
            r.identity_text() == "GroupMaterializeExecutor "@ + hexadecimal(executor_id as nat),
            r.operator_text() == op_info@,
    {
        MaterializeExecutor::new(node.table_id, node.column_orders, node.column_ids, executor_id, op_info)
    }
}

/// The columns and the directions of an ordering.
fn split_keys(keys: &Vec<OrderPair>) -> (r: (Vec<usize>, Vec<OrderType>))
    ensures
        r.0@ == columns_of(keys@),
        r.1@ == directions_of(keys@),
{
    let mut columns: Vec<usize> = Vec::new();
    let mut directions: Vec<OrderType> = Vec::new();
    let mut i: usize = 0;
    while i < keys.len()
        invariant
            i <= keys@.len(),
            columns@.len() == i,
            directions@.len() == i,
            forall|j: int| 0 <= j < i ==> #[trigger] columns@[j] == keys@[j].column_idx,
            forall|j: int| 0 <= j < i ==> #[trigger] directions@[j] == keys@[j].order_type,
        decreases keys@.len() - i,
    {
        columns.push(keys[i].column_idx);
        directions.push(keys[i].order_type);
        i = i + 1;
    }
    proof {
        assert(columns@ =~= columns_of(keys@));
        assert(directions@ =~= directions_of(keys@));
    }
    (columns, directions)
}

impl MaterializeExecutor {
    /// The changes since the last barrier.
    pub closed spec fn pending(&self) -> Seq<WriteView> {
        write_views(self.local_state@)
    }

    /// The table under which the changes are written.
    pub closed spec fn table(&self) -> u32 {
        self.table_id
    }

    /// The columns that make the key: group columns first, then the primary key.
    pub closed spec fn key_columns(&self) -> Seq<usize> {
        self.group_columns@ + self.pk_columns@
    }

    /// The primary key.
    pub closed spec fn pk(&self) -> Seq<usize> {
        self.pk_columns@
    }

    /// The directions of the columns of the key.
    pub closed spec fn directions(&self) -> Seq<OrderType> {
        self.group_order_types@ + self.pk_order_types@
    }

    /// The ids of the columns.
    pub closed spec fn ids(&self) -> Seq<ColumnId> {
        self.column_ids@
    }

    /// The identity.
    pub closed spec fn identity_text(&self) -> Seq<char> {
        self.identity@
    }

    /// The operator.
    pub closed spec fn operator_text(&self) -> Seq<char> {
        self.op_info@
    }

    /// All but the pending changes is the same.
    pub open spec fn same_setup(&self, other: &MaterializeExecutor) -> bool {
        &&& self.table() == other.table()
        &&& self.key_columns() == other.key_columns()
        &&& self.pk() == other.pk()
        &&& self.directions() == other.directions()
        &&& self.ids() == other.ids()
        &&& self.identity_text() == other.identity_text()
        &&& self.operator_text() == other.operator_text()
    }

    /// An executor without group columns.
    pub fn new(table_id: u32, keys: Vec<OrderPair>, column_ids: Vec<ColumnId>, executor_id: u64, op_info: String) -> (r: Self)
        ensures
            r.pending() == Seq::<WriteView>::empty(),
            r.table() == table_id,
            r.key_columns() == columns_of(keys@),
            r.pk() == columns_of(keys@),
            r.directions() == directions_of(keys@),
            r.ids() == column_ids@,
            r.identity_text() == "GroupMaterializeExecutor "@ + hexadecimal(executor_id as nat),
            r.operator_text() == op_info@,
    {
        let group_keys: Vec<OrderPair> = Vec::new();
        let r = MaterializeExecutor::new_grouped(table_id, group_keys, keys, column_ids, executor_id, op_info);
        proof {
            assert(columns_of(group_keys@) + columns_of(keys@) =~= columns_of(keys@));
            assert(directions_of(group_keys@) + directions_of(keys@) =~= directions_of(keys@));
        }
        r
    }

    /// An executor of a shared arrangement.
    pub fn new_grouped(
        table_id: u32,
        group_keys: Vec<OrderPair>,
        primary_keys: Vec<OrderPair>,
        column_ids: Vec<ColumnId>,
        executor_id: u64,
        op_info: String,
    ) -> (r: Self)
        ensures
            r.pending() == Seq::<WriteView>::empty(),
            r.table() == table_id,
            r.key_columns() == columns_of(group_keys@) + columns_of(primary_keys@),
            r.pk() == columns_of(primary_keys@),
            r.directions() == directions_of(group_keys@) + directions_of(primary_keys@),
            r.ids() == column_ids@,
            r.identity_text() == "GroupMaterializeExecutor "@ + hexadecimal(executor_id as nat),
            r.operator_text() == op_info@,
    {
        let (pk_columns, pk_order_types) = split_keys(&primary_keys);
        let (group_columns, group_order_types) = split_keys(&group_keys);
        let mut identity: String = "GroupMaterializeExecutor ".to_owned();
        identity.append(hexadecimal_text(executor_id).as_str());
        let r = MaterializeExecutor {
            table_id,
            local_state: Vec::new(),
            column_ids,
            pk_columns,
            pk_order_types,
            group_columns,
            group_order_types,
            identity,
            op_info,
        };
        proof {
            assert(r.pending() =~= Seq::<WriteView>::empty());
        }
        r
    }

    /// The table under which the changes are written.
    pub fn table_id(&self) -> (r: u32)
        ensures
            r == self.table(),
    {
        self.table_id
    }

    /// The primary key.
    pub fn pk_indices(&self) -> (r: &Vec<usize>)
        ensures
            r@ == self.pk(),
    {
        &self.pk_columns
    }

    /// The identity.
    pub fn identity(&self) -> (r: &String)
        ensures
            r@ == self.identity_text(),
    {
        &self.identity
    }

    /// The operator.
    pub fn logical_operator_info(&self) -> (r: &String)
        ensures
            r@ == self.operator_text(),
    {
        &self.op_info
    }

    /// The key of a row: group key first, then primary key.
    fn arrange_row(&self, row: &Vec<Datum>) -> (r: Vec<Datum>)
        requires
            forall|i: int| 0 <= i < self.key_columns().len() ==> #[trigger] self.key_columns()[i] < row@.len(),
        ensures
            r@ == projected(row@, self.key_columns()),
    {
        let mut key: Vec<Datum> = Vec::new();
        let mut i: usize = 0;
        while i < self.group_columns.len()
            invariant
                i <= self.group_columns@.len(),
                forall|j: int| 0 <= j < self.key_columns().len() ==> #[trigger] self.key_columns()[j] < row@.len(),
                key@.len() == i,
                forall|j: int| 0 <= j < i ==> #[trigger] key@[j] == row@[self.key_columns()[j] as int],
            decreases self.group_columns@.len() - i,
        {
            proof {
                assert(self.key_columns()[i as int] == self.group_columns@[i as int]);
            }
            key.push(copy_datum(&row[self.group_columns[i]]));
            i = i + 1;
        }
        let mut k: usize = 0;
        let ghost groups = self.group_columns@.len() as int;
        while k < self.pk_columns.len()
            invariant
                k <= self.pk_columns@.len(),
                groups == self.group_columns@.len(),
                forall|j: int| 0 <= j < self.key_columns().len() ==> #[trigger] self.key_columns()[j] < row@.len(),
                key@.len() == groups + k,
                forall|j: int| 0 <= j < groups + k ==> #[trigger] key@[j] == row@[self.key_columns()[j] as int],
            decreases self.pk_columns@.len() - k,
        {
            proof {
                assert(self.key_columns()[groups + k] == self.pk_columns@[k as int]);
            }
            key.push(copy_datum(&row[self.pk_columns[k]]));
            k = k + 1;
        }
        proof {
            assert(key@ =~= projected(row@, self.key_columns()));
        }
        key
    }

    /// Notes the changes of a chunk; the chunk goes on.
    pub fn consume_chunk(&mut self, chunk: StreamChunk<Datum>) -> (r: Message)
        requires
            chunk.wf(),
            forall|k: int, i: int|
                #![trigger chunk.data.rows@[k], old(self).key_columns()[i]]
                0 <= k < chunk.data.rows@.len() && 0 <= i < old(self).key_columns().len()
                    ==> old(self).key_columns()[i] < chunk.data.rows@[k]@.len(),
        ensures
            r == Message::Chunk(chunk),
            final(self).pending() == old(self).pending() + writes_of(
                chunk,
                old(self).key_columns(),
                chunk.data.rows@.len() as int,
            ),
            final(self).same_setup(old(self)),
    {
        let ghost before = self.pending();
        let ghost key_columns = self.key_columns();
        let n: usize = chunk.ops.len();
        let mut idx: usize = 0;
        proof {
            assert(self.pending() =~= before + writes_of(chunk, key_columns, 0));
        }
        while idx < n
            invariant
                idx <= n,
                n == chunk.ops@.len(),
                chunk.wf(),
                self.same_setup(old(self)),
                key_columns == self.key_columns(),
                forall|k: int, i: int|
                    #![trigger chunk.data.rows@[k], key_columns[i]]
                    0 <= k < chunk.data.rows@.len() && 0 <= i < key_columns.len() ==> key_columns[i]
                        < chunk.data.rows@[k]@.len(),
                self.pending() == before + writes_of(chunk, key_columns, idx as int),
            decreases n - idx,
        {
            let ghost now = self.pending();
            if chunk.data.visible(idx) {
                proof {
                    assert forall|i: int| 0 <= i < key_columns.len() implies #[trigger] key_columns[i]
                        < chunk.data.rows@[idx as int]@.len() by {
                        assert(chunk.data.rows@[idx as int]@.len() >= 0);
                    }
                }
                let arrange_row = self.arrange_row(&chunk.data.rows[idx]);
                let op: Op = chunk.ops[idx];
                let write = match op {
                    Op::Insert | Op::UpdateInsert => MViewWrite::Put(arrange_row, copy_datums(&chunk.data.rows[idx])),
                    Op::Delete | Op::UpdateDelete => MViewWrite::Delete(arrange_row),
                };
                let ghost view = write@;
                self.local_state.push(write);
                proof {
                    assert(self.pending() =~= now.push(view));
                    assert(self.pending() =~= before + writes_of(chunk, key_columns, idx + 1));
                }
            }
            idx = idx + 1;
        }
        Message::Chunk(chunk)
    }

    /// Hands out the changes since the last barrier, to be written at the epoch that
    /// the barrier ends; the barrier goes on.
    pub fn flush(&mut self, barrier: Barrier) -> (r: (u64, Vec<MViewWrite>, Message))
        ensures
            r.0 == barrier.epoch.prev,
            write_views(r.1@) == old(self).pending(),
            r.2 == Message::Barrier(barrier),
            final(self).pending() == Seq::<WriteView>::empty(),
            final(self).same_setup(old(self)),
    {
        let mut writes: Vec<MViewWrite> = Vec::new();
        std::mem::swap(&mut writes, &mut self.local_state);
        proof {
            assert(self.pending() =~= Seq::<WriteView>::empty());
        }
        (barrier.epoch.prev, writes, Message::Barrier(barrier))
    }

    /// Forgets the changes since the last barrier.
    pub fn reset(&mut self)
        ensures
            final(self).pending() == Seq::<WriteView>::empty(),
            final(self).same_setup(old(self)),
    {
        self.local_state = Vec::new();
        proof {
            assert(self.pending() =~= Seq::<WriteView>::empty());
        }
    }
}

/// The columns and the directions of keys stand in the order of the keys.
pub proof fn law_keys_keep_order(keys: Seq<OrderPair>, i: int)
    requires
        0 <= i < keys.len(),
    ensures
        columns_of(keys).len() == keys.len() && directions_of(keys).len() == keys.len(),
        columns_of(keys)[i] == keys[i].column_idx,
        directions_of(keys)[i] == keys[i].order_type,
{
}

} // verus!
