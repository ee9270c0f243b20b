//! Reading rows back from their cells.

use vstd::prelude::*;

use crate::catalog::{ColumnId, OrderType};
use crate::common::lists::copy_ids;
use crate::hummock::key::{bytes_equal, copy_bytes, next_key, next_key_spec};
use crate::storage::cell_based_table::{
    buffer_writes, cell_key, column_key, column_write, column_writes, decoded_id, deserialize_column_id,
    encoded_pk, law_column_id_round_trip, lemma_column_key_injective, op_writes, sentinel_write, serialize_pk,
    CellBasedTable, ValueMeta, WriteView, SENTINEL_CELL_ID,
};
use crate::storage::mem_table::{Entry, RowOpView};
use crate::storage::row::{cell_view, copy_cell, Row, RowView};

verus! {

/// The store after one write.
pub open spec fn apply_write(store: Map<Seq<u8>, Seq<u8>>, w: WriteView) -> Map<Seq<u8>, Seq<u8>> {
    match w.value {
        Some(value) => store.insert(w.key, value),
        None => store.remove(w.key),
    }
}

/// The store after a sequence of writes.
pub open spec fn apply_writes(store: Map<Seq<u8>, Seq<u8>>, writes: Seq<WriteView>) -> Map<Seq<u8>, Seq<u8>>
    decreases writes.len(),
{
    if writes.len() == 0 {
        store
    } else {
        apply_write(apply_writes(store, writes.drop_last()), writes.last())
    }
}

/// What the store holds under `key`.
pub open spec fn stored(store: Map<Seq<u8>, Seq<u8>>, key: Seq<u8>) -> Option<Seq<u8>> {
    if store.contains_key(key) {
        Some(store[key])
    } else {
        None
    }
}

/// The row `pk` of a table in the store: it exists if its sentinel does, and a
/// cell that does not exist is null.
pub open spec fn stored_row(store: Map<Seq<u8>, Seq<u8>>, prefix: Seq<u8>, pk: Seq<u8>, ids: Seq<ColumnId>) -> Option<
    RowView,
> {
    if store.contains_key(cell_key(prefix, pk, SENTINEL_CELL_ID)) {
        Some(Seq::new(ids.len(), |i: int| stored(store, cell_key(prefix, pk, ids[i]))))
    } else {
        None
    }
}

/// The columns can be told apart, and none is taken for the sentinel.
pub open spec fn ids_distinct(ids: Seq<ColumnId>) -> bool {
    &&& forall|i: int, j: int| 0 <= i < j < ids.len() ==> ids[i] != ids[j]
    &&& forall|i: int| 0 <= i < ids.len() ==> ids[i] != SENTINEL_CELL_ID
}

proof fn lemma_cell_key_injective(prefix: Seq<u8>, pk1: Seq<u8>, id1: ColumnId, pk2: Seq<u8>, id2: ColumnId)
    requires
        cell_key(prefix, pk1, id1) == cell_key(prefix, pk2, id2),
    ensures
        pk1 == pk2,
        id1 == id2,
{
    let (a, b) = (cell_key(prefix, pk1, id1), cell_key(prefix, pk2, id2));
    let p = prefix.len() as int;
    let n = pk1.len() as int;
    assert(a.len() == p + n + 4 && b.len() == p + pk2.len() + 4);
    assert(pk1 =~= a.subrange(p, p + n));
    assert(pk2 =~= b.subrange(p, p + n));
    assert(column_key(id1) =~= a.subrange(p + n, p + n + 4));
    assert(column_key(id2) =~= b.subrange(p + n, p + n + 4));
    lemma_column_key_injective(id1, id2);
}

/// What a modification leaves in a cell.
pub open spec fn cell_after(before: Option<Seq<u8>>, write: Option<Option<Seq<u8>>>) -> Option<Seq<u8>> {
    match write {
        Some(value) => value,
        None => before,
    }
}

/// The writes of a modification to the first `n` columns set those cells and
/// no others.
proof fn lemma_apply_columns(
    store: Map<Seq<u8>, Seq<u8>>,
    prefix: Seq<u8>,
    pk: Seq<u8>,
    ids: Seq<ColumnId>,
    meta: ValueMeta,
    op: RowOpView,
    n: int,
)
    requires
        0 <= n <= ids.len(),
        ids_distinct(ids),
    ensures
        forall|i: int|
            #![trigger ids[i]]
            0 <= i < n ==> stored(
                apply_writes(store, column_writes(prefix, pk, ids, meta, op, n)),
                cell_key(prefix, pk, ids[i]),
            ) == cell_after(stored(store, cell_key(prefix, pk, ids[i])), column_write(op, i)),
        forall|key: Seq<u8>|
            (forall|i: int| 0 <= i < n ==> key != cell_key(prefix, pk, #[trigger] ids[i])) ==> #[trigger] stored(
                apply_writes(store, column_writes(prefix, pk, ids, meta, op, n)),
                key,
            ) == stored(store, key),
    decreases n,
{
    if n > 0 {
        lemma_apply_columns(store, prefix, pk, ids, meta, op, n - 1);
        let rest = column_writes(prefix, pk, ids, meta, op, n - 1);
        let all = column_writes(prefix, pk, ids, meta, op, n);
        let mid = apply_writes(store, rest);
        let end = apply_writes(store, all);
        let last_key = cell_key(prefix, pk, ids[n - 1]);
        if let Some(value) = column_write(op, n - 1) {
            assert(all.drop_last() =~= rest);
        }
        assert forall|i: int| 0 <= i < n - 1 implies last_key != cell_key(prefix, pk, #[trigger] ids[i]) by {
            if last_key == cell_key(prefix, pk, ids[i]) {
                lemma_cell_key_injective(prefix, pk, ids[n - 1], pk, ids[i]);
            }
        }
        assert(stored(mid, last_key) == stored(store, last_key));
        assert forall|i: int| #![trigger ids[i]] 0 <= i < n implies stored(end, cell_key(prefix, pk, ids[i])) == cell_after(
            stored(store, cell_key(prefix, pk, ids[i])),
            column_write(op, i),
        ) by {}
        assert forall|key: Seq<u8>|
            (forall|i: int| 0 <= i < n ==> key != cell_key(prefix, pk, #[trigger] ids[i])) implies #[trigger] stored(
            end,
            key,
        ) == stored(store, key) by {
            assert(key != cell_key(prefix, pk, ids[n - 1]));
            assert(stored(mid, key) == stored(store, key));
        }
    }
}

/// The writes of a modification set the cells and the sentinel of its row.
proof fn lemma_apply_op(
    store: Map<Seq<u8>, Seq<u8>>,
    prefix: Seq<u8>,
    pk: Seq<u8>,
    ids: Seq<ColumnId>,
    meta: ValueMeta,
    op: RowOpView,
)
    requires
        ids_distinct(ids),
    ensures
        ({
            let after = apply_writes(store, op_writes(prefix, pk, ids, meta, op));
            &&& forall|i: int|
                #![trigger ids[i]]
                0 <= i < ids.len() ==> stored(after, cell_key(prefix, pk, ids[i])) == cell_after(
                    stored(store, cell_key(prefix, pk, ids[i])),
                    column_write(op, i),
                )
            &&& stored(after, cell_key(prefix, pk, SENTINEL_CELL_ID)) == sentinel_write(op)
            &&& forall|pk2: Seq<u8>, id: ColumnId|
                #![trigger cell_key(prefix, pk2, id)]
                pk2 != pk ==> stored(after, cell_key(prefix, pk2, id)) == stored(store, cell_key(prefix, pk2, id))
        }),
{
    let n = ids.len() as int;
    let columns = column_writes(prefix, pk, ids, meta, op, n);
    let all = op_writes(prefix, pk, ids, meta, op);
    let mid = apply_writes(store, columns);
    let after = apply_writes(store, all);
    let sentinel = cell_key(prefix, pk, SENTINEL_CELL_ID);
    assert(all.drop_last() =~= columns);
    lemma_apply_columns(store, prefix, pk, ids, meta, op, n);
    assert forall|i: int| #![trigger ids[i]] 0 <= i < n implies stored(after, cell_key(prefix, pk, ids[i])) == cell_after(
        stored(store, cell_key(prefix, pk, ids[i])),
        column_write(op, i),
    ) by {
        if cell_key(prefix, pk, ids[i]) == sentinel {
            lemma_cell_key_injective(prefix, pk, ids[i], pk, SENTINEL_CELL_ID);
        }
    }
    assert forall|pk2: Seq<u8>, id: ColumnId|
        #![trigger cell_key(prefix, pk2, id)]
        pk2 != pk implies stored(after, cell_key(prefix, pk2, id)) == stored(store, cell_key(prefix, pk2, id)) by {
        let key = cell_key(prefix, pk2, id);
        if key == sentinel {
            lemma_cell_key_injective(prefix, pk2, id, pk, SENTINEL_CELL_ID);
        }
        assert forall|i: int| 0 <= i < n implies key != cell_key(prefix, pk, #[trigger] ids[i]) by {
            if key == cell_key(prefix, pk, ids[i]) {
                lemma_cell_key_injective(prefix, pk2, id, pk, ids[i]);
            }
        }
        assert(stored(mid, key) == stored(store, key));
    }
}

/// A row that was inserted is read back as it was inserted.
pub proof fn law_insert_then_get(
    store: Map<Seq<u8>, Seq<u8>>,
    prefix: Seq<u8>,
    pk: Seq<u8>,
    ids: Seq<ColumnId>,
    meta: ValueMeta,
    row: RowView,
)
    requires
        ids_distinct(ids),
        row.len() == ids.len(),
        forall|i: int| 0 <= i < ids.len() ==> !store.contains_key(cell_key(prefix, pk, #[trigger] ids[i])),
    ensures
        stored_row(
            apply_writes(store, op_writes(prefix, pk, ids, meta, RowOpView::Insert(row))),
            prefix,
            pk,
            ids,
        ) == Some(row),
{
    let op = RowOpView::Insert(row);
    let after = apply_writes(store, op_writes(prefix, pk, ids, meta, op));
    lemma_apply_op(store, prefix, pk, ids, meta, op);
    let read = stored_row(after, prefix, pk, ids).unwrap();
    assert forall|i: int| 0 <= i < row.len() implies read[i] == row[i] by {
        assert(stored(store, cell_key(prefix, pk, ids[i])) is None);
    }
    assert(read =~= row);
}

/// A row that was deleted is not found.
pub proof fn law_delete_then_get(
    store: Map<Seq<u8>, Seq<u8>>,
    prefix: Seq<u8>,
    pk: Seq<u8>,
    ids: Seq<ColumnId>,
    meta: ValueMeta,
    row: RowView,
)
    requires
        ids_distinct(ids),
        row.len() == ids.len(),
    ensures
        stored_row(
            apply_writes(store, op_writes(prefix, pk, ids, meta, RowOpView::Delete(row))),
            prefix,
            pk,
            ids,
        ) is None,
{
    lemma_apply_op(store, prefix, pk, ids, meta, RowOpView::Delete(row));
}

/// A row that was updated is read back as the new row.
pub proof fn law_update_then_get(
    store: Map<Seq<u8>, Seq<u8>>,
    prefix: Seq<u8>,
    pk: Seq<u8>,
    ids: Seq<ColumnId>,
    meta: ValueMeta,
    old_row: RowView,
    new_row: RowView,
)
    requires
        ids_distinct(ids),
        new_row.len() == ids.len(),
        stored_row(store, prefix, pk, ids) == Some(old_row),
    ensures
        stored_row(
            apply_writes(store, op_writes(prefix, pk, ids, meta, RowOpView::Update(old_row, new_row))),
            prefix,
            pk,
            ids,
        ) == Some(new_row),
{
    let op = RowOpView::Update(old_row, new_row);
    let after = apply_writes(store, op_writes(prefix, pk, ids, meta, op));
    lemma_apply_op(store, prefix, pk, ids, meta, op);
    let read = stored_row(after, prefix, pk, ids).unwrap();
    assert forall|i: int| 0 <= i < new_row.len() implies read[i] == new_row[i] by {
        assert(old_row[i] == stored(store, cell_key(prefix, pk, ids[i])));
    }
    assert(read =~= new_row);
}

/// A modification of one row leaves every other row as it was.
pub proof fn law_write_keeps_other_rows(
    store: Map<Seq<u8>, Seq<u8>>,
    prefix: Seq<u8>,
    pk: Seq<u8>,
    ids: Seq<ColumnId>,
    meta: ValueMeta,
    op: RowOpView,
    other: Seq<u8>,
)
    requires
        ids_distinct(ids),
        other != pk,
    ensures
        stored_row(apply_writes(store, op_writes(prefix, pk, ids, meta, op)), prefix, other, ids) == stored_row(
            store,
            prefix,
            other,
            ids,
        ),
{
    let after = apply_writes(store, op_writes(prefix, pk, ids, meta, op));
    lemma_apply_op(store, prefix, pk, ids, meta, op);
    let sentinel = cell_key(prefix, other, SENTINEL_CELL_ID);
    assert(stored(after, sentinel) == stored(store, sentinel));
    if stored_row(store, prefix, other, ids) is Some {
        assert(stored_row(after, prefix, other, ids).unwrap() =~= stored_row(store, prefix, other, ids).unwrap());
    }
}

proof fn lemma_apply_concat(store: Map<Seq<u8>, Seq<u8>>, a: Seq<WriteView>, b: Seq<WriteView>)
    ensures
        apply_writes(store, a + b) == apply_writes(apply_writes(store, a), b),
    decreases b.len(),
{
    if b.len() == 0 {
        assert(a + b =~= a);
    } else {
        lemma_apply_concat(store, a, b.drop_last());
        assert((a + b).drop_last() =~= a + b.drop_last());
        assert((a + b).last() == b.last());
    }
}

/// The modification fits what the store holds of its row: an inserted row has no cells yet, and
/// an updated row is the one that is stored.
pub open spec fn op_applies(store: Map<Seq<u8>, Seq<u8>>, prefix: Seq<u8>, pk: Seq<u8>, ids: Seq<ColumnId>, op: RowOpView) -> bool {
    match op {
        RowOpView::Insert(_) => forall|i: int|
            0 <= i < ids.len() ==> !store.contains_key(cell_key(prefix, pk, #[trigger] ids[i])),
        RowOpView::Update(old_row, _) => stored_row(store, prefix, pk, ids) == Some(old_row),
        RowOpView::Delete(_) => true,
    }
}

/// The keys of the rows of a buffer can be told apart when they are encoded.
pub open spec fn keys_differ(orders: Seq<OrderType>, buffer: Seq<Entry>) -> bool {
    forall|i: int, j: int|
        #![trigger buffer[i], buffer[j]]
        0 <= i < j < buffer.len() ==> encoded_pk(buffer[i].0@, orders, buffer[i].0@.len() as int) != encoded_pk(
            buffer[j].0@,
            orders,
            buffer[j].0@.len() as int,
        )
}

/// The writes of the first `n` modifications of a buffer leave the cells of every key alone that
/// is not the key of one of them.
proof fn lemma_buffer_keeps_others(
    store: Map<Seq<u8>, Seq<u8>>,
    prefix: Seq<u8>,
    orders: Seq<OrderType>,
    ids: Seq<ColumnId>,
    buffer: Seq<Entry>,
    metas: Seq<ValueMeta>,
    n: int,
    other: Seq<u8>,
)
    requires
        ids_distinct(ids),
        0 <= n <= buffer.len(),
        forall|i: int|
            #![trigger buffer[i]]
            0 <= i < n ==> encoded_pk(buffer[i].0@, orders, buffer[i].0@.len() as int) != other,
    ensures
        forall|id: ColumnId|
            #![trigger cell_key(prefix, other, id)]
            stored(
                apply_writes(store, buffer_writes(prefix, orders, ids, buffer, metas, n)),
                cell_key(prefix, other, id),
            ) == stored(store, cell_key(prefix, other, id)),
    decreases n,
{
    if n > 0 {
        lemma_buffer_keeps_others(store, prefix, orders, ids, buffer, metas, n - 1, other);
        let first = buffer_writes(prefix, orders, ids, buffer, metas, n - 1);
        let pk = encoded_pk(buffer[n - 1].0@, orders, buffer[n - 1].0@.len() as int);
        let mid = apply_writes(store, first);
        lemma_apply_concat(store, first, op_writes(prefix, pk, ids, metas[n - 1], buffer[n - 1].1@));
        lemma_apply_op(mid, prefix, pk, ids, metas[n - 1], buffer[n - 1].1@);
    }
}

proof fn lemma_same_cells(a: Map<Seq<u8>, Seq<u8>>, b: Map<Seq<u8>, Seq<u8>>, prefix: Seq<u8>, pk: Seq<u8>, ids: Seq<ColumnId>)
    requires
        forall|id: ColumnId|
            #![trigger cell_key(prefix, pk, id)]
            stored(a, cell_key(prefix, pk, id)) == stored(b, cell_key(prefix, pk, id)),
    ensures
        stored_row(a, prefix, pk, ids) == stored_row(b, prefix, pk, ids),
        forall|op: RowOpView| op_applies(a, prefix, pk, ids, op) ==> #[trigger] op_applies(b, prefix, pk, ids, op),
{
    let sentinel = cell_key(prefix, pk, SENTINEL_CELL_ID);
    assert(stored(a, sentinel) == stored(b, sentinel));
    if stored_row(a, prefix, pk, ids) is Some {
        assert(stored_row(a, prefix, pk, ids).unwrap() =~= stored_row(b, prefix, pk, ids).unwrap());
    }
    assert forall|op: RowOpView| op_applies(a, prefix, pk, ids, op) implies #[trigger] op_applies(
        b,
        prefix,
        pk,
        ids,
        op,
    ) by {
        if op is Insert {
            assert forall|i: int| 0 <= i < ids.len() implies !b.contains_key(cell_key(prefix, pk, #[trigger] ids[i])) by {
                assert(stored(a, cell_key(prefix, pk, ids[i])) is None);
            }
        }
    }
}

/// Once a buffer has been written, each of its rows is found under the encoding of its own
/// primary key as its modification leaves it: as it was inserted, as it was updated to, or not
/// at all if it was deleted.
pub proof fn law_buffer_is_read_back(
    store: Map<Seq<u8>, Seq<u8>>,
    prefix: Seq<u8>,
    orders: Seq<OrderType>,
    ids: Seq<ColumnId>,
    buffer: Seq<Entry>,
    metas: Seq<ValueMeta>,
    n: int,
    i: int,
)
    requires
        ids_distinct(ids),
        0 <= i < n <= buffer.len(),
        keys_differ(orders, buffer),
        match buffer[i].1@ {
            RowOpView::Insert(row) => row.len() == ids.len(),
            RowOpView::Delete(row) => row.len() == ids.len(),
            RowOpView::Update(old_row, new_row) => old_row.len() == ids.len() && new_row.len() == ids.len(),
        },
        op_applies(
            store,
            prefix,
            encoded_pk(buffer[i].0@, orders, buffer[i].0@.len() as int),
            ids,
            buffer[i].1@,
        ),
    ensures
        stored_row(
            apply_writes(store, buffer_writes(prefix, orders, ids, buffer, metas, n)),
            prefix,
            encoded_pk(buffer[i].0@, orders, buffer[i].0@.len() as int),
            ids,
        ) == match buffer[i].1@ {
            RowOpView::Insert(row) => Some(row),
            RowOpView::Update(_, new_row) => Some(new_row),
            RowOpView::Delete(_) => None,
        },
    decreases n,
{
    let key = encoded_pk(buffer[i].0@, orders, buffer[i].0@.len() as int);
    let pk = encoded_pk(buffer[n - 1].0@, orders, buffer[n - 1].0@.len() as int);
    let op = buffer[n - 1].1@;
    let meta = metas[n - 1];
    let first = buffer_writes(prefix, orders, ids, buffer, metas, n - 1);
    let mid = apply_writes(store, first);
    lemma_apply_concat(store, first, op_writes(prefix, pk, ids, meta, op));
    if i < n - 1 {
        law_buffer_is_read_back(store, prefix, orders, ids, buffer, metas, n - 1, i);
        assert(key != pk);
        law_write_keeps_other_rows(mid, prefix, pk, ids, meta, op, key);
    } else {
        assert forall|k: int| #![trigger buffer[k]] 0 <= k < n - 1 implies encoded_pk(
            buffer[k].0@,
            orders,
            buffer[k].0@.len() as int,
        ) != pk by {
            assert(buffer[k] == buffer[k] && buffer[n - 1] == buffer[n - 1]);
        }
        lemma_buffer_keeps_others(store, prefix, orders, ids, buffer, metas, n - 1, pk);
        lemma_same_cells(store, mid, prefix, pk, ids);
        assert(op_applies(mid, prefix, pk, ids, op));
        match op {
            RowOpView::Insert(row) => {
                law_insert_then_get(mid, prefix, pk, ids, meta, row);
            },
            RowOpView::Update(old_row, new_row) => {
                law_update_then_get(mid, prefix, pk, ids, meta, old_row, new_row);
            },
            RowOpView::Delete(row) => {
                law_delete_then_get(mid, prefix, pk, ids, meta, row);
            },
        }
    }
}

/// A row under a key that is not the encoding of the primary key of one of the rows of a buffer
/// stays as it was when the buffer is written.
pub proof fn law_buffer_keeps_other_rows(
    store: Map<Seq<u8>, Seq<u8>>,
    prefix: Seq<u8>,
    orders: Seq<OrderType>,
    ids: Seq<ColumnId>,
    buffer: Seq<Entry>,
    metas: Seq<ValueMeta>,
    other: Seq<u8>,
)
    requires
        ids_distinct(ids),
        forall|i: int|
            #![trigger buffer[i]]
            0 <= i < buffer.len() ==> encoded_pk(buffer[i].0@, orders, buffer[i].0@.len() as int) != other,
    ensures
        stored_row(
            apply_writes(store, buffer_writes(prefix, orders, ids, buffer, metas, buffer.len() as int)),
            prefix,
            other,
            ids,
        ) == stored_row(store, prefix, other, ids),
{
    let after = apply_writes(store, buffer_writes(prefix, orders, ids, buffer, metas, buffer.len() as int));
    lemma_buffer_keeps_others(store, prefix, orders, ids, buffer, metas, buffer.len() as int, other);
    lemma_same_cells(after, store, prefix, other, ids);
}

/// What is written for row `i` of a buffer carries the value meta of that row: each write of a
/// buffer is under the key of one of its rows and has the meta of the same row.
pub proof fn law_writes_carry_meta(
    prefix: Seq<u8>,
    orders: Seq<OrderType>,
    ids: Seq<ColumnId>,
    buffer: Seq<Entry>,
    metas: Seq<ValueMeta>,
    n: int,
    w: int,
) -> (i: int)
    requires
        0 <= n <= buffer.len(),
        0 <= w < buffer_writes(prefix, orders, ids, buffer, metas, n).len(),
    ensures
        0 <= i < n,
        buffer_writes(prefix, orders, ids, buffer, metas, n)[w].meta == metas[i],
        exists|id: ColumnId|
            buffer_writes(prefix, orders, ids, buffer, metas, n)[w].key == #[trigger] cell_key(
                prefix,
                encoded_pk(buffer[i].0@, orders, buffer[i].0@.len() as int),
                id,
            ),
    decreases n,
{
    let first = buffer_writes(prefix, orders, ids, buffer, metas, n - 1);
    if w < first.len() {
        law_writes_carry_meta(prefix, orders, ids, buffer, metas, n - 1, w)
    } else {
        let pk = encoded_pk(buffer[n - 1].0@, orders, buffer[n - 1].0@.len() as int);
        let op = buffer[n - 1].1@;
        let all = op_writes(prefix, pk, ids, metas[n - 1], op);
        let columns = column_writes(prefix, pk, ids, metas[n - 1], op, ids.len() as int);
        let at = w - first.len();
        assert(buffer_writes(prefix, orders, ids, buffer, metas, n)[w] == all[at]);
        if at < columns.len() {
            lemma_column_write_key(prefix, pk, ids, metas[n - 1], op, ids.len() as int, at);
        } else {
            assert(all[at].key == cell_key(prefix, pk, SENTINEL_CELL_ID));
        }
        n - 1
    }
}

proof fn lemma_column_write_key(
    prefix: Seq<u8>,
    pk: Seq<u8>,
    ids: Seq<ColumnId>,
    meta: ValueMeta,
    op: RowOpView,
    n: int,
    at: int,
)
    requires
        0 <= n <= ids.len(),
        0 <= at < column_writes(prefix, pk, ids, meta, op, n).len(),
    ensures
        column_writes(prefix, pk, ids, meta, op, n)[at].meta == meta,
        exists|id: ColumnId|
            column_writes(prefix, pk, ids, meta, op, n)[at].key == #[trigger] cell_key(prefix, pk, id),
    decreases n,
{
    let rest = column_writes(prefix, pk, ids, meta, op, n - 1);
    if at < rest.len() {
        lemma_column_write_key(prefix, pk, ids, meta, op, n - 1, at);
    } else {
        assert(column_writes(prefix, pk, ids, meta, op, n)[at].key == cell_key(prefix, pk, ids[n - 1]));
    }
}

/// Puts the cells of a row together as they come.
pub struct CellBasedRowDeserializer {
    column_ids: Vec<ColumnId>,
    data: Vec<Option<Vec<u8>>>,
    pk_bytes: Option<Vec<u8>>,
}

/// The value of a [`CellBasedRowDeserializer`]: the key of the row whose cells
/// are being read, and the cells so far.
#[verifier::ext_equal]
pub struct PartialRow {
    pub pk: Option<Seq<u8>>,
    pub data: RowView,
}

/// A row with no cell set.
pub open spec fn null_row(n: nat) -> RowView {
    Seq::new(n, |i: int| None)
}

/// The column `i` has the id `id`.
pub open spec fn is_column(ids: Seq<ColumnId>, id: int, i: int) -> bool {
    0 <= i < ids.len() && ids[i] == id
}

/// The row key of a cell key.
pub open spec fn pk_of(key: Seq<u8>) -> Seq<u8> {
    key.subrange(0, key.len() - 4)
}

/// The column id of a cell key.
pub open spec fn id_of(key: Seq<u8>) -> int {
    decoded_id(key.subrange(key.len() - 4, key.len() as int))
}

/// The cell belongs to another row than the cells before it.
pub open spec fn starts_row(s: PartialRow, key: Seq<u8>) -> bool {
    s.pk is Some && s.pk.unwrap() != pk_of(key)
}

/// The cells of the row to which the cell belongs, without that cell.
pub open spec fn row_so_far(s: PartialRow, key: Seq<u8>) -> RowView {
    if starts_row(s, key) {
        null_row(s.data.len())
    } else {
        s.data
    }
}

/// `cells` with the cell of column `id` set; a cell of no known column is ignored.
pub open spec fn set_cell(ids: Seq<ColumnId>, cells: RowView, id: int, value: Seq<u8>) -> RowView {
    Seq::new(
        cells.len(),
        |i: int|
            if is_column(ids, id, i) {
                Some(value)
            } else {
                cells[i]
            },
    )
}

/// The state after a cell, and the row before it if that is complete now.
pub open spec fn after_cell(ids: Seq<ColumnId>, s: PartialRow, key: Seq<u8>, value: Seq<u8>) -> (
    PartialRow,
    Option<(Seq<u8>, RowView)>,
) {
    (
        PartialRow { pk: Some(pk_of(key)), data: set_cell(ids, row_so_far(s, key), id_of(key), value) },
        if starts_row(s, key) {
            Some((s.pk.unwrap(), s.data))
        } else {
            None
        },
    )
}

/// The cell is not there yet.
pub open spec fn cell_is_new(ids: Seq<ColumnId>, s: PartialRow, key: Seq<u8>) -> bool {
    forall|i: int| #[trigger] is_column(ids, id_of(key), i) ==> row_so_far(s, key)[i] is None
}

/// The value of an optional row with its key.
pub open spec fn keyed_row_view(r: Option<(Vec<u8>, Row)>) -> Option<(Seq<u8>, RowView)> {
    match r {
        None => None,
        Some(x) => Some((x.0@, x.1@)),
    }
}

impl View for CellBasedRowDeserializer {
    type V = PartialRow;

    closed spec fn view(&self) -> PartialRow {
        PartialRow {
            pk: match self.pk_bytes {
                None => None,
                Some(bytes) => Some(bytes@),
            },
            data: Seq::new(self.data@.len(), |i: int| cell_view(self.data@[i])),
        }
    }
}

/// A list of null cells.
fn null_cells(n: usize) -> (r: Vec<Option<Vec<u8>>>)
    ensures
        r@.len() == n,
        forall|i: int| 0 <= i < n ==> (#[trigger] r@[i]) is None,
{
    let mut r: Vec<Option<Vec<u8>>> = Vec::new();
    let mut i: usize = 0;
    while i < n
        invariant
            i <= n,
            r@.len() == i,
            forall|j: int| 0 <= j < i ==> (#[trigger] r@[j]) is None,
        decreases n - i,
    {
        r.push(None);
        i = i + 1;
    }
    r
}

impl CellBasedRowDeserializer {
    /// The ids of the columns.
    pub closed spec fn ids(&self) -> Seq<ColumnId> {
        self.column_ids@
    }

    /// There is one cell per column, and the columns can be told apart.
    pub closed spec fn wf(&self) -> bool {
        &&& self.column_ids@.len() == self.data@.len()
        &&& forall|i: int, j: int|
            0 <= i < j < self.column_ids@.len() ==> self.column_ids@[i] != self.column_ids@[j]
    }

    /// A deserializer for rows with the given columns.
    pub fn new(column_ids: Vec<ColumnId>) -> (r: CellBasedRowDeserializer)
        requires
            forall|i: int, j: int| 0 <= i < j < column_ids@.len() ==> column_ids@[i] != column_ids@[j],
        ensures
            r.wf(),
            r.ids() == column_ids@,
            r@ == (PartialRow { pk: None, data: null_row(column_ids@.len()) }),
    {
        let data = null_cells(column_ids.len());
        let r = CellBasedRowDeserializer { column_ids, data, pk_bytes: None };
        proof {
            assert(r@.data =~= null_row(column_ids@.len()));
        }
        r
    }

    /// Where the column `id` stands.
    fn position(&self, id: ColumnId) -> (r: Option<usize>)
        requires
            self.wf(),
        ensures
            match r {
                Some(i) => is_column(self.ids(), id as int, i as int) && forall|j: int|
                    #[trigger] is_column(self.ids(), id as int, j) ==> j == i,
                None => forall|j: int| !#[trigger] is_column(self.ids(), id as int, j),
            },
    {
        let mut i: usize = 0;
        while i < self.column_ids.len()
            invariant
                i <= self.column_ids@.len(),
                self.wf(),
                forall|j: int| 0 <= j < i ==> self.column_ids@[j] != id,
            decreases self.column_ids@.len() - i,
        {
            if self.column_ids[i] == id {
                return Some(i);
            }
            i = i + 1;
        }
        None
    }

    /// Takes the row that has been put together out of the deserializer.
    pub fn take(&mut self) -> (r: Option<(Vec<u8>, Row)>)
        requires
            old(self).wf(),
        ensures
            final(self).wf(),
            final(self).ids() == old(self).ids(),
            match old(self)@.pk {
                None => r is None && final(self)@ == old(self)@,
                Some(pk) => keyed_row_view(r) == Some((pk, old(self)@.data)) && final(self)@ == (PartialRow {
                    pk: None,
                    data: null_row(old(self).ids().len()),
                }),
            },
    {
        let ghost before = self@;
        match self.pk_bytes.take() {
            None => None,
            Some(bytes) => {
                let mut cells = null_cells(self.column_ids.len());
                std::mem::swap(&mut cells, &mut self.data);
                let row = Row(cells);
                proof {
                    assert(row@ =~= before.data);
                    assert(self@.data =~= null_row(self.column_ids@.len()));
                }
                Some((bytes, row))
            },
        }
    }

    /// Takes in a cell. If it belongs to another row than the cells before it,
    /// the row before it is returned.
    pub fn deserialize(&mut self, key: &Vec<u8>, value: &Vec<u8>) -> (r: Option<(Vec<u8>, Row)>)
        requires
            old(self).wf(),
            key@.len() >= 4,
            cell_is_new(old(self).ids(), old(self)@, key@),
        ensures
            final(self).wf(),
            final(self).ids() == old(self).ids(),
            (final(self)@, keyed_row_view(r)) == after_cell(old(self).ids(), old(self)@, key@, value@),
    {
        let ghost before = self@;
        let split: usize = key.len() - 4;
        let id = deserialize_column_id(key, split);
        let mut pk: Vec<u8> = Vec::new();
        let mut i: usize = 0;
        while i < split
            invariant
                i <= split,
                split == key@.len() - 4,
                pk@ == key@.subrange(0, i as int),
            decreases split - i,
        {
            pk.push(key[i]);
            i = i + 1;
        }
        let other_row: bool = match &self.pk_bytes {
            None => false,
            Some(current) => !bytes_equal(current.as_slice(), pk.as_slice()),
        };
        let result = if other_row {
            self.take()
        } else {
            None
        };
        let ghost cells = row_so_far(before, key@);
        proof {
            assert(self@.data =~= cells);
            assert(self.data@.len() == before.data.len());
        }
        self.pk_bytes = Some(pk);
        match self.position(id) {
            Some(at) => {
                self.data.set(at, Some(copy_bytes(value.as_slice())));
                proof {
                    assert(self@.data =~= set_cell(self.ids(), cells, id as int, value@));
                }
            },
            None => {
                proof {
                    assert(self@.data =~= set_cell(self.ids(), cells, id as int, value@));
                }
            },
        }
        result
    }
}

/// A stored cell.
pub type KeyValue = (Vec<u8>, Vec<u8>);

/// The state after the first `n` cells.
pub open spec fn state_after(ids: Seq<ColumnId>, items: Seq<KeyValue>, n: int) -> PartialRow
    decreases n,
{
    if n <= 0 {
        PartialRow { pk: None, data: null_row(ids.len()) }
    } else {
        after_cell(ids, state_after(ids, items, n - 1), items[n - 1].0@, items[n - 1].1@).0
    }
}

/// The rows that are complete after the first `n` cells.
pub open spec fn rows_after(ids: Seq<ColumnId>, items: Seq<KeyValue>, n: int) -> Seq<(Seq<u8>, RowView)>
    decreases n,
{
    if n <= 0 {
        Seq::empty()
    } else {
        let rest = rows_after(ids, items, n - 1);
        match after_cell(ids, state_after(ids, items, n - 1), items[n - 1].0@, items[n - 1].1@).1 {
            Some(row) => rest.push(row),
            None => rest,
        }
    }
}

/// The rows that a list of cells holds: those that are complete, and the last one.
pub open spec fn scanned_rows(ids: Seq<ColumnId>, items: Seq<KeyValue>) -> Seq<(Seq<u8>, RowView)> {
    let n = items.len() as int;
    let last = state_after(ids, items, n);
    match last.pk {
        Some(pk) => rows_after(ids, items, n).push((pk, last.data)),
        None => rows_after(ids, items, n),
    }
}

/// Every key holds a column id, and no key occurs twice.
pub open spec fn cells_wf(items: Seq<KeyValue>) -> bool {
    &&& forall|i: int| 0 <= i < items.len() ==> (#[trigger] items[i]).0@.len() >= 4
    &&& forall|i: int, j: int|
        0 <= i < j < items.len() ==> (#[trigger] items[i]).0@ != (#[trigger] items[j]).0@
}

/// A set cell comes from a cell with the current row's key.
proof fn lemma_set_cells_seen(ids: Seq<ColumnId>, items: Seq<KeyValue>, n: int, c: int)
    requires
        0 <= n <= items.len(),
        0 <= c < ids.len(),
        state_after(ids, items, n).data[c] is Some,
    ensures
        state_after(ids, items, n).pk is Some,
        exists|k: int|
            0 <= k < n && pk_of((#[trigger] items[k]).0@) == state_after(ids, items, n).pk.unwrap() && id_of(
                items[k].0@,
            ) == ids[c],
    decreases n,
{
    lemma_state_len(ids, items, n);
    if n > 0 {
        lemma_state_len(ids, items, n - 1);
        let prev = state_after(ids, items, n - 1);
        let key = items[n - 1].0@;
        if is_column(ids, id_of(key), c) {
            assert(pk_of(items[n - 1].0@) == state_after(ids, items, n).pk.unwrap());
        } else {
            assert(row_so_far(prev, key)[c] is Some);
            lemma_set_cells_seen(ids, items, n - 1, c);
        }
    }
}

proof fn lemma_state_len(ids: Seq<ColumnId>, items: Seq<KeyValue>, n: int)
    ensures
        state_after(ids, items, n).data.len() == ids.len(),
    decreases n,
{
    if n > 0 {
        lemma_state_len(ids, items, n - 1);
    }
}

/// A key is given by its row key and its column id.
proof fn lemma_key_parts(a: Seq<u8>, b: Seq<u8>)
    requires
        a.len() >= 4,
        b.len() >= 4,
        pk_of(a) == pk_of(b),
        id_of(a) == id_of(b),
    ensures
        a == b,
{
    let (ta, tb) = (a.subrange(a.len() - 4, a.len() as int), b.subrange(b.len() - 4, b.len() as int));
    assert(pk_of(a).len() == pk_of(b).len());
    assert(ta[0] == tb[0] && ta[1] == tb[1] && ta[2] == tb[2] && ta[3] == tb[3]);
    assert(a =~= pk_of(a) + ta);
    assert(ta =~= tb);
    assert(b =~= pk_of(b) + tb);
}

/// A cell whose key has not occurred is new.
proof fn lemma_cell_new(ids: Seq<ColumnId>, items: Seq<KeyValue>, n: int)
    requires
        0 <= n < items.len(),
        cells_wf(items),
    ensures
        cell_is_new(ids, state_after(ids, items, n), items[n].0@),
{
    let s = state_after(ids, items, n);
    let key = items[n].0@;
    lemma_state_len(ids, items, n);
    assert forall|c: int| #[trigger] is_column(ids, id_of(key), c) implies row_so_far(s, key)[c] is None by {
        if !starts_row(s, key) && s.data[c] is Some {
            lemma_set_cells_seen(ids, items, n, c);
            let k = choose|k: int|
                0 <= k < n && pk_of((#[trigger] items[k]).0@) == s.pk.unwrap() && id_of(items[k].0@) == ids[c];
            lemma_key_parts(items[k].0@, key);
            assert(items[k].0@ != items[n].0@);
        }
    }
}

/// The cells are those of the row `pk` in the store, each one once: its sentinel and the
/// columns that are not null.
pub open spec fn cells_of(
    store: Map<Seq<u8>, Seq<u8>>,
    prefix: Seq<u8>,
    pk: Seq<u8>,
    ids: Seq<ColumnId>,
    items: Seq<KeyValue>,
) -> bool {
    &&& cells_wf(items)
    &&& forall|k: int|
        0 <= k < items.len() ==> {
            &&& pk_of((#[trigger] items[k]).0@) == prefix + pk
            &&& stored(store, items[k].0@) == Some(items[k].1@)
        }
    &&& forall|id: ColumnId|
        (id == SENTINEL_CELL_ID || ids.contains(id)) && #[trigger] store.contains_key(cell_key(prefix, pk, id))
            ==> exists|k: int| 0 <= k < items.len() && (#[trigger] items[k]).0@ == cell_key(prefix, pk, id)
}

/// Cells of one row: the cell of a column is set as soon as it has come.
proof fn lemma_cells_set(ids: Seq<ColumnId>, items: Seq<KeyValue>, row: Seq<u8>, n: int)
    requires
        0 <= n <= items.len(),
        cells_wf(items),
        forall|k: int| 0 <= k < items.len() ==> pk_of((#[trigger] items[k]).0@) == row,
    ensures
        state_after(ids, items, n).data.len() == ids.len(),
        state_after(ids, items, n).pk == if n > 0 {
            Some(row)
        } else {
            None
        },
        forall|k: int, c: int|
            0 <= k < n && #[trigger] is_column(ids, id_of((#[trigger] items[k]).0@), c) ==> state_after(
                ids,
                items,
                n,
            ).data[c] == Some(items[k].1@),
    decreases n,
{
    lemma_state_len(ids, items, n);
    if n > 0 {
        lemma_cells_set(ids, items, row, n - 1);
        let s = state_after(ids, items, n - 1);
        let key = items[n - 1].0@;
        assert(pk_of(items[n - 1].0@) == row);
        assert forall|k: int, c: int|
            0 <= k < n && #[trigger] is_column(ids, id_of((#[trigger] items[k]).0@), c) implies state_after(
            ids,
            items,
            n,
        ).data[c] == Some(items[k].1@) by {
            if k < n - 1 {
                assert(s.data[c] == Some(items[k].1@));
                if is_column(ids, id_of(key), c) {
                    lemma_key_parts(items[k].0@, key);
                    assert(items[k].0@ != items[n - 1].0@);
                }
            }
        }
    }
}

/// A scan and single lookups give the same row.
pub proof fn law_scan_agrees_with_get(
    store: Map<Seq<u8>, Seq<u8>>,
    prefix: Seq<u8>,
    pk: Seq<u8>,
    ids: Seq<ColumnId>,
    items: Seq<KeyValue>,
)
    requires
        ids_distinct(ids),
        cells_of(store, prefix, pk, ids, items),
        items.len() > 0 ==> store.contains_key(cell_key(prefix, pk, SENTINEL_CELL_ID)),
    ensures
        stored_row(store, prefix, pk, ids) == match state_after(ids, items, items.len() as int).pk {
            Some(_) => Some(state_after(ids, items, items.len() as int).data),
            None => None,
        },
{
    let n = items.len() as int;
    let end = state_after(ids, items, n);
    lemma_cells_set(ids, items, prefix + pk, n);
    if n > 0 {
        let read = stored_row(store, prefix, pk, ids).unwrap();
        assert forall|c: int| 0 <= c < ids.len() implies read[c] == end.data[c] by {
            let key = cell_key(prefix, pk, ids[c]);
            assert(ids.contains(ids[c]));
            lemma_cell_key_parts(prefix, pk, ids[c]);
            if store.contains_key(key) {
                let k = choose|k: int| 0 <= k < items.len() && (#[trigger] items[k]).0@ == key;
                assert(is_column(ids, id_of(items[k].0@), c));
                assert(stored(store, items[k].0@) == Some(items[k].1@));
            } else if end.data[c] is Some {
                lemma_set_cells_seen(ids, items, n, c);
                let k = choose|k: int|
                    0 <= k < n && pk_of((#[trigger] items[k]).0@) == end.pk.unwrap() && id_of(items[k].0@) == ids[c];
                lemma_key_parts(items[k].0@, key);
                assert(stored(store, items[k].0@) == Some(items[k].1@));
            }
        }
        assert(read =~= end.data);
    } else if store.contains_key(cell_key(prefix, pk, SENTINEL_CELL_ID)) {
        let id = SENTINEL_CELL_ID;
        assert(exists|k: int| 0 <= k < items.len() && (#[trigger] items[k]).0@ == cell_key(prefix, pk, id));
    }
}

/// The row key and the column id of a cell key.
proof fn lemma_cell_key_parts(prefix: Seq<u8>, pk: Seq<u8>, id: ColumnId)
    ensures
        cell_key(prefix, pk, id).len() >= 4,
        pk_of(cell_key(prefix, pk, id)) == prefix + pk,
        id_of(cell_key(prefix, pk, id)) == id,
{
    let key = cell_key(prefix, pk, id);
    law_column_id_round_trip(id);
    assert(pk_of(key) =~= prefix + pk);
    assert(key.subrange(key.len() - 4, key.len() as int) =~= column_key(id));
}

/// The values of a list of rows with their keys.
pub open spec fn keyed_rows(rows: Seq<(Vec<u8>, Row)>) -> Seq<(Seq<u8>, RowView)> {
    Seq::new(rows.len(), |i: int| (rows[i].0@, rows[i].1@))
}

/// A part of a result: the columns of the rows, cell by cell.
pub struct DataChunk {
    pub columns: Vec<Vec<Option<Vec<u8>>>>,
    pub cardinality: usize,
}

/// A chunk holds the first `n` of `rows`, column by column.
pub open spec fn is_chunk(chunk: DataChunk, columns: nat, rows: Seq<Row>, n: nat) -> bool {
    &&& chunk.cardinality == n
    &&& chunk.columns@.len() == columns
    &&& forall|c: int|
        #![trigger chunk.columns@[c]]
        0 <= c < columns ==> chunk.columns@[c]@.len() == n && forall|r: int|
            0 <= r < n ==> cell_view(#[trigger] chunk.columns@[c]@[r]) == rows[r]@[c]
}

impl CellBasedTable {
    /// The keys under which the cells of a row are stored: first the sentinel,
    /// then one key per column.
    pub fn row_keys(&self, pk: &Row) -> (r: Vec<Vec<u8>>)
        requires
            self.pk_order is Some,
            pk@.len() == self.pk_order.unwrap()@.len(),
        ensures
            r@.len() == self.column_ids@.len() + 1,
            ({
                let pk_bytes = encoded_pk(pk@, self.pk_order.unwrap()@, pk@.len() as int);
                &&& r@[0]@ == cell_key(self.keyspace@, pk_bytes, SENTINEL_CELL_ID)
                &&& forall|i: int|
                    0 <= i < self.column_ids@.len() ==> (#[trigger] r@[i + 1])@ == cell_key(
                        self.keyspace@,
                        pk_bytes,
                        self.column_ids@[i],
                    )
            }),
    {
        let mut r: Vec<Vec<u8>> = Vec::new();
        match &self.pk_order {
            None => {},
            Some(order_types) => {
                let pk_bytes = serialize_pk(pk, order_types);
                r.push(self.make_cell_key(&pk_bytes, SENTINEL_CELL_ID));
                let mut i: usize = 0;
                while i < self.column_ids.len()
                    invariant
                        i <= self.column_ids@.len(),
                        r@.len() == i + 1,
                        r@[0]@ == cell_key(self.keyspace@, pk_bytes@, SENTINEL_CELL_ID),
                        forall|j: int|
                            0 <= j < i ==> (#[trigger] r@[j + 1])@ == cell_key(
                                self.keyspace@,
                                pk_bytes@,
                                self.column_ids@[j],
                            ),
                    decreases self.column_ids@.len() - i,
                {
                    r.push(self.make_cell_key(&pk_bytes, self.column_ids[i]));
                    i = i + 1;
                }
            },
        }
        r
    }

    /// The row whose cells the store returned for [`Self::row_keys`]; nothing
    /// if the sentinel does not exist.
    pub fn get_row(&self, cells: &Vec<Option<Vec<u8>>>) -> (r: Option<Row>)
        requires
            cells@.len() == self.column_ids@.len() + 1,
        ensures
            match r {
                None => cells@[0] is None,
                Some(row) => cells@[0] is Some && row@ == Seq::new(
                    self.column_ids@.len(),
                    |i: int| cell_view(cells@[i + 1]),
                ),
            },
    {
        if cells[0].is_none() {
            // if sentinel cell is none, this row doesn't exist
            return None;
        }
        let mut row: Vec<Option<Vec<u8>>> = Vec::new();
        let mut i: usize = 0;
        while i < self.column_ids.len()
            invariant
                i <= self.column_ids@.len(),
                cells@.len() == self.column_ids@.len() + 1,
                row@.len() == i,
                forall|j: int| 0 <= j < i ==> cell_view(#[trigger] row@[j]) == cell_view(cells@[j + 1]),
            decreases self.column_ids@.len() - i,
        {
            row.push(copy_cell(&cells[i + 1]));
            i = i + 1;
        }
        let r = Row(row);
        proof {
            assert(r@ =~= Seq::new(self.column_ids@.len(), |k: int| cell_view(cells@[k + 1])));
        }
        Some(r)
    }

    /// The range of keys that a scan for the row `pk` covers: from its prefix
    /// to the next key.
    pub fn row_scan_range(&self, pk: &Row) -> (r: (Vec<u8>, Vec<u8>))
        requires
            self.pk_order is Some,
            pk@.len() == self.pk_order.unwrap()@.len(),
        ensures
            r.0@ == self.keyspace@ + encoded_pk(pk@, self.pk_order.unwrap()@, pk@.len() as int),
            r.1@ == next_key_spec(r.0@),
    {
        let mut start_key: Vec<u8> = copy_bytes(self.keyspace.as_slice());
        match &self.pk_order {
            None => {},
            Some(order_types) => {
                let mut pk_bytes = serialize_pk(pk, order_types);
                start_key.append(&mut pk_bytes);
            },
        }
        let end_key = next_key(start_key.as_slice());
        (start_key, end_key)
    }

    /// All rows that a list of cells holds, each with its key.
    pub fn scan_rows(&self, items: &Vec<KeyValue>) -> (r: Vec<(Vec<u8>, Row)>)
        requires
            self.wf(),
            ids_distinct(self.column_ids@),
            cells_wf(items@),
        ensures
            keyed_rows(r@) == scanned_rows(self.column_ids@, items@),
    {
        let ghost ids = self.column_ids@;
        let mut deserializer = CellBasedRowDeserializer::new(copy_ids(&self.column_ids));
        let mut rows: Vec<(Vec<u8>, Row)> = Vec::new();
        let mut i: usize = 0;
        proof {
            assert(keyed_rows(rows@) =~= rows_after(ids, items@, 0));
        }
        while i < items.len()
            invariant
                i <= items@.len(),
                ids == self.column_ids@,
                cells_wf(items@),
                deserializer.wf(),
                deserializer.ids() == ids,
                deserializer@ == state_after(ids, items@, i as int),
                keyed_rows(rows@) == rows_after(ids, items@, i as int),
            decreases items@.len() - i,
        {
            proof {
                lemma_cell_new(ids, items@, i as int);
            }
            let ghost before = rows@;
            if let Some(row) = deserializer.deserialize(&items[i].0, &items[i].1) {
                rows.push(row);
                proof {
                    assert(keyed_rows(rows@) =~= keyed_rows(before).push((row.0@, row.1@)));
                }
            }
            i = i + 1;
        }
        let ghost before = rows@;
        if let Some(row) = deserializer.take() {
            rows.push(row);
            proof {
                assert(keyed_rows(rows@) =~= keyed_rows(before).push((row.0@, row.1@)));
            }
        }
        rows
    }

    /// The row that a scan for one row returned: the last one.
    pub fn get_row_by_scan(&self, items: &Vec<KeyValue>) -> (r: Option<Row>)
        requires
            self.wf(),
            ids_distinct(self.column_ids@),
            cells_wf(items@),
        ensures
            match r {
                None => state_after(self.column_ids@, items@, items@.len() as int).pk is None,
                Some(row) => state_after(self.column_ids@, items@, items@.len() as int).pk is Some && row@
                    == state_after(self.column_ids@, items@, items@.len() as int).data,
            },
    {
        let ghost ids = self.column_ids@;
        let mut deserializer = CellBasedRowDeserializer::new(copy_ids(&self.column_ids));
        let mut i: usize = 0;
        while i < items.len()
            invariant
                i <= items@.len(),
                ids == self.column_ids@,
                cells_wf(items@),
                deserializer.wf(),
                deserializer.ids() == ids,
                deserializer@ == state_after(ids, items@, i as int),
            decreases items@.len() - i,
        {
            proof {
                lemma_cell_new(ids, items@, i as int);
            }
            let _ = deserializer.deserialize(&items[i].0, &items[i].1);
            i = i + 1;
        }
        match deserializer.take() {
            None => None,
            Some((_, row)) => Some(row),
        }
    }

    /// The first `chunk_size` rows as columns, or all of them; nothing if
    /// there is no row.
    pub fn collect_data_chunk(&self, rows: &Vec<Row>, chunk_size: Option<usize>) -> (r: Option<DataChunk>)
        requires
            forall|i: int| 0 <= i < rows@.len() ==> (#[trigger] rows@[i])@.len() == self.schema@.len(),
        ensures
            ({
                let n: nat = match chunk_size {
                    Some(size) => if size < rows@.len() {
                        size as nat
                    } else {
                        rows@.len()
                    },
                    None => rows@.len(),
                };
                match r {
                    None => n == 0,
                    Some(chunk) => n > 0 && is_chunk(chunk, self.schema@.len(), rows@, n),
                }
            }),
    {
        let n: usize = match chunk_size {
            Some(size) => if size < rows.len() {
                size
            } else {
                rows.len()
            },
            None => rows.len(),
        };
        if n == 0 {
            return None;
        }
        let width: usize = self.schema.len();
        let mut columns: Vec<Vec<Option<Vec<u8>>>> = Vec::new();
        let mut c: usize = 0;
        while c < width
            invariant
                c <= width,
                n <= rows@.len(),
                columns@.len() == c,
                forall|i: int| 0 <= i < rows@.len() ==> (#[trigger] rows@[i])@.len() == width,
                forall|k: int|
                    #![trigger columns@[k]]
                    0 <= k < c ==> columns@[k]@.len() == n && forall|r: int|
                        0 <= r < n ==> cell_view(#[trigger] columns@[k]@[r]) == rows@[r]@[k],
            decreases width - c,
        {
            let mut column: Vec<Option<Vec<u8>>> = Vec::new();
            let mut i: usize = 0;
            while i < n
                invariant
                    i <= n <= rows@.len(),
                    c < width,
                    column@.len() == i,
                    forall|k: int| 0 <= k < rows@.len() ==> (#[trigger] rows@[k])@.len() == width,
                    forall|r: int| 0 <= r < i ==> cell_view(#[trigger] column@[r]) == rows@[r]@[c as int],
                decreases n - i,
            {
                assert(rows@[i as int]@.len() == width);
                column.push(copy_cell(&rows[i].0[c]));
                i = i + 1;
            }
            columns.push(column);
            c = c + 1;
        }
        Some(DataChunk { columns, cardinality: n })
    }
}

proof fn lemma_later_rows(ids: Seq<ColumnId>, a: Seq<KeyValue>, b: Seq<KeyValue>, n: int)
    requires
        a.len() > 0,
        0 < n <= b.len(),
        pk_of(a.last().0@) != pk_of(b[0].0@),
    ensures
        state_after(ids, a + b, a.len() + n) == state_after(ids, b, n),
        rows_after(ids, a + b, a.len() + n) == scanned_rows(ids, a) + rows_after(ids, b, n),
    decreases n,
{
    let all = a + b;
    let m = a.len() as int;
    lemma_same_cells_first(ids, a, all, m);
    lemma_state_len(ids, a, m);
    assert(all[m + n - 1] == b[n - 1]);
    let end = state_after(ids, a, m);
    assert(end.pk == Some(pk_of(a.last().0@)));
    if n == 1 {
        reveal_with_fuel(state_after, 2);
        reveal_with_fuel(rows_after, 2);
        assert(state_after(ids, all, m) == end);
        let key = b[0].0@;
        assert(starts_row(end, key));
        let none = PartialRow { pk: None, data: null_row(ids.len()) };
        assert(state_after(ids, b, 0) == none);
        assert(row_so_far(end, key) == null_row(ids.len()));
        assert(state_after(ids, all, m + 1) == state_after(ids, b, 1));
        assert(rows_after(ids, b, 1) =~= Seq::<(Seq<u8>, RowView)>::empty());
        assert(rows_after(ids, all, m + 1) =~= scanned_rows(ids, a) + rows_after(ids, b, 1));
    } else {
        lemma_later_rows(ids, a, b, n - 1);
        assert(rows_after(ids, all, m + n) =~= scanned_rows(ids, a) + rows_after(ids, b, n));
    }
}

proof fn lemma_same_cells_first(ids: Seq<ColumnId>, a: Seq<KeyValue>, all: Seq<KeyValue>, n: int)
    requires
        0 <= n <= a.len() <= all.len(),
        forall|k: int| 0 <= k < a.len() ==> a[k] == all[k],
    ensures
        state_after(ids, a, n) == state_after(ids, all, n),
        rows_after(ids, a, n) == rows_after(ids, all, n),
    decreases n,
{
    if n > 0 {
        lemma_same_cells_first(ids, a, all, n - 1);
    }
}

/// Where the key of the row changes in a scan, what is before and what is behind can be scanned each by
/// itself.
pub proof fn law_scan_splits_at_new_row(ids: Seq<ColumnId>, a: Seq<KeyValue>, b: Seq<KeyValue>)
    requires
        a.len() > 0,
        b.len() > 0,
        pk_of(a.last().0@) != pk_of(b[0].0@),
    ensures
        scanned_rows(ids, a + b) == scanned_rows(ids, a) + scanned_rows(ids, b),
{
    lemma_later_rows(ids, a, b, b.len() as int);
    assert((a + b).len() == a.len() + b.len());
    assert(scanned_rows(ids, a + b) =~= scanned_rows(ids, a) + scanned_rows(ids, b));
}

proof fn lemma_one_row(ids: Seq<ColumnId>, items: Seq<KeyValue>, row: Seq<u8>, n: int)
    requires
        0 <= n <= items.len(),
        forall|k: int| 0 <= k < items.len() ==> pk_of((#[trigger] items[k]).0@) == row,
    ensures
        state_after(ids, items, n).pk == if n > 0 {
            Some(row)
        } else {
            None
        },
        rows_after(ids, items, n) == Seq::<(Seq<u8>, RowView)>::empty(),
    decreases n,
{
    if n > 0 {
        lemma_one_row(ids, items, row, n - 1);
        assert(pk_of(items[n - 1].0@) == row);
    }
}

/// The cells of one row give that row under its key: a column for which there is a cell has its value, and
/// the others have none.
pub proof fn law_cells_of_row_give_row(ids: Seq<ColumnId>, items: Seq<KeyValue>, row: Seq<u8>, c: int)
    requires
        ids_distinct(ids),
        cells_wf(items),
        items.len() > 0,
        forall|k: int| 0 <= k < items.len() ==> pk_of((#[trigger] items[k]).0@) == row,
        0 <= c < ids.len(),
    ensures
        ({
            let rows = scanned_rows(ids, items);
            &&& rows.len() == 1
            &&& rows[0].0 == row
            &&& rows[0].1.len() == ids.len()
            &&& forall|k: int|
                0 <= k < items.len() && id_of((#[trigger] items[k]).0@) == ids[c] ==> rows[0].1[c] == Some(items[k].1@)
            &&& (forall|k: int| 0 <= k < items.len() ==> id_of((#[trigger] items[k]).0@) != ids[c]) ==> rows[0].1[c] is None
        }),
{
    let n = items.len() as int;
    let rows = scanned_rows(ids, items);
    lemma_one_row(ids, items, row, n);
    lemma_cells_set(ids, items, row, n);
    assert forall|k: int| 0 <= k < items.len() && id_of((#[trigger] items[k]).0@) == ids[c] implies rows[0].1[c] == Some(
        items[k].1@,
    ) by {
        assert(is_column(ids, id_of(items[k].0@), c));
    }
    if rows[0].1[c] is Some {
        lemma_set_cells_seen(ids, items, n, c);
    }
}

/// Which cells a change writes: of a row that is inserted those that are not empty, of a row that is
/// deleted those that were not, and of a row that is updated those that are not empty before or after it.
pub proof fn law_empty_cells_are_not_written(
    prefix: Seq<u8>,
    pk: Seq<u8>,
    ids: Seq<ColumnId>,
    meta: ValueMeta,
    op: RowOpView,
    i: int,
)
    requires
        ids_distinct(ids),
        0 <= i < ids.len(),
    ensures
        ({
            let writes = op_writes(prefix, pk, ids, meta, op);
            &&& writes.last().key == cell_key(prefix, pk, SENTINEL_CELL_ID)
            &&& writes.last().value is None <==> op is Delete
            &&& writes.last().meta == meta
            &&& (exists|w: int| 0 <= w < writes.len() && (#[trigger] writes[w]).key == cell_key(prefix, pk, ids[i]))
                <==> match op {
                RowOpView::Insert(row) => row[i] is Some,
                RowOpView::Delete(row) => row[i] is Some,
                RowOpView::Update(old_row, new_row) => old_row[i] is Some || new_row[i] is Some,
            }
        }),
{
    let n = ids.len() as int;
    let writes = op_writes(prefix, pk, ids, meta, op);
    let columns = column_writes(prefix, pk, ids, meta, op, n);
    lemma_cell_written(prefix, pk, ids, meta, op, n, i);
    if exists|w: int| 0 <= w < columns.len() && (#[trigger] columns[w]).key == cell_key(prefix, pk, ids[i]) {
        let w = choose|w: int| 0 <= w < columns.len() && (#[trigger] columns[w]).key == cell_key(prefix, pk, ids[i]);
        assert(writes[w] == columns[w]);
    }
    if exists|w: int| 0 <= w < writes.len() && (#[trigger] writes[w]).key == cell_key(prefix, pk, ids[i]) {
        let w = choose|w: int| 0 <= w < writes.len() && (#[trigger] writes[w]).key == cell_key(prefix, pk, ids[i]);
        if w == columns.len() {
            lemma_cell_key_injective(prefix, pk, SENTINEL_CELL_ID, pk, ids[i]);
        } else {
            assert(writes[w] == columns[w]);
        }
    }
}

proof fn lemma_cell_written(
    prefix: Seq<u8>,
    pk: Seq<u8>,
    ids: Seq<ColumnId>,
    meta: ValueMeta,
    op: RowOpView,
    n: int,
    i: int,
)
    requires
        ids_distinct(ids),
        0 <= n <= ids.len(),
        0 <= i < ids.len(),
    ensures
        ({
            let columns = column_writes(prefix, pk, ids, meta, op, n);
            (exists|w: int| 0 <= w < columns.len() && (#[trigger] columns[w]).key == cell_key(prefix, pk, ids[i])) <==> i
                < n && column_write(op, i) is Some
        }),
    decreases n,
{
    if n > 0 {
        lemma_cell_written(prefix, pk, ids, meta, op, n - 1, i);
        let columns = column_writes(prefix, pk, ids, meta, op, n);
        let before = column_writes(prefix, pk, ids, meta, op, n - 1);
        if exists|w: int| 0 <= w < before.len() && (#[trigger] before[w]).key == cell_key(prefix, pk, ids[i]) {
            let w = choose|w: int| 0 <= w < before.len() && (#[trigger] before[w]).key == cell_key(prefix, pk, ids[i]);
            assert(columns[w] == before[w]);
        }
        if i == n - 1 && column_write(op, i) is Some {
            assert(columns[before.len() as int].key == cell_key(prefix, pk, ids[i]));
        }
        if exists|w: int| 0 <= w < columns.len() && (#[trigger] columns[w]).key == cell_key(prefix, pk, ids[i]) {
            let w = choose|w: int| 0 <= w < columns.len() && (#[trigger] columns[w]).key == cell_key(prefix, pk, ids[i]);
            if w == before.len() {
                lemma_cell_key_injective(prefix, pk, ids[n - 1], pk, ids[i]);
            } else {
                assert(columns[w] == before[w]);
            }
        }
    }
}

/// A chunk has as many rows as it says, and in each column the cells of the rows in their order.
pub proof fn law_chunk_shows_rows(chunk: DataChunk, columns: nat, rows: Seq<Row>, n: nat, c: int, r: int)
    requires
        is_chunk(chunk, columns, rows, n),
        0 <= c < columns,
        0 <= r < n,
    ensures
        chunk.cardinality == n,
        chunk.columns@.len() == columns,
        chunk.columns@[c]@.len() == n,
        cell_view(chunk.columns@[c]@[r]) == rows[r]@[c],
{
    assert(chunk.columns@[c]@.len() == n);
}

} // verus!
