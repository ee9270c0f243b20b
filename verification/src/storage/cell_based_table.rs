//! Relational data in a key-value store, one key per cell.
//!
//! The encoding is `[keyspace | pk | column_id (4B)] -> value`. A cell whose
//! key does not exist is null. One more cell, the sentinel, exists exactly if
//! the row does.

use vstd::prelude::*;

use crate::catalog::{is_plain_field, ColumnDesc, ColumnId, Field, OrderType, Schema};
use crate::hummock::key::copy_bytes;
use crate::storage::mem_table::{Entry, RowOp, RowOpView};
use crate::storage::row::{cell_view, copy_cell, CellView, Row, RowView};

verus! {

/// The column id of the sentinel cell.
pub const SENTINEL_CELL_ID: ColumnId = -1;

/// A column id as a number that keeps the order of the ids.
pub open spec fn offset_id(id: ColumnId) -> int {
    id + 0x8000_0000
}

/// The four bytes that encode a column id; they keep the order of the ids.
pub open spec fn column_key(id: ColumnId) -> Seq<u8> {
    let n = offset_id(id);
    seq![(n / 0x100_0000) as u8, (n / 0x1_0000 % 0x100) as u8, (n / 0x100 % 0x100) as u8, (n % 0x100) as u8]
}

/// Two columns have the same key only if they have the same id.
pub proof fn lemma_column_key_injective(a: ColumnId, b: ColumnId)
    requires
        column_key(a) == column_key(b),
    ensures
        a == b,
{
    let (x, y) = (offset_id(a), offset_id(b));
    let (ka, kb) = (column_key(a), column_key(b));
    assert(ka[0] == kb[0] && ka[1] == kb[1] && ka[2] == kb[2] && ka[3] == kb[3]);
    assert(x == x / 0x100_0000 * 0x100_0000 + x / 0x1_0000 % 0x100 * 0x1_0000 + x / 0x100 % 0x100 * 0x100 + x
        % 0x100);
    assert(y == y / 0x100_0000 * 0x100_0000 + y / 0x1_0000 % 0x100 * 0x1_0000 + y / 0x100 % 0x100 * 0x100 + y
        % 0x100);
}

/// The bytes that encode a column id.
pub fn serialize_column_id(id: ColumnId) -> (r: Vec<u8>)
    ensures
        r@ == column_key(id),
{
    let n: u32 = (id as i64 + 0x8000_0000) as u32;
    let mut r: Vec<u8> = Vec::new();
    r.push((n / 0x100_0000) as u8);
    r.push((n / 0x1_0000 % 0x100) as u8);
    r.push((n / 0x100 % 0x100) as u8);
    r.push((n % 0x100) as u8);
    proof {
        assert(r@ =~= column_key(id));
    }
    r
}

/// The column id that four bytes encode.
pub open spec fn decoded_id(bytes: Seq<u8>) -> int {
    bytes[0] * 0x100_0000 + bytes[1] * 0x1_0000 + bytes[2] * 0x100 + bytes[3] - 0x8000_0000
}

/// Decoding gives back the column id that was encoded.
pub proof fn law_column_id_round_trip(id: ColumnId)
    ensures
        decoded_id(column_key(id)) == id,
{
    let x = offset_id(id);
    assert(x == x / 0x100_0000 * 0x100_0000 + x / 0x1_0000 % 0x100 * 0x1_0000 + x / 0x100 % 0x100 * 0x100 + x
        % 0x100);
}

/// The column id that `bytes[from..from + 4]` encode.
pub fn deserialize_column_id(bytes: &Vec<u8>, from: usize) -> (r: ColumnId)
    requires
        from + 4 <= bytes@.len(),
    ensures
        r == decoded_id(bytes@.subrange(from as int, from + 4)),
{
    let len: usize = bytes.len();
    assert(from + 4 <= len);
    let n: i64 = bytes[from] as i64 * 0x100_0000 + bytes[from + 1] as i64 * 0x1_0000 + bytes[from + 2] as i64
        * 0x100 + bytes[from + 3] as i64;
    proof {
        let b = bytes@.subrange(from as int, from + 4);
        assert(b[0] == bytes@[from as int] && b[1] == bytes@[from + 1] && b[2] == bytes@[from + 2] && b[3]
            == bytes@[from + 3]);
    }
    (n - 0x8000_0000) as ColumnId
}

/// A cell of a primary key: a tag that tells null from a value, then the value.
pub open spec fn key_cell(cell: CellView) -> Seq<u8> {
    match cell {
        None => seq![0u8],
        Some(bytes) => seq![1u8] + bytes,
    }
}

/// Every byte replaced by its complement, which turns the order around.
pub open spec fn complement(bytes: Seq<u8>) -> Seq<u8> {
    Seq::new(bytes.len(), |i: int| (255 - bytes[i]) as u8)
}

/// A cell of a primary key in the given direction.
pub open spec fn ordered_cell(cell: CellView, order: OrderType) -> Seq<u8> {
    match order {
        OrderType::Ascending => key_cell(cell),
        OrderType::Descending => complement(key_cell(cell)),
    }
}

/// The first `n` cells of a primary key, encoded one after the other.
pub open spec fn encoded_pk(pk: RowView, orders: Seq<OrderType>, n: int) -> Seq<u8>
    decreases n,
{
    if n <= 0 {
        Seq::empty()
    } else {
        encoded_pk(pk, orders, n - 1) + ordered_cell(pk[n - 1], orders[n - 1])
    }
}

/// Appends `bytes`, or their complements, to `buf`.
pub(crate) fn append_bytes(buf: &mut Vec<u8>, bytes: &Vec<u8>, reverse: bool)
    ensures
        final(buf)@ == old(buf)@ + if reverse {
            complement(bytes@)
        } else {
            bytes@
        },
{
    let ghost before = buf@;
    let mut i: usize = 0;
    proof {
        assert(before + complement(bytes@).subrange(0, 0) =~= before);
        assert(before + bytes@.subrange(0, 0) =~= before);
    }
    while i < bytes.len()
        invariant
            i <= bytes@.len(),
            buf@ == before + if reverse {
                complement(bytes@).subrange(0, i as int)
            } else {
                bytes@.subrange(0, i as int)
            },
        decreases bytes@.len() - i,
    {
        let b: u8 = if reverse {
            255 - bytes[i]
        } else {
            bytes[i]
        };
        buf.push(b);
        i = i + 1;
        proof {
            if reverse {
                assert(buf@ =~= before + complement(bytes@).subrange(0, i as int));
            } else {
                assert(buf@ =~= before + bytes@.subrange(0, i as int));
            }
        }
    }
    proof {
        assert(complement(bytes@).subrange(0, i as int) =~= complement(bytes@));
        assert(bytes@.subrange(0, i as int) =~= bytes@);
    }
}

/// Encodes a primary key.
pub fn serialize_pk(pk: &Row, order_types: &Vec<OrderType>) -> (r: Vec<u8>)
    requires
        pk@.len() == order_types@.len(),
    ensures
        r@ == encoded_pk(pk@, order_types@, pk@.len() as int),
{
    let mut r: Vec<u8> = Vec::new();
    let mut i: usize = 0;
    while i < pk.0.len()
        invariant
            i <= pk.0@.len(),
            pk@.len() == order_types@.len(),
            r@ == encoded_pk(pk@, order_types@, i as int),
        decreases pk.0@.len() - i,
    {
        let mut cell: Vec<u8> = Vec::new();
        match &pk.0[i] {
            None => {
                cell.push(0);
            },
            Some(bytes) => {
                cell.push(1);
                append_bytes(&mut cell, bytes, false);
            },
        }
        proof {
            assert(cell@ =~= key_cell(pk@[i as int]));
        }
        append_bytes(&mut r, &cell, order_types[i] == OrderType::Descending);
        i = i + 1;
    }
    r
}

/// The virtual node of a row, stored with each of its cells.
#[derive(Clone, Copy, Debug, PartialEq, Eq, Structural)]
pub struct ValueMeta {
    pub vnode: u16,
}

impl Default for ValueMeta {
    fn default() -> (r: ValueMeta)
        ensures
            r.vnode == 0,
    {
        ValueMeta { vnode: 0 }
    }
}

/// One write to the store: a value, or nothing for a deletion.
#[derive(Debug)]
pub struct CellWrite {
    pub key: Vec<u8>,
    pub meta: ValueMeta,
    pub value: Option<Vec<u8>>,
}

/// The value of a [`CellWrite`].
#[verifier::ext_equal]
pub struct WriteView {
    pub key: Seq<u8>,
    pub meta: ValueMeta,
    pub value: Option<Seq<u8>>,
}

impl View for CellWrite {
    type V = WriteView;

    open spec fn view(&self) -> WriteView {
        WriteView { key: self.key@, meta: self.meta, value: cell_view(self.value) }
    }
}

/// The values of a sequence of writes.
pub open spec fn write_views(writes: Seq<CellWrite>) -> Seq<WriteView> {
    Seq::new(writes.len(), |i: int| writes[i]@)
}

/// The key of a cell.
pub open spec fn cell_key(prefix: Seq<u8>, pk: Seq<u8>, id: ColumnId) -> Seq<u8> {
    prefix + pk + column_key(id)
}

/// What the sentinel cell holds.
pub open spec fn sentinel_value() -> Seq<u8> {
    seq![0u8]
}

/// What a modification writes to column `i`: a value, a deletion, or nothing.
pub open spec fn column_write(op: RowOpView, i: int) -> Option<Option<Seq<u8>>> {
    match op {
        RowOpView::Insert(row) => match row[i] {
            Some(value) => Some(Some(value)),
            None => None,
        },
        RowOpView::Delete(row) => match row[i] {
            Some(_) => Some(None),
            None => None,
        },
        RowOpView::Update(old_row, new_row) => match (old_row[i], new_row[i]) {
            (_, Some(value)) => Some(Some(value)),
            (Some(_), None) => Some(None),
            (None, None) => None,
        },
    }
}

/// What a modification writes to the sentinel cell.
pub open spec fn sentinel_write(op: RowOpView) -> Option<Seq<u8>> {
    match op {
        RowOpView::Delete(_) => None,
        _ => Some(sentinel_value()),
    }
}

/// The writes of a modification to the first `n` columns.
pub open spec fn column_writes(prefix: Seq<u8>, pk: Seq<u8>, ids: Seq<ColumnId>, meta: ValueMeta, op: RowOpView, n: int) -> Seq<
    WriteView,
>
    decreases n,
{
    if n <= 0 {
        Seq::empty()
    } else {
        let rest = column_writes(prefix, pk, ids, meta, op, n - 1);
        match column_write(op, n - 1) {
            Some(value) => rest.push(WriteView { key: cell_key(prefix, pk, ids[n - 1]), meta, value }),
            None => rest,
        }
    }
}

/// All writes of a modification: first the columns, then the sentinel.
pub open spec fn op_writes(prefix: Seq<u8>, pk: Seq<u8>, ids: Seq<ColumnId>, meta: ValueMeta, op: RowOpView) -> Seq<
    WriteView,
> {
    column_writes(prefix, pk, ids, meta, op, ids.len() as int).push(
        WriteView { key: cell_key(prefix, pk, SENTINEL_CELL_ID), meta, value: sentinel_write(op) },
    )
}

/// The rows of a modification have one cell per column.
pub open spec fn op_fits(op: RowOpView, columns: nat) -> bool {
    match op {
        RowOpView::Insert(row) => row.len() == columns,
        RowOpView::Delete(row) => row.len() == columns,
        RowOpView::Update(old_row, new_row) => old_row.len() == columns && new_row.len() == columns,
    }
}

/// `CellBasedTable` is the interface accessing relational data in a key-value store.
pub struct CellBasedTable {
    /// The prefix of all keys of the table.
    pub keyspace: Vec<u8>,
    /// The schema of this table viewed by some source executor.
    pub schema: Schema,
    /// Contains strictly more info than `schema`.
    pub column_descs: Vec<ColumnDesc>,
    /// The directions of the primary key's columns; none for a table that is only read.
    pub pk_order: Option<Vec<OrderType>>,
    pub column_ids: Vec<ColumnId>,
    /// Indices of distribution keys in pk for computing value meta. None if value meta is not
    /// required.
    pub dist_key_indices: Option<Vec<usize>>,
}

/// The ids of columns.
pub open spec fn ids_of(descs: Seq<ColumnDesc>) -> Seq<ColumnId> {
    Seq::new(descs.len(), |i: int| descs[i].column_id)
}

/// The modifications of a buffer fit the table, and each has its place in `metas`.
pub open spec fn buffer_fits(buffer: Seq<Entry>, orders: nat, columns: nat) -> bool {
    forall|i: int|
        0 <= i < buffer.len() ==> (#[trigger] buffer[i]).0@.len() == orders && op_fits(buffer[i].1@, columns)
}

/// The cells of a primary key at the given positions.
pub open spec fn distribution_key(pk: RowView, indices: Seq<usize>) -> RowView {
    Seq::new(indices.len(), |k: int| pk[indices[k] as int])
}

/// The value meta of each row: its virtual node, or the default.
pub open spec fn metas_of(with_value_meta: bool, vnodes: Seq<u16>, n: nat) -> Seq<ValueMeta> {
    Seq::new(
        n,
        |i: int|
            if with_value_meta {
                ValueMeta { vnode: vnodes[i] }
            } else {
                ValueMeta { vnode: 0 }
            },
    )
}

/// The writes of the first `n` modifications of a buffer.
pub open spec fn buffer_writes(
    prefix: Seq<u8>,
    orders: Seq<OrderType>,
    ids: Seq<ColumnId>,
    buffer: Seq<Entry>,
    metas: Seq<ValueMeta>,
    n: int,
) -> Seq<WriteView>
    decreases n,
{
    if n <= 0 {
        Seq::empty()
    } else {
        let pk = buffer[n - 1].0@;
        buffer_writes(prefix, orders, ids, buffer, metas, n - 1) + op_writes(
            prefix,
            encoded_pk(pk, orders, pk.len() as int),
            ids,
            metas[n - 1],
            buffer[n - 1].1@,
        )
    }
}

/// The ids of the columns.
fn generate_column_id(column_descs: &Vec<ColumnDesc>) -> (r: Vec<ColumnId>)
    ensures
        r@ == ids_of(column_descs@),
{
    let mut r: Vec<ColumnId> = Vec::new();
    let mut i: usize = 0;
    while i < column_descs.len()
        invariant
            i <= column_descs@.len(),
            r@ == ids_of(column_descs@).subrange(0, i as int),
        decreases column_descs@.len() - i,
    {
        r.push(column_descs[i].column_id);
        i = i + 1;
        proof {
            assert(r@ =~= ids_of(column_descs@).subrange(0, i as int));
        }
    }
    proof {
        assert(ids_of(column_descs@).subrange(0, i as int) =~= ids_of(column_descs@));
    }
    r
}

/// The schema with one plain field per column.
pub open spec fn schema_of(schema: Seq<Field>, descs: Seq<ColumnDesc>) -> bool {
    &&& schema.len() == descs.len()
    &&& forall|i: int|
        0 <= i < schema.len() ==> is_plain_field(#[trigger] schema[i], descs[i].data_type, descs[i].name@)
}

impl CellBasedTable {
    /// The table's columns are told apart by their ids.
    pub open spec fn wf(&self) -> bool {
        &&& self.column_ids@ == ids_of(self.column_descs@)
        &&& schema_of(self.schema@, self.column_descs@)
    }

    /// The table knows from which columns of the primary key virtual nodes are computed, and
    /// the rows of the buffer have them.
    pub open spec fn has_distribution(&self, buffer: Seq<Entry>) -> bool {
        &&& self.dist_key_indices is Some
        &&& forall|i: int, k: int|
            #![trigger buffer[i], self.dist_key_indices.unwrap()@[k]]
            0 <= i < buffer.len() && 0 <= k < self.dist_key_indices.unwrap()@.len()
                ==> self.dist_key_indices.unwrap()@[k] < buffer[i].0@.len()
    }

    /// A table with the given columns.
    pub fn new(
        keyspace: Vec<u8>,
        column_descs: Vec<ColumnDesc>,
        pk_order: Option<Vec<OrderType>>,
        dist_key_indices: Option<Vec<usize>>,
    ) -> (r: CellBasedTable)
        ensures
            r.wf(),
            r.keyspace == keyspace,
            r.column_descs == column_descs,
            r.pk_order == pk_order,
            r.dist_key_indices == dist_key_indices,
    {
        let mut fields: Vec<Field> = Vec::new();
        let mut i: usize = 0;
        while i < column_descs.len()
            invariant
                i <= column_descs@.len(),
                fields@.len() == i,
                forall|j: int|
                    0 <= j < i ==> is_plain_field(
                        #[trigger] fields@[j],
                        column_descs@[j].data_type,
                        column_descs@[j].name@,
                    ),
            decreases column_descs@.len() - i,
        {
            fields.push(Field::with_name(column_descs[i].data_type.copy(), column_descs[i].name.clone()));
            i = i + 1;
        }
        let schema = Schema::new(fields);
        let column_ids = generate_column_id(&column_descs);
        CellBasedTable { keyspace, schema, column_descs, pk_order, column_ids, dist_key_indices }
    }

    /// A table with a primary key.
    pub fn new_for_test(keyspace: Vec<u8>, column_descs: Vec<ColumnDesc>, order_types: Vec<OrderType>) -> (r: CellBasedTable)
        ensures
            r.wf(),
            r.keyspace == keyspace,
            r.column_descs == column_descs,
            r.pk_order == Some(order_types),
            r.dist_key_indices is None,
    {
        CellBasedTable::new(keyspace, column_descs, Some(order_types), None)
    }

    /// Creates an "adhoc" [`CellBasedTable`] with specified columns.
    pub fn new_adhoc(keyspace: Vec<u8>, column_descs: Vec<ColumnDesc>) -> (r: CellBasedTable)
        ensures
            r.wf(),
            r.keyspace == keyspace,
            r.column_descs == column_descs,
            r.pk_order is None,
            r.dist_key_indices is None,
    {
        CellBasedTable::new(keyspace, column_descs, None, None)
    }

    /// The columns of the table.
    pub fn schema(&self) -> (r: &Schema)
        ensures
            *r == self.schema,
    {
        &self.schema
    }

    /// The key of a cell.
    pub fn make_cell_key(&self, pk: &Vec<u8>, id: ColumnId) -> (r: Vec<u8>)
        ensures
            r@ == cell_key(self.keyspace@, pk@, id),
    {
        let mut r: Vec<u8> = copy_bytes(self.keyspace.as_slice());
        append_bytes(&mut r, pk, false);
        let id_bytes = serialize_column_id(id);
        append_bytes(&mut r, &id_bytes, false);
        r
    }

    /// What a modification writes to column `i`.
    fn make_column_write(op: &RowOp, i: usize) -> (r: Option<Option<Vec<u8>>>)
        requires
            match op@ {
                RowOpView::Insert(row) => i < row.len(),
                RowOpView::Delete(row) => i < row.len(),
                RowOpView::Update(old_row, new_row) => i < old_row.len() && i < new_row.len(),
            },
        ensures
            match (r, column_write(op@, i as int)) {
                (None, None) => true,
                (Some(x), Some(y)) => cell_view(x) == y,
                _ => false,
            },
    {
        match op {
            RowOp::Insert(row) => {
                assert(row@[i as int] == cell_view(row.0@[i as int]));
                match &row.0[i] {
                    Some(value) => Some(Some(copy_bytes(value.as_slice()))),
                    None => None,
                }
            },
            RowOp::Delete(old_row) => {
                assert(old_row@[i as int] == cell_view(old_row.0@[i as int]));
                match &old_row.0[i] {
                    Some(_) => Some(None),
                    None => None,
                }
            },
            RowOp::Update(rows) => {
                assert(rows.0@[i as int] == cell_view(rows.0.0@[i as int]));
                assert(rows.1@[i as int] == cell_view(rows.1.0@[i as int]));
                match (&rows.0.0[i], &rows.1.0[i]) {
                    (_, Some(value)) => Some(Some(copy_bytes(value.as_slice()))),
                    (Some(_), None) => Some(None),
                    (None, None) => None,
                }
            },
        }
    }

    /// Adds the writes of one modification to `batch`.
    fn write_op(&self, batch: &mut Vec<CellWrite>, pk: &Vec<u8>, meta: ValueMeta, op: &RowOp)
        requires
            op_fits(op@, self.column_ids@.len()),
        ensures
            write_views(final(batch)@) == write_views(old(batch)@) + op_writes(
                self.keyspace@,
                pk@,
                self.column_ids@,
                meta,
                op@,
            ),
    {
        let ghost before = write_views(batch@);
        let ghost (prefix, pkv, ids) = (self.keyspace@, pk@, self.column_ids@);
        let mut i: usize = 0;
        proof {
            assert(write_views(batch@) =~= before + column_writes(prefix, pkv, ids, meta, op@, 0));
        }
        while i < self.column_ids.len()
            invariant
                i <= self.column_ids@.len(),
                op_fits(op@, self.column_ids@.len()),
                prefix == self.keyspace@,
                pkv == pk@,
                ids == self.column_ids@,
                write_views(batch@) == before + column_writes(prefix, pkv, ids, meta, op@, i as int),
            decreases self.column_ids@.len() - i,
        {
            let ghost at = batch@;
            if let Some(value) = CellBasedTable::make_column_write(op, i) {
                let key = self.make_cell_key(pk, self.column_ids[i]);
                batch.push(CellWrite { key, meta, value });
                proof {
                    assert(write_views(batch@) =~= write_views(at).push(batch@.last()@));
                }
            }
            i = i + 1;
            proof {
                assert(write_views(batch@) =~= before + column_writes(prefix, pkv, ids, meta, op@, i as int));
            }
        }
        let value: Option<Vec<u8>> = match op {
            RowOp::Delete(_) => None,
            _ => {
                let mut v: Vec<u8> = Vec::new();
                v.push(0);
                proof {
                    assert(v@ =~= sentinel_value());
                }
                Some(v)
            },
        };
        let key = self.make_cell_key(pk, SENTINEL_CELL_ID);
        let ghost at = batch@;
        batch.push(CellWrite { key, meta, value });
        proof {
            assert(write_views(batch@) =~= write_views(at).push(batch@.last()@));
            assert(write_views(batch@) =~= before + op_writes(prefix, pkv, ids, meta, op@));
        }
    }

    /// The writes of all modifications of a buffer. With value meta, row `i`
    /// carries `vnodes[i]`.
    fn batch_write_rows_inner<const WITH_VALUE_META: bool>(&self, buffer: &Vec<Entry>, vnodes: &Vec<u16>) -> (r: Vec<CellWrite>)
        requires
            self.pk_order is Some,
            buffer_fits(buffer@, self.pk_order.unwrap()@.len(), self.column_ids@.len()),
            WITH_VALUE_META ==> vnodes@.len() == buffer@.len(),
        ensures
            write_views(r@) == buffer_writes(
                self.keyspace@,
                self.pk_order.unwrap()@,
                self.column_ids@,
                buffer@,
                metas_of(WITH_VALUE_META, vnodes@, buffer@.len()),
                buffer@.len() as int,
            ),
    {
        let mut batch: Vec<CellWrite> = Vec::new();
        match &self.pk_order {
            None => {},
            Some(order_types) => {
                let ghost metas = metas_of(WITH_VALUE_META, vnodes@, buffer@.len());
                let mut i: usize = 0;
                proof {
                    assert(write_views(batch@) =~= Seq::<WriteView>::empty());
                }
                while i < buffer.len()
                    invariant
                        i <= buffer@.len(),
                        self.pk_order == Some(*order_types),
                        buffer_fits(buffer@, order_types@.len(), self.column_ids@.len()),
                        WITH_VALUE_META ==> vnodes@.len() == buffer@.len(),
                        metas == metas_of(WITH_VALUE_META, vnodes@, buffer@.len()),
                        write_views(batch@) == buffer_writes(
                            self.keyspace@,
                            order_types@,
                            self.column_ids@,
                            buffer@,
                            metas,
                            i as int,
                        ),
                    decreases buffer@.len() - i,
                {
                    let entry = &buffer[i];
                    let pk = serialize_pk(&entry.0, order_types);
                    let meta: ValueMeta = if WITH_VALUE_META {
                        ValueMeta { vnode: vnodes[i] }
                    } else {
                        ValueMeta { vnode: 0 }
                    };
                    self.write_op(&mut batch, &pk, meta, &entry.1);
                    i = i + 1;
                }
            },
        }
        batch
    }

    /// The cells of each row's primary key from which the virtual node of the row is computed.
    pub fn distribution_keys(&self, buffer: &Vec<Entry>) -> (r: Vec<Row>)
        requires
            buffer@.len() > 0 ==> self.has_distribution(buffer@),
        ensures
            r@.len() == buffer@.len(),
            forall|i: int|
                0 <= i < r@.len() ==> (#[trigger] r@[i])@ == distribution_key(
                    buffer@[i].0@,
                    self.dist_key_indices.unwrap()@,
                ),
    {
        let mut r: Vec<Row> = Vec::new();
        let mut i: usize = 0;
        while i < buffer.len()
            invariant
                i <= buffer@.len(),
                buffer@.len() > 0 ==> self.has_distribution(buffer@),
                r@.len() == i,
                forall|j: int|
                    0 <= j < i ==> (#[trigger] r@[j])@ == distribution_key(
                        buffer@[j].0@,
                        self.dist_key_indices.unwrap()@,
                    ),
            decreases buffer@.len() - i,
        {
            if let Some(indices) = &self.dist_key_indices {
                let pk = &buffer[i].0;
                let mut cells: Vec<Option<Vec<u8>>> = Vec::new();
                let mut k: usize = 0;
                while k < indices.len()
                    invariant
                        k <= indices@.len(),
                        forall|m: int| 0 <= m < indices@.len() ==> (#[trigger] indices@[m]) < pk@.len(),
                        cells@.len() == k,
                        forall|m: int|
                            0 <= m < k ==> cell_view(#[trigger] cells@[m]) == distribution_key(pk@, indices@)[m],
                    decreases indices@.len() - k,
                {
                    assert(indices@[k as int] < pk@.len());
                    cells.push(copy_cell(&pk.0[indices[k]]));
                    k = k + 1;
                }
                let key = Row(cells);
                proof {
                    assert(key@ =~= distribution_key(pk@, indices@));
                }
                r.push(key);
            }
            i = i + 1;
        }
        r
    }

    /// The writes of all modifications of a buffer, each with the virtual node of its row:
    /// `vnodes` holds those of the keys that [`Self::distribution_keys`] gives.
    pub fn batch_write_rows_with_value_meta(&self, buffer: &Vec<Entry>, vnodes: &Vec<u16>) -> (r: Vec<CellWrite>)
        requires
            self.pk_order is Some,
            buffer_fits(buffer@, self.pk_order.unwrap()@.len(), self.column_ids@.len()),
            buffer@.len() > 0 ==> self.has_distribution(buffer@),
            vnodes@.len() == buffer@.len(),
        ensures
            write_views(r@) == buffer_writes(
                self.keyspace@,
                self.pk_order.unwrap()@,
                self.column_ids@,
                buffer@,
                metas_of(true, vnodes@, buffer@.len()),
                buffer@.len() as int,
            ),
    {
        self.batch_write_rows_inner::<true>(buffer, vnodes)
    }

    /// The writes of all modifications of a buffer.
    pub fn batch_write_rows(&self, buffer: &Vec<Entry>) -> (r: Vec<CellWrite>)
        requires
            self.pk_order is Some,
            buffer_fits(buffer@, self.pk_order.unwrap()@.len(), self.column_ids@.len()),
        ensures
            write_views(r@) == buffer_writes(
                self.keyspace@,
                self.pk_order.unwrap()@,
                self.column_ids@,
                buffer@,
                metas_of(false, Seq::empty(), buffer@.len()),
                buffer@.len() as int,
            ),
    {
        let vnodes: Vec<u16> = Vec::new();
        self.batch_write_rows_inner::<false>(buffer, &vnodes)
    }
}

/// The encoding of a cell keeps the order of the values where the column is ascending, and turns it
/// around where it is descending: values that differ first at byte `i` have encodings that
/// differ first at one byte of them, in this order.
pub proof fn law_cells_keep_order(a: Seq<u8>, b: Seq<u8>, i: int)
    requires
        0 <= i < a.len(),
        i < b.len(),
        forall|j: int| 0 <= j < i ==> a[j] == b[j],
        a[i] < b[i],
    ensures
        forall|order: OrderType, j: int|
            #![trigger ordered_cell(Some(a), order)[j]]
            0 <= j <= i ==> ordered_cell(Some(a), order)[j] == ordered_cell(Some(b), order)[j],
        ordered_cell(Some(a), OrderType::Ascending)[i + 1] < ordered_cell(Some(b), OrderType::Ascending)[i + 1],
        ordered_cell(Some(a), OrderType::Descending)[i + 1] > ordered_cell(Some(b), OrderType::Descending)[i + 1],
{
    assert forall|order: OrderType, j: int|
        #![trigger ordered_cell(Some(a), order)[j]]
        0 <= j <= i implies ordered_cell(Some(a), order)[j] == ordered_cell(Some(b), order)[j] by {
        if j > 0 {
            assert(a[j - 1] == b[j - 1]);
            assert(key_cell(Some(a))[j] == a[j - 1]);
            assert(key_cell(Some(b))[j] == b[j - 1]);
        }
    }
    assert(key_cell(Some(a))[i + 1] == a[i]);
    assert(key_cell(Some(b))[i + 1] == b[i]);
}

/// A cell without a value comes before all values in an ascending column, and behind them in a
/// descending one.
pub proof fn law_null_cells_come_first(a: Seq<u8>)
    ensures
        ordered_cell(None, OrderType::Ascending)[0] < ordered_cell(Some(a), OrderType::Ascending)[0],
        ordered_cell(None, OrderType::Descending)[0] > ordered_cell(Some(a), OrderType::Descending)[0],
{
}

/// Cells with different values have different encodings.
pub proof fn law_cells_differ(a: CellView, b: CellView, order: OrderType)
    requires
        ordered_cell(a, order) == ordered_cell(b, order),
    ensures
        a == b,
{
    let (x, y) = (ordered_cell(a, order), ordered_cell(b, order));
    assert(x[0] == y[0]);
    if a is Some && b is Some {
        let (v, w) = (a->0, b->0);
        assert(x.len() == v.len() + 1 && y.len() == w.len() + 1);
        assert forall|j: int| 0 <= j < v.len() implies v[j] == w[j] by {
            assert(key_cell(a)[j + 1] == v[j] && key_cell(b)[j + 1] == w[j]);
            assert(x[j + 1] == y[j + 1]);
        }
        assert(v =~= w);
    }
}

/// The encoding of a primary key holds those of its cells from the first to the last.
pub proof fn law_primary_key_starts_with_first_cell(pk: RowView, orders: Seq<OrderType>, n: int)
    requires
        0 < n <= pk.len(),
        pk.len() == orders.len(),
    ensures
        encoded_pk(pk, orders, n) == ordered_cell(pk[0], orders[0]) + encoded_pk(
            pk.subrange(1, pk.len() as int),
            orders.subrange(1, orders.len() as int),
            n - 1,
        ),
    decreases n,
{
    let rest = pk.subrange(1, pk.len() as int);
    let rest_orders = orders.subrange(1, orders.len() as int);
    if n > 1 {
        law_primary_key_starts_with_first_cell(pk, orders, n - 1);
        assert(rest[n - 2] == pk[n - 1]);
        assert(rest_orders[n - 2] == orders[n - 1]);
    } else {
        assert(encoded_pk(pk, orders, 0) =~= Seq::empty());
        assert(encoded_pk(rest, rest_orders, 0) =~= Seq::empty());
    }
    assert(encoded_pk(pk, orders, n) =~= ordered_cell(pk[0], orders[0]) + encoded_pk(rest, rest_orders, n - 1));
}

/// The key of a cell is that of the keyspace, then that of the row, then that of the column.
pub proof fn law_cell_key_parts(prefix: Seq<u8>, pk: Seq<u8>, id: ColumnId)
    ensures
        ({
            let key = cell_key(prefix, pk, id);
            let n = (prefix.len() + pk.len()) as int;
            &&& key.len() == n + 4
            &&& key.subrange(0, prefix.len() as int) == prefix
            &&& key.subrange(prefix.len() as int, n) == pk
            &&& decoded_id(key.subrange(n, n + 4)) == id
        }),
{
    let key = cell_key(prefix, pk, id);
    let n = (prefix.len() + pk.len()) as int;
    assert(key.subrange(0, prefix.len() as int) =~= prefix);
    assert(key.subrange(prefix.len() as int, n) =~= pk);
    assert(key.subrange(n, n + 4) =~= column_key(id));
    law_column_id_round_trip(id);
}

/// The keys of the columns stand in the order of the column ids.
pub proof fn law_column_keys_keep_order(a: ColumnId, b: ColumnId)
    requires
        a < b,
    ensures
        exists|p: int|
            #![trigger column_key(a)[p]]
            0 <= p < 4 && column_key(a)[p] < column_key(b)[p] && forall|j: int|
                0 <= j < p ==> #[trigger] column_key(a)[j] == column_key(b)[j],
{
    let (x, y) = (offset_id(a), offset_id(b));
    let (ka, kb) = (column_key(a), column_key(b));
    assert(x == x / 0x100_0000 * 0x100_0000 + x / 0x1_0000 % 0x100 * 0x1_0000 + x / 0x100 % 0x100 * 0x100 + x
        % 0x100);
    assert(y == y / 0x100_0000 * 0x100_0000 + y / 0x1_0000 % 0x100 * 0x1_0000 + y / 0x100 % 0x100 * 0x100 + y
        % 0x100);
    let p: int = if ka[0] != kb[0] {
        0
    } else if ka[1] != kb[1] {
        1
    } else if ka[2] != kb[2] {
        2
    } else {
        3
    };
    assert(ka[p] < kb[p]);
    assert(forall|j: int| 0 <= j < p ==> #[trigger] ka[j] == kb[j]);
}

/// With value meta each row is written with its own virtual node, and without it with the first one.
pub proof fn law_rows_have_their_vnode(vnodes: Seq<u16>, n: nat, i: int)
    requires
        0 <= i < n,
    ensures
        metas_of(true, vnodes, n).len() == n && metas_of(false, vnodes, n).len() == n,
        metas_of(true, vnodes, n)[i].vnode == vnodes[i],
        metas_of(false, vnodes, n)[i].vnode == 0,
{
}

/// The distribution key of a row has, in the order of the positions, what stands there in its primary key.
pub proof fn law_distribution_key_is_taken_from_pk(pk: RowView, indices: Seq<usize>, k: int)
    requires
        0 <= k < indices.len(),
    ensures
        distribution_key(pk, indices).len() == indices.len(),
        distribution_key(pk, indices)[k] == pk[indices[k] as int],
{
}

/// The schema of a table has a plain field for each of its columns, in their order.
pub proof fn law_schema_follows_columns(schema: Seq<Field>, descs: Seq<ColumnDesc>, i: int)
    requires
        schema_of(schema, descs),
        0 <= i < descs.len(),
    ensures
        schema.len() == descs.len(),
        schema[i].name@ == descs[i].name@,
        schema[i].data_type == descs[i].data_type,
        ids_of(descs).len() == descs.len(),
        ids_of(descs)[i] == descs[i].column_id,
{
}

} // verus!
