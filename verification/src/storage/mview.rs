//! Reading the rows of a materialized view, whose cells stand next to each
//! other in a key-value store.

use vstd::prelude::*;

use crate::catalog::{is_plain_field, is_unnamed, ColumnDesc, ColumnId, Field, OrderType, Schema};
use crate::common::lists::copy_indices;
use crate::hummock::key::{bytes_equal, copy_bytes};
use crate::storage::cell_based_table::{append_bytes, encoded_pk, schema_of, serialize_pk};
use crate::storage::row::Row;

verus! {

/// The four bytes that encode the position of a cell within its row.
pub open spec fn cell_idx_bytes(idx: u32) -> Seq<u8> {
    seq![
        (idx / 0x100_0000) as u8,
        (idx / 0x1_0000 % 0x100) as u8,
        (idx / 0x100 % 0x100) as u8,
        (idx % 0x100) as u8,
    ]
}

/// Encodes the position of a cell within its row.
pub fn serialize_cell_idx(idx: u32) -> (r: Vec<u8>)
    ensures
        r@ == cell_idx_bytes(idx),
{
    let mut r: Vec<u8> = Vec::new();
    r.push((idx / 0x100_0000) as u8);
    r.push((idx / 0x1_0000 % 0x100) as u8);
    r.push((idx / 0x100 % 0x100) as u8);
    r.push((idx % 0x100) as u8);
    proof {
        assert(r@ =~= cell_idx_bytes(idx));
    }
    r
}

/// `MViewTable` provides a readable cell-based row table interface,
/// so that data can be queried by AP engine.
pub struct MViewTable {
    keyspace: Vec<u8>,
    schema: Schema,
    column_descs: Vec<ColumnDesc>,
    pk_columns: Vec<usize>,
    orderings: Vec<OrderType>,
}

impl MViewTable {
    /// The prefix of all keys of the table.
    pub closed spec fn spec_keyspace(&self) -> Seq<u8> {
        self.keyspace@
    }

    /// The columns.
    pub closed spec fn spec_schema(&self) -> Seq<Field> {
        self.schema@
    }

    /// The columns with their ids.
    pub closed spec fn spec_column_descs(&self) -> Seq<ColumnDesc> {
        self.column_descs@
    }

    /// The columns of the primary key.
    pub closed spec fn spec_pk_columns(&self) -> Seq<usize> {
        self.pk_columns@
    }

    /// The direction of each column of the primary key.
    pub closed spec fn spec_orderings(&self) -> Seq<OrderType> {
        self.orderings@
    }

    /// Create a [`MViewTable`] for materialized view. A column's id is its position.
    pub fn new(keyspace: Vec<u8>, schema: Schema, pk_columns: Vec<usize>, orderings: Vec<OrderType>) -> (r: MViewTable)
        requires
            pk_columns@.len() == orderings@.len(),
        ensures
            r.spec_keyspace() == keyspace@,
            r.spec_schema() == schema@,
            r.spec_pk_columns() == pk_columns@,
            r.spec_orderings() == orderings@,
            r.spec_column_descs().len() == schema@.len(),
            forall|i: int|
                0 <= i < schema@.len() ==> is_unnamed(
                    #[trigger] r.spec_column_descs()[i],
                    i as ColumnId,
                    schema@[i].data_type,
                ),
    {
        let mut column_descs: Vec<ColumnDesc> = Vec::new();
        let n: usize = schema.len();
        let mut i: usize = 0;
        while i < n
            invariant
                i <= n,
                n == schema@.len(),
                column_descs@.len() == i,
                forall|j: int|
                    0 <= j < i ==> is_unnamed(#[trigger] column_descs@[j], j as ColumnId, schema@[j].data_type),
            decreases n - i,
        {
            column_descs.push(ColumnDesc::unnamed(i as ColumnId, schema.fields[i].data_type()));
            i = i + 1;
        }
        MViewTable { keyspace, schema, column_descs, pk_columns, orderings }
    }

    /// Create a [`MViewTable`] for batch table. The row id is the first column,
    /// and it alone is the primary key.
    pub fn new_batch(keyspace: Vec<u8>, column_descs: Vec<ColumnDesc>) -> (r: MViewTable)
        ensures
            r.spec_keyspace() == keyspace@,
            r.spec_column_descs() == column_descs@,
            schema_of(r.spec_schema(), column_descs@),
            r.spec_pk_columns() == seq![0usize],
            r.spec_orderings() == seq![OrderType::Ascending],
    {
        let mut fields: Vec<Field> = Vec::new();
        let mut i: usize = 0;
        while i < column_descs.len()
            invariant
                i <= column_descs@.len(),
                fields@.len() == i,
                forall|j: int|
                    0 <= j < i ==> is_plain_field(
                        #[trigger] fields@[j],
                        column_descs@[j].data_type,
                        column_descs@[j].name@,
                    ),
            decreases column_descs@.len() - i,
        {
            fields.push(Field::with_name(column_descs[i].data_type.copy(), column_descs[i].name.clone()));
            i = i + 1;
        }
        let mut pk_columns: Vec<usize> = Vec::new();
        pk_columns.push(0);
        let mut orderings: Vec<OrderType> = Vec::new();
        orderings.push(OrderType::Ascending);
        proof {
            assert(pk_columns@ =~= seq![0usize]);
            assert(orderings@ =~= seq![OrderType::Ascending]);
        }
        MViewTable { keyspace, schema: Schema::new(fields), column_descs, pk_columns, orderings }
    }

    /// The columns.
    pub fn schema(&self) -> (r: &Schema)
        ensures
            r@ == self.spec_schema(),
    {
        &self.schema
    }

    /// The columns with their ids.
    pub fn column_descs(&self) -> (r: &Vec<ColumnDesc>)
        ensures
            r@ == self.spec_column_descs(),
    {
        &self.column_descs
    }

    /// The key under which the cell `cell_idx` of the row `pk` stands.
    pub fn cell_key(&self, pk: &Row, cell_idx: usize) -> (r: Vec<u8>)
        requires
            cell_idx < self.spec_schema().len(),
            pk@.len() == self.spec_orderings().len(),
        ensures
            r@ == self.spec_keyspace() + encoded_pk(pk@, self.spec_orderings(), pk@.len() as int) + cell_idx_bytes(
                cell_idx as u32,
            ),
    {
        let mut r: Vec<u8> = copy_bytes(self.keyspace.as_slice());
        let pk_bytes = serialize_pk(pk, &self.orderings);
        append_bytes(&mut r, &pk_bytes, false);
        let idx_bytes = serialize_cell_idx(cell_idx as u32);
        append_bytes(&mut r, &idx_bytes, false);
        r
    }

    /// An iterator over the rows as of the given epoch.
    pub fn iter(&self, epoch: u64) -> (r: MViewTableIter)
        ensures
            r@ == (IterView {
                prefix_len: self.spec_keyspace().len(),
                width: self.spec_schema().len(),
                buf: Seq::empty(),
                next_idx: 0,
                ended: false,
                failure: None,
                epoch,
                partial: no_cells(),
            }),
    {
        let pk_columns = copy_indices(&self.pk_columns);
        MViewTableIter::new(self.keyspace.len(), self.schema.copy(), pk_columns, epoch)
    }
}

/// A key and its value.
pub type KeyValue = (Vec<u8>, Vec<u8>);

/// How many pairs one scan asks for.
pub const SCAN_LIMIT: usize = 100;

/// A request to read pairs from the key-value store.
#[derive(Debug, PartialEq, Eq)]
pub struct ScanRequest {
    /// Where to start; at the first key of the table if there is none.
    pub start_key: Option<Vec<u8>>,
    pub limit: usize,
    pub epoch: u64,
}

/// What a call of the iterator leads to.
#[derive(Debug, PartialEq, Eq)]
pub enum IterStep {
    /// The encoded cells of the next row, one after the other.
    Row(Vec<u8>),
    /// More pairs are needed; hand them to `resume`.
    Scan(ScanRequest),
    /// There are no more rows.
    End,
    Failed(String),
}

/// A step by its meaning.
pub enum StepView {
    Row(Seq<u8>),
    Scan { start_key: Option<Seq<u8>>, limit: usize, epoch: u64 },
    End,
    Failed(Seq<char>),
}

impl View for IterStep {
    type V = StepView;

    open spec fn view(&self) -> StepView {
        match self {
            IterStep::Row(bytes) => StepView::Row(bytes@),
            IterStep::Scan(request) => StepView::Scan {
                start_key: match request.start_key {
                    Some(key) => Some(key@),
                    None => None,
                },
                limit: request.limit,
                epoch: request.epoch,
            },
            IterStep::End => StepView::End,
            IterStep::Failed(message) => StepView::Failed(message@),
        }
    }
}

/// The part of a row that has been read: its primary key, how many cells, and
/// the bytes of these.
pub struct PartialRow {
    pub pk: Seq<u8>,
    pub restored: nat,
    pub bytes: Seq<u8>,
}

/// No cell has been read.
pub open spec fn no_cells() -> PartialRow {
    PartialRow { pk: Seq::empty(), restored: 0, bytes: Seq::empty() }
}

/// The state of an iterator.
#[verifier::ext_equal]
pub struct IterView {
    /// The length of the prefix of all keys.
    pub prefix_len: nat,
    /// How many cells a row has.
    pub width: nat,
    /// The pairs that were read last.
    pub buf: Seq<(Seq<u8>, Seq<u8>)>,
    /// The position of the next pair.
    pub next_idx: nat,
    pub ended: bool,
    pub failure: Option<Seq<char>>,
    pub epoch: u64,
    pub partial: PartialRow,
}

/// The primary key within a key: between the prefix and the position of the cell.
pub open spec fn pk_within(prefix_len: nat, key: Seq<u8>) -> Seq<u8> {
    key.subrange(prefix_len as int, key.len() - 4)
}

/// The error that a pair brings, given the part of the row that has been read.
pub open spec fn pair_error(prefix_len: nat, partial: PartialRow, key: Seq<u8>) -> Option<Seq<char>> {
    if key.len() < prefix_len + 4 {
        Some("corrupted key"@)
    } else if partial.restored != 0 && partial.pk != pk_within(prefix_len, key) {
        Some("primary key incorrect"@)
    } else {
        None
    }
}

/// A part of a row with one more cell.
pub open spec fn with_cell(prefix_len: nat, partial: PartialRow, pair: (Seq<u8>, Seq<u8>)) -> PartialRow {
    PartialRow {
        pk: pk_within(prefix_len, pair.0),
        restored: partial.restored + 1,
        bytes: partial.bytes + pair.1,
    }
}

/// The iterator reads the pairs at hand until a row is complete, a pair is in
/// error, or no pair is left.
pub open spec fn consume(s: IterView) -> (StepView, IterView)
    decreases s.buf.len() - s.next_idx,
{
    if s.next_idx >= s.buf.len() {
        (
            StepView::Scan {
                start_key: if s.buf.len() == 0 {
                    None
                } else {
                    Some(s.buf.last().0)
                },
                limit: SCAN_LIMIT,
                epoch: s.epoch,
            },
            s,
        )
    } else {
        let pair = s.buf[s.next_idx as int];
        let taken = IterView { next_idx: s.next_idx + 1, ..s };
        match pair_error(s.prefix_len, s.partial, pair.0) {
            Some(message) => (StepView::Failed(message), taken),
            None => {
                let partial = with_cell(s.prefix_len, s.partial, pair);
                let next = IterView { partial, ..taken };
                if partial.restored == s.width {
                    (StepView::Row(partial.bytes), next)
                } else {
                    consume(next)
                }
            },
        }
    }
}

/// What a call of `next` does.
pub open spec fn next_spec(s: IterView) -> (StepView, IterView) {
    if s.ended {
        (
            match s.failure {
                Some(message) => StepView::Failed(message),
                None => StepView::End,
            },
            s,
        )
    } else {
        consume(IterView { partial: no_cells(), ..s })
    }
}

/// What a call of `resume` does.
pub open spec fn resume_spec(s: IterView, scanned: Seq<(Seq<u8>, Seq<u8>)>) -> (StepView, IterView) {
    let loaded = IterView { buf: scanned, next_idx: 0, ..s };
    if scanned.len() == 0 {
        if s.partial.restored == 0 {
            (StepView::End, IterView { ended: true, ..loaded })
        } else {
            let message = "incomplete item"@;
            (StepView::Failed(message), IterView { ended: true, failure: Some(message), ..loaded })
        }
    } else {
        consume(loaded)
    }
}

/// The values of `n` pairs from position `from` on, one after the other.
pub open spec fn values_from(buf: Seq<(Seq<u8>, Seq<u8>)>, from: int, n: int) -> Seq<u8>
    decreases n,
{
    if n <= 0 {
        Seq::empty()
    } else {
        values_from(buf, from, n - 1) + buf[from + n - 1].1
    }
}

/// `n` pairs from position `from` on have keys of the row `pk`.
pub open spec fn cells_of_row(buf: Seq<(Seq<u8>, Seq<u8>)>, prefix_len: nat, pk: Seq<u8>, from: int, n: int) -> bool {
    &&& from + n <= buf.len()
    &&& forall|i: int|
        from <= i < from + n ==> (#[trigger] buf[i]).0.len() >= prefix_len + 4 && pk_within(prefix_len, buf[i].0)
            == pk
}

/// Where all cells of a row are at hand, the iterator gives the row that they
/// make up, and stands behind it.
pub proof fn law_next_reads_whole_row(s: IterView, pk: Seq<u8>)
    requires
        !s.ended,
        s.width > 0,
        cells_of_row(s.buf, s.prefix_len, pk, s.next_idx as int, s.width as int),
    ensures
        next_spec(s).0 == StepView::Row(values_from(s.buf, s.next_idx as int, s.width as int)),
        next_spec(s).1.next_idx == s.next_idx + s.width,
        next_spec(s).1.buf == s.buf,
{
    lemma_consume_row(IterView { partial: no_cells(), ..s }, pk, s.next_idx as int);
}

proof fn lemma_consume_row(s: IterView, pk: Seq<u8>, from: int)
    requires
        0 <= from,
        s.next_idx == from + s.partial.restored,
        s.partial.restored < s.width,
        s.partial.restored > 0 ==> s.partial.pk == pk,
        s.partial.bytes == values_from(s.buf, from, s.partial.restored as int),
        cells_of_row(s.buf, s.prefix_len, pk, from, s.width as int),
    ensures
        consume(s).0 == StepView::Row(values_from(s.buf, from, s.width as int)),
        consume(s).1.next_idx == from + s.width,
        consume(s).1.buf == s.buf,
    decreases s.width - s.partial.restored,
{
    let pair = s.buf[s.next_idx as int];
    let partial = with_cell(s.prefix_len, s.partial, pair);
    assert(pair_error(s.prefix_len, s.partial, pair.0) is None);
    if partial.restored < s.width {
        lemma_consume_row(IterView { partial, next_idx: s.next_idx + 1, ..s }, pk, from);
    }
}

/// Iterates over the rows of a materialized view. The pairs themselves are read
/// by the caller: where a step asks for a scan, `resume` takes what it gave.
pub struct MViewTableIter {
    /// The length of the prefix of all keys.
    prefix_len: usize,
    schema: Schema,
    pk_columns: Vec<usize>,
    /// A buffer to store prefetched kv pairs from state store
    buf: Vec<KeyValue>,
    /// The idx into `buf` for the next item
    next_idx: usize,
    /// A bool to indicate whether there are more data to fetch from state store
    done: bool,
    /// Cached error messages after the iteration completes or fails
    err_msg: Option<String>,
    /// A epoch representing the read snapshot
    epoch: u64,
    pk_buf: Vec<u8>,
    restored: usize,
    row_bytes: Vec<u8>,
}

/// Pairs by their bytes.
pub open spec fn pair_views(pairs: Seq<KeyValue>) -> Seq<(Seq<u8>, Seq<u8>)> {
    Seq::new(pairs.len(), |i: int| (pairs[i].0@, pairs[i].1@))
}

impl View for MViewTableIter {
    type V = IterView;

    closed spec fn view(&self) -> IterView {
        IterView {
            prefix_len: self.prefix_len as nat,
            width: self.schema@.len(),
            buf: pair_views(self.buf@),
            next_idx: self.next_idx as nat,
            ended: self.done,
            failure: match self.err_msg {
                Some(message) => Some(message@),
                None => None,
            },
            epoch: self.epoch,
            partial: PartialRow {
                pk: self.pk_buf@,
                restored: self.restored as nat,
                bytes: self.row_bytes@,
            },
        }
    }
}

/// The bytes `v[from..to]`.
fn copy_part(v: &Vec<u8>, from: usize, to: usize) -> (r: Vec<u8>)
    requires
        from <= to <= v@.len(),
    ensures
        r@ == v@.subrange(from as int, to as int),
{
    let mut r: Vec<u8> = Vec::new();
    let mut i: usize = from;
    proof {
        assert(r@ =~= v@.subrange(from as int, from as int));
    }
    while i < to
        invariant
            from <= i <= to <= v@.len(),
            r@ == v@.subrange(from as int, i as int),
        decreases to - i,
    {
        r.push(v[i]);
        i = i + 1;
        proof {
            assert(r@ =~= v@.subrange(from as int, i as int));
        }
    }
    r
}

impl MViewTableIter {
    /// The iterator's position lies within the pairs that it holds, and the part
    /// of a row that it has read is no larger than the pairs it has seen.
    pub open spec fn wf(&self) -> bool {
        self@.next_idx <= self@.buf.len()
    }

    fn new(prefix_len: usize, schema: Schema, pk_columns: Vec<usize>, epoch: u64) -> (r: MViewTableIter)
        ensures
            r@ == (IterView {
                prefix_len: prefix_len as nat,
                width: schema@.len(),
                buf: Seq::empty(),
                next_idx: 0,
                ended: false,
                failure: None,
                epoch,
                partial: no_cells(),
            }),
    {
        let r = MViewTableIter {
            prefix_len,
            schema,
            pk_columns,
            buf: Vec::new(),
            next_idx: 0,
            done: false,
            err_msg: None,
            epoch,
            pk_buf: Vec::new(),
            restored: 0,
            row_bytes: Vec::new(),
        };
        proof {
            assert(r@.buf =~= Seq::empty());
        }
        r
    }

    /// The next row, or what is needed to find it.
    pub fn next(&mut self) -> (r: IterStep)
        requires
            old(self).wf(),
        ensures
            final(self).wf(),
            (r@, final(self)@) == next_spec(old(self)@),
    {
        if self.done {
            return match &self.err_msg {
                Some(message) => IterStep::Failed(message.clone()),
                None => IterStep::End,
            };
        }
        self.pk_buf = Vec::new();
        self.restored = 0;
        self.row_bytes = Vec::new();
        let pairs: usize = self.buf.len();
        proof {
            assert(self@ =~= (IterView { partial: no_cells(), ..old(self)@ }));
            assert(self@.buf.len() == pairs);
        }
        self.consume_more()
    }

    /// Goes on with the pairs that a scan gave.
    pub fn resume(&mut self, scanned: Vec<KeyValue>) -> (r: IterStep)
        requires
            old(self).wf(),
            !old(self)@.ended,
            old(self)@.partial.restored + scanned@.len() <= usize::MAX,
        ensures
            final(self).wf(),
            (r@, final(self)@) == resume_spec(old(self)@, pair_views(scanned@)),
    {
        self.buf = scanned;
        self.next_idx = 0;
        if self.buf.len() == 0 {
            self.done = true;
            if self.restored == 0 {
                return IterStep::End;
            }
            let message: String = "incomplete item".to_owned();
            self.err_msg = Some(message.clone());
            return IterStep::Failed(message);
        }
        self.consume_more()
    }

    /// Reads the pairs at hand.
    fn consume_more(&mut self) -> (r: IterStep)
        requires
            old(self).wf(),
            old(self)@.partial.restored + old(self)@.buf.len() - old(self)@.next_idx <= usize::MAX,
        ensures
            final(self).wf(),
            (r@, final(self)@) == consume(old(self)@),
    {
        let n: usize = self.buf.len();
        while self.next_idx < n
            invariant
                self.wf(),
                n == self.buf@.len(),
                consume(self@) == consume(old(self)@),
                self@.partial.restored + self@.buf.len() - self@.next_idx <= usize::MAX,
            decreases n - self.next_idx,
        {
            let ghost before = self@;
            let i: usize = self.next_idx;
            self.next_idx = i + 1;
            let key_len: usize = self.buf[i].0.len();
            let ghost pair = before.buf[i as int];
            if key_len < 4 || key_len - 4 < self.prefix_len {
                proof {
                    assert(pair_error(before.prefix_len, before.partial, pair.0) == Some("corrupted key"@));
                }
                return IterStep::Failed("corrupted key".to_owned());
            }
            let cur_pk_buf = copy_part(&self.buf[i].0, self.prefix_len, key_len - 4);
            if self.restored == 0 {
                self.pk_buf = cur_pk_buf;
            } else if !bytes_equal(self.pk_buf.as_slice(), cur_pk_buf.as_slice()) {
                proof {
                    assert(pair_error(before.prefix_len, before.partial, pair.0) == Some("primary key incorrect"@));
                }
                return IterStep::Failed("primary key incorrect".to_owned());
            }
            append_bytes(&mut self.row_bytes, &self.buf[i].1, false);
            self.restored = self.restored + 1;
            proof {
                assert(self@.partial == with_cell(before.prefix_len, before.partial, pair));
                assert(self@ == (IterView { partial: self@.partial, next_idx: before.next_idx + 1, ..before }));
            }
            if self.restored == self.schema.len() {
                return IterStep::Row(copy_bytes(self.row_bytes.as_slice()));
            }
        }
        let start_key = if n == 0 {
            None
        } else {
            Some(copy_bytes(self.buf[n - 1].0.as_slice()))
        };
        IterStep::Scan(ScanRequest { start_key, limit: SCAN_LIMIT, epoch: self.epoch })
    }
}

/// The encoding of a cell's position is the position, from its highest byte to its lowest.
pub proof fn law_cell_idx_is_read_back(idx: u32)
    ensures
        cell_idx_bytes(idx).len() == 4,
        cell_idx_bytes(idx)[0] * 0x100_0000 + cell_idx_bytes(idx)[1] * 0x1_0000 + cell_idx_bytes(idx)[2] * 0x100
            + cell_idx_bytes(idx)[3] == idx,
{
    let x = idx as int;
    assert(x == x / 0x100_0000 * 0x100_0000 + x / 0x1_0000 % 0x100 * 0x1_0000 + x / 0x100 % 0x100 * 0x100 + x
        % 0x100);
}

proof fn lemma_consume_rest(s: IterView, pk: Seq<u8>, start: PartialRow)
    requires
        s.partial.restored < s.width,
        s.partial.restored == start.restored + s.next_idx,
        s.partial.restored > 0 ==> s.partial.pk == pk,
        s.partial.bytes == start.bytes + values_from(s.buf, 0, s.next_idx as int),
        cells_of_row(s.buf, s.prefix_len, pk, 0, s.width - start.restored),
    ensures
        consume(s).0 == StepView::Row(start.bytes + values_from(s.buf, 0, s.width - start.restored)),
        consume(s).1.next_idx == s.width - start.restored,
    decreases s.width - s.partial.restored,
{
    let pair = s.buf[s.next_idx as int];
    let partial = with_cell(s.prefix_len, s.partial, pair);
    assert(pair_error(s.prefix_len, s.partial, pair.0) is None);
    assert(partial.bytes =~= start.bytes + values_from(s.buf, 0, s.next_idx as int + 1));
    if partial.restored < s.width {
        lemma_consume_rest(IterView { partial, next_idx: s.next_idx + 1, ..s }, pk, start);
    }
}

/// Where a row began in the pairs of one scan and goes on in those of the next, the iterator puts
/// both parts together.
pub proof fn law_row_goes_on_in_next_scan(s: IterView, scanned: Seq<(Seq<u8>, Seq<u8>)>)
    requires
        !s.ended,
        0 < s.partial.restored < s.width,
        cells_of_row(scanned, s.prefix_len, s.partial.pk, 0, s.width - s.partial.restored),
    ensures
        resume_spec(s, scanned).0 == StepView::Row(
            s.partial.bytes + values_from(scanned, 0, s.width - s.partial.restored),
        ),
        resume_spec(s, scanned).1.next_idx == s.width - s.partial.restored,
{
    let loaded = IterView { buf: scanned, next_idx: 0, ..s };
    assert(loaded.partial.bytes =~= s.partial.bytes + values_from(scanned, 0, 0));
    lemma_consume_rest(loaded, s.partial.pk, s.partial);
}

/// A row whose first two cells have different primary keys is an error, and so is a key that is
/// too short to hold a primary key.
pub proof fn law_broken_rows_fail(s: IterView)
    requires
        !s.ended,
        s.next_idx < s.buf.len(),
    ensures
        s.buf[s.next_idx as int].0.len() < s.prefix_len + 4 ==> next_spec(s).0 is Failed,
        s.width > 1 && s.next_idx + 1 < s.buf.len() && s.buf[s.next_idx as int].0.len() >= s.prefix_len + 4
            && s.buf[s.next_idx as int + 1].0.len() >= s.prefix_len + 4 && s.buf[s.next_idx as int].0.subrange(
            s.prefix_len as int,
            s.buf[s.next_idx as int].0.len() - 4,
        ) != s.buf[s.next_idx as int + 1].0.subrange(s.prefix_len as int, s.buf[s.next_idx as int + 1].0.len() - 4)
            ==> next_spec(s).0 is Failed,
{
    reveal_with_fuel(consume, 3);
    let start = IterView { partial: no_cells(), ..s };
    if s.buf[s.next_idx as int].0.len() >= s.prefix_len + 4 && s.width > 1 && s.next_idx + 1 < s.buf.len() {
        let partial = with_cell(s.prefix_len, no_cells(), s.buf[s.next_idx as int]);
        let next = IterView { partial, next_idx: s.next_idx + 1, ..start };
        assert(pair_error(s.prefix_len, no_cells(), s.buf[s.next_idx as int].0) is None);
        assert(consume(start) == consume(next));
    }
}

/// Without a pair at hand the iterator asks for more as of its epoch, from the last key on that it
/// has read. If there are none, it ends, or it fails if a row is not complete; and it stays so.
pub proof fn law_iteration_ends(s: IterView)
    requires
        !s.ended,
        s.failure is None,
        s.next_idx >= s.buf.len(),
    ensures
        next_spec(s).0 matches StepView::Scan { start_key, limit, epoch } && epoch == s.epoch && limit > 0 && (s.buf.len() == 0
            ==> start_key is None) && (s.buf.len() > 0 ==> start_key == Some(s.buf[s.buf.len() - 1].0)),
        s.partial.restored == 0 ==> resume_spec(s, Seq::empty()).0 is End,
        s.partial.restored > 0 ==> resume_spec(s, Seq::empty()).0 is Failed,
        next_spec(resume_spec(s, Seq::empty()).1).0 == resume_spec(s, Seq::empty()).0,
{
}

/// A key that is too short is corrupted, and a key of another row within a row is incorrect; all others are read.
pub proof fn law_errors_of_keys(prefix_len: nat, partial: PartialRow, key: Seq<u8>)
    ensures
        key.len() < prefix_len + 4 ==> pair_error(prefix_len, partial, key) == Some("corrupted key"@),
        key.len() >= prefix_len + 4 && partial.restored != 0 && partial.pk != pk_within(prefix_len, key) ==> pair_error(
            prefix_len,
            partial,
            key,
        ) == Some("primary key incorrect"@),
        key.len() >= prefix_len + 4 && (partial.restored == 0 || partial.pk == pk_within(prefix_len, key)) ==> pair_error(
            prefix_len,
            partial,
            key,
        ) is None,
{
}

} // verus!
