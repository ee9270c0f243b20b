//! A buffer of row modifications that have not been written yet.

use vstd::prelude::*;

use crate::storage::row::{
    lemma_row_lt_irreflexive, lemma_row_lt_transitive, row_lt, Row, RowOrder, RowView,
};

verus! {

/// What happened to a row.
#[derive(Debug)]
pub enum RowOp {
    Insert(Row),
    Delete(Row),
    Update((Row, Row)),
}

/// The value of a [`RowOp`].
pub enum RowOpView {
    Insert(RowView),
    Delete(RowView),
    Update(RowView, RowView),
}

impl View for RowOp {
    type V = RowOpView;

    open spec fn view(&self) -> RowOpView {
        match self {
            RowOp::Insert(row) => RowOpView::Insert(row@),
            RowOp::Delete(row) => RowOpView::Delete(row@),
            RowOp::Update(rows) => RowOpView::Update(rows.0@, rows.1@),
        }
    }
}

impl RowOp {
    /// A copy of the modification.
    pub fn copy(&self) -> (r: RowOp)
        ensures
            r@ == self@,
    {
        match self {
            RowOp::Insert(row) => RowOp::Insert(row.copy()),
            RowOp::Delete(row) => RowOp::Delete(row.copy()),
            RowOp::Update(rows) => RowOp::Update((rows.0.copy(), rows.1.copy())),
        }
    }
}

/// A primary key with what happened to its row.
pub type Entry = (Row, RowOp);

/// The keys of the entries rise.
pub open spec fn keys_rise(entries: Seq<Entry>) -> bool {
    forall|i: int, j: int|
        0 <= i < j < entries.len() ==> row_lt((#[trigger] entries[i]).0@, (#[trigger] entries[j]).0@)
}

/// Some entry has the key `key`.
pub open spec fn has_key(entries: Seq<Entry>, key: RowView) -> bool {
    exists|i: int| 0 <= i < entries.len() && (#[trigger] entries[i]).0@ == key
}

/// Where the entry with the key `key` stands.
pub open spec fn position_of(entries: Seq<Entry>, key: RowView) -> int {
    choose|i: int| 0 <= i < entries.len() && (#[trigger] entries[i]).0@ == key
}

/// The entries as a map from keys to modifications.
pub open spec fn entries_map(entries: Seq<Entry>) -> Map<RowView, RowOpView> {
    Map::new(|key: RowView| has_key(entries, key), |key: RowView| entries[position_of(entries, key)].1@)
}

/// `MemTable` is a buffer for modify operations without encoding
#[derive(Debug)]
pub struct MemTable {
    buffer: Vec<Entry>,
}

impl View for MemTable {
    type V = Map<RowView, RowOpView>;

    closed spec fn view(&self) -> Map<RowView, RowOpView> {
        entries_map(self.buffer@)
    }
}

proof fn lemma_position_unique(entries: Seq<Entry>, i: int)
    requires
        keys_rise(entries),
        0 <= i < entries.len(),
    ensures
        has_key(entries, entries[i].0@),
        position_of(entries, entries[i].0@) == i,
        entries_map(entries).contains_key(entries[i].0@),
        entries_map(entries)[entries[i].0@] == entries[i].1@,
{
    let key = entries[i].0@;
    let k = position_of(entries, key);
    assert(0 <= k < entries.len() && entries[k].0@ == key);
    lemma_row_lt_irreflexive(key, 0);
    if k < i {
        assert(row_lt(entries[k].0@, entries[i].0@));
    } else if i < k {
        assert(row_lt(entries[i].0@, entries[k].0@));
    }
}

/// What an insertion of `value` makes of the earlier modification of a row.
pub open spec fn inserted(before: Option<RowOpView>, value: RowView) -> RowOpView {
    match before {
        Some(RowOpView::Delete(old_value)) => RowOpView::Update(old_value, value),
        _ => RowOpView::Insert(value),
    }
}

/// What a deletion of `old_value` makes of the earlier modification of a row:
/// nothing is left of a row that was inserted.
pub open spec fn deleted(before: Option<RowOpView>, old_value: RowView) -> Option<RowOpView> {
    match before {
        Some(RowOpView::Insert(_)) => None,
        Some(RowOpView::Update(first, _)) => Some(RowOpView::Delete(first)),
        _ => Some(RowOpView::Delete(old_value)),
    }
}

/// The modification of the row `key`.
pub open spec fn lookup(m: Map<RowView, RowOpView>, key: RowView) -> Option<RowOpView> {
    if m.contains_key(key) {
        Some(m[key])
    } else {
        None
    }
}

/// The table after an insertion.
pub open spec fn after_insert(m: Map<RowView, RowOpView>, key: RowView, value: RowView) -> Map<RowView, RowOpView> {
    m.insert(key, inserted(lookup(m, key), value))
}

/// The table after a deletion.
pub open spec fn after_delete(m: Map<RowView, RowOpView>, key: RowView, old_value: RowView) -> Map<RowView, RowOpView> {
    match deleted(lookup(m, key), old_value) {
        Some(op) => m.insert(key, op),
        None => m.remove(key),
    }
}

/// A row can be inserted that is not in the buffer, or that was deleted.
pub open spec fn can_insert(m: Map<RowView, RowOpView>, key: RowView) -> bool {
    match lookup(m, key) {
        None => true,
        Some(op) => op is Delete,
    }
}

/// A row can be deleted unless it was deleted already.
pub open spec fn can_delete(m: Map<RowView, RowOpView>, key: RowView) -> bool {
    match lookup(m, key) {
        None => true,
        Some(op) => !(op is Delete),
    }
}

/// Deleting a row that was inserted into the buffer leaves the buffer as it was before,
/// be the row new to it or deleted, and whatever old value the deletion names.
pub proof fn law_delete_undoes_insert(m: Map<RowView, RowOpView>, key: RowView, value: RowView, old_value: RowView)
    requires
        can_insert(m, key),
    ensures
        after_delete(after_insert(m, key, value), key, old_value) == m,
{
    assert(after_delete(after_insert(m, key, value), key, old_value) =~= m);
}

/// Inserting a row that was deleted gives an update from the old row.
pub proof fn law_insert_after_delete_updates(m: Map<RowView, RowOpView>, key: RowView, old_value: RowView, value: RowView)
    requires
        !m.contains_key(key),
    ensures
        after_insert(after_delete(m, key, old_value), key, value) == m.insert(
            key,
            RowOpView::Update(old_value, value),
        ),
{
    assert(after_insert(after_delete(m, key, old_value), key, value) =~= m.insert(
        key,
        RowOpView::Update(old_value, value),
    ));
}

/// Deleting an updated row again deletes the row as it was before the update.
pub proof fn law_delete_after_update_restores_old(m: Map<RowView, RowOpView>, key: RowView, old_value: RowView, value: RowView, last: RowView)
    requires
        !m.contains_key(key),
    ensures
        after_delete(after_insert(after_delete(m, key, old_value), key, value), key, last) == m.insert(
            key,
            RowOpView::Delete(old_value),
        ),
{
    assert(after_delete(after_insert(after_delete(m, key, old_value), key, value), key, last) =~= m.insert(
        key,
        RowOpView::Delete(old_value),
    ));
}

impl Default for MemTable {
    fn default() -> (r: MemTable)
        ensures
            r.wf(),
            r@ == Map::<RowView, RowOpView>::empty(),
    {
        MemTable::new()
    }
}

impl MemTable {
    /// No key occurs twice, and the keys rise.
    pub closed spec fn wf(&self) -> bool {
        keys_rise(self.buffer@)
    }

    /// An empty buffer.
    pub fn new() -> (r: MemTable)
        ensures
            r.wf(),
            r@ == Map::<RowView, RowOpView>::empty(),
    {
        let r = MemTable { buffer: Vec::new() };
        proof {
            assert(r@ =~= Map::<RowView, RowOpView>::empty());
        }
        r
    }

    /// Where the row `pk` stands, or where it would stand.
    fn find(&self, pk: &Row) -> (r: (usize, bool))
        requires
            self.wf(),
        ensures
            r.0 <= self.buffer@.len(),
            forall|j: int| 0 <= j < r.0 ==> row_lt((#[trigger] self.buffer@[j]).0@, pk@),
            r.1 ==> r.0 < self.buffer@.len() && self.buffer@[r.0 as int].0@ == pk@,
            !r.1 ==> forall|j: int| r.0 <= j < self.buffer@.len() ==> row_lt(pk@, (#[trigger] self.buffer@[j]).0@),
            r.1 == self@.contains_key(pk@),
            r.1 ==> self@[pk@] == self.buffer@[r.0 as int].1@,
    {
        let mut i: usize = 0;
        while i < self.buffer.len()
            invariant
                i <= self.buffer@.len(),
                self.wf(),
                forall|j: int| 0 <= j < i ==> row_lt((#[trigger] self.buffer@[j]).0@, pk@),
            decreases self.buffer@.len() - i,
        {
            match self.buffer[i].0.order(pk) {
                RowOrder::Less => {},
                RowOrder::Equal => {
                    proof {
                        lemma_position_unique(self.buffer@, i as int);
                    }
                    return (i, true);
                },
                RowOrder::Greater => {
                    proof {
                        assert forall|j: int| i <= j < self.buffer@.len() implies row_lt(
                            pk@,
                            (#[trigger] self.buffer@[j]).0@,
                        ) by {
                            if j > i {
                                lemma_row_lt_transitive(pk@, self.buffer@[i as int].0@, self.buffer@[j].0@);
                            }
                        }
                        lemma_row_lt_irreflexive(pk@, 0);
                    }
                    return (i, false);
                },
            }
            i = i + 1;
        }
        proof {
            lemma_row_lt_irreflexive(pk@, 0);
        }
        (i, false)
    }

    /// The modification of a row.
    pub fn get_row(&self, pk: &Row) -> (r: Option<RowOp>)
        requires
            self.wf(),
        ensures
            match r {
                None => lookup(self@, pk@) is None,
                Some(op) => lookup(self@, pk@) == Some(op@),
            },
    {
        let (i, found) = self.find(pk);
        if found {
            Some(self.buffer[i].1.copy())
        } else {
            None
        }
    }

    /// Puts `op` at position `i` for the row `pk` that is not in the buffer.
    fn put_new(&mut self, i: usize, pk: Row, op: RowOp)
        requires
            old(self).wf(),
            i <= old(self).buffer@.len(),
            forall|j: int| 0 <= j < i ==> row_lt((#[trigger] old(self).buffer@[j]).0@, pk@),
            forall|j: int| i <= j < old(self).buffer@.len() ==> row_lt(pk@, (#[trigger] old(self).buffer@[j]).0@),
        ensures
            final(self).wf(),
            final(self)@ == old(self)@.insert(pk@, op@),
    {
        let ghost before = self.buffer@;
        let ghost key = pk@;
        let ghost opv = op@;
        self.buffer.insert(i, (pk, op));
        proof {
            let after = self.buffer@;
            assert forall|x: int, y: int| 0 <= x < y < after.len() implies row_lt(
                (#[trigger] after[x]).0@,
                (#[trigger] after[y]).0@,
            ) by {
                let bx = if x < i {
                    x
                } else {
                    x - 1
                };
                let by_ = if y < i {
                    y
                } else {
                    y - 1
                };
                if x != i && y != i {
                    assert(after[x] == before[bx] && after[y] == before[by_]);
                } else if x == i {
                    assert(after[y] == before[by_]);
                } else {
                    assert(after[x] == before[bx]);
                }
            }
            lemma_position_unique(after, i as int);
            assert forall|k: RowView| has_key(after, k) == (k == key || has_key(before, k)) by {
                if has_key(before, k) {
                    let p = position_of(before, k);
                    if p < i {
                        assert(after[p].0@ == k);
                    } else {
                        assert(after[p + 1].0@ == k);
                    }
                }
                if has_key(after, k) && k != key {
                    let p = position_of(after, k);
                    if p < i {
                        assert(before[p].0@ == k);
                    } else {
                        assert(before[p - 1].0@ == k);
                    }
                }
            }
            assert forall|k: RowView| has_key(after, k) && k != key implies #[trigger] entries_map(after)[k]
                == entries_map(before)[k] by {
                let p = position_of(before, k);
                lemma_position_unique(before, p);
                if p < i {
                    assert(after[p] == before[p]);
                    lemma_position_unique(after, p);
                } else {
                    assert(after[p + 1] == before[p]);
                    lemma_position_unique(after, p + 1);
                }
            }
            assert(entries_map(after) =~= entries_map(before).insert(key, opv));
        }
    }

    /// Replaces the modification at position `i`.
    fn replace(&mut self, i: usize, op: RowOp)
        requires
            old(self).wf(),
            i < old(self).buffer@.len(),
        ensures
            final(self).wf(),
            final(self)@ == old(self)@.insert(old(self).buffer@[i as int].0@, op@),
    {
        let ghost before = self.buffer@;
        let ghost key = before[i as int].0@;
        let ghost opv = op@;
        let (pk, _) = self.buffer.remove(i);
        let ghost middle = self.buffer@;
        self.buffer.insert(i, (pk, op));
        proof {
            let after = self.buffer@;
            assert(after.len() == before.len());
            assert forall|x: int| 0 <= x < after.len() implies (#[trigger] after[x]).0@ == before[x].0@ && (x != i
                ==> after[x] == before[x]) by {}
            assert forall|x: int, y: int| 0 <= x < y < after.len() implies row_lt(
                (#[trigger] after[x]).0@,
                (#[trigger] after[y]).0@,
            ) by {
                assert(row_lt(before[x].0@, before[y].0@));
            }
            lemma_position_unique(after, i as int);
            assert forall|k: RowView| has_key(after, k) == has_key(before, k) by {
                if has_key(before, k) {
                    let p = position_of(before, k);
                    assert(after[p].0@ == k);
                }
                if has_key(after, k) {
                    let p = position_of(after, k);
                    assert(before[p].0@ == k);
                }
            }
            lemma_position_unique(before, i as int);
            assert forall|k: RowView| has_key(after, k) && k != key implies #[trigger] entries_map(after)[k]
                == entries_map(before)[k] by {
                let p = position_of(before, k);
                lemma_position_unique(before, p);
                assert(after[p] == before[p]);
                lemma_position_unique(after, p);
            }
            assert(entries_map(after) =~= entries_map(before).insert(key, opv));
        }
    }

    /// Removes the modification at position `i`.
    fn remove(&mut self, i: usize)
        requires
            old(self).wf(),
            i < old(self).buffer@.len(),
        ensures
            final(self).wf(),
            final(self)@ == old(self)@.remove(old(self).buffer@[i as int].0@),
    {
        let ghost before = self.buffer@;
        let ghost key = before[i as int].0@;
        self.buffer.remove(i);
        proof {
            let after = self.buffer@;
            assert forall|x: int, y: int| 0 <= x < y < after.len() implies row_lt(
                (#[trigger] after[x]).0@,
                (#[trigger] after[y]).0@,
            ) by {
                let bx = if x < i {
                    x
                } else {
                    x + 1
                };
                let by_ = if y < i {
                    y
                } else {
                    y + 1
                };
                assert(after[x] == before[bx] && after[y] == before[by_]);
            }
            lemma_position_unique(before, i as int);
            assert forall|k: RowView| has_key(after, k) == (k != key && has_key(before, k)) by {
                if has_key(before, k) && k != key {
                    let p = position_of(before, k);
                    if p < i {
                        assert(after[p].0@ == k);
                    } else {
                        assert(after[p - 1].0@ == k);
                    }
                }
                if has_key(after, k) {
                    let p = position_of(after, k);
                    let bp = if p < i {
                        p
                    } else {
                        p + 1
                    };
                    assert(before[bp].0@ == k);
                    lemma_position_unique(before, bp);
                }
            }
            assert forall|k: RowView| has_key(after, k) implies #[trigger] entries_map(after)[k] == entries_map(
                before,
            )[k] by {
                let p = position_of(before, k);
                lemma_position_unique(before, p);
                let ap = if p < i {
                    p
                } else {
                    p - 1
                };
                assert(after[ap] == before[p]);
                lemma_position_unique(after, ap);
            }
            assert(entries_map(after) =~= entries_map(before).remove(key));
        }
    }

    /// Inserts a row. A row that was deleted before becomes an update.
    pub fn insert(&mut self, pk: Row, value: Row)
        requires
            old(self).wf(),
            can_insert(old(self)@, pk@),
        ensures
            final(self).wf(),
            final(self)@ == after_insert(old(self)@, pk@, value@),
    {
        let (i, found) = self.find(&pk);
        if !found {
            self.put_new(i, pk, RowOp::Insert(value));
        } else {
            let old_val: Option<Row> = match &self.buffer[i].1 {
                RowOp::Delete(old_value) => Some(old_value.copy()),
                _ => None,
            };
            if let Some(old_value) = old_val {
                self.replace(i, RowOp::Update((old_value, value)));
            }
        }
    }

    /// Deletes a row. A row that was inserted before leaves the buffer; of one
    /// that was updated the first version is deleted.
    pub fn delete(&mut self, pk: Row, old_value: Row)
        requires
            old(self).wf(),
            can_delete(old(self)@, pk@),
        ensures
            final(self).wf(),
            final(self)@ == after_delete(old(self)@, pk@, old_value@),
    {
        let (i, found) = self.find(&pk);
        if !found {
            self.put_new(i, pk, RowOp::Delete(old_value));
        } else {
            let first: Option<Row> = match &self.buffer[i].1 {
                RowOp::Update(rows) => Some(rows.0.copy()),
                _ => None,
            };
            match first {
                Some(old_val) => {
                    self.replace(i, RowOp::Delete(old_val));
                },
                None => {
                    self.remove(i);
                },
            }
        }
    }

    /// All modifications, by rising key.
    pub fn into_parts(self) -> (r: Vec<Entry>)
        requires
            self.wf(),
        ensures
            keys_rise(r@),
            entries_map(r@) == self@,
    {
        self.buffer
    }
}

/// The row under a key of a table whose changes are still in memory.
pub open spec fn row_seen(m: Map<RowView, RowOpView>, stored: Map<RowView, RowView>, key: RowView) -> Option<RowView> {
    match lookup(m, key) {
        Some(RowOpView::Insert(row)) => Some(row),
        Some(RowOpView::Update(_, row)) => Some(row),
        Some(RowOpView::Delete(_)) => None,
        None => if stored.contains_key(key) {
            Some(stored[key])
        } else {
            None
        },
    }
}

/// The changes fit the table that they are to be written to: what is inserted is not there yet, and what is
/// deleted or updated is there with the old row that the change names.
pub open spec fn fits_stored(m: Map<RowView, RowOpView>, stored: Map<RowView, RowView>) -> bool {
    forall|key: RowView| #[trigger]
        m.contains_key(key) ==> match m[key] {
            RowOpView::Insert(_) => !stored.contains_key(key),
            RowOpView::Delete(row) => stored.contains_key(key) && stored[key] == row,
            RowOpView::Update(row, _) => stored.contains_key(key) && stored[key] == row,
        }
}

/// After a row was inserted under a key that has none, the key has that row, the other keys have theirs, and the
/// changes still fit the table.
pub proof fn law_inserted_row_is_seen(
    m: Map<RowView, RowOpView>,
    stored: Map<RowView, RowView>,
    key: RowView,
    value: RowView,
    other: RowView,
)
    requires
        fits_stored(m, stored),
        row_seen(m, stored, key) is None,
        other != key,
    ensures
        can_insert(m, key),
        row_seen(after_insert(m, key, value), stored, key) == Some(value),
        row_seen(after_insert(m, key, value), stored, other) == row_seen(m, stored, other),
        fits_stored(after_insert(m, key, value), stored),
{
    let after = after_insert(m, key, value);
    assert forall|k: RowView| #[trigger] after.contains_key(k) implies match after[k] {
        RowOpView::Insert(_) => !stored.contains_key(k),
        RowOpView::Delete(row) => stored.contains_key(k) && stored[k] == row,
        RowOpView::Update(row, _) => stored.contains_key(k) && stored[k] == row,
    } by {
        if k != key {
            assert(m.contains_key(k));
        } else if m.contains_key(key) {
            assert(m[key] is Delete);
        }
    }
    if m.contains_key(key) {
        assert(m[key] is Delete);
    }
}

/// After the row of a key was deleted, the key has none, the other keys have theirs, and the changes still fit the
/// table.
pub proof fn law_deleted_row_is_gone(
    m: Map<RowView, RowOpView>,
    stored: Map<RowView, RowView>,
    key: RowView,
    old_value: RowView,
    other: RowView,
)
    requires
        fits_stored(m, stored),
        row_seen(m, stored, key) == Some(old_value),
        other != key,
    ensures
        can_delete(m, key),
        row_seen(after_delete(m, key, old_value), stored, key) is None,
        row_seen(after_delete(m, key, old_value), stored, other) == row_seen(m, stored, other),
        fits_stored(after_delete(m, key, old_value), stored),
{
    let after = after_delete(m, key, old_value);
    assert forall|k: RowView| #[trigger] after.contains_key(k) implies match after[k] {
        RowOpView::Insert(_) => !stored.contains_key(k),
        RowOpView::Delete(row) => stored.contains_key(k) && stored[k] == row,
        RowOpView::Update(row, _) => stored.contains_key(k) && stored[k] == row,
    } by {
        if k != key {
            assert(m.contains_key(k));
        } else if m.contains_key(key) {
            assert(!(m[key] is Delete));
        }
    }
    if m.contains_key(key) {
        assert(!(m[key] is Delete));
    }
}

} // verus!
