//! Chunks of rows and of changes.

use vstd::prelude::*;

verus! {

/// What happens to a row.
#[derive(Clone, Copy, Debug, PartialEq, Eq, Structural)]
pub enum Op {
    Insert,
    Delete,
    UpdateDelete,
    UpdateInsert,
}

/// Rows, some of which may be hidden.
#[derive(Debug)]
pub struct DataChunk<C> {
    pub rows: Vec<Vec<C>>,
    pub visibility: Option<Vec<bool>>,
}

/// Rows, and what happens to each.
#[derive(Debug)]
pub struct StreamChunk<C> {
    pub ops: Vec<Op>,
    pub data: DataChunk<C>,
}

/// Row `i` is not hidden.
pub open spec fn is_visible<C>(chunk: DataChunk<C>, i: int) -> bool {
    match chunk.visibility {
        Some(vis) => vis@[i],
        None => true,
    }
}

/// Which of the first `n` rows are not hidden.
pub open spec fn visible_rows<C>(chunk: DataChunk<C>, n: int) -> Seq<int>
    decreases n,
{
    if n <= 0 {
        Seq::empty()
    } else if is_visible(chunk, n - 1) {
        visible_rows(chunk, n - 1).push(n - 1)
    } else {
        visible_rows(chunk, n - 1)
    }
}

pub proof fn lemma_visible_rows<C>(chunk: DataChunk<C>, n: int)
    requires
        0 <= n,
    ensures
        visible_rows(chunk, n).len() <= n,
        forall|k: int| 0 <= k < visible_rows(chunk, n).len() ==> 0 <= #[trigger] visible_rows(chunk, n)[k] < n,
    decreases n,
{
    if n > 0 {
        lemma_visible_rows(chunk, n - 1);
    }
}

impl<C> DataChunk<C> {
    /// There is one mark per row, if any.
    pub open spec fn wf(&self) -> bool {
        self.visibility matches Some(vis) ==> vis@.len() == self.rows@.len()
    }

    /// Whether row `i` is not hidden.
    pub fn visible(&self, i: usize) -> (r: bool)
        requires
            self.wf(),
            i < self.rows@.len(),
        ensures
            r == is_visible(*self, i as int),
    {
        match &self.visibility {
            Some(vis) => vis[i],
            None => true,
        }
    }

    /// How many rows there are, hidden ones among them.
    pub fn capacity(&self) -> (r: usize)
        ensures
            r == self.rows@.len(),
    {
        self.rows.len()
    }

    /// How many rows are not hidden.
    pub fn cardinality(&self) -> (r: usize)
        requires
            self.wf(),
        ensures
            r == visible_rows(*self, self.rows@.len() as int).len(),
    {
        let mut n: usize = 0;
        let mut i: usize = 0;
        while i < self.rows.len()
            invariant
                i <= self.rows@.len(),
                self.wf(),
                n == visible_rows(*self, i as int).len(),
                n <= i,
            decreases self.rows@.len() - i,
        {
            if self.visible(i) {
                n = n + 1;
            }
            i = i + 1;
        }
        n
    }
}

impl<C> StreamChunk<C> {
    /// There is one operation per row.
    pub open spec fn wf(&self) -> bool {
        self.data.wf() && self.ops@.len() == self.data.rows@.len()
    }
}

/// The rows that are not hidden are those that are marked, or all if there are no marks, in their
/// order.
pub proof fn law_visible_rows_are_marked<C>(chunk: DataChunk<C>, n: int)
    requires
        chunk.wf(),
        0 <= n <= chunk.rows@.len(),
    ensures
        ({
            let list = visible_rows(chunk, n);
            &&& forall|i: int, j: int| 0 <= i < j < list.len() ==> (#[trigger] list[i]) < (#[trigger] list[j])
            &&& forall|i: int| #[trigger]
                list.contains(i) <==> 0 <= i < n && (chunk.visibility matches Some(marks) ==> marks@[i])
        }),
    decreases n,
{
    let list = visible_rows(chunk, n);
    if n > 0 {
        law_visible_rows_are_marked(chunk, n - 1);
        lemma_visible_rows(chunk, n - 1);
        let before = visible_rows(chunk, n - 1);
        assert forall|i: int| #[trigger]
            list.contains(i) <==> 0 <= i < n && (chunk.visibility matches Some(marks) ==> marks@[i]) by {
            if is_visible(chunk, n - 1) {
                vstd::seq_lib::lemma_seq_contains_after_push(before, n - 1, i);
            }
            assert(before.contains(i) <==> 0 <= i < n - 1 && (chunk.visibility matches Some(marks) ==> marks@[i]));
        }
    }
}

} // verus!
