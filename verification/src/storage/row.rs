//! Rows of encoded cells, their order, and how they become keys.

use vstd::prelude::*;

use crate::hummock::key::{
    bytes_less, bytes_lt, copy_bytes, lemma_bytes_lt_irreflexive, lemma_bytes_lt_transitive,
    lemma_bytes_trichotomy,
};

verus! {

/// A row. Each cell is null or the memory-comparable encoding of its value.
#[derive(Debug)]
pub struct Row(pub Vec<Option<Vec<u8>>>);

/// The value of a cell.
pub type CellView = Option<Seq<u8>>;

/// The value of a row.
pub type RowView = Seq<CellView>;

/// The value of a cell.
pub open spec fn cell_view(cell: Option<Vec<u8>>) -> CellView {
    match cell {
        None => None,
        Some(bytes) => Some(bytes@),
    }
}

impl View for Row {
    type V = RowView;

    open spec fn view(&self) -> RowView {
        Seq::new(self.0@.len(), |i: int| cell_view(self.0@[i]))
    }
}

/// Null comes before every value; values are ordered by their encoding.
pub open spec fn cell_lt(a: CellView, b: CellView) -> bool {
    match (a, b) {
        (None, Some(_)) => true,
        (Some(x), Some(y)) => bytes_lt(x, y),
        _ => false,
    }
}

/// The lexicographic order of rows, looking at the cells from `i` on.
pub open spec fn row_lt_from(a: RowView, b: RowView, i: int) -> bool
    decreases b.len() - i,
{
    if i >= b.len() {
        false
    } else if i >= a.len() {
        true
    } else if a[i] != b[i] {
        cell_lt(a[i], b[i])
    } else {
        row_lt_from(a, b, i + 1)
    }
}

/// The lexicographic order of rows.
pub open spec fn row_lt(a: RowView, b: RowView) -> bool {
    row_lt_from(a, b, 0)
}

proof fn lemma_cell_order(a: CellView, b: CellView, c: CellView)
    ensures
        !cell_lt(a, a),
        a == b || cell_lt(a, b) || cell_lt(b, a),
        cell_lt(a, b) && cell_lt(b, c) ==> cell_lt(a, c),
{
    if let Some(x) = a {
        lemma_bytes_lt_irreflexive(x, 0);
        if let Some(y) = b {
            lemma_bytes_trichotomy(x, y);
            if let Some(z) = c {
                if bytes_lt(x, y) && bytes_lt(y, z) {
                    lemma_bytes_lt_transitive(x, y, z);
                }
            }
        }
    }
}

/// No row comes before itself.
pub proof fn lemma_row_lt_irreflexive(a: RowView, i: int)
    ensures
        !row_lt_from(a, a, i),
    decreases a.len() - i,
{
    if i < a.len() {
        lemma_row_lt_irreflexive(a, i + 1);
    }
}

proof fn lemma_row_trichotomy_from(a: RowView, b: RowView, i: int)
    requires
        0 <= i,
        i <= a.len(),
        i <= b.len(),
        forall|j: int| 0 <= j < i ==> a[j] == b[j],
    ensures
        a == b || row_lt_from(a, b, i) || row_lt_from(b, a, i),
    decreases b.len() - i,
{
    if i < a.len() && i < b.len() {
        if a[i] == b[i] {
            lemma_row_trichotomy_from(a, b, i + 1);
        } else {
            lemma_cell_order(a[i], b[i], a[i]);
        }
    } else if i >= a.len() && i >= b.len() {
        assert(a =~= b);
    }
}

/// Any two rows are equal or ordered one way or the other.
pub proof fn lemma_row_trichotomy(a: RowView, b: RowView)
    ensures
        a == b || row_lt(a, b) || row_lt(b, a),
{
    lemma_row_trichotomy_from(a, b, 0);
}

proof fn lemma_row_lt_transitive_from(a: RowView, b: RowView, c: RowView, i: int)
    requires
        0 <= i,
        row_lt_from(a, b, i),
        row_lt_from(b, c, i),
    ensures
        row_lt_from(a, c, i),
    decreases b.len() - i,
{
    if i < a.len() {
        lemma_cell_order(a[i], b[i], c[i]);
        lemma_cell_order(b[i], a[i], b[i]);
        if a[i] == b[i] && b[i] == c[i] {
            lemma_row_lt_transitive_from(a, b, c, i + 1);
        } else if a[i] != b[i] && b[i] != c[i] {
            lemma_cell_order(a[i], c[i], a[i]);
        }
    }
}

/// The order of rows is transitive.
pub proof fn lemma_row_lt_transitive(a: RowView, b: RowView, c: RowView)
    requires
        row_lt(a, b),
        row_lt(b, c),
    ensures
        row_lt(a, c),
{
    lemma_row_lt_transitive_from(a, b, c, 0);
}

/// Which of two rows comes first.
#[derive(Clone, Copy, Debug, PartialEq, Eq, Structural)]
pub enum RowOrder {
    Less,
    Equal,
    Greater,
}

/// A copy of a cell.
pub fn copy_cell(cell: &Option<Vec<u8>>) -> (r: Option<Vec<u8>>)
    ensures
        cell_view(r) == cell_view(*cell),
{
    match cell {
        None => None,
        Some(bytes) => Some(copy_bytes(bytes.as_slice())),
    }
}

impl Row {
    /// A copy of the row.
    pub fn copy(&self) -> (r: Row)
        ensures
            r@ == self@,
    {
        let mut cells: Vec<Option<Vec<u8>>> = Vec::new();
        let mut i: usize = 0;
        while i < self.0.len()
            invariant
                i <= self.0@.len(),
                cells@.len() == i,
                forall|j: int| 0 <= j < i ==> cell_view(#[trigger] cells@[j]) == cell_view(self.0@[j]),
            decreases self.0@.len() - i,
        {
            cells.push(copy_cell(&self.0[i]));
            i = i + 1;
        }
        let r = Row(cells);
        proof {
            assert(r@ =~= self@);
        }
        r
    }

    /// Which of two rows comes first.
    pub fn order(&self, other: &Row) -> (r: RowOrder)
        ensures
            r == RowOrder::Less <==> row_lt(self@, other@),
            r == RowOrder::Equal <==> self@ == other@,
            r == RowOrder::Greater <==> row_lt(other@, self@),
    {
        let ghost (a, b) = (self@, other@);
        proof {
            lemma_row_trichotomy(a, b);
            lemma_row_lt_irreflexive(a, 0);
            if row_lt(a, b) && row_lt(b, a) {
                lemma_row_lt_transitive(a, b, a);
            }
        }
        let mut i: usize = 0;
        while i < self.0.len() && i < other.0.len()
            invariant
                a == self@,
                b == other@,
                i <= self.0@.len(),
                i <= other.0@.len(),
                forall|j: int| 0 <= j < i ==> a[j] == b[j],
                row_lt(a, b) == row_lt_from(a, b, i as int),
                row_lt(b, a) == row_lt_from(b, a, i as int),
                !row_lt(a, a),
                a == b || row_lt(a, b) || row_lt(b, a),
                !(row_lt(a, b) && row_lt(b, a)),
            decreases self.0@.len() - i,
        {
            proof {
                assert(a[i as int] == cell_view(self.0@[i as int]));
                assert(b[i as int] == cell_view(other.0@[i as int]));
                lemma_cell_order(a[i as int], b[i as int], a[i as int]);
            }
            match (&self.0[i], &other.0[i]) {
                (None, None) => {},
                (None, Some(_)) => {
                    return RowOrder::Less;
                },
                (Some(_), None) => {
                    return RowOrder::Greater;
                },
                (Some(x), Some(y)) => {
                    if bytes_less(x.as_slice(), y.as_slice()) {
                        proof {
                            lemma_bytes_lt_irreflexive(x@, 0);
                        }
                        return RowOrder::Less;
                    }
                    if bytes_less(y.as_slice(), x.as_slice()) {
                        proof {
                            lemma_bytes_lt_irreflexive(x@, 0);
                        }
                        return RowOrder::Greater;
                    }
                    proof {
                        lemma_bytes_trichotomy(x@, y@);
                    }
                },
            }
            i = i + 1;
        }
        if self.0.len() < other.0.len() {
            RowOrder::Less
        } else if self.0.len() > other.0.len() {
            RowOrder::Greater
        } else {
            proof {
                assert(a =~= b);
            }
            RowOrder::Equal
        }
    }
}

/// Rows are ordered by the first cell in which they differ, where an empty cell comes before the others, and
/// cells before others by the first byte in which they differ; a row that is the beginning of another comes
/// before it.
pub proof fn law_first_cell_decides(a: RowView, b: RowView, n: int)
    requires
        0 <= n <= a.len(),
        n < b.len(),
        forall|j: int| 0 <= j < n ==> a[j] == b[j],
        n == a.len() || match (a[n], b[n]) {
            (None, Some(_)) => true,
            (Some(x), Some(y)) => bytes_lt(x, y),
            _ => false,
        },
    ensures
        row_lt(a, b),
        !row_lt(b, a),
{
    lemma_first_cell(a, b, n, 0);
    lemma_row_lt_irreflexive(a, 0);
    if row_lt(b, a) {
        lemma_row_lt_transitive(a, b, a);
    }
}

proof fn lemma_first_cell(a: RowView, b: RowView, n: int, i: int)
    requires
        0 <= i <= n <= a.len(),
        n < b.len(),
        forall|j: int| 0 <= j < n ==> a[j] == b[j],
        n == a.len() || cell_lt(a[n], b[n]),
    ensures
        row_lt_from(a, b, i),
    decreases n - i,
{
    if i < n {
        lemma_first_cell(a, b, n, i + 1);
    } else if n < a.len() {
        lemma_cell_order(a[n], b[n], a[n]);
    }
}

} // verus!
