//! Results for clients that take all values as plain text.

use vstd::prelude::*;

use crate::catalog::{DataType, Field};
use crate::common::chunk::{is_visible, visible_rows, DataChunk};
use crate::common::scalar::{scalar_text, Datum};
use crate::frontend::handler::util::{PgFieldDescriptor, TypeOid};

verus! {

/// A row as texts; null stays null.
pub open spec fn text_row(row: Seq<Datum>) -> Seq<Option<Seq<char>>> {
    Seq::new(
        row.len(),
        |i: int|
            match row[i] {
                Some(d) => Some(scalar_text(d)),
                None => None,
            },
    )
}

/// A text that may be missing, by its characters.
pub open spec fn text_view(v: Option<String>) -> Option<Seq<char>> {
    match v {
        Some(s) => Some(s@),
        None => None,
    }
}

/// A row by its characters.
pub open spec fn row_text(row: Seq<Option<String>>) -> Seq<Option<Seq<char>>> {
    Seq::new(row.len(), |i: int| text_view(row[i]))
}

/// Rows by their characters.
pub open spec fn rows_text(rows: Seq<Vec<Option<String>>>) -> Seq<Seq<Option<Seq<char>>>> {
    Seq::new(rows.len(), |i: int| row_text(rows[i]@))
}

/// The rows among the first `n` that are not hidden, as texts.
pub open spec fn text_rows(chunk: DataChunk<Datum>, n: int) -> Seq<Seq<Option<Seq<char>>>>
    decreases n,
{
    if n <= 0 {
        Seq::empty()
    } else if is_visible(chunk, n - 1) {
        text_rows(chunk, n - 1).push(text_row(chunk.rows@[n - 1]@))
    } else {
        text_rows(chunk, n - 1)
    }
}

/// One row as texts.
fn to_text_row(row: &Vec<Datum>) -> (r: Vec<Option<String>>)
    ensures
        row_text(r@) == text_row(row@),
{
    let mut r: Vec<Option<String>> = Vec::new();
    let mut i: usize = 0;
    while i < row.len()
        invariant
            i <= row@.len(),
            r@.len() == i,
            forall|j: int| 0 <= j < i ==> text_view(#[trigger] r@[j]) == text_row(row@)[j],
        decreases row@.len() - i,
    {
        let value = match &row[i] {
            Some(d) => Some(d.to_text()),
            None => None,
        };
        r.push(value);
        i = i + 1;
    }
    proof {
        assert(row_text(r@) =~= text_row(row@));
    }
    r
}

/// The rows that are not hidden, as texts.
pub fn to_pg_rows(chunk: &DataChunk<Datum>) -> (r: Vec<Vec<Option<String>>>)
    requires
        chunk.wf(),
    ensures
        rows_text(r@) == text_rows(*chunk, chunk.rows@.len() as int),
{
    let mut r: Vec<Vec<Option<String>>> = Vec::new();
    let mut i: usize = 0;
    proof {
        assert(rows_text(r@) =~= Seq::empty());
    }
    while i < chunk.rows.len()
        invariant
            i <= chunk.rows@.len(),
            chunk.wf(),
            rows_text(r@) == text_rows(*chunk, i as int),
        decreases chunk.rows@.len() - i,
    {
        if chunk.visible(i) {
            let row = to_text_row(&chunk.rows[i]);
            let ghost before = r@;
            r.push(row);
            proof {
                assert(rows_text(r@) =~= rows_text(before).push(row_text(row@)));
            }
        }
        i = i + 1;
    }
    r
}

/// The type of PostgreSQL for a type; an interval goes as text.
pub open spec fn text_oid_of(t: DataType) -> TypeOid {
    match t {
        DataType::Interval => TypeOid::Varchar,
        _ => crate::frontend::handler::util::oid_of(t),
    }
}

/// The type of PostgreSQL for a type; an interval goes as text.
pub fn data_type_to_type_oid(data_type: &DataType) -> (r: TypeOid)
    ensures
        r == text_oid_of(*data_type),
{
    match data_type {
        DataType::Interval => TypeOid::Varchar,
        _ => crate::frontend::handler::util::data_type_to_type_oid(data_type),
    }
}

/// Convert from [`Field`] to [`PgFieldDescriptor`].
pub fn to_pg_field(f: &Field) -> (r: PgFieldDescriptor)
    ensures
        r.name == f.name,
        r.type_oid == text_oid_of(f.data_type),
{
    PgFieldDescriptor { name: f.name.clone(), type_oid: data_type_to_type_oid(&f.data_type) }
}

proof fn lemma_text_rows(chunk: DataChunk<Datum>, n: int)
    requires
        0 <= n <= chunk.rows@.len(),
    ensures
        text_rows(chunk, n).len() == visible_rows(chunk, n).len(),
        forall|k: int|
            0 <= k < visible_rows(chunk, n).len() ==> #[trigger] text_rows(chunk, n)[k] == text_row(
                chunk.rows@[visible_rows(chunk, n)[k]]@,
            ),
    decreases n,
{
    if n > 0 {
        lemma_text_rows(chunk, n - 1);
    }
}

/// The rows that are sent are those that are not hidden, in their order; a value that is missing is sent as
/// none, and the others as their text.
pub proof fn law_texts_are_sent_in_order(chunk: DataChunk<Datum>, k: int, i: int)
    requires
        chunk.wf(),
        0 <= k < visible_rows(chunk, chunk.rows@.len() as int).len(),
        0 <= i < chunk.rows@[visible_rows(chunk, chunk.rows@.len() as int)[k]]@.len(),
    ensures
        ({
            let n = chunk.rows@.len() as int;
            let row = chunk.rows@[visible_rows(chunk, n)[k]]@;
            let sent = text_rows(chunk, n);
            &&& sent.len() == visible_rows(chunk, n).len()
            &&& sent[k].len() == row.len()
            &&& row[i] is None ==> sent[k][i] is None
            &&& row[i] matches Some(d) ==> sent[k][i] == Some(scalar_text(d))
        }),
{
    lemma_text_rows(chunk, chunk.rows@.len() as int);
}

/// An interval is announced as text; all other types are announced as themselves.
pub proof fn law_intervals_are_text(t: DataType)
    ensures
        t is Interval ==> text_oid_of(t) == TypeOid::Varchar,
        !(t is Interval) ==> text_oid_of(t) == crate::frontend::handler::util::oid_of(t),
{
}

} // verus!
