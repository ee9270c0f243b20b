//! Rows of expressions.

use fixedbitset::FixedBitSet;
use vstd::prelude::*;

use crate::catalog::{same_type, Field, Schema};
use crate::common::bit_set::{bit_set_content, bit_set_ones, lemma_rising_list, rising_list};
use crate::frontend::expr::{type_of, ExprImpl};
use crate::frontend::plan_node::base::{logical_base, PlanBase, QueryContext};
use crate::frontend::plan_node::logical_scan::{all_below, picked};
use crate::frontend::plan_node::node::LogicalValues;

verus! {

/// Rows by their expressions.
pub open spec fn row_exprs(rows: Seq<Vec<ExprImpl>>) -> Seq<Seq<ExprImpl>> {
    Seq::new(rows.len(), |i: int| rows[i]@)
}

/// The expressions of a row have the types of the columns.
pub open spec fn row_fits(row: Seq<ExprImpl>, schema: Seq<Field>) -> bool {
    &&& row.len() <= schema.len()
    &&& forall|i: int| 0 <= i < row.len() ==> same_type(schema[i].data_type, type_of(#[trigger] row[i]))
}

/// All rows have the types of the columns.
pub open spec fn rows_fit(rows: Seq<Seq<ExprImpl>>, schema: Seq<Field>) -> bool {
    forall|i: int| 0 <= i < rows.len() ==> row_fits(#[trigger] rows[i], schema)
}

/// Each row with only its expressions at the given positions.
pub open spec fn rows_picked(rows: Seq<Seq<ExprImpl>>, list: Seq<usize>) -> Seq<Seq<ExprImpl>> {
    Seq::new(rows.len(), |i: int| picked(rows[i], list))
}

/// The expressions of a row at the given positions.
fn pick_exprs(row: &Vec<ExprImpl>, list: &Vec<usize>) -> (r: Vec<ExprImpl>)
    requires
        forall|i: int| 0 <= i < list@.len() ==> (#[trigger] list@[i]) < row@.len(),
    ensures
        r@ == picked(row@, list@),
{
    let mut r: Vec<ExprImpl> = Vec::new();
    let mut i: usize = 0;
    while i < list.len()
        invariant
            i <= list@.len(),
            forall|j: int| 0 <= j < list@.len() ==> (#[trigger] list@[j]) < row@.len(),
            r@ == picked(row@, list@).subrange(0, i as int),
        decreases list@.len() - i,
    {
        r.push(row[list[i]].copy());
        i = i + 1;
        proof {
            assert(r@ =~= picked(row@, list@).subrange(0, i as int));
        }
    }
    proof {
        assert(r@ =~= picked(row@, list@));
    }
    r
}

impl LogicalValues {
    /// Create a LogicalValues node. Used internally by optimizer.
    pub fn new(rows: Vec<Vec<ExprImpl>>, schema: Schema, ctx: &mut QueryContext) -> (r: LogicalValues)
        requires
            rows_fit(row_exprs(rows@), schema@),
            old(ctx).has_ids(1),
        ensures
            r.rows == rows,
            r.base@ == logical_base(old(ctx).next_id, schema@, Seq::empty()),
            *final(ctx) == old(ctx).after_ids(1),
    {
        let pk_indices: Vec<usize> = Vec::new();
        proof {
            assert(pk_indices@ =~= Seq::empty());
        }
        let base = PlanBase::new_logical(ctx, schema, pk_indices);
        LogicalValues { base, rows }
    }

    /// Create a LogicalValues node. Used by planner.
    pub fn create(rows: Vec<Vec<ExprImpl>>, schema: Schema, ctx: &mut QueryContext) -> (r: LogicalValues)
        requires
            rows_fit(row_exprs(rows@), schema@),
            old(ctx).has_ids(1),
        ensures
            r.rows == rows,
            r.base@ == logical_base(old(ctx).next_id, schema@, Seq::empty()),
            *final(ctx) == old(ctx).after_ids(1),
    {
        // No additional checks after binder.
        LogicalValues::new(rows, schema, ctx)
    }

    /// Get a reference to the logical values' rows.
    pub fn rows(&self) -> (r: &Vec<Vec<ExprImpl>>)
        ensures
            *r == self.rows,
    {
        &self.rows
    }

    /// The columns of the set exist, and every row has an expression for each of them.
    pub open spec fn can_prune(&self, required: Set<usize>) -> bool {
        &&& all_below(required, self.base@.schema.len())
        &&& rows_fit(row_exprs(self.rows@), self.base@.schema)
        &&& forall|i: int| 0 <= i < self.rows@.len() ==> all_below(required, (#[trigger] self.rows@[i])@.len())
    }

    /// All rows, with only the columns of the set.
    pub fn prune_col(&self, required_cols: &FixedBitSet, ctx: &mut QueryContext) -> (r: LogicalValues)
        requires
            self.can_prune(bit_set_content(*required_cols)),
            old(ctx).has_ids(1),
        ensures
            row_exprs(r.rows@) == rows_picked(
                row_exprs(self.rows@),
                rising_list(bit_set_content(*required_cols)),
            ),
            r.base@ == logical_base(
                old(ctx).next_id,
                picked(self.base@.schema, rising_list(bit_set_content(*required_cols))),
                Seq::empty(),
            ),
            *final(ctx) == old(ctx).after_ids(1),
    {
        let ones = bit_set_ones(required_cols);
        let ghost required = bit_set_content(*required_cols);
        let ghost old_rows = row_exprs(self.rows@);
        proof {
            lemma_rising_list(ones@);
            assert forall|i: int| 0 <= i < ones@.len() implies required.contains(#[trigger] ones@[i]) by {
                assert(ones@.to_set().contains(ones@[i]));
            }
        }
        let ghost all_fields = picked(self.base@.schema, ones@);
        let mut fields: Vec<Field> = Vec::new();
        let mut i: usize = 0;
        while i < ones.len()
            invariant
                i <= ones@.len(),
                forall|j: int| 0 <= j < ones@.len() ==> required.contains(#[trigger] ones@[j]),
                all_below(required, self.base@.schema.len()),
                all_fields == picked(self.base@.schema, ones@),
                fields@ == all_fields.subrange(0, i as int),
            decreases ones@.len() - i,
        {
            assert(required.contains(ones@[i as int]));
            fields.push(self.base.schema.fields[ones[i]].copy());
            i = i + 1;
            proof {
                assert(fields@ =~= all_fields.subrange(0, i as int));
            }
        }
        let mut rows: Vec<Vec<ExprImpl>> = Vec::new();
        let mut k: usize = 0;
        while k < self.rows.len()
            invariant
                k <= self.rows@.len(),
                forall|j: int| 0 <= j < ones@.len() ==> required.contains(#[trigger] ones@[j]),
                self.can_prune(required),
                rows@.len() == k,
                forall|j: int| 0 <= j < k ==> (#[trigger] rows@[j])@ == picked(self.rows@[j]@, ones@),
            decreases self.rows@.len() - k,
        {
            proof {
                assert(all_below(required, self.rows@[k as int]@.len()));
                assert forall|j: int| 0 <= j < ones@.len() implies (#[trigger] ones@[j]) < self.rows@[k as int]@.len() by {
                    assert(required.contains(ones@[j]));
                }
            }
            let row = pick_exprs(&self.rows[k], &ones);
            rows.push(row);
            k = k + 1;
        }
        proof {
            assert(fields@ =~= all_fields);
            assert(row_exprs(rows@) =~= rows_picked(old_rows, ones@));
            assert forall|j: int| 0 <= j < rows@.len() implies row_fits(#[trigger] row_exprs(rows@)[j], fields@) by {
                let row = row_exprs(rows@)[j];
                assert(row == picked(self.rows@[j]@, ones@));
                assert(row_fits(old_rows[j], self.base@.schema));
                assert forall|c: int| 0 <= c < row.len() implies same_type(
                    fields@[c].data_type,
                    type_of(#[trigger] row[c]),
                ) by {
                    let column = ones@[c] as int;
                    assert(required.contains(ones@[c]));
                    assert(all_below(required, self.rows@[j]@.len()));
                    assert(row[c] == old_rows[j][column]);
                }
            }
        }
        LogicalValues::new(rows, Schema::new(fields), ctx)
    }
}

/// A pruned row has, in the order of the required columns, what stood in them.
pub proof fn law_pruned_rows_keep_values(rows: Seq<Seq<ExprImpl>>, list: Seq<usize>, i: int, k: int)
    requires
        0 <= i < rows.len(),
        0 <= k < list.len(),
    ensures
        rows_picked(rows, list).len() == rows.len(),
        rows_picked(rows, list)[i].len() == list.len(),
        rows_picked(rows, list)[i][k] == rows[i][list[k] as int],
{
}

} // verus!
