//! Insertions.

use vstd::prelude::*;

use crate::catalog::{is_plain_field, ColumnId, DataType, Field, Schema};
use crate::common::lists::copy_ids;
use crate::frontend::plan_node::base::{logical_base, PlanBase, QueryContext};
use crate::frontend::plan_node::node::{LogicalInsert, PlanRef};

verus! {

/// The schema of an insertion: how many rows were inserted.
pub open spec fn is_count_schema(schema: Seq<Field>) -> bool {
    schema.len() == 1 && is_plain_field(schema[0], DataType::Int64, Seq::empty())
}

impl LogicalInsert {
    /// Create a LogicalInsert node. Used internally by optimizer.
    pub fn new(input: PlanRef, table_id: u32, columns: Vec<ColumnId>, ctx: &mut QueryContext) -> (r: LogicalInsert)
        requires
            old(ctx).has_ids(1),
        ensures
            r.input == input,
            r.table_id == table_id,
            r.columns == columns,
            r.base@ == logical_base(old(ctx).next_id, r.base@.schema, Seq::empty()),
            is_count_schema(r.base@.schema),
            *final(ctx) == old(ctx).after_ids(1),
    {
        let mut fields: Vec<Field> = Vec::new();
        fields.push(Field::unnamed(DataType::Int64));
        let pk_indices: Vec<usize> = Vec::new();
        proof {
            assert(pk_indices@ =~= Seq::empty());
        }
        let base = PlanBase::new_logical(ctx, Schema::new(fields), pk_indices);
        LogicalInsert { base, table_id, columns, input }
    }

    /// Create a LogicalInsert node. Used by planner.
    pub fn create(input: PlanRef, table_id: u32, columns: Vec<ColumnId>, ctx: &mut QueryContext) -> (r: LogicalInsert)
        requires
            old(ctx).has_ids(1),
        ensures
            r.input == input,
            r.table_id == table_id,
            r.columns == columns,
            r.base@ == logical_base(old(ctx).next_id, r.base@.schema, Seq::empty()),
            is_count_schema(r.base@.schema),
            *final(ctx) == old(ctx).after_ids(1),
    {
        LogicalInsert::new(input, table_id, columns, ctx)
    }

    /// The same insertion of another input.
    pub fn clone_with_input(&self, input: PlanRef, ctx: &mut QueryContext) -> (r: LogicalInsert)
        requires
            old(ctx).has_ids(1),
        ensures
            r.input == input,
            r.table_id == self.table_id,
            r.columns@ == self.columns@,
            r.base@ == logical_base(old(ctx).next_id, r.base@.schema, Seq::empty()),
            is_count_schema(r.base@.schema),
            *final(ctx) == old(ctx).after_ids(1),
    {
        LogicalInsert::new(input, self.table_id, copy_ids(&self.columns), ctx)
    }
}

/// An insertion puts out one column without a name: how many rows it has inserted.
pub proof fn law_insertion_counts_rows(schema: Seq<Field>)
    requires
        is_count_schema(schema),
    ensures
        schema.len() == 1,
        schema[0].data_type == DataType::Int64,
        schema[0].name@.len() == 0,
{
}

} // verus!
