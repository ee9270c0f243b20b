//! Table scans.

use std::sync::Arc;

use fixedbitset::FixedBitSet;
use vstd::prelude::*;
use vstd::string::StringExecFns;

use crate::catalog::{ColumnId, Field, Schema};
use crate::common::bit_set::{
    bit_set_content, bit_set_ones, lemma_rising_exists, lemma_rising_list, rising, rising_list,
};
use crate::common::text::{quoted, quoted_text};
use crate::frontend::plan_node::base::{logical_base, PlanBase, QueryContext};
use crate::frontend::plan_node::node::{LogicalScan, PlanNode, PlanRef};

verus! {

/// The items at the given positions.
pub open spec fn picked<T>(items: Seq<T>, list: Seq<usize>) -> Seq<T> {
    Seq::new(list.len(), |i: int| items[list[i] as int])
}

/// All numbers of the set are below `n`.
pub open spec fn all_below(set: Set<usize>, n: nat) -> bool {
    forall|c: usize| #[trigger] set.contains(c) ==> c < n
}

/// Names in quotes, with commas between them.
pub open spec fn quoted_list(fields: Seq<Field>, n: int) -> Seq<char>
    decreases n,
{
    if n <= 0 {
        Seq::empty()
    } else if n == 1 {
        quoted(fields[0].name@)
    } else {
        quoted_list(fields, n - 1) + ", "@ + quoted(fields[n - 1].name@)
    }
}

/// `r` is the scan of only the columns of the set, with the given id.
pub open spec fn is_pruned_scan(scan: LogicalScan, required: Set<usize>, r: LogicalScan, id: int) -> bool {
    let list = rising_list(required);
    &&& r.table_name == scan.table_name
    &&& r.table_id == scan.table_id
    &&& r.columns@ == picked(scan.columns@, list)
    &&& r.base@ == logical_base(id as i32, picked(scan.base@.schema, list), Seq::empty())
}

/// A pruned scan has as many columns as the set has members, in rising order, under the
/// same name and table id.
pub proof fn law_pruned_scan_has_the_set(scan: LogicalScan, required: Set<usize>, r: LogicalScan, id: int)
    requires
        scan.wf(),
        required.finite(),
        all_below(required, scan.base@.schema.len()),
        is_pruned_scan(scan, required, r, id),
    ensures
        r.wf(),
        r.table_name == scan.table_name,
        r.table_id == scan.table_id,
        r.columns@.len() == required.len(),
        rising(rising_list(required)),
        rising_list(required).to_set() == required,
        forall|k: int|
            0 <= k < r.columns@.len() ==> #[trigger] r.columns@[k] == scan.columns@[rising_list(required)[k] as int],
{
    let list = rising_list(required);
    lemma_rising_exists(required);
    assert(list.no_duplicates()) by {
        assert forall|i: int, j: int| 0 <= i < list.len() && 0 <= j < list.len() && i != j implies list[i] != list[j] by {
            if i < j {
                assert(list[i] < list[j]);
            } else {
                assert(list[j] < list[i]);
            }
        }
    }
    list.unique_seq_to_set();
}

impl LogicalScan {
    /// There is one column id per column.
    pub open spec fn wf(&self) -> bool {
        self.columns@.len() == self.base@.schema.len()
    }

    /// Create a LogicalScan node. Used internally by optimizer.
    pub fn new(
        table_name: String,
        table_id: u32,
        columns: Vec<ColumnId>,
        schema: Schema,
        ctx: &mut QueryContext,
    ) -> (r: LogicalScan)
        requires
            old(ctx).has_ids(1),
        ensures
            r.table_name == table_name,
            r.table_id == table_id,
            r.columns == columns,
            r.base@ == logical_base(old(ctx).next_id, schema@, Seq::empty()),
            *final(ctx) == old(ctx).after_ids(1),
    {
        let pk_indices: Vec<usize> = Vec::new();
        proof {
            assert(pk_indices@ =~= Seq::empty());
        }
        let base = PlanBase::new_logical(ctx, schema, pk_indices);
        LogicalScan { base, table_name, table_id, columns }
    }

    /// Create a LogicalScan node. Used by planner.
    pub fn create(
        table_name: String,
        table_id: u32,
        columns: Vec<ColumnId>,
        schema: Schema,
        ctx: &mut QueryContext,
    ) -> (r: PlanRef)
        requires
            old(ctx).has_ids(1),
        ensures
            *r matches PlanNode::LogicalScan(scan) && scan.table_name == table_name && scan.table_id == table_id
                && scan.columns == columns && scan.base@ == logical_base(old(ctx).next_id, schema@, Seq::empty()),
            *final(ctx) == old(ctx).after_ids(1),
    {
        Arc::new(PlanNode::LogicalScan(LogicalScan::new(table_name, table_id, columns, schema, ctx)))
    }

    /// The names of the columns.
    pub fn column_names(&self) -> (r: Vec<String>)
        ensures
            r@ == Seq::new(self.base@.schema.len(), |i: int| self.base@.schema[i].name),
    {
        let fields = &self.base.schema.fields;
        let ghost names = Seq::new(fields@.len(), |i: int| fields@[i].name);
        let mut r: Vec<String> = Vec::new();
        let mut i: usize = 0;
        while i < fields.len()
            invariant
                i <= fields@.len(),
                names == Seq::new(fields@.len(), |i: int| fields@[i].name),
                r@ == names.subrange(0, i as int),
            decreases fields@.len() - i,
        {
            r.push(fields[i].name.clone());
            i = i + 1;
            proof {
                assert(r@ =~= names.subrange(0, i as int));
            }
        }
        proof {
            assert(r@ =~= names);
        }
        r
    }

    /// The id of the table.
    pub fn table_id(&self) -> (r: u32)
        ensures
            r == self.table_id,
    {
        self.table_id
    }

    /// The name of the table.
    pub fn table_name(&self) -> (r: &str)
        ensures
            r@ == self.table_name@,
    {
        self.table_name.as_str()
    }

    /// The ids of the columns.
    pub fn columns(&self) -> (r: &Vec<ColumnId>)
        ensures
            *r == self.columns,
    {
        &self.columns
    }

    /// The node as text.
    pub fn to_text(&self) -> (r: String)
        ensures
            r@ == "LogicalScan { table: "@ + self.table_name@ + ", columns: ["@ + quoted_list(
                self.base@.schema,
                self.base@.schema.len() as int,
            ) + "] }"@,
    {
        let fields = &self.base.schema.fields;
        let mut list: String = String::new();
        let mut i: usize = 0;
        proof {
            assert(list@ =~= quoted_list(fields@, 0));
        }
        while i < fields.len()
            invariant
                i <= fields@.len(),
                list@ == quoted_list(fields@, i as int),
            decreases fields@.len() - i,
        {
            let ghost before = list@;
            if i > 0 {
                list.append(", ");
            }
            list.append(quoted_text(fields[i].name.as_str()).as_str());
            i = i + 1;
            proof {
                if i == 1 {
                    assert(before =~= Seq::empty());
                    assert(list@ =~= quoted(fields@[0].name@));
                }
            }
        }
        let mut r: String = "LogicalScan { table: ".to_owned();
        r.append(self.table_name.as_str());
        r.append(", columns: [");
        r.append(list.as_str());
        r.append("] }");
        r
    }

    /// The scan of only the columns of the set.
    pub fn prune_col(&self, required_cols: &FixedBitSet, ctx: &mut QueryContext) -> (r: LogicalScan)
        requires
            self.wf(),
            all_below(bit_set_content(*required_cols), self.base@.schema.len()),
            old(ctx).has_ids(1),
        ensures
            is_pruned_scan(*self, bit_set_content(*required_cols), r, old(ctx).next_id as int),
            *final(ctx) == old(ctx).after_ids(1),
    {
        let ones = bit_set_ones(required_cols);
        proof {
            lemma_rising_list(ones@);
            assert forall|i: int| 0 <= i < ones@.len() implies (#[trigger] ones@[i]) < self.base@.schema.len() by {
                assert(ones@.to_set().contains(ones@[i]));
            }
        }
        let ghost all_columns = picked(self.columns@, ones@);
        let ghost all_fields = picked(self.base@.schema, ones@);
        let mut columns: Vec<ColumnId> = Vec::new();
        let mut fields: Vec<Field> = Vec::new();
        let mut i: usize = 0;
        while i < ones.len()
            invariant
                i <= ones@.len(),
                self.wf(),
                forall|j: int| 0 <= j < ones@.len() ==> (#[trigger] ones@[j]) < self.base@.schema.len(),
                all_columns == picked(self.columns@, ones@),
                all_fields == picked(self.base@.schema, ones@),
                columns@ == all_columns.subrange(0, i as int),
                fields@ == all_fields.subrange(0, i as int),
            decreases ones@.len() - i,
        {
            let id: usize = ones[i];
            columns.push(self.columns[id]);
            fields.push(self.base.schema.fields[id].copy());
            i = i + 1;
            proof {
                assert(columns@ =~= all_columns.subrange(0, i as int));
                assert(fields@ =~= all_fields.subrange(0, i as int));
            }
        }
        proof {
            assert(columns@ =~= all_columns);
            assert(fields@ =~= all_fields);
        }
        LogicalScan::new(self.table_name.clone(), self.table_id, columns, Schema::new(fields), ctx)
    }
}

/// The names of the columns stand in their order, each in quotes, with a comma and a space between them.
pub proof fn law_names_stand_in_order(fields: Seq<Field>, n: int)
    requires
        0 < n < fields.len(),
    ensures
        quoted_list(fields, 0).len() == 0,
        quoted_list(fields, 1) == quoted(fields[0].name@),
        quoted_list(fields, n + 1) == quoted_list(fields, n) + ", "@ + quoted(fields[n].name@),
{
}

} // verus!
