//! Projections.

use std::sync::Arc;

use fixedbitset::FixedBitSet;
use vstd::prelude::*;
use vstd::string::StringExecFns;

use crate::catalog::{is_plain_field, Field, Schema};
use crate::common::bit_set::{bit_set_content, bit_set_ones, lemma_rising_list, rising_list};
use crate::common::text::{decimal, decimal_text};
use crate::frontend::expr::{type_of, ExprImpl, InputRef};
use crate::frontend::plan_node::base::{logical_base, PlanBase, QueryContext};
use crate::frontend::plan_node::node::{schema_of_plan, LogicalProject, PlanNode, PlanRef};

verus! {

/// The name of a column: its alias, or the prefix and its number.
pub open spec fn column_name(alias: Option<String>, prefix: Seq<char>, id: nat) -> Seq<char> {
    match alias {
        Some(name) => name@,
        None => prefix + decimal(id),
    }
}

/// The name of a column: its alias, or the prefix and its number.
pub fn name_column(alias: &Option<String>, prefix: &str, id: usize) -> (r: String)
    ensures
        r@ == column_name(*alias, prefix@, id as nat),
{
    match alias {
        Some(name) => name.clone(),
        None => {
            let mut r: String = prefix.to_owned();
            r.append(decimal_text(id as u64).as_str());
            r
        },
    }
}

/// The schema of a projection.
pub open spec fn is_project_schema(schema: Seq<Field>, exprs: Seq<ExprImpl>, alias: Seq<Option<String>>) -> bool {
    &&& schema.len() == exprs.len()
    &&& forall|i: int|
        0 <= i < exprs.len() ==> is_plain_field(
            #[trigger] schema[i],
            type_of(exprs[i]),
            column_name(alias[i], "expr#"@, i as nat),
        )
}

/// References to the columns of a relation.
pub open spec fn column_refs(schema: Seq<Field>, columns: Seq<usize>) -> Seq<ExprImpl> {
    Seq::new(
        columns.len(),
        |i: int|
            ExprImpl::InputRef(InputRef { index: columns[i], data_type: schema[columns[i] as int].data_type }),
    )
}

impl LogicalProject {
    /// A projection of `input`.
    pub fn new(
        input: PlanRef,
        exprs: Vec<ExprImpl>,
        expr_alias: Vec<Option<String>>,
        ctx: &mut QueryContext,
    ) -> (r: LogicalProject)
        requires
            exprs@.len() == expr_alias@.len(),
            old(ctx).has_ids(1),
        ensures
            r.input == input,
            r.exprs == exprs,
            r.expr_alias == expr_alias,
            r.base@ == logical_base(old(ctx).next_id, r.base@.schema, Seq::empty()),
            is_project_schema(r.base@.schema, exprs@, expr_alias@),
            *final(ctx) == old(ctx).after_ids(1),
    {
        let mut fields: Vec<Field> = Vec::new();
        let mut i: usize = 0;
        while i < exprs.len()
            invariant
                i <= exprs@.len(),
                exprs@.len() == expr_alias@.len(),
                fields@.len() == i,
                forall|j: int|
                    0 <= j < i ==> is_plain_field(
                        #[trigger] fields@[j],
                        type_of(exprs@[j]),
                        column_name(expr_alias@[j], "expr#"@, j as nat),
                    ),
            decreases exprs@.len() - i,
        {
            let name = name_column(&expr_alias[i], "expr#", i);
            fields.push(Field::with_name(exprs[i].return_type(), name));
            i = i + 1;
        }
        let pk_indices: Vec<usize> = Vec::new();
        proof {
            assert(pk_indices@ =~= Seq::empty());
        }
        let base = PlanBase::new_logical(ctx, Schema::new(fields), pk_indices);
        LogicalProject { base, exprs, expr_alias, input }
    }

    /// The plan that projects `input`.
    pub fn create(
        input: PlanRef,
        exprs: Vec<ExprImpl>,
        expr_alias: Vec<Option<String>>,
        ctx: &mut QueryContext,
    ) -> (r: PlanRef)
        requires
            exprs@.len() == expr_alias@.len(),
            old(ctx).has_ids(1),
        ensures
            *r matches PlanNode::LogicalProject(p) && p.input == input && p.exprs == exprs && p.expr_alias
                == expr_alias && p.base@ == logical_base(old(ctx).next_id, p.base@.schema, Seq::empty())
                && is_project_schema(p.base@.schema, exprs@, expr_alias@),
            *final(ctx) == old(ctx).after_ids(1),
    {
        Arc::new(PlanNode::LogicalProject(LogicalProject::new(input, exprs, expr_alias, ctx)))
    }

    /// A projection to the columns of the set, in rising order.
    pub fn with_remaining_columns(input: PlanRef, cols: &FixedBitSet, ctx: &mut QueryContext) -> (r: LogicalProject)
        requires
            forall|c: usize| bit_set_content(*cols).contains(c) ==> c < schema_of_plan(input).len(),
            old(ctx).has_ids(1),
        ensures
            r.input == input,
            r.exprs@ == column_refs(schema_of_plan(input), rising_list(bit_set_content(*cols))),
            r.expr_alias@.len() == r.exprs@.len(),
            forall|i: int| 0 <= i < r.expr_alias@.len() ==> (#[trigger] r.expr_alias@[i]) is None,
            r.base@ == logical_base(old(ctx).next_id, r.base@.schema, Seq::empty()),
            is_project_schema(r.base@.schema, r.exprs@, r.expr_alias@),
            *final(ctx) == old(ctx).after_ids(1),
    {
        let ones = bit_set_ones(cols);
        proof {
            lemma_rising_list(ones@);
            assert forall|i: int| 0 <= i < ones@.len() implies (#[trigger] ones@[i]) < schema_of_plan(input).len() by {
                assert(ones@.to_set().contains(ones@[i]));
            }
        }
        let ghost schema = schema_of_plan(input);
        let mut exprs: Vec<ExprImpl> = Vec::new();
        let mut expr_alias: Vec<Option<String>> = Vec::new();
        let mut i: usize = 0;
        while i < ones.len()
            invariant
                i <= ones@.len(),
                schema == schema_of_plan(input),
                forall|j: int| 0 <= j < ones@.len() ==> (#[trigger] ones@[j]) < schema.len(),
                exprs@ == column_refs(schema, ones@).subrange(0, i as int),
                expr_alias@.len() == i,
                forall|j: int| 0 <= j < i ==> (#[trigger] expr_alias@[j]) is None,
            decreases ones@.len() - i,
        {
            let c: usize = ones[i];
            exprs.push(ExprImpl::InputRef(InputRef::new(c, input.schema().fields[c].data_type())));
            expr_alias.push(None);
            i = i + 1;
            proof {
                assert(exprs@ =~= column_refs(schema, ones@).subrange(0, i as int));
            }
        }
        proof {
            assert(exprs@ =~= column_refs(schema, ones@));
        }
        LogicalProject::new(input, exprs, expr_alias, ctx)
    }
}

/// A column of a projection has the type of its expression, and the name that was given or else the number
/// of its position behind a prefix.
pub proof fn law_projected_columns(schema: Seq<Field>, exprs: Seq<ExprImpl>, alias: Seq<Option<String>>, i: int)
    requires
        is_project_schema(schema, exprs, alias),
        0 <= i < exprs.len(),
    ensures
        schema.len() == exprs.len(),
        schema[i].data_type == type_of(exprs[i]),
        alias[i] matches Some(name) ==> schema[i].name@ == name@,
        alias[i] is None ==> schema[i].name@ == "expr#"@ + decimal(i as nat),
{
}

/// A projection to columns of its input reads each of them at its position, with its type.
pub proof fn law_columns_are_read(schema: Seq<Field>, columns: Seq<usize>, i: int)
    requires
        0 <= i < columns.len(),
    ensures
        column_refs(schema, columns).len() == columns.len(),
        column_refs(schema, columns)[i] matches ExprImpl::InputRef(r) && r.index == columns[i] && r.data_type
            == schema[columns[i] as int].data_type,
{
}

} // verus!
