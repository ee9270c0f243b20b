//! Aggregations.

use std::sync::Arc;
use vstd::prelude::*;

use crate::catalog::{is_plain_field, same_type, DataType, Field, Schema};
use crate::common::error::{fails, ErrorCode, ErrorView};
use crate::common::lists::{copy_aliases, copy_indices};
use crate::frontend::expr::{
    copy_exprs, infer_type, type_of, types_of, AggCall, AggKind, ExprImpl, FunctionCall, InputRef, Signature,
};
use crate::frontend::plan_node::base::{logical_base, PlanBase, QueryContext};
use crate::frontend::plan_node::logical_project::{column_name, is_project_schema, name_column};
use crate::frontend::plan_node::node::{schema_of_plan, LogicalAgg, LogicalProject, PlanAggCall, PlanNode, PlanRef};

verus! {

/// An aggregate by its meaning.
#[verifier::ext_equal]
pub struct AggView {
    pub agg_kind: AggKind,
    pub return_type: DataType,
    pub inputs: Seq<usize>,
}

impl View for PlanAggCall {
    type V = AggView;

    open spec fn view(&self) -> AggView {
        AggView { agg_kind: self.agg_kind, return_type: self.return_type, inputs: self.inputs@ }
    }
}

/// Aggregates by their meaning.
pub open spec fn agg_views(calls: Seq<PlanAggCall>) -> Seq<AggView> {
    Seq::new(calls.len(), |i: int| calls[i]@)
}

impl PlanAggCall {
    /// A copy of the aggregate.
    pub fn copy(&self) -> (r: PlanAggCall)
        ensures
            r@ == self@,
    {
        PlanAggCall {
            agg_kind: self.agg_kind,
            return_type: self.return_type.copy(),
            inputs: copy_indices(&self.inputs),
        }
    }
}

/// Copies of aggregates.
pub fn copy_agg_calls(calls: &Vec<PlanAggCall>) -> (r: Vec<PlanAggCall>)
    ensures
        agg_views(r@) == agg_views(calls@),
{
    let mut r: Vec<PlanAggCall> = Vec::new();
    let mut i: usize = 0;
    while i < calls.len()
        invariant
            i <= calls@.len(),
            agg_views(r@) == agg_views(calls@).subrange(0, i as int),
        decreases calls@.len() - i,
    {
        let ghost before = r@;
        r.push(calls[i].copy());
        i = i + 1;
        proof {
            assert(agg_views(r@) =~= agg_views(before).push(calls@[i - 1]@));
            assert(agg_views(r@) =~= agg_views(calls@).subrange(0, i as int));
        }
    }
    proof {
        assert(agg_views(calls@).subrange(0, i as int) =~= agg_views(calls@));
    }
    r
}

/// The schema of an aggregation: the group keys, then one column per aggregate.
pub open spec fn is_agg_schema(
    schema: Seq<Field>,
    input: Seq<Field>,
    group_keys: Seq<usize>,
    calls: Seq<AggView>,
    alias: Seq<Option<String>>,
) -> bool {
    &&& schema.len() == group_keys.len() + calls.len()
    &&& forall|i: int| 0 <= i < group_keys.len() ==> #[trigger] schema[i] == input[group_keys[i] as int]
    &&& forall|i: int|
        0 <= i < calls.len() ==> is_plain_field(
            #[trigger] schema[group_keys.len() + i],
            calls[i].return_type,
            column_name(alias[i], "agg#"@, i as nat),
        )
}

/// Two references are the same: to the same position, with the same type.
pub open spec fn same_ref(a: InputRef, b: InputRef) -> bool {
    a.index == b.index && same_type(a.data_type, b.data_type)
}

/// The position of the last of the first `n` group columns that is `r`.
pub open spec fn group_position(groups: Seq<InputRef>, n: int, r: InputRef) -> Option<usize>
    decreases n,
{
    if n <= 0 {
        None
    } else if same_ref(groups[n - 1], r) {
        Some((n - 1) as usize)
    } else {
        group_position(groups, n - 1, r)
    }
}

/// All expressions are columns of the input.
pub open spec fn all_columns(exprs: Seq<ExprImpl>) -> bool {
    forall|i: int| 0 <= i < exprs.len() ==> (#[trigger] exprs[i]) is InputRef
}

/// The columns that expressions are.
pub open spec fn columns_among(exprs: Seq<ExprImpl>) -> Seq<InputRef> {
    Seq::new(exprs.len(), |i: int| exprs[i]->InputRef_0)
}

/// The aggregates in an expression, from left to right.
pub open spec fn aggs_of(e: ExprImpl) -> Seq<AggCall>
    decreases e, 0int,
{
    match e {
        ExprImpl::AggCall(call) => seq![call],
        ExprImpl::FunctionCall(call) => aggs_among(call.inputs@, call.inputs@.len() as int),
        _ => Seq::empty(),
    }
}

/// The aggregates in the first `n` expressions.
pub open spec fn aggs_among(exprs: Seq<ExprImpl>, n: int) -> Seq<AggCall>
    decreases exprs, n,
{
    if n <= 0 || n > exprs.len() {
        Seq::empty()
    } else {
        aggs_among(exprs, n - 1) + aggs_of(exprs[n - 1])
    }
}

/// The inputs of aggregates, one after the other.
pub open spec fn agg_inputs(aggs: Seq<AggCall>) -> Seq<ExprImpl>
    decreases aggs.len(),
{
    if aggs.len() == 0 {
        Seq::empty()
    } else {
        agg_inputs(aggs.drop_last()) + aggs.last().inputs@
    }
}

/// `n` positions from `begin` on.
pub open spec fn positions(begin: int, n: nat) -> Seq<usize> {
    Seq::new(n, |i: int| (begin + i) as usize)
}

/// Aggregates over columns, given that the inputs of the aggregates stand from
/// position `begin` on.
pub open spec fn planned(aggs: Seq<AggCall>, begin: int) -> Seq<AggView>
    decreases aggs.len(),
{
    if aggs.len() == 0 {
        Seq::empty()
    } else {
        let call = aggs.last();
        planned(aggs.drop_last(), begin).push(
            AggView {
                agg_kind: call.agg_kind,
                return_type: call.return_type,
                inputs: positions(begin + agg_inputs(aggs.drop_last()).len(), call.inputs@.len()),
            },
        )
    }
}

pub proof fn lemma_agg_inputs_concat(a: Seq<AggCall>, b: Seq<AggCall>)
    ensures
        agg_inputs(a + b) == agg_inputs(a) + agg_inputs(b),
    decreases b.len(),
{
    if b.len() == 0 {
        assert(a + b =~= a);
        assert(agg_inputs(a) + agg_inputs(b) =~= agg_inputs(a));
    } else {
        assert((a + b).drop_last() =~= a + b.drop_last());
        lemma_agg_inputs_concat(a, b.drop_last());
        assert(agg_inputs(a + b) =~= agg_inputs(a) + agg_inputs(b));
    }
}

proof fn lemma_planned_concat(a: Seq<AggCall>, b: Seq<AggCall>, begin: int)
    ensures
        planned(a + b, begin) == planned(a, begin) + planned(b, begin + agg_inputs(a).len()),
    decreases b.len(),
{
    if b.len() == 0 {
        assert(a + b =~= a);
        assert(planned(a, begin) + planned(b, begin + agg_inputs(a).len()) =~= planned(a, begin));
    } else {
        assert((a + b).drop_last() =~= a + b.drop_last());
        lemma_planned_concat(a, b.drop_last(), begin);
        lemma_agg_inputs_concat(a, b.drop_last());
        assert(planned(a + b, begin) =~= planned(a, begin) + planned(b, begin + agg_inputs(a).len()));
    }
}

/// The error of a column that is neither grouped by nor aggregated.
pub open spec fn not_grouped() -> ErrorView {
    ErrorView::InvalidInputSyntax("column must appear in the GROUP BY clause or be used in an aggregate function"@)
}

/// The error of a function call for which there is no function.
pub open spec fn no_function() -> ErrorView {
    ErrorView::InternalError("Create FunctionCall fails"@)
}

/// The type that an expression has after the rewriting.
pub open spec fn rewritten_type(e: ExprImpl, sigs: Seq<Signature>) -> DataType
    decreases e, 0int,
{
    match e {
        ExprImpl::FunctionCall(call) => infer_type(
            sigs,
            call.func_type,
            rewritten_types(call.inputs@, call.inputs@.len() as int, sigs),
        ).unwrap(),
        _ => type_of(e),
    }
}

/// The types that the first `n` expressions have after the rewriting.
pub open spec fn rewritten_types(exprs: Seq<ExprImpl>, n: int, sigs: Seq<Signature>) -> Seq<DataType>
    decreases exprs, n,
{
    if n <= 0 || n > exprs.len() {
        Seq::empty()
    } else {
        rewritten_types(exprs, n - 1, sigs).push(rewritten_type(exprs[n - 1], sigs))
    }
}

/// The first error in an expression of a SELECT clause, from left to right.
pub open spec fn rewrite_error(e: ExprImpl, groups: Seq<InputRef>, sigs: Seq<Signature>) -> Option<ErrorView>
    decreases e, 0int,
{
    match e {
        ExprImpl::InputRef(r) => if group_position(groups, groups.len() as int, r) is None {
            Some(not_grouped())
        } else {
            None
        },
        ExprImpl::FunctionCall(call) => {
            let n = call.inputs@.len() as int;
            match rewrite_errors(call.inputs@, n, groups, sigs) {
                Some(error) => Some(error),
                None => if infer_type(sigs, call.func_type, rewritten_types(call.inputs@, n, sigs)) is None {
                    Some(no_function())
                } else {
                    None
                },
            }
        },
        _ => None,
    }
}

/// The first error in the first `n` expressions.
pub open spec fn rewrite_errors(exprs: Seq<ExprImpl>, n: int, groups: Seq<InputRef>, sigs: Seq<Signature>) -> Option<
    ErrorView,
>
    decreases exprs, n,
{
    if n <= 0 || n > exprs.len() {
        None
    } else {
        match rewrite_errors(exprs, n - 1, groups, sigs) {
            Some(error) => Some(error),
            None => rewrite_error(exprs[n - 1], groups, sigs),
        }
    }
}

/// `r` is `e` with its columns and aggregates replaced by columns of the
/// aggregation; the first aggregate of `e` stands at position `base`.
pub open spec fn is_rewritten(e: ExprImpl, r: ExprImpl, groups: Seq<InputRef>, base: int, sigs: Seq<Signature>) -> bool
    decreases e,
{
    match e {
        ExprImpl::InputRef(input_ref) => r == ExprImpl::InputRef(
            InputRef {
                index: group_position(groups, groups.len() as int, input_ref).unwrap(),
                data_type: input_ref.data_type,
            },
        ),
        ExprImpl::AggCall(call) => r == ExprImpl::InputRef(
            InputRef { index: base as usize, data_type: call.return_type },
        ),
        ExprImpl::FunctionCall(call) => {
            &&& r matches ExprImpl::FunctionCall(new_call)
            &&& new_call.func_type == call.func_type
            &&& new_call.return_type == rewritten_type(e, sigs)
            &&& new_call.inputs@.len() == call.inputs@.len()
            &&& forall|i: int|
                0 <= i < call.inputs@.len() ==> is_rewritten(
                    #[trigger] call.inputs@[i],
                    new_call.inputs@[i],
                    groups,
                    base + aggs_among(call.inputs@, i).len(),
                    sigs,
                )
        },
        _ => r == e,
    }
}

proof fn lemma_rewritten_type(e: ExprImpl, r: ExprImpl, groups: Seq<InputRef>, base: int, sigs: Seq<Signature>)
    requires
        is_rewritten(e, r, groups, base, sigs),
    ensures
        type_of(r) == rewritten_type(e, sigs),
{
}

proof fn lemma_rewritten_types_index(exprs: Seq<ExprImpl>, n: int, sigs: Seq<Signature>)
    requires
        0 <= n <= exprs.len(),
    ensures
        rewritten_types(exprs, n, sigs).len() == n,
        forall|i: int| 0 <= i < n ==> #[trigger] rewritten_types(exprs, n, sigs)[i] == rewritten_type(exprs[i], sigs),
    decreases n,
{
    if n > 0 {
        lemma_rewritten_types_index(exprs, n - 1, sigs);
    }
}

pub proof fn lemma_aggs_prefix(exprs: Seq<ExprImpl>, i: int, n: int)
    requires
        0 <= i <= n <= exprs.len(),
    ensures
        aggs_among(exprs, i).len() <= aggs_among(exprs, n).len(),
        agg_inputs(aggs_among(exprs, i)).len() <= agg_inputs(aggs_among(exprs, n)).len(),
    decreases n,
{
    if i < n {
        lemma_aggs_prefix(exprs, i, n - 1);
        lemma_agg_inputs_concat(aggs_among(exprs, n - 1), aggs_of(exprs[n - 1]));
    }
}

proof fn lemma_rewrite_error_stays(exprs: Seq<ExprImpl>, i: int, n: int, groups: Seq<InputRef>, sigs: Seq<Signature>)
    requires
        0 <= i <= n <= exprs.len(),
        rewrite_errors(exprs, i, groups, sigs) is Some,
    ensures
        rewrite_errors(exprs, n, groups, sigs) == rewrite_errors(exprs, i, groups, sigs),
    decreases n,
{
    if i < n {
        lemma_rewrite_error_stays(exprs, i, n - 1, groups, sigs);
    }
}

/// The first error in a SELECT clause with a GROUP BY clause.
pub open spec fn create_error(select_exprs: Seq<ExprImpl>, group_exprs: Seq<ExprImpl>, sigs: Seq<Signature>) -> Option<
    ErrorView,
> {
    if !all_columns(group_exprs) {
        Some(ErrorView::InvalidInputSyntax("GROUP BY clause cannot contain aggregates!"@))
    } else {
        rewrite_errors(select_exprs, select_exprs.len() as int, columns_among(group_exprs), sigs)
    }
}

/// There are `n` names, and all are missing.
pub open spec fn all_missing(alias: Seq<Option<String>>, n: nat) -> bool {
    alias.len() == n && forall|i: int| 0 <= i < n ==> (#[trigger] alias[i]) is None
}

/// The lowest of the three nodes: it computes the group columns and the inputs
/// of the aggregates.
pub open spec fn is_agg_input(
    plan: PlanRef,
    select_exprs: Seq<ExprImpl>,
    group_exprs: Seq<ExprImpl>,
    input: PlanRef,
    id: int,
) -> bool {
    &&& *plan matches PlanNode::LogicalProject(p)
    &&& p.input == input
    &&& p.exprs@ == group_exprs + agg_inputs(aggs_among(select_exprs, select_exprs.len() as int))
    &&& all_missing(p.expr_alias@, p.exprs@.len())
    &&& p.base@ == logical_base(id as i32, p.base@.schema, Seq::empty())
    &&& is_project_schema(p.base@.schema, p.exprs@, p.expr_alias@)
}

/// The middle one of the three nodes: it groups and aggregates.
pub open spec fn is_agg_middle(
    plan: PlanRef,
    select_exprs: Seq<ExprImpl>,
    group_exprs: Seq<ExprImpl>,
    input: PlanRef,
    id: int,
) -> bool {
    &&& *plan matches PlanNode::LogicalAgg(a)
    &&& is_agg_input(a.input, select_exprs, group_exprs, input, id)
    &&& a.group_keys@ == positions(0, group_exprs.len())
    &&& agg_views(a.agg_calls@) == planned(
        aggs_among(select_exprs, select_exprs.len() as int),
        group_exprs.len() as int,
    )
    &&& all_missing(a.agg_call_alias@, a.agg_calls@.len())
    &&& a.base@ == logical_base((id + 1) as i32, a.base@.schema, Seq::empty())
    &&& is_agg_schema(
        a.base@.schema,
        schema_of_plan(a.input),
        a.group_keys@,
        agg_views(a.agg_calls@),
        a.agg_call_alias@,
    )
}

/// The three nodes that a SELECT clause with a GROUP BY clause becomes.
pub open spec fn is_created(
    plan: PlanRef,
    select_exprs: Seq<ExprImpl>,
    select_alias: Seq<Option<String>>,
    group_exprs: Seq<ExprImpl>,
    input: PlanRef,
    sigs: Seq<Signature>,
    id: int,
) -> bool {
    let groups = columns_among(group_exprs);
    &&& *plan matches PlanNode::LogicalProject(p)
    &&& is_agg_middle(p.input, select_exprs, group_exprs, input, id)
    &&& p.expr_alias@ == select_alias
    &&& p.exprs@.len() == select_exprs.len()
    &&& forall|i: int|
        0 <= i < select_exprs.len() ==> is_rewritten(
            #[trigger] select_exprs[i],
            p.exprs@[i],
            groups,
            (groups.len() + aggs_among(select_exprs, i).len()) as int,
            sigs,
        )
    &&& p.base@ == logical_base((id + 2) as i32, p.base@.schema, Seq::empty())
    &&& is_project_schema(p.base@.schema, p.exprs@, p.expr_alias@)
}

/// `n` missing names.
fn no_aliases(n: usize) -> (r: Vec<Option<String>>)
    ensures
        all_missing(r@, n as nat),
{
    let mut r: Vec<Option<String>> = Vec::new();
    let mut i: usize = 0;
    while i < n
        invariant
            i <= n,
            all_missing(r@, i as nat),
        decreases n - i,
    {
        r.push(None);
        i = i + 1;
    }
    r
}

/// The positions below `n`.
fn first_positions(n: usize) -> (r: Vec<usize>)
    ensures
        r@ == positions(0, n as nat),
{
    let mut r: Vec<usize> = Vec::new();
    let mut i: usize = 0;
    while i < n
        invariant
            i <= n,
            r@ == positions(0, n as nat).subrange(0, i as int),
        decreases n - i,
    {
        r.push(i);
        i = i + 1;
        proof {
            assert(r@ =~= positions(0, n as nat).subrange(0, i as int));
        }
    }
    proof {
        assert(r@ =~= positions(0, n as nat));
    }
    r
}

/// The position of the last group column that is `r`.
fn find_group(groups: &Vec<InputRef>, r: &InputRef) -> (found: Option<usize>)
    ensures
        found == group_position(groups@, groups@.len() as int, *r),
{
    let mut i: usize = groups.len();
    while i > 0
        invariant
            i <= groups@.len(),
            group_position(groups@, i as int, *r) == group_position(groups@, groups@.len() as int, *r),
        decreases i,
    {
        let g = &groups[i - 1];
        if g.index == r.index && g.data_type.same(&r.data_type) {
            return Some(i - 1);
        }
        i = i - 1;
    }
    None
}

impl LogicalAgg {
    /// An aggregation of `input`.
    pub fn new(
        agg_calls: Vec<PlanAggCall>,
        agg_call_alias: Vec<Option<String>>,
        group_keys: Vec<usize>,
        input: PlanRef,
        ctx: &mut QueryContext,
    ) -> (r: LogicalAgg)
        requires
            agg_calls@.len() == agg_call_alias@.len(),
            forall|i: int| 0 <= i < group_keys@.len() ==> (#[trigger] group_keys@[i]) < schema_of_plan(input).len(),
            old(ctx).has_ids(1),
        ensures
            r.agg_calls == agg_calls,
            r.agg_call_alias == agg_call_alias,
            r.group_keys == group_keys,
            r.input == input,
            r.base@ == logical_base(old(ctx).next_id, r.base@.schema, Seq::empty()),
            is_agg_schema(
                r.base@.schema,
                schema_of_plan(input),
                group_keys@,
                agg_views(agg_calls@),
                agg_call_alias@,
            ),
            *final(ctx) == old(ctx).after_ids(1),
    {
        let schema = LogicalAgg::derive_schema(input.schema(), &group_keys, &agg_calls, &agg_call_alias);
        let pk_indices: Vec<usize> = Vec::new();
        proof {
            assert(pk_indices@ =~= Seq::empty());
        }
        let base = PlanBase::new_logical(ctx, schema, pk_indices);
        LogicalAgg { base, agg_calls, agg_call_alias, group_keys, input }
    }

    fn derive_schema(
        input: &Schema,
        group_keys: &Vec<usize>,
        agg_calls: &Vec<PlanAggCall>,
        agg_call_alias: &Vec<Option<String>>,
    ) -> (r: Schema)
        requires
            agg_calls@.len() == agg_call_alias@.len(),
            forall|i: int| 0 <= i < group_keys@.len() ==> (#[trigger] group_keys@[i]) < input@.len(),
        ensures
            is_agg_schema(r@, input@, group_keys@, agg_views(agg_calls@), agg_call_alias@),
    {
        let mut fields: Vec<Field> = Vec::new();
        let mut i: usize = 0;
        while i < group_keys.len()
            invariant
                i <= group_keys@.len(),
                forall|k: int| 0 <= k < group_keys@.len() ==> (#[trigger] group_keys@[k]) < input@.len(),
                fields@.len() == i,
                forall|k: int| 0 <= k < i ==> #[trigger] fields@[k] == input@[group_keys@[k] as int],
            decreases group_keys@.len() - i,
        {
            fields.push(input.fields[group_keys[i]].copy());
            i = i + 1;
        }
        let ghost keys = group_keys@.len();
        let mut id: usize = 0;
        while id < agg_calls.len()
            invariant
                id <= agg_calls@.len(),
                agg_calls@.len() == agg_call_alias@.len(),
                keys == group_keys@.len(),
                fields@.len() == keys + id,
                forall|k: int| 0 <= k < keys ==> #[trigger] fields@[k] == input@[group_keys@[k] as int],
                forall|k: int|
                    0 <= k < id ==> is_plain_field(
                        #[trigger] fields@[keys + k],
                        agg_views(agg_calls@)[k].return_type,
                        column_name(agg_call_alias@[k], "agg#"@, k as nat),
                    ),
            decreases agg_calls@.len() - id,
        {
            let name = name_column(&agg_call_alias[id], "agg#", id);
            fields.push(Field::with_name(agg_calls[id].return_type.copy(), name));
            id = id + 1;
        }
        Schema::new(fields)
    }

    /// The columns to group by. Nothing but columns can be grouped by.
    pub fn traverse_group_expr(group_exprs: &Vec<ExprImpl>) -> (r: Result<Vec<InputRef>, ErrorCode>)
        ensures
            if all_columns(group_exprs@) {
                r matches Ok(groups) && groups@ == columns_among(group_exprs@)
            } else {
                fails(r, ErrorView::InvalidInputSyntax("GROUP BY clause cannot contain aggregates!"@))
            },
    {
        let mut groups: Vec<InputRef> = Vec::new();
        let mut i: usize = 0;
        while i < group_exprs.len()
            invariant
                i <= group_exprs@.len(),
                groups@ == columns_among(group_exprs@).subrange(0, i as int),
                forall|j: int| 0 <= j < i ==> (#[trigger] group_exprs@[j]) is InputRef,
            decreases group_exprs@.len() - i,
        {
            match &group_exprs[i] {
                ExprImpl::InputRef(input_ref) => {
                    groups.push(input_ref.copy());
                },
                _ => {
                    return Err(
                        ErrorCode::InvalidInputSyntax("GROUP BY clause cannot contain aggregates!".to_owned()),
                    );
                },
            }
            i = i + 1;
            proof {
                assert(groups@ =~= columns_among(group_exprs@).subrange(0, i as int));
            }
        }
        proof {
            assert(groups@ =~= columns_among(group_exprs@));
        }
        Ok(groups)
    }

    /// Rewrite the `select_exprs` so that it can be used by the last LogicalProject, and get
    /// aggregates in SELECT clause. The columns of the aggregates stand behind those of
    /// the groups.
    #[verifier::rlimit(30)]
    pub fn rewrite_select_expr(
        select_expr: &ExprImpl,
        project: &mut Vec<ExprImpl>,
        agg_calls: &mut Vec<PlanAggCall>,
        groups: &Vec<InputRef>,
        sigs: &Vec<Signature>,
    ) -> (r: Result<ExprImpl, ErrorCode>)
        requires
            old(project)@.len() + agg_inputs(aggs_of(*select_expr)).len() <= usize::MAX,
            groups@.len() + old(agg_calls)@.len() + aggs_of(*select_expr).len() <= usize::MAX,
        ensures
            match rewrite_error(*select_expr, groups@, sigs@) {
                Some(error) => fails(r, error),
                None => {
                    &&& r matches Ok(e) && is_rewritten(
                        *select_expr,
                        e,
                        groups@,
                        (groups@.len() + old(agg_calls)@.len()) as int,
                        sigs@,
                    )
                    &&& final(project)@ == old(project)@ + agg_inputs(aggs_of(*select_expr))
                    &&& agg_views(final(agg_calls)@) == agg_views(old(agg_calls)@) + planned(
                        aggs_of(*select_expr),
                        old(project)@.len() as int,
                    )
                },
            },
        decreases *select_expr,
    {
        let ghost project0 = project@;
        let ghost calls0 = agg_calls@;
        match select_expr {
            ExprImpl::InputRef(input_ref) => {
                proof {
                    assert(project0 + agg_inputs(aggs_of(*select_expr)) =~= project0);
                    assert(agg_views(calls0) + planned(aggs_of(*select_expr), project0.len() as int) =~= agg_views(
                        calls0,
                    ));
                }
                match find_group(groups, input_ref) {
                    Some(index) => Ok(ExprImpl::InputRef(InputRef::new(index, input_ref.data_type.copy()))),
                    None => Err(
                        ErrorCode::InvalidInputSyntax(
                            "column must appear in the GROUP BY clause or be used in an aggregate function".to_owned(),
                        ),
                    ),
                }
            },
            ExprImpl::FunctionCall(func_call) => {
                let ghost ins = func_call.inputs@;
                let ghost n = ins.len() as int;
                let ghost base = (groups@.len() + calls0.len()) as int;
                let mut inputs: Vec<ExprImpl> = Vec::new();
                let mut i: usize = 0;
                proof {
                    assert(project0 + agg_inputs(aggs_among(ins, 0)) =~= project0);
                    assert(agg_views(calls0) + planned(aggs_among(ins, 0), project0.len() as int) =~= agg_views(calls0));
                }
                while i < func_call.inputs.len()
                    invariant
                        i <= n,
                        n == ins.len(),
                        ins == func_call.inputs@,
                        *select_expr == ExprImpl::FunctionCall(*func_call),
                        base == groups@.len() + calls0.len(),
                        project0.len() + agg_inputs(aggs_among(ins, n)).len() <= usize::MAX,
                        groups@.len() + calls0.len() + aggs_among(ins, n).len() <= usize::MAX,
                        rewrite_errors(ins, i as int, groups@, sigs@) is None,
                        inputs@.len() == i,
                        forall|j: int|
                            0 <= j < i ==> is_rewritten(
                                #[trigger] ins[j],
                                inputs@[j],
                                groups@,
                                base + aggs_among(ins, j).len(),
                                sigs@,
                            ),
                        project@ == project0 + agg_inputs(aggs_among(ins, i as int)),
                        agg_views(agg_calls@) == agg_views(calls0) + planned(
                            aggs_among(ins, i as int),
                            project0.len() as int,
                        ),
                        agg_calls@.len() == calls0.len() + aggs_among(ins, i as int).len(),
                    decreases n - i,
                {
                    let ghost done = aggs_among(ins, i as int);
                    let ghost next = aggs_of(ins[i as int]);
                    proof {
                        if let ExprImpl::FunctionCall(call) = select_expr {
                            assert(decreases_to!(*select_expr => call.inputs@[i as int]));
                        }
                        assert(aggs_among(ins, i + 1) == done + next);
                        lemma_aggs_prefix(ins, i + 1, n);
                        lemma_agg_inputs_concat(done, next);
                        lemma_planned_concat(done, next, project0.len() as int);
                        lemma_planned_len(next, 0);
                    }
                    let ghost project1 = project@;
                    let ghost calls1 = agg_calls@;
                    let rewritten = LogicalAgg::rewrite_select_expr(
                        &func_call.inputs[i],
                        project,
                        agg_calls,
                        groups,
                                sigs,
                    );
                    match rewritten {
                        Ok(e) => {
                            inputs.push(e);
                            proof {
                                assert(rewrite_errors(ins, i + 1, groups@, sigs@) is None);
                                assert(project@ =~= project0 + agg_inputs(aggs_among(ins, i + 1)));
                                lemma_planned_len(next, project1.len() as int);
                                assert(agg_views(agg_calls@) =~= agg_views(calls0) + planned(
                                    aggs_among(ins, i + 1),
                                    project0.len() as int,
                                ));
                                assert(agg_views(agg_calls@).len() == agg_calls@.len());
                            }
                        },
                        Err(e) => {
                            proof {
                                assert(rewrite_errors(ins, i + 1, groups@, sigs@) is Some);
                                lemma_rewrite_error_stays(ins, i + 1, n, groups@, sigs@);
                            }
                            return Err(e);
                        },
                    }
                    i = i + 1;
                }
                proof {
                    lemma_rewritten_types_index(ins, n, sigs@);
                    assert forall|j: int| 0 <= j < n implies #[trigger] types_of(inputs@)[j] == rewritten_type(
                        ins[j],
                        sigs@,
                    ) by {
                        lemma_rewritten_type(ins[j], inputs@[j], groups@, base + aggs_among(ins, j).len(), sigs@);
                    }
                    assert(types_of(inputs@) =~= rewritten_types(ins, n, sigs@));
                }
                match FunctionCall::new(func_call.func_type, inputs, sigs) {
                    Some(call) => Ok(ExprImpl::FunctionCall(call)),
                    None => Err(ErrorCode::InternalError("Create FunctionCall fails".to_owned())),
                }
            },
            ExprImpl::AggCall(agg_call) => {
                let begin: usize = project.len();
                let n: usize = agg_call.inputs.len();
                let mut more = copy_exprs(&agg_call.inputs);
                proof {
                    reveal_with_fuel(agg_inputs, 2);
                    reveal_with_fuel(planned, 2);
                    assert(aggs_of(*select_expr).drop_last() =~= Seq::empty());
                    assert(agg_inputs(aggs_of(*select_expr)) =~= agg_call.inputs@);
                }
                let mut inputs: Vec<usize> = Vec::new();
                let mut i: usize = 0;
                while i < n
                    invariant
                        i <= n,
                        begin + n <= usize::MAX,
                        inputs@ == positions(begin as int, n as nat).subrange(0, i as int),
                    decreases n - i,
                {
                    inputs.push(begin + i);
                    i = i + 1;
                    proof {
                        assert(inputs@ =~= positions(begin as int, n as nat).subrange(0, i as int));
                    }
                }
                project.append(&mut more);
                let count: usize = agg_calls.len();
                agg_calls.push(
                    PlanAggCall { agg_kind: agg_call.agg_kind, return_type: agg_call.return_type.copy(), inputs },
                );
                proof {
                    assert(inputs@ =~= positions(begin as int, n as nat));
                    assert(agg_views(agg_calls@) =~= agg_views(calls0) + planned(
                        aggs_of(*select_expr),
                        project0.len() as int,
                    ));
                }
                Ok(ExprImpl::InputRef(InputRef::new(groups.len() + count, agg_call.return_type.copy())))
            },
            _ => {
                proof {
                    assert(project0 + agg_inputs(aggs_of(*select_expr)) =~= project0);
                    assert(agg_views(calls0) + planned(aggs_of(*select_expr), project0.len() as int) =~= agg_views(
                        calls0,
                    ));
                }
                Ok(select_expr.copy())
            },
        }
    }

    /// `create` will analyze the select exprs and group exprs, and construct a plan like
    ///
    /// ```text
    /// LogicalProject -> LogicalAgg -> LogicalProject -> input
    /// ```
    pub fn create(
        select_exprs: &Vec<ExprImpl>,
        select_alias: Vec<Option<String>>,
        group_exprs: &Vec<ExprImpl>,
        input: PlanRef,
        ctx: &mut QueryContext,
        sigs: &Vec<Signature>,
    ) -> (r: Result<PlanRef, ErrorCode>)
        requires
            select_exprs@.len() == select_alias@.len(),
            group_exprs@.len() + agg_inputs(aggs_among(select_exprs@, select_exprs@.len() as int)).len()
                <= usize::MAX,
            group_exprs@.len() + aggs_among(select_exprs@, select_exprs@.len() as int).len() <= usize::MAX,
            old(ctx).has_ids(3),
        ensures
            match create_error(select_exprs@, group_exprs@, sigs@) {
                Some(error) => fails(r, error) && *final(ctx) == *old(ctx),
                None => r matches Ok(plan) && is_created(
                    plan,
                    select_exprs@,
                    select_alias@,
                    group_exprs@,
                    input,
                    sigs@,
                    old(ctx).next_id as int,
                ) && *final(ctx) == old(ctx).after_ids(3),
            },
    {
        let groups = match LogicalAgg::traverse_group_expr(group_exprs) {
            Ok(groups) => groups,
            Err(e) => {
                return Err(e);
            },
        };
        let ghost n = select_exprs@.len() as int;
        // `project` contains all the ExprImpl inside aggregates(e.g. v1 + v2 for min(v1 + v2)) and
        // GROUP BY clause(e.g. v1 for group by v1).
        let mut project: Vec<ExprImpl> = copy_exprs(group_exprs);
        let mut agg_calls: Vec<PlanAggCall> = Vec::new();
        let mut exprs: Vec<ExprImpl> = Vec::new();
        let mut i: usize = 0;
        proof {
            assert(project@ =~= group_exprs@ + agg_inputs(aggs_among(select_exprs@, 0)));
            assert(agg_views(agg_calls@) =~= planned(aggs_among(select_exprs@, 0), group_exprs@.len() as int));
        }
        while i < select_exprs.len()
            invariant
                i <= n,
                n == select_exprs@.len(),
                all_columns(group_exprs@),
                groups@ == columns_among(group_exprs@),
                group_exprs@.len() + agg_inputs(aggs_among(select_exprs@, n)).len() <= usize::MAX,
                group_exprs@.len() + aggs_among(select_exprs@, n).len() <= usize::MAX,
                rewrite_errors(select_exprs@, i as int, groups@, sigs@) is None,
                exprs@.len() == i,
                forall|j: int|
                    0 <= j < i ==> is_rewritten(
                        #[trigger] select_exprs@[j],
                        exprs@[j],
                        groups@,
                        (groups@.len() + aggs_among(select_exprs@, j).len()) as int,
                        sigs@,
                    ),
                project@ == group_exprs@ + agg_inputs(aggs_among(select_exprs@, i as int)),
                agg_views(agg_calls@) == planned(aggs_among(select_exprs@, i as int), group_exprs@.len() as int),
                agg_calls@.len() == aggs_among(select_exprs@, i as int).len(),
                *ctx == *old(ctx),
            decreases n - i,
        {
            let ghost done = aggs_among(select_exprs@, i as int);
            let ghost next = aggs_of(select_exprs@[i as int]);
            let ghost project1 = project@;
            let ghost start = group_exprs@.len() as int;
            proof {
                assert(aggs_among(select_exprs@, i + 1) == done + next);
                lemma_aggs_prefix(select_exprs@, i + 1, n);
                lemma_agg_inputs_concat(done, next);
                lemma_planned_concat(done, next, start);
                lemma_planned_len(next, project1.len() as int);
            }
            match LogicalAgg::rewrite_select_expr(
                &select_exprs[i],
                &mut project,
                &mut agg_calls,
                &groups,
                sigs,
            ) {
                Ok(e) => {
                    exprs.push(e);
                    proof {
                        assert(project@ =~= group_exprs@ + agg_inputs(aggs_among(select_exprs@, i + 1)));
                        assert(agg_views(agg_calls@) =~= planned(aggs_among(select_exprs@, i + 1), start));
                        assert(agg_views(agg_calls@).len() == agg_calls@.len());
                    }
                },
                Err(e) => {
                    proof {
                        assert(rewrite_errors(select_exprs@, i + 1, groups@, sigs@) is Some);
                        lemma_rewrite_error_stays(select_exprs@, i + 1, n, groups@, sigs@);
                    }
                    return Err(e);
                },
            }
            i = i + 1;
        }
        // This LogicalProject focuses on the exprs in aggregates and GROUP BY clause.
        let expr_alias = no_aliases(project.len());
        let logical_project = LogicalProject::create(input, project, expr_alias, ctx);
        // This LogicalAgg foucuses on calculating the aggregates and grouping.
        let agg_call_alias = no_aliases(agg_calls.len());
        let group_keys = first_positions(groups.len());
        let logical_agg = LogicalAgg::new(agg_calls, agg_call_alias, group_keys, logical_project, ctx);
        // This LogicalProject focuse on tranforming the aggregates and grouping columns to
        // InputRef.
        Ok(LogicalProject::create(Arc::new(PlanNode::LogicalAgg(logical_agg)), exprs, select_alias, ctx))
    }

    /// Get a reference to the logical agg's agg call alias.
    pub fn agg_call_alias(&self) -> (r: &Vec<Option<String>>)
        ensures
            *r == self.agg_call_alias,
    {
        &self.agg_call_alias
    }

    /// Get a reference to the logical agg's agg calls.
    pub fn agg_calls(&self) -> (r: &Vec<PlanAggCall>)
        ensures
            *r == self.agg_calls,
    {
        &self.agg_calls
    }

    /// Get a reference to the logical agg's group keys.
    pub fn group_keys(&self) -> (r: &Vec<usize>)
        ensures
            *r == self.group_keys,
    {
        &self.group_keys
    }

    /// The same aggregation of another input.
    pub fn clone_with_input(&self, input: PlanRef, ctx: &mut QueryContext) -> (r: LogicalAgg)
        requires
            self.agg_calls@.len() == self.agg_call_alias@.len(),
            forall|i: int|
                0 <= i < self.group_keys@.len() ==> (#[trigger] self.group_keys@[i]) < schema_of_plan(input).len(),
            old(ctx).has_ids(1),
        ensures
            agg_views(r.agg_calls@) == agg_views(self.agg_calls@),
            r.agg_call_alias@ == self.agg_call_alias@,
            r.group_keys@ == self.group_keys@,
            r.input == input,
            r.base@ == logical_base(old(ctx).next_id, r.base@.schema, Seq::empty()),
            is_agg_schema(
                r.base@.schema,
                schema_of_plan(input),
                self.group_keys@,
                agg_views(self.agg_calls@),
                self.agg_call_alias@,
            ),
            *final(ctx) == old(ctx).after_ids(1),
    {
        let agg_calls = copy_agg_calls(&self.agg_calls);
        proof {
            assert(agg_views(agg_calls@).len() == agg_calls@.len());
        }
        LogicalAgg::new(
            agg_calls,
            copy_aliases(&self.agg_call_alias),
            copy_indices(&self.group_keys),
            input,
            ctx,
        )
    }
}

proof fn lemma_planned_types(aggs: Seq<AggCall>, begin: int, k: int)
    requires
        0 <= k < aggs.len(),
    ensures
        planned(aggs, begin).len() == aggs.len(),
        planned(aggs, begin)[k].return_type == aggs[k].return_type,
    decreases aggs.len(),
{
    lemma_planned_len(aggs, begin);
    if k < aggs.len() - 1 {
        lemma_planned_len(aggs.drop_last(), begin);
        lemma_planned_types(aggs.drop_last(), begin, k);
        assert(aggs.drop_last()[k] == aggs[k]);
    }
}

proof fn lemma_agg_at(exprs: Seq<ExprImpl>, i: int, n: int)
    requires
        0 <= i < n <= exprs.len(),
        exprs[i] is AggCall,
    ensures
        aggs_among(exprs, i).len() < aggs_among(exprs, n).len(),
        aggs_among(exprs, n)[aggs_among(exprs, i).len() as int] == exprs[i]->AggCall_0,
    decreases n,
{
    assert(aggs_among(exprs, n) == aggs_among(exprs, n - 1) + aggs_of(exprs[n - 1]));
    if i < n - 1 {
        lemma_agg_at(exprs, i, n - 1);
    } else {
        assert(aggs_of(exprs[i]) == seq![exprs[i]->AggCall_0]);
    }
}

/// The uppermost of the three nodes.
pub open spec fn upper_project(plan: PlanRef) -> LogicalProject {
    plan->LogicalProject_0
}

/// The middle one of the three nodes.
pub open spec fn middle_agg(plan: PlanRef) -> LogicalAgg {
    upper_project(plan).input->LogicalAgg_0
}

/// A selected aggregate refers to its own column of the aggregation, which stands
/// behind those of the groups, also if a group column is given twice.
pub proof fn law_aggregates_refer_to_themselves(
    plan: PlanRef,
    select_exprs: Seq<ExprImpl>,
    select_alias: Seq<Option<String>>,
    group_exprs: Seq<ExprImpl>,
    input: PlanRef,
    sigs: Seq<Signature>,
    id: int,
    i: int,
)
    requires
        is_created(plan, select_exprs, select_alias, group_exprs, input, sigs, id),
        0 <= i < select_exprs.len(),
        select_exprs[i] is AggCall,
        group_exprs.len() + aggs_among(select_exprs, select_exprs.len() as int).len() <= usize::MAX,
    ensures
        ({
            let project = upper_project(plan);
            let agg = middle_agg(plan);
            let column = group_exprs.len() + aggs_among(select_exprs, i).len();
            &&& project.exprs@[i] == ExprImpl::InputRef(
                InputRef { index: column as usize, data_type: (select_exprs[i]->AggCall_0).return_type },
            )
            &&& agg.group_keys@.len() <= column < agg.base@.schema.len()
            &&& agg.base@.schema[column as int].data_type == (select_exprs[i]->AggCall_0).return_type
        }),
{
    let n = select_exprs.len() as int;
    let project = upper_project(plan);
    let agg = middle_agg(plan);
    let k = aggs_among(select_exprs, i).len() as int;
    assert(is_rewritten(
        select_exprs[i],
        project.exprs@[i],
        columns_among(group_exprs),
        (columns_among(group_exprs).len() + k) as int,
        sigs,
    ));
    lemma_agg_at(select_exprs, i, n);
    lemma_planned_types(aggs_among(select_exprs, n), group_exprs.len() as int, k);
    let calls = agg_views(agg.agg_calls@);
    assert(is_plain_field(
        agg.base@.schema[agg.group_keys@.len() + k],
        calls[k].return_type,
        column_name(agg.agg_call_alias@[k], "agg#"@, k as nat),
    ));
}

proof fn lemma_planned_len(aggs: Seq<AggCall>, begin: int)
    ensures
        planned(aggs, begin).len() == aggs.len(),
    decreases aggs.len(),
{
    if aggs.len() > 0 {
        lemma_planned_len(aggs.drop_last(), begin);
    }
}

/// `r`, over an aggregation with the group keys `keys` and the aggregates `calls` of the columns
/// `lower`, means the same as `e`: where `e` has a column, `r` has a group key that is this column;
/// where it has an aggregate, `r` has one of the same kind of the same expressions.
pub open spec fn reads(r: ExprImpl, e: ExprImpl, lower: Seq<ExprImpl>, keys: Seq<usize>, calls: Seq<AggView>) -> bool
    decreases e,
{
    match e {
        ExprImpl::InputRef(x) => {
            &&& r matches ExprImpl::InputRef(y)
            &&& y.data_type == x.data_type
            &&& y.index < keys.len()
            &&& lower[keys[y.index as int] as int] matches ExprImpl::InputRef(z)
            &&& z.index == x.index
            &&& same_type(z.data_type, x.data_type)
        },
        ExprImpl::AggCall(call) => {
            &&& r matches ExprImpl::InputRef(y)
            &&& y.data_type == call.return_type
            &&& keys.len() <= y.index < keys.len() + calls.len()
            &&& computes(calls[y.index - keys.len()], call, lower)
        },
        ExprImpl::FunctionCall(call) => {
            &&& r matches ExprImpl::FunctionCall(new_call)
            &&& new_call.func_type == call.func_type
            &&& new_call.inputs@.len() == call.inputs@.len()
            &&& forall|i: int|
                0 <= i < call.inputs@.len() ==> reads(
                    new_call.inputs@[i],
                    #[trigger] call.inputs@[i],
                    lower,
                    keys,
                    calls,
                )
        },
        _ => r == e,
    }
}

/// The aggregate of the columns `lower` is the one of the SELECT clause.
pub open spec fn computes(view: AggView, call: AggCall, lower: Seq<ExprImpl>) -> bool {
    &&& view.agg_kind == call.agg_kind
    &&& view.return_type == call.return_type
    &&& view.inputs.len() == call.inputs@.len()
    &&& forall|j: int| 0 <= j < view.inputs.len() ==> lower[(#[trigger] view.inputs[j]) as int] == call.inputs@[j]
}

proof fn lemma_group_position(groups: Seq<InputRef>, n: int, r: InputRef)
    requires
        0 <= n <= groups.len() <= usize::MAX,
    ensures
        match group_position(groups, n, r) {
            Some(p) => p < n && groups[p as int].index == r.index && same_type(groups[p as int].data_type, r.data_type)
                && forall|k: int| p < k < n ==> !same_ref(#[trigger] groups[k], r),
            None => forall|k: int| 0 <= k < n ==> !same_ref(#[trigger] groups[k], r),
        },
    decreases n,
{
    if n > 0 {
        lemma_group_position(groups, n - 1, r);
    }
}

proof fn lemma_planned_computes(aggs: Seq<AggCall>, begin: int, lower: Seq<ExprImpl>, k: int)
    requires
        0 <= begin,
        begin + agg_inputs(aggs).len() <= lower.len() <= usize::MAX,
        forall|i: int| 0 <= i < agg_inputs(aggs).len() ==> lower[begin + i] == #[trigger] agg_inputs(aggs)[i],
        0 <= k < aggs.len(),
    ensures
        planned(aggs, begin).len() == aggs.len(),
        computes(planned(aggs, begin)[k], aggs[k], lower),
    decreases aggs.len(),
{
    let rest = aggs.drop_last();
    lemma_planned_len(aggs, begin);
    lemma_planned_len(rest, begin);
    let inputs = agg_inputs(aggs);
    let n = agg_inputs(rest).len() as int;
    assert(inputs == agg_inputs(rest) + aggs.last().inputs@);
    if k < aggs.len() - 1 {
        assert forall|i: int| 0 <= i < n implies lower[begin + i] == #[trigger] agg_inputs(rest)[i] by {
            assert(inputs[i] == agg_inputs(rest)[i]);
        }
        lemma_planned_computes(rest, begin, lower, k);
        assert(rest[k] == aggs[k]);
    } else {
        let view = planned(aggs, begin)[k];
        assert forall|j: int| 0 <= j < view.inputs.len() implies lower[(#[trigger] view.inputs[j]) as int]
            == aggs[k].inputs@[j] by {
            assert(inputs[n + j] == aggs.last().inputs@[j]);
            assert(view.inputs[j] == begin + n + j);
        }
    }
}

proof fn lemma_aggs_within(exprs: Seq<ExprImpl>, i: int, n: int)
    requires
        0 <= i < n <= exprs.len(),
    ensures
        ({
            let a = aggs_among(exprs, i).len() as int;
            let b = a + aggs_of(exprs[i]).len();
            b <= aggs_among(exprs, n).len() && aggs_among(exprs, n).subrange(a, b) == aggs_of(exprs[i])
        }),
    decreases n,
{
    let a = aggs_among(exprs, i).len() as int;
    let b = a + aggs_of(exprs[i]).len();
    assert(aggs_among(exprs, n) == aggs_among(exprs, n - 1) + aggs_of(exprs[n - 1]));
    if i < n - 1 {
        lemma_aggs_within(exprs, i, n - 1);
        assert(aggs_among(exprs, n).subrange(a, b) =~= aggs_among(exprs, n - 1).subrange(a, b));
    } else {
        assert(aggs_among(exprs, n).subrange(a, b) =~= aggs_of(exprs[i]));
    }
}

proof fn lemma_no_error_within(exprs: Seq<ExprImpl>, i: int, n: int, groups: Seq<InputRef>, sigs: Seq<Signature>)
    requires
        0 <= i < n <= exprs.len(),
        rewrite_errors(exprs, n, groups, sigs) is None,
    ensures
        rewrite_error(exprs[i], groups, sigs) is None,
    decreases n,
{
    if i < n - 1 {
        lemma_no_error_within(exprs, i, n - 1, groups, sigs);
    }
}

proof fn lemma_rewritten_reads(
    e: ExprImpl,
    r: ExprImpl,
    groups: Seq<InputRef>,
    start: int,
    sigs: Seq<Signature>,
    lower: Seq<ExprImpl>,
    keys: Seq<usize>,
    calls: Seq<AggView>,
    aggs: Seq<AggCall>,
)
    requires
        is_rewritten(e, r, groups, groups.len() + start, sigs),
        rewrite_error(e, groups, sigs) is None,
        0 <= start,
        start + aggs_of(e).len() <= aggs.len(),
        aggs.subrange(start, start + aggs_of(e).len()) == aggs_of(e),
        keys.len() == groups.len(),
        groups.len() + aggs.len() <= usize::MAX,
        forall|k: int| 0 <= k < keys.len() ==> lower[(#[trigger] keys[k]) as int] == ExprImpl::InputRef(groups[k]),
        calls.len() == aggs.len(),
        forall|k: int| 0 <= k < calls.len() ==> computes(#[trigger] calls[k], aggs[k], lower),
    ensures
        reads(r, e, lower, keys, calls),
    decreases e,
{
    match e {
        ExprImpl::InputRef(x) => {
            lemma_group_position(groups, groups.len() as int, x);
            let p = group_position(groups, groups.len() as int, x).unwrap();
            assert(lower[keys[p as int] as int] == ExprImpl::InputRef(groups[p as int]));
        },
        ExprImpl::AggCall(call) => {
            assert(aggs.subrange(start, start + 1)[0] == call);
            assert(computes(calls[start], aggs[start], lower));
        },
        ExprImpl::FunctionCall(call) => {
            let ins = call.inputs@;
            let n = ins.len() as int;
            let all = aggs_among(ins, n);
            let new_ins = (r->FunctionCall_0).inputs@;
            assert forall|i: int| 0 <= i < n implies reads(new_ins[i], #[trigger] ins[i], lower, keys, calls) by {
                let a = aggs_among(ins, i).len() as int;
                let b = a + aggs_of(ins[i]).len();
                lemma_aggs_within(ins, i, n);
                lemma_no_error_within(ins, i, n, groups, sigs);
                assert(aggs.subrange(start + a, start + b) =~= aggs.subrange(start, start + all.len()).subrange(a, b));
                assert(decreases_to!(e => ins[i]));
                lemma_rewritten_reads(
                    ins[i],
                    new_ins[i],
                    groups,
                    start + a,
                    sigs,
                    lower,
                    keys,
                    calls,
                    aggs,
                );
            }
        },
        _ => {},
    }
}

/// The lowest of the three nodes.
pub open spec fn lower_project(plan: PlanRef) -> LogicalProject {
    middle_agg(plan).input->LogicalProject_0
}

/// The group keys of the aggregation are the expressions of the GROUP BY clause, in their order,
/// and each expression of the SELECT clause is found again: its columns among the group keys, its
/// aggregates, with all of their inputs, among the aggregates.
pub proof fn law_selection_is_read_back(
    plan: PlanRef,
    select_exprs: Seq<ExprImpl>,
    select_alias: Seq<Option<String>>,
    group_exprs: Seq<ExprImpl>,
    input: PlanRef,
    sigs: Seq<Signature>,
    id: int,
    i: int,
)
    requires
        create_error(select_exprs, group_exprs, sigs) is None,
        is_created(plan, select_exprs, select_alias, group_exprs, input, sigs, id),
        0 <= i < select_exprs.len(),
        group_exprs.len() + agg_inputs(aggs_among(select_exprs, select_exprs.len() as int)).len() <= usize::MAX,
        group_exprs.len() + aggs_among(select_exprs, select_exprs.len() as int).len() <= usize::MAX,
    ensures
        ({
            let lower = lower_project(plan).exprs@;
            let keys = middle_agg(plan).group_keys@;
            &&& keys.len() == group_exprs.len()
            &&& forall|k: int| 0 <= k < keys.len() ==> lower[(#[trigger] keys[k]) as int] == group_exprs[k]
            &&& reads(
                upper_project(plan).exprs@[i],
                select_exprs[i],
                lower,
                keys,
                agg_views(middle_agg(plan).agg_calls@),
            )
            &&& lower_project(plan).input == input
            &&& upper_project(plan).expr_alias@ == select_alias
        }),
{
    let n = select_exprs.len() as int;
    let aggs = aggs_among(select_exprs, n);
    let groups = columns_among(group_exprs);
    let lower = lower_project(plan).exprs@;
    let keys = middle_agg(plan).group_keys@;
    let calls = agg_views(middle_agg(plan).agg_calls@);
    let g = group_exprs.len() as int;
    assert(lower == group_exprs + agg_inputs(aggs));
    assert forall|k: int| 0 <= k < keys.len() implies lower[(#[trigger] keys[k]) as int] == group_exprs[k] by {
        assert(keys[k] == k);
    }
    lemma_planned_len(aggs, g);
    assert forall|k: int| 0 <= k < calls.len() implies computes(#[trigger] calls[k], aggs[k], lower) by {
        lemma_planned_computes(aggs, g, lower, k);
    }
    assert forall|k: int| 0 <= k < keys.len() implies lower[(#[trigger] keys[k]) as int] == ExprImpl::InputRef(
        groups[k],
    ) by {
        assert(group_exprs[k] is InputRef);
    }
    lemma_no_error_within(select_exprs, i, n, groups, sigs);
    lemma_aggs_within(select_exprs, i, n);
    lemma_rewritten_reads(
        select_exprs[i],
        upper_project(plan).exprs@[i],
        groups,
        aggs_among(select_exprs, i).len() as int,
        sigs,
        lower,
        keys,
        calls,
        aggs,
    );
}

/// A selected column that is grouped by more than once is read from its last group key.
pub proof fn law_last_group_key_is_read(
    plan: PlanRef,
    select_exprs: Seq<ExprImpl>,
    select_alias: Seq<Option<String>>,
    group_exprs: Seq<ExprImpl>,
    input: PlanRef,
    sigs: Seq<Signature>,
    id: int,
    i: int,
    k: int,
)
    requires
        create_error(select_exprs, group_exprs, sigs) is None,
        is_created(plan, select_exprs, select_alias, group_exprs, input, sigs, id),
        group_exprs.len() <= usize::MAX,
        0 <= i < select_exprs.len(),
        select_exprs[i] is InputRef,
        0 <= k < group_exprs.len(),
        group_exprs[k]->InputRef_0.index == select_exprs[i]->InputRef_0.index,
        same_type(group_exprs[k]->InputRef_0.data_type, select_exprs[i]->InputRef_0.data_type),
    ensures
        upper_project(plan).exprs@[i] matches ExprImpl::InputRef(y) && y.index >= k,
{
    let groups = columns_among(group_exprs);
    lemma_group_position(groups, groups.len() as int, select_exprs[i]->InputRef_0);
    assert(same_ref(groups[k], select_exprs[i]->InputRef_0));
    assert(is_rewritten(
        select_exprs[i],
        upper_project(plan).exprs@[i],
        groups,
        (groups.len() + aggs_among(select_exprs, i).len()) as int,
        sigs,
    ));
}

proof fn lemma_error_among(exprs: Seq<ExprImpl>, n: int, groups: Seq<InputRef>, sigs: Seq<Signature>, i: int)
    requires
        0 <= i < n <= exprs.len(),
        rewrite_error(exprs[i], groups, sigs) is Some,
    ensures
        rewrite_errors(exprs, n, groups, sigs) is Some,
    decreases n,
{
    if i < n - 1 {
        lemma_error_among(exprs, n - 1, groups, sigs, i);
    }
}

proof fn lemma_no_error_among(exprs: Seq<ExprImpl>, n: int, groups: Seq<InputRef>, sigs: Seq<Signature>)
    requires
        0 <= n <= exprs.len(),
        forall|i: int| 0 <= i < n ==> rewrite_error(#[trigger] exprs[i], groups, sigs) is None,
    ensures
        rewrite_errors(exprs, n, groups, sigs) is None,
    decreases n,
{
    if n > 0 {
        lemma_no_error_among(exprs, n - 1, groups, sigs);
    }
}

/// A SELECT clause of columns and aggregates is accepted exactly if the GROUP BY clause holds
/// nothing but columns, and among them each selected column.
pub proof fn law_selected_columns_are_grouped(select_exprs: Seq<ExprImpl>, group_exprs: Seq<ExprImpl>, sigs: Seq<Signature>)
    requires
        group_exprs.len() <= usize::MAX,
        forall|i: int|
            0 <= i < select_exprs.len() ==> (#[trigger] select_exprs[i]) is InputRef || select_exprs[i] is AggCall,
    ensures
        create_error(select_exprs, group_exprs, sigs) is None <==> {
            &&& forall|k: int| 0 <= k < group_exprs.len() ==> (#[trigger] group_exprs[k]) is InputRef
            &&& forall|i: int|
                0 <= i < select_exprs.len() && (#[trigger] select_exprs[i]) is InputRef ==> exists|k: int|
                    0 <= k < group_exprs.len() && (#[trigger] group_exprs[k])->InputRef_0.index
                        == select_exprs[i]->InputRef_0.index && same_type(
                        group_exprs[k]->InputRef_0.data_type,
                        select_exprs[i]->InputRef_0.data_type,
                    )
        },
{
    let groups = columns_among(group_exprs);
    let n = select_exprs.len() as int;
    if all_columns(group_exprs) {
        assert forall|i: int| 0 <= i < n && (#[trigger] select_exprs[i]) is InputRef implies (rewrite_error(
            select_exprs[i],
            groups,
            sigs,
        ) is None <==> exists|k: int|
            0 <= k < group_exprs.len() && (#[trigger] group_exprs[k])->InputRef_0.index
                == select_exprs[i]->InputRef_0.index && same_type(
                group_exprs[k]->InputRef_0.data_type,
                select_exprs[i]->InputRef_0.data_type,
            )) by {
            let x = select_exprs[i]->InputRef_0;
            lemma_group_position(groups, groups.len() as int, x);
            if let Some(p) = group_position(groups, groups.len() as int, x) {
                assert(group_exprs[p as int]->InputRef_0 == groups[p as int]);
            }
            if exists|k: int|
                0 <= k < group_exprs.len() && (#[trigger] group_exprs[k])->InputRef_0.index == x.index && same_type(
                    group_exprs[k]->InputRef_0.data_type,
                    x.data_type,
                ) {
                let k = choose|k: int|
                    0 <= k < group_exprs.len() && (#[trigger] group_exprs[k])->InputRef_0.index == x.index
                        && same_type(group_exprs[k]->InputRef_0.data_type, x.data_type);
                assert(same_ref(groups[k], x));
            }
        }
        if create_error(select_exprs, group_exprs, sigs) is None {
            assert forall|i: int| 0 <= i < n implies rewrite_error(#[trigger] select_exprs[i], groups, sigs) is None by {
                lemma_no_error_within(select_exprs, i, n, groups, sigs);
            }
        } else if forall|i: int| 0 <= i < n ==> rewrite_error(#[trigger] select_exprs[i], groups, sigs) is None {
            lemma_no_error_among(select_exprs, n, groups, sigs);
        }
    }
}

/// An expression in which a column is not grouped by is refused, however deep the column stands.
pub proof fn law_error_within_is_error(call: FunctionCall, groups: Seq<InputRef>, sigs: Seq<Signature>, i: int)
    requires
        0 <= i < call.inputs@.len(),
        rewrite_error(call.inputs@[i], groups, sigs) is Some,
    ensures
        rewrite_error(ExprImpl::FunctionCall(call), groups, sigs) is Some,
{
    lemma_error_among(call.inputs@, call.inputs@.len() as int, groups, sigs, i);
}

/// A column that is neither grouped nor aggregated, and a function that does not take its arguments, are errors of their
/// own.
pub proof fn law_errors_of_aggregation()
    ensures
        not_grouped() == ErrorView::InvalidInputSyntax(
            "column must appear in the GROUP BY clause or be used in an aggregate function"@,
        ),
        no_function() == ErrorView::InternalError("Create FunctionCall fails"@),
{
}

/// The columns of an aggregation are its group keys, as they stand in the input, and behind them its aggregates, each
/// with its return type and with the name that was given or else its number behind a prefix.
pub proof fn law_aggregated_columns(
    schema: Seq<Field>,
    input: Seq<Field>,
    group_keys: Seq<usize>,
    calls: Seq<AggView>,
    alias: Seq<Option<String>>,
    i: int,
)
    requires
        is_agg_schema(schema, input, group_keys, calls, alias),
    ensures
        schema.len() == group_keys.len() + calls.len(),
        0 <= i < group_keys.len() ==> schema[i] == input[group_keys[i] as int],
        0 <= i < calls.len() ==> schema[group_keys.len() + i].data_type == calls[i].return_type,
        0 <= i < calls.len() ==> (alias[i] matches Some(name) ==> schema[group_keys.len() + i].name@ == name@),
        0 <= i < calls.len() && alias[i] is None ==> schema[group_keys.len() + i].name@ == "agg#"@
            + crate::common::text::decimal(i as nat),
{
    if 0 <= i < calls.len() {
        assert(is_plain_field(
            schema[group_keys.len() + i],
            calls[i].return_type,
            column_name(alias[i], "agg#"@, i as nat),
        ));
    }
}

} // verus!
