//! Taking columns that nobody needs out of a plan.

use std::sync::Arc;

use fixedbitset::FixedBitSet;
use vstd::prelude::*;

use crate::common::bit_set::{
    bit_set_content, bit_set_extend, bit_set_from_below, bit_set_insert, bit_set_is_subset, bit_set_len,
    bit_set_ones, bit_set_with_capacity, lemma_length_stays, lemma_rising_list, lemma_rising_exists, lemma_split, rising, rising_list, split_at,
};
use crate::common::lists::copy_alias;
use crate::frontend::col_index_mapping::{
    law_remaining_keeps_column, mapped, mapped_all, maps_all, remaining, ColIndexMapping,
};
use crate::frontend::expr::ExprImpl;
use crate::frontend::plan_node::base::{logical_base, QueryContext};
use crate::frontend::plan_node::logical_agg::{agg_views, all_missing, is_agg_schema, positions, AggView};
use crate::frontend::plan_node::logical_project::{column_refs, is_project_schema};
use crate::frontend::plan_node::logical_scan::{all_below, is_pruned_scan, picked};
use crate::frontend::plan_node::logical_values::{row_exprs, rows_picked};
use crate::frontend::plan_node::node::{
    base_of, schema_of_plan, LogicalAgg, LogicalProject, PlanAggCall, PlanNode, PlanRef,
};

verus! {

/// The aggregates that are needed: the numbers from `g` on, less `g`.
pub open spec fn kept_calls(list: Seq<usize>, g: int) -> Seq<usize> {
    let m = split_at(list, g, 0);
    Seq::new((list.len() - m) as nat, |i: int| (list[m + i] - g) as usize)
}

/// The columns of the input that the group keys and the first `n` of the kept
/// aggregates need.
pub open spec fn needed(keys: Seq<usize>, calls: Seq<AggView>, kept: Seq<usize>, n: int) -> Set<usize>
    decreases n,
{
    if n <= 0 {
        keys.to_set()
    } else {
        needed(keys, calls, kept, n - 1).union(calls[kept[n - 1] as int].inputs.to_set())
    }
}

/// The columns of its input that an aggregation needs.
pub open spec fn child_required(agg: LogicalAgg, required: Set<usize>) -> Set<usize> {
    let kept = kept_calls(rising_list(required), agg.group_keys@.len() as int);
    needed(agg.group_keys@, agg_views(agg.agg_calls@), kept, kept.len() as int)
}

/// Aggregates whose inputs have moved.
pub open spec fn moved_calls(calls: Seq<AggView>, kept: Seq<usize>, map: Seq<Option<usize>>) -> Seq<AggView> {
    Seq::new(
        kept.len(),
        |i: int| {
            let call = calls[kept[i] as int];
            AggView { inputs: mapped_all(map, call.inputs), ..call }
        },
    )
}

/// All group keys are required.
pub open spec fn keys_required(g: nat, required: Set<usize>) -> bool {
    forall|c: usize| c < g ==> required.contains(c)
}

/// The columns of the pruned aggregation that are put out: the required group
/// keys, and all aggregates.
pub open spec fn output_columns(g: nat, kept: nat, required: Set<usize>) -> Set<usize> {
    Set::new(|c: usize| (c < g && required.contains(c)) || g <= c < g + kept)
}

/// The parts of an aggregation fit together.
pub open spec fn agg_wf(agg: LogicalAgg) -> bool {
    let width = schema_of_plan(agg.input).len();
    &&& agg.agg_calls@.len() == agg.agg_call_alias@.len()
    &&& agg.base@.schema.len() == agg.group_keys@.len() + agg.agg_calls@.len()
    &&& forall|i: int| 0 <= i < agg.group_keys@.len() ==> (#[trigger] agg.group_keys@[i]) < width
    &&& forall|i: int, j: int|
        0 <= i < agg.agg_calls@.len() && 0 <= j < agg.agg_calls@[i].inputs@.len()
            ==> (#[trigger] agg.agg_calls@[i].inputs@[j]) < width
    &&& is_agg_schema(
        agg.base@.schema,
        schema_of_plan(agg.input),
        agg.group_keys@,
        agg_views(agg.agg_calls@),
        agg.agg_call_alias@,
    )
}

/// The plan consists of nodes that can be pruned, and has the required columns.
pub open spec fn prunable(plan: PlanRef, required: Set<usize>) -> bool
    decreases plan,
{
    &&& all_below(required, schema_of_plan(plan).len())
    &&& match *plan {
        PlanNode::LogicalScan(scan) => scan.wf(),
        PlanNode::LogicalValues(values) => values.can_prune(required),
        PlanNode::LogicalAgg(agg) => agg_wf(agg) && prunable(agg.input, child_required(agg, required)),
        _ => false,
    }
}

/// How many nodes the pruned plan has.
pub open spec fn prune_ids(plan: PlanRef, required: Set<usize>) -> int
    decreases plan,
{
    match *plan {
        PlanNode::LogicalAgg(agg) => prune_ids(agg.input, child_required(agg, required)) + if keys_required(
            agg.group_keys@.len(),
            required,
        ) {
            1int
        } else {
            2int
        },
        _ => 1,
    }
}

/// `b` is `a` without the aggregates that are not required; `id` is its id.
pub open spec fn is_pruned_agg(a: LogicalAgg, required: Set<usize>, b: LogicalAgg, id: int) -> bool {
    let kept = kept_calls(rising_list(required), a.group_keys@.len() as int);
    let map = remaining(rising_list(child_required(a, required)), schema_of_plan(a.input).len());
    &&& b.group_keys@ == mapped_all(map, a.group_keys@)
    &&& agg_views(b.agg_calls@) == moved_calls(agg_views(a.agg_calls@), kept, map)
    &&& b.agg_call_alias@ == picked(a.agg_call_alias@, kept)
    &&& b.base@ == logical_base(id as i32, b.base@.schema, Seq::empty())
    &&& is_agg_schema(
        b.base@.schema,
        schema_of_plan(b.input),
        b.group_keys@,
        agg_views(b.agg_calls@),
        b.agg_call_alias@,
    )
}

/// The aggregation in a pruned aggregation: the node itself, or what it projects.
pub open spec fn agg_within(r: PlanRef) -> Option<LogicalAgg> {
    match *r {
        PlanNode::LogicalAgg(b) => Some(b),
        PlanNode::LogicalProject(p) => match *p.input {
            PlanNode::LogicalAgg(b) => Some(b),
            _ => None,
        },
        _ => None,
    }
}

/// `p` puts out the columns of the pruned aggregation that are required.
pub open spec fn is_pruned_output(a: LogicalAgg, required: Set<usize>, p: LogicalProject, b: LogicalAgg, id: int) -> bool {
    let g = a.group_keys@.len();
    let kept = kept_calls(rising_list(required), g as int);
    &&& p.exprs@ == column_refs(b.base@.schema, rising_list(output_columns(g, kept.len(), required)))
    &&& all_missing(p.expr_alias@, p.exprs@.len())
    &&& p.base@ == logical_base(id as i32, p.base@.schema, Seq::empty())
    &&& is_project_schema(p.base@.schema, p.exprs@, p.expr_alias@)
}

/// `r` is the plan with only the required columns; its nodes have the ids from `id` on.
pub open spec fn is_pruned(plan: PlanRef, required: Set<usize>, r: PlanRef, id: int) -> bool
    decreases plan,
{
    let list = rising_list(required);
    match *plan {
        PlanNode::LogicalScan(scan) => {
            &&& *r matches PlanNode::LogicalScan(s)
            &&& is_pruned_scan(scan, required, s, id)
        },
        PlanNode::LogicalValues(values) => {
            &&& *r matches PlanNode::LogicalValues(v)
            &&& row_exprs(v.rows@) == rows_picked(row_exprs(values.rows@), list)
            &&& v.base@ == logical_base(id as i32, picked(values.base@.schema, list), Seq::empty())
        },
        PlanNode::LogicalAgg(agg) => {
            let child = child_required(agg, required);
            let agg_id = id + prune_ids(agg.input, child);
            &&& agg_within(r) matches Some(b)
            &&& is_pruned(agg.input, child, b.input, id)
            &&& is_pruned_agg(agg, required, b, agg_id)
            &&& if keys_required(agg.group_keys@.len(), required) {
                *r is LogicalAgg
            } else {
                *r matches PlanNode::LogicalProject(p) && is_pruned_output(agg, required, p, b, agg_id + 1)
            }
        },
        _ => false,
    }
}

proof fn lemma_needed_all(keys: Seq<usize>, calls: Seq<AggView>, kept: Seq<usize>, n: int, k: int)
    requires
        0 <= k < n <= kept.len(),
    ensures
        keys.to_set().subset_of(needed(keys, calls, kept, n)),
        calls[kept[k] as int].inputs.to_set().subset_of(needed(keys, calls, kept, n)),
    decreases n,
{
    if k < n - 1 {
        lemma_needed_all(keys, calls, kept, n - 1, k);
    } else {
        lemma_needed_keys(keys, calls, kept, n - 1);
    }
}

proof fn lemma_needed_keys(keys: Seq<usize>, calls: Seq<AggView>, kept: Seq<usize>, n: int)
    ensures
        keys.to_set().subset_of(needed(keys, calls, kept, n)),
    decreases n,
{
    if n > 0 {
        lemma_needed_keys(keys, calls, kept, n - 1);
    }
}

proof fn lemma_needed_below(agg: LogicalAgg, kept: Seq<usize>, n: int)
    requires
        agg_wf(agg),
        0 <= n <= kept.len(),
        forall|i: int| 0 <= i < kept.len() ==> (#[trigger] kept[i]) < agg.agg_calls@.len(),
    ensures
        all_below(needed(agg.group_keys@, agg_views(agg.agg_calls@), kept, n), schema_of_plan(agg.input).len()),
        needed(agg.group_keys@, agg_views(agg.agg_calls@), kept, n).finite(),
    decreases n,
{
    let keys = agg.group_keys@;
    let calls = agg_views(agg.agg_calls@);
    if n > 0 {
        lemma_needed_below(agg, kept, n - 1);
        let call = calls[kept[n - 1] as int];
        assert forall|c: usize| #[trigger] needed(keys, calls, kept, n).contains(c) implies c < schema_of_plan(
            agg.input,
        ).len() by {
            if call.inputs.contains(c) {
                let j = call.inputs.index_of(c);
                assert(agg.agg_calls@[kept[n - 1] as int].inputs@[j] == c);
            }
        }
        vstd::seq_lib::seq_to_set_is_finite(call.inputs);
    } else {
        assert forall|c: usize| #[trigger] keys.to_set().contains(c) implies c < schema_of_plan(agg.input).len() by {
            let j = keys.index_of(c);
            assert(agg.group_keys@[j] == c);
        }
        vstd::seq_lib::seq_to_set_is_finite(keys);
    }
}

impl LogicalAgg {
    /// The aggregation with only the required columns.
    #[verifier::rlimit(40)]
    pub fn prune_col(&self, required_cols: &FixedBitSet, ctx: &mut QueryContext) -> (r: PlanRef)
        requires
            all_below(bit_set_content(*required_cols), self.base@.schema.len()),
            agg_wf(*self),
            prunable(self.input, child_required(*self, bit_set_content(*required_cols))),
            old(ctx).has_ids(agg_prune_ids(*self, bit_set_content(*required_cols))),
        ensures
            is_pruned_plan(*self, bit_set_content(*required_cols), r, old(ctx).next_id as int),
            *final(ctx) == old(ctx).after_ids(agg_prune_ids(*self, bit_set_content(*required_cols))),
        decreases *self, 0int,
    {
        let ghost required = bit_set_content(*required_cols);
        let ghost width = schema_of_plan(self.input).len();
        let ghost keys = self.group_keys@;
        let ghost calls = agg_views(self.agg_calls@);
        let ghost first_id = ctx.next_id as int;
        let g: usize = self.group_keys.len();
        let ones = bit_set_ones(required_cols);
        let ghost kept = kept_calls(ones@, g as int);
        let ghost m = split_at(ones@, g as int, 0);
        proof {
            lemma_rising_list(ones@);
            lemma_split(ones@, g as int, 0);
            assert forall|i: int| 0 <= i < ones@.len() implies (#[trigger] ones@[i]) < self.base@.schema.len() by {
                assert(ones@.to_set().contains(ones@[i]));
            }
            assert forall|i: int| 0 <= i < kept.len() implies (#[trigger] kept[i]) < self.agg_calls@.len() by {
                assert(ones@[m + i] < self.base@.schema.len());
            }
            lemma_prune_ids_positive(self.input, child_required(*self, required));
        }
        let mut child_required_cols = bit_set_with_capacity(self.input.schema().len());
        proof {
            lemma_length_stays(keys, width as int, keys.len() as int);
        }
        bit_set_extend(&mut child_required_cols, &self.group_keys);
        // Do not prune the group keys.
        let mut agg_calls: Vec<PlanAggCall> = Vec::new();
        let mut agg_call_alias: Vec<Option<String>> = Vec::new();
        let mut i: usize = 0;
        proof {
            assert(Set::<usize>::empty().union(keys.to_set()) =~= keys.to_set());
        }
        while i < ones.len()
            invariant
                i <= ones@.len(),
                g == self.group_keys@.len(),
                agg_wf(*self),
                keys == self.group_keys@,
                calls == agg_views(self.agg_calls@),
                width == schema_of_plan(self.input).len(),
                m == split_at(ones@, g as int, 0),
                kept == kept_calls(ones@, g as int),
                0 <= m <= ones@.len(),
                kept.len() == ones@.len() - m,
                forall|j: int| 0 <= j < m ==> (#[trigger] ones@[j]) < g,
                forall|j: int| m <= j < ones@.len() ==> (#[trigger] ones@[j]) >= g,
                forall|j: int| 0 <= j < kept.len() ==> (#[trigger] kept[j]) < self.agg_calls@.len(),
                bit_set_len(child_required_cols) == width,
                i <= m ==> agg_calls@.len() == 0,
                i > m ==> agg_calls@.len() == i - m,
                agg_call_alias@.len() == agg_calls@.len(),
                bit_set_content(child_required_cols) == needed(keys, calls, kept, agg_calls@.len() as int),
                forall|j: int| 0 <= j < agg_calls@.len() ==> (#[trigger] agg_calls@[j])@ == calls[kept[j] as int],
                forall|j: int|
                    0 <= j < agg_calls@.len() ==> #[trigger] agg_call_alias@[j] == self.agg_call_alias@[kept[j] as int],
            decreases ones@.len() - i,
        {
            let id: usize = ones[i];
            if id >= g {
                let index: usize = id - g;
                let ghost k = agg_calls@.len() as int;
                proof {
                    assert(i >= m);
                    assert(kept[k] == index);
                    let inputs = self.agg_calls@[index as int].inputs@;
                    assert forall|j: int| 0 <= j < inputs.len() implies (#[trigger] inputs[j]) < width by {
                        assert(self.agg_calls@[index as int].inputs@[j] < width);
                    }
                    lemma_length_stays(inputs, width as int, inputs.len() as int);
                    assert(calls[index as int].inputs == inputs);
                }
                bit_set_extend(&mut child_required_cols, &self.agg_calls[index].inputs);
                agg_calls.push(self.agg_calls[index].copy());
                agg_call_alias.push(copy_alias(&self.agg_call_alias[index]));
                proof {
                    assert(needed(keys, calls, kept, k + 1) == needed(keys, calls, kept, k).union(
                        calls[kept[k] as int].inputs.to_set(),
                    ));
                }
            } else {
                assert(i < m);
            }
            i = i + 1;
        }
        let ghost child = child_required(*self, required);
        assert(agg_calls@.len() == kept.len());
        assert(bit_set_content(child_required_cols) == child);
        let mapping = ColIndexMapping::with_remaining_columns(&child_required_cols);
        let ghost list = rising_list(child);
        let child_ones = bit_set_ones(&child_required_cols);
        let child_count: usize = child_ones.len();
        proof {
            assert(child_ones@.len() == child_count);
            lemma_rising_list(child_ones@);
            lemma_needed_below(*self, kept, kept.len() as int);
            lemma_needed_keys(keys, calls, kept, kept.len() as int);
            lemma_maps_all(child_ones@, width, keys);
            assert forall|j: int| 0 <= j < kept.len() implies maps_all(
                mapping@,
                calls[(#[trigger] kept[j]) as int].inputs,
            ) by {
                lemma_needed_all(keys, calls, kept, kept.len() as int, j);
                lemma_maps_all(child_ones@, width, calls[kept[j] as int].inputs);
            }
        }
        let mut moved: Vec<PlanAggCall> = Vec::new();
        let mut k: usize = 0;
        let ghost want = moved_calls(calls, kept, mapping@);
        while k < agg_calls.len()
            invariant
                k <= agg_calls@.len(),
                agg_calls@.len() == kept.len(),
                want == moved_calls(calls, kept, mapping@),
                forall|j: int| 0 <= j < agg_calls@.len() ==> (#[trigger] agg_calls@[j])@ == calls[kept[j] as int],
                forall|j: int| 0 <= j < kept.len() ==> maps_all(mapping@, calls[(#[trigger] kept[j]) as int].inputs),
                moved@.len() == k,
                forall|j: int| 0 <= j < k ==> (#[trigger] moved@[j])@ == want[j],
            decreases agg_calls@.len() - k,
        {
            assert(agg_calls@[k as int]@ == calls[kept[k as int] as int]);
            assert(maps_all(mapping@, calls[kept[k as int] as int].inputs));
            let inputs = mapping.map_all(&agg_calls[k].inputs);
            moved.push(
                PlanAggCall {
                    agg_kind: agg_calls[k].agg_kind,
                    return_type: agg_calls[k].return_type.copy(),
                    inputs,
                },
            );
            k = k + 1;
        }
        let group_keys = mapping.map_all(&self.group_keys);
        let input = prune_col(&self.input, &child_required_cols, ctx);
        proof {
            assert(agg_views(moved@) =~= want);
            assert(agg_call_alias@ =~= picked(self.agg_call_alias@, kept));
            law_pruned_columns(self.input, child, input, first_id);
            assert forall|j: int| 0 <= j < group_keys@.len() implies (#[trigger] group_keys@[j]) < schema_of_plan(
                input,
            ).len() by {
                assert(child.contains(keys[j])) by {
                    assert(keys.to_set().contains(keys[j]));
                }
                assert(keys[j] < width);
                assert(list.to_set().contains(keys[j]));
                law_remaining_keeps_column(list, width, keys[j]);
            }
        }
        let agg = LogicalAgg::new(moved, agg_call_alias, group_keys, input, ctx);
        let all_keys = bit_set_from_below(g);
        let ghost agg_id = first_id + prune_ids(self.input, child);
        proof {
            assert(is_pruned_agg(*self, required, agg, agg_id));
            assert(bit_set_content(all_keys).subset_of(required) == keys_required(g as nat, required));
        }
        if bit_set_is_subset(&all_keys, required_cols) {
            Arc::new(PlanNode::LogicalAgg(agg))
        } else {
            // Some group key columns are not needed
            let total: usize = agg.base.schema.len();
            let mut required_cols_new = bit_set_with_capacity(total);
            let mut i: usize = 0;
            while i < ones.len()
                invariant
                    i <= ones@.len(),
                    total == g + kept.len(),
                    bit_set_len(required_cols_new) == total,
                    forall|c: usize|
                        bit_set_content(required_cols_new).contains(c) <==> c < g && exists|j: int|
                            0 <= j < i && #[trigger] ones@[j] == c,
                decreases ones@.len() - i,
            {
                let ghost before = bit_set_content(required_cols_new);
                if ones[i] < g {
                    bit_set_insert(&mut required_cols_new, ones[i]);
                }
                proof {
                    assert forall|c: usize| bit_set_content(required_cols_new).contains(c) <==> c < g && exists|j: int|
                        0 <= j < i + 1 && #[trigger] ones@[j] == c by {
                        if before.contains(c) {
                            let j = choose|j: int| 0 <= j < i && #[trigger] ones@[j] == c;
                            assert(ones@[j] == c);
                        }
                        if c < g && exists|j: int| 0 <= j < i + 1 && #[trigger] ones@[j] == c {
                            let j = choose|j: int| 0 <= j < i + 1 && #[trigger] ones@[j] == c;
                            if j < i {
                                assert(before.contains(c));
                            }
                        }
                        assert(ones@[i as int] == ones@[i as int]);
                    }
                }
                i = i + 1;
            }
            let ghost below = bit_set_content(required_cols_new);
            let mut rest: Vec<usize> = Vec::new();
            let mut c: usize = g;
            while c < total
                invariant
                    g <= c <= total,
                    total == g + kept.len(),
                    rest@ == positions(g as int, kept.len()).subrange(0, c - g),
                decreases total - c,
            {
                rest.push(c);
                c = c + 1;
                proof {
                    assert(rest@ =~= positions(g as int, kept.len()).subrange(0, c - g));
                }
            }
            proof {
                assert(rest@ =~= positions(g as int, kept.len()));
                lemma_length_stays(rest@, total as int, rest@.len() as int);
            }
            bit_set_extend(&mut required_cols_new, &rest);
            proof {
                let out = output_columns(g as nat, kept.len(), required);
                assert forall|c: usize| bit_set_content(required_cols_new).contains(c) == out.contains(c) by {
                    assert(rest@.to_set().contains(c) == (g <= c < total)) by {
                        if g <= c < total {
                            assert(rest@[c - g] == c);
                        }
                    }
                    if below.contains(c) {
                        let j = choose|j: int| 0 <= j < ones@.len() && #[trigger] ones@[j] == c;
                        assert(ones@.to_set().contains(ones@[j]));
                    }
                    if c < g && required.contains(c) {
                        assert(ones@.to_set().contains(c));
                        let j = ones@.index_of(c);
                        assert(ones@[j] == c);
                    }
                }
                assert(bit_set_content(required_cols_new) =~= out);
            }
            let agg_plan: PlanRef = Arc::new(PlanNode::LogicalAgg(agg));
            Arc::new(
                PlanNode::LogicalProject(
                    LogicalProject::with_remaining_columns(agg_plan, &required_cols_new, ctx),
                ),
            )
        }
    }
}

/// How many nodes a pruned aggregation has.
pub open spec fn agg_prune_ids(agg: LogicalAgg, required: Set<usize>) -> int {
    prune_ids(agg.input, child_required(agg, required)) + if keys_required(agg.group_keys@.len(), required) {
        1int
    } else {
        2int
    }
}

/// `r` is the aggregation with only the required columns; its nodes have the
/// ids from `id` on.
pub open spec fn is_pruned_plan(agg: LogicalAgg, required: Set<usize>, r: PlanRef, id: int) -> bool {
    let child = child_required(agg, required);
    let agg_id = id + prune_ids(agg.input, child);
    &&& agg_within(r) matches Some(b)
    &&& is_pruned(agg.input, child, b.input, id)
    &&& is_pruned_agg(agg, required, b, agg_id)
    &&& if keys_required(agg.group_keys@.len(), required) {
        *r is LogicalAgg
    } else {
        *r matches PlanNode::LogicalProject(p) && is_pruned_output(agg, required, p, b, agg_id + 1)
    }
}

proof fn lemma_prune_ids_positive(plan: PlanRef, required: Set<usize>)
    ensures
        prune_ids(plan, required) >= 1,
    decreases plan,
{
    match &*plan {
        PlanNode::LogicalAgg(agg) => {
            lemma_prune_ids_positive(agg.input, child_required(*agg, required));
        },
        _ => {},
    }
}

proof fn lemma_maps_all(list: Seq<usize>, width: nat, indices: Seq<usize>)
    requires
        list.len() <= usize::MAX,
        forall|c: usize| #[trigger] list.to_set().contains(c) ==> c < width,
        indices.to_set().subset_of(list.to_set()),
    ensures
        maps_all(remaining(list, width), indices),
{
    assert forall|i: int| 0 <= i < indices.len() implies mapped(remaining(list, width), #[trigger] indices[i]) is Some by {
        assert(indices.to_set().contains(indices[i]));
        assert(list.to_set().contains(indices[i]));
        law_remaining_keeps_column(list, width, indices[i]);
    }
}

/// The required group keys come first in the list of required columns.
proof fn lemma_all_keys_first(list: Seq<usize>, g: int, i: int)
    requires
        rising(list),
        0 <= i <= g <= usize::MAX,
        forall|c: usize| c < g ==> list.to_set().contains(c),
    ensures
        i <= list.len(),
        forall|j: int| 0 <= j < i ==> (#[trigger] list[j]) == j,
    decreases i,
{
    if i > 0 {
        lemma_all_keys_first(list, g, i - 1);
        let c = (i - 1) as usize;
        assert(list.to_set().contains(c));
        let k = list.index_of(c);
        assert(list[k] == c);
        if k < i - 1 {
            assert(list[k] == k);
        }
        if i - 1 < k {
            assert(list[i - 1] < list[k]);
            if i >= 2 {
                assert(list[i - 2] == i - 2);
                assert(list[i - 2] < list[i - 1]);
            }
        }
    }
}

/// The list of the output columns: the required group keys, then all aggregates.
proof fn lemma_output_list(list: Seq<usize>, g: int, required: Set<usize>)
    requires
        rising(list),
        list.to_set() == required,
        0 <= g,
        g + kept_calls(list, g).len() <= usize::MAX,
    ensures
        ({
            let m = split_at(list, g, 0);
            let kept = kept_calls(list, g);
            &&& 0 <= m <= list.len()
            &&& rising_list(output_columns(g as nat, kept.len(), required)) == list.subrange(0, m) + positions(
                g,
                kept.len(),
            )
        }),
{
    lemma_split(list, g, 0);
    let m = split_at(list, g, 0);
    let kept = kept_calls(list, g);
    let out = list.subrange(0, m) + positions(g, kept.len());
    let set = output_columns(g as nat, kept.len(), required);
    assert(rising(out));
    assert(out.to_set() =~= set) by {
        assert forall|c: usize| out.to_set().contains(c) == set.contains(c) by {
            if out.contains(c) {
                let k = out.index_of(c);
                if k < m {
                    assert(list[k] == c);
                    assert(list.to_set().contains(c));
                }
            }
            if set.contains(c) {
                if c < g {
                    assert(list.to_set().contains(c));
                    let k = list.index_of(c);
                    assert(list[k] == c);
                    assert(out[k] == c);
                } else {
                    assert(out[m + c - g] == c);
                }
            }
        }
    }
    lemma_rising_list(out);
}

/// A pruned plan has the required columns, in their order and with their types.
pub proof fn law_pruned_columns(plan: PlanRef, required: Set<usize>, r: PlanRef, id: int)
    requires
        required.finite(),
        prunable(plan, required),
        is_pruned(plan, required, r, id),
    ensures
        schema_of_plan(r).len() == rising_list(required).len(),
        forall|i: int|
            0 <= i < rising_list(required).len() ==> (#[trigger] schema_of_plan(r)[i]).data_type == schema_of_plan(
                plan,
            )[rising_list(required)[i] as int].data_type,
    decreases plan,
{
    let list = rising_list(required);
    lemma_rising_exists(required);
    match &*plan {
        PlanNode::LogicalAgg(agg) => {
            let child = child_required(*agg, required);
            let b = agg_within(r)->0;
            let g = agg.group_keys@.len() as int;
            let kept = kept_calls(list, g);
            let m = split_at(list, g, 0);
            let keys = agg.group_keys@;
            let calls = agg_views(agg.agg_calls@);
            lemma_schema_bounded(plan);
            lemma_schema_bounded(agg.input);
            lemma_list_below(list, schema_of_plan(plan).len());
            lemma_split(list, g, 0);
            lemma_kept(list, g, agg.agg_calls@.len());
            lemma_needed_below(*agg, kept, kept.len() as int);
            law_pruned_columns(agg.input, child, b.input, id);
            let child_list = rising_list(child);
            lemma_rising_exists(child);
            let width = schema_of_plan(agg.input).len();
            let map = remaining(child_list, width);
            lemma_list_below(child_list, width);
            lemma_rising_len(child_list, width);
            // The group keys of the pruned aggregation have the types of the old ones.
            assert forall|i: int| 0 <= i < g implies (#[trigger] b.base@.schema[i]).data_type == agg.base@.schema[i].data_type by {
                let key = keys[i];
                assert(keys.to_set().contains(key));
                lemma_needed_keys(keys, calls, kept, kept.len() as int);
                assert(child_list.to_set().contains(key));
                law_remaining_keeps_column(child_list, width, key);
                let j = mapped(map, key)->0;
                assert(b.group_keys@[i] == j);
                assert(schema_of_plan(b.input)[j as int].data_type == schema_of_plan(agg.input)[child_list[j as int] as int].data_type);
                assert(b.base@.schema[i] == schema_of_plan(b.input)[j as int]);
                assert(agg.base@.schema[i] == schema_of_plan(agg.input)[key as int]);
            }
            assert forall|i: int| 0 <= i < kept.len() implies (#[trigger] b.base@.schema[g + i]).data_type
                == agg.base@.schema[g + kept[i]].data_type by {
                assert(agg_views(b.agg_calls@)[i].return_type == calls[kept[i] as int].return_type);
                assert(agg.base@.schema[g + kept[i]].data_type == calls[kept[i] as int].return_type);
            }
            if keys_required(g as nat, required) {
                lemma_all_keys_first(list, g, g);
                assert(m == g) by {
                    if m < g {
                        assert(list[m] == m);
                    }
                    if m > g {
                        assert(list[g] < g);
                        if g > 0 {
                            assert(list[g - 1] == g - 1);
                            assert(list[g - 1] < list[g]);
                        }
                    }
                }
                assert forall|i: int| 0 <= i < list.len() implies (#[trigger] schema_of_plan(r)[i]).data_type
                    == schema_of_plan(plan)[list[i] as int].data_type by {
                    if i >= g {
                        assert(kept[i - g] == list[i] - g);
                        assert(b.base@.schema[g + (i - g)].data_type == agg.base@.schema[g + kept[i - g]].data_type);
                    } else {
                        assert(list[i] == i);
                    }
                }
            } else {
                lemma_output_list(list, g, required);
                let out = list.subrange(0, m) + positions(g, kept.len());
                assert forall|i: int| 0 <= i < list.len() implies (#[trigger] schema_of_plan(r)[i]).data_type
                    == schema_of_plan(plan)[list[i] as int].data_type by {
                    assert(out[i] == if i < m { list[i] } else { (g + i - m) as usize });
                    if i >= m {
                        assert(kept[i - m] == list[i] - g);
                        assert(b.base@.schema[g + (i - m)].data_type == agg.base@.schema[g + kept[i - m]].data_type);
                    }
                }
            }
        },
        _ => {},
    }
}

proof fn lemma_list_below(list: Seq<usize>, n: nat)
    requires
        all_below(list.to_set(), n),
    ensures
        forall|i: int| 0 <= i < list.len() ==> (#[trigger] list[i]) < n,
{
    assert forall|i: int| 0 <= i < list.len() implies (#[trigger] list[i]) < n by {
        assert(list.to_set().contains(list[i]));
    }
}

proof fn lemma_schema_bounded(plan: PlanRef)
    ensures
        schema_of_plan(plan).len() <= usize::MAX,
{
    assert(base_of(*plan).schema.fields@.len() == base_of(*plan).schema.fields.len());
}

proof fn lemma_rising_len(list: Seq<usize>, n: nat)
    requires
        rising(list),
        forall|i: int| 0 <= i < list.len() ==> (#[trigger] list[i]) < n,
    ensures
        list.len() <= n,
    decreases list.len(),
{
    if list.len() > 0 {
        let last = list.last() as nat;
        assert forall|i: int| 0 <= i < list.drop_last().len() implies (#[trigger] list.drop_last()[i]) < last by {
            assert(list[i] < list[list.len() - 1]);
        }
        assert(rising(list.drop_last())) by {
            assert forall|i: int, j: int| 0 <= i < j < list.drop_last().len() implies (#[trigger] list.drop_last()[i]) < (
            #[trigger] list.drop_last()[j]) by {
                assert(list[i] < list[j]);
            }
        }
        lemma_rising_len(list.drop_last(), last);
    }
}

proof fn lemma_kept(list: Seq<usize>, g: int, calls: nat)
    requires
        rising(list),
        0 <= g,
        forall|i: int| 0 <= i < list.len() ==> (#[trigger] list[i]) < g + calls,
    ensures
        kept_calls(list, g).len() <= calls,
        forall|i: int| 0 <= i < kept_calls(list, g).len() ==> (#[trigger] kept_calls(list, g)[i]) < calls,
{
    lemma_split(list, g, 0);
    let m = split_at(list, g, 0);
    let kept = kept_calls(list, g);
    assert forall|i: int| 0 <= i < kept.len() implies (#[trigger] kept[i]) < calls by {
        assert(list[m + i] < g + calls);
    }
    assert(rising(kept)) by {
        assert forall|i: int, j: int| 0 <= i < j < kept.len() implies (#[trigger] kept[i]) < (#[trigger] kept[j]) by {
            assert(list[m + i] < list[m + j]);
        }
    }
    lemma_rising_len(kept, calls);
}

/// The plan with only the required columns.
pub fn prune_col(plan: &PlanRef, required_cols: &FixedBitSet, ctx: &mut QueryContext) -> (r: PlanRef)
    requires
        prunable(*plan, bit_set_content(*required_cols)),
        old(ctx).has_ids(prune_ids(*plan, bit_set_content(*required_cols))),
    ensures
        is_pruned(*plan, bit_set_content(*required_cols), r, old(ctx).next_id as int),
        *final(ctx) == old(ctx).after_ids(prune_ids(*plan, bit_set_content(*required_cols))),
    decreases **plan, 1int,
{
    match &**plan {
        PlanNode::LogicalScan(scan) => Arc::new(PlanNode::LogicalScan(scan.prune_col(required_cols, ctx))),
        PlanNode::LogicalValues(values) => Arc::new(PlanNode::LogicalValues(values.prune_col(required_cols, ctx))),
        PlanNode::LogicalAgg(agg) => agg.prune_col(required_cols, ctx),
        _ => plan.clone(),
    }
}

proof fn lemma_needed_only(keys: Seq<usize>, calls: Seq<AggView>, kept: Seq<usize>, n: int, c: usize)
    requires
        0 <= n <= kept.len(),
    ensures
        needed(keys, calls, kept, n).contains(c) ==> keys.contains(c) || exists|k: int|
            0 <= k < n && calls[(#[trigger] kept[k]) as int].inputs.contains(c),
    decreases n,
{
    if n > 0 {
        lemma_needed_only(keys, calls, kept, n - 1, c);
        if calls[kept[n - 1] as int].inputs.to_set().contains(c) {
            assert(calls[kept[n - 1] as int].inputs.contains(c));
        }
    }
}

/// An aggregation needs of its input the columns of its group keys, required or not, and those of the
/// aggregates that are required, and no others.
pub proof fn law_needed_columns(agg: LogicalAgg, required: Set<usize>, c: usize)
    requires
        required.finite(),
        all_below(required, agg.base@.schema.len()),
        agg_wf(agg),
    ensures
        child_required(agg, required).contains(c) <==> (agg.group_keys@.contains(c) || exists|k: int|
            0 <= k < agg.agg_calls@.len() && required.contains((agg.group_keys@.len() + k) as usize) && (
            #[trigger] agg.agg_calls@[k]).inputs@.contains(c)),
{
    let list = rising_list(required);
    let g = agg.group_keys@.len() as int;
    let kept = kept_calls(list, g);
    let calls = agg_views(agg.agg_calls@);
    let keys = agg.group_keys@;
    let m = split_at(list, g, 0);
    lemma_rising_exists(required);
    lemma_split(list, g, 0);
    lemma_list_below(list, agg.base@.schema.len());
    lemma_kept(list, g, agg.agg_calls@.len());
    lemma_needed_only(keys, calls, kept, kept.len() as int, c);
    if child_required(agg, required).contains(c) && !keys.contains(c) {
        let k = choose|k: int| 0 <= k < kept.len() && calls[(#[trigger] kept[k]) as int].inputs.contains(c);
        assert(list[m + k] == g + kept[k]);
        assert(list.to_set().contains(list[m + k]));
        assert(agg.agg_calls@[kept[k] as int].inputs@.contains(c));
    }
    if keys.contains(c) {
        lemma_needed_keys(keys, calls, kept, kept.len() as int);
        assert(keys.to_set().contains(c));
    }
    if exists|k: int|
        0 <= k < agg.agg_calls@.len() && required.contains((g + k) as usize) && (
        #[trigger] agg.agg_calls@[k]).inputs@.contains(c) {
        let k = choose|k: int|
            0 <= k < agg.agg_calls@.len() && required.contains((g + k) as usize) && (
            #[trigger] agg.agg_calls@[k]).inputs@.contains(c);
        assert(agg.base@.schema.len() == g + agg.agg_calls@.len());
        assert(list.to_set().contains((g + k) as usize));
        let i = list.index_of((g + k) as usize);
        assert(list[i] == (g + k) as usize);
        lemma_agg_bounded(agg);
        assert(list[i] == g + k);
        assert(i >= m);
        assert(kept[i - m] == k);
        lemma_needed_all(keys, calls, kept, kept.len() as int, i - m);
        assert(calls[kept[i - m] as int].inputs.to_set().contains(c));
    }
}

proof fn lemma_agg_bounded(agg: LogicalAgg)
    ensures
        agg.base@.schema.len() <= usize::MAX,
{
    assert(agg.base.schema.fields@.len() == agg.base.schema.fields.len());
}

/// The pruned aggregation groups by the same columns of the input as before, and computes, in their
/// order, the aggregates that are required, each of the same kind, with the same name, over the same columns
/// of the input. `m` is the number of the group keys that are required.
pub proof fn law_required_aggregates_stay(plan: PlanRef, agg: LogicalAgg, required: Set<usize>, r: PlanRef, id: int, m: int)
    requires
        required.finite(),
        prunable(plan, required),
        *plan == PlanNode::LogicalAgg(agg),
        is_pruned(plan, required, r, id),
        0 <= m <= rising_list(required).len(),
        forall|j: int| 0 <= j < m ==> (#[trigger] rising_list(required)[j]) < agg.group_keys@.len(),
        forall|j: int| m <= j < rising_list(required).len() ==> (#[trigger] rising_list(required)[j]) >= agg.group_keys@.len(),
    ensures
        agg_within(r) is Some,
        ({
            let b = agg_within(r)->0;
            let g = agg.group_keys@.len();
            let list = rising_list(required);
            let input = rising_list(child_required(agg, required));
            &&& b.group_keys@.len() == g
            &&& forall|i: int|
                0 <= i < g ==> (#[trigger] b.group_keys@[i]) < input.len() && input[b.group_keys@[i] as int]
                    == agg.group_keys@[i]
            &&& b.agg_calls@.len() == list.len() - m
            &&& forall|i: int|
                0 <= i < list.len() - m ==> {
                    let before = agg.agg_calls@[list[m + i] - g];
                    let after = #[trigger] b.agg_calls@[i];
                    &&& after.agg_kind == before.agg_kind
                    &&& after.return_type == before.return_type
                    &&& b.agg_call_alias@[i] == agg.agg_call_alias@[list[m + i] - g]
                    &&& after.inputs@.len() == before.inputs@.len()
                    &&& forall|k: int|
                        0 <= k < after.inputs@.len() ==> (#[trigger] after.inputs@[k]) < input.len()
                            && input[after.inputs@[k] as int] == before.inputs@[k]
                }
        }),
{
    let b = agg_within(r)->0;
    let g = agg.group_keys@.len() as int;
    let list = rising_list(required);
    let child = child_required(agg, required);
    let input = rising_list(child);
    let kept = kept_calls(list, g);
    let keys = agg.group_keys@;
    let calls = agg_views(agg.agg_calls@);
    let width = schema_of_plan(agg.input).len();
    let map = remaining(input, width);
    lemma_rising_exists(required);
    lemma_schema_bounded(plan);
    lemma_schema_bounded(agg.input);
    lemma_list_below(list, schema_of_plan(plan).len());
    lemma_split(list, g, 0);
    assert(m == split_at(list, g, 0)) by {
        let s = split_at(list, g, 0);
        if s < m {
            assert(list[s] >= g);
        }
        if m < s {
            assert(list[m] < g);
        }
    }
    lemma_kept(list, g, agg.agg_calls@.len());
    lemma_needed_below(agg, kept, kept.len() as int);
    lemma_rising_exists(child);
    lemma_list_below(input, width);
    lemma_rising_len(input, width);
    assert forall|i: int| 0 <= i < g implies (#[trigger] b.group_keys@[i]) < input.len() && input[b.group_keys@[i] as int]
        == keys[i] by {
        assert(keys.to_set().contains(keys[i]));
        lemma_needed_keys(keys, calls, kept, kept.len() as int);
        assert(input.to_set().contains(keys[i]));
        law_remaining_keeps_column(input, width, keys[i]);
    }
    assert(agg_views(b.agg_calls@).len() == kept.len());
    assert forall|i: int| 0 <= i < list.len() - m implies {
        let before = agg.agg_calls@[list[m + i] - g];
        let after = #[trigger] b.agg_calls@[i];
        &&& after.agg_kind == before.agg_kind
        &&& after.return_type == before.return_type
        &&& b.agg_call_alias@[i] == agg.agg_call_alias@[list[m + i] - g]
        &&& after.inputs@.len() == before.inputs@.len()
        &&& forall|k: int|
            0 <= k < after.inputs@.len() ==> (#[trigger] after.inputs@[k]) < input.len()
                && input[after.inputs@[k] as int] == before.inputs@[k]
    } by {
        assert(kept[i] == list[m + i] - g);
        assert(agg_views(b.agg_calls@)[i] == moved_calls(calls, kept, map)[i]);
        let before = agg.agg_calls@[list[m + i] - g];
        let after = b.agg_calls@[i];
        assert(calls[kept[i] as int] == before@);
        assert(after.inputs@ == mapped_all(map, before.inputs@));
        lemma_needed_all(keys, calls, kept, kept.len() as int, i);
        assert forall|k: int| 0 <= k < after.inputs@.len() implies (#[trigger] after.inputs@[k]) < input.len()
            && input[after.inputs@[k] as int] == before.inputs@[k] by {
            let c = before.inputs@[k];
            assert(before.inputs@.to_set().contains(c));
            assert(input.to_set().contains(c));
            assert(agg.agg_calls@[list[m + i] - g].inputs@[k] < width);
            law_remaining_keeps_column(input, width, c);
        }
    }
}

/// Where not all group keys are required, the columns that are put out are the required group keys and,
/// behind them, all aggregates of the pruned aggregation. `m` is the number of the group keys that are
/// required.
pub proof fn law_unneeded_keys_are_left_out(plan: PlanRef, agg: LogicalAgg, required: Set<usize>, r: PlanRef, id: int, m: int, i: int)
    requires
        required.finite(),
        prunable(plan, required),
        *plan == PlanNode::LogicalAgg(agg),
        is_pruned(plan, required, r, id),
        0 <= m <= rising_list(required).len(),
        forall|j: int| 0 <= j < m ==> (#[trigger] rising_list(required)[j]) < agg.group_keys@.len(),
        forall|j: int| m <= j < rising_list(required).len() ==> (#[trigger] rising_list(required)[j]) >= agg.group_keys@.len(),
        0 <= i < rising_list(required).len(),
    ensures
        *r is LogicalAgg <==> m == agg.group_keys@.len(),
        *r matches PlanNode::LogicalProject(p) ==> p.exprs@.len() == rising_list(required).len() && (
        p.exprs@[i] matches ExprImpl::InputRef(column) && column.index == if i < m {
            rising_list(required)[i] as int
        } else {
            agg.group_keys@.len() + i - m
        }),
{
    let g = agg.group_keys@.len() as int;
    let list = rising_list(required);
    let kept = kept_calls(list, g);
    lemma_rising_exists(required);
    lemma_schema_bounded(plan);
    lemma_list_below(list, schema_of_plan(plan).len());
    lemma_split(list, g, 0);
    assert(m == split_at(list, g, 0)) by {
        let s = split_at(list, g, 0);
        if s < m {
            assert(list[s] >= g);
        }
        if m < s {
            assert(list[m] < g);
        }
    }
    lemma_kept(list, g, agg.agg_calls@.len());
    assert(keys_required(g as nat, required) <==> m == g) by {
        if keys_required(g as nat, required) {
            lemma_all_keys_first(list, g, g);
            if m < g {
                assert(list[m] == m);
            }
        }
        let below = list.subrange(0, m);
        assert(rising(below)) by {
            assert forall|x: int, y: int| 0 <= x < y < below.len() implies (#[trigger] below[x]) < (#[trigger] below[y]) by {
                assert(list[x] < list[y]);
            }
        }
        lemma_rising_len(below, g as nat);
        if m == g {
            assert forall|c: usize| c < g implies required.contains(c) by {
                lemma_full_list(below, g, c as int);
                assert(list[c as int] == c);
                assert(list.to_set().contains(c));
            }
        }
    }
    if !keys_required(g as nat, required) {
        lemma_output_list(list, g, required);
        let out = list.subrange(0, m) + positions(g, kept.len());
        assert(out[i] == if i < m { list[i] } else { (g + i - m) as usize });
    }
}

/// A rising list of `g` numbers below `g` holds each number at its own position.
proof fn lemma_full_list(list: Seq<usize>, g: int, c: int)
    requires
        rising(list),
        list.len() == g,
        0 <= c < g,
        forall|i: int| 0 <= i < list.len() ==> (#[trigger] list[i]) < g,
    ensures
        list[c] == c,
{
    lemma_at_least(list, c);
    lemma_at_most(list, g, c);
}

proof fn lemma_at_least(list: Seq<usize>, c: int)
    requires
        rising(list),
        0 <= c < list.len(),
    ensures
        list[c] >= c,
    decreases c,
{
    if c > 0 {
        lemma_at_least(list, c - 1);
        assert(list[c - 1] < list[c]);
    }
}

proof fn lemma_at_most(list: Seq<usize>, g: int, c: int)
    requires
        rising(list),
        list.len() == g,
        0 <= c < g,
        forall|i: int| 0 <= i < list.len() ==> (#[trigger] list[i]) < g,
    ensures
        list[c] <= c,
    decreases g - c,
{
    if c < g - 1 {
        lemma_at_most(list, g, c + 1);
        assert(list[c] < list[c + 1]);
    }
}

} // verus!
