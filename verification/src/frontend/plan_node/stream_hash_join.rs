//! Hash joins of streams.

use std::sync::Arc;
use vstd::prelude::*;
use vstd::string::StringExecFns;

use crate::catalog::{is_plain_field, DataType, Field, OrderType};
use crate::common::lists::copy_indices;
use crate::frontend::col_index_mapping::{
    composed, mapped, mapped_all, maps_all, moved_distribution, ColIndexMapping,
};
use crate::frontend::expr::ExprImpl;
use crate::frontend::plan_node::base::{stream_base, PlanBase, QueryContext};
use crate::frontend::plan_node::logical_join::{
    concat_fields, indices_below, internal_fields, join_fields, last_position, left_keys, left_to_internal, placed, right_keys,
};
use crate::frontend::plan_node::node::{
    base_of, distribution_of, schema_of_plan, EqJoinPredicate, JoinType, LogicalJoin, PlanRef, StreamHashJoin,
};
use crate::frontend::property::{DistView, Distribution, WithDistribution};

verus! {

/// The sides of a join are distributed alike: each is in one place, or each is
/// sharded by columns.
pub open spec fn dists_agree(left: DistView, right: DistView) -> bool {
    (left is Single && right is Single) || (left is HashShard && right is HashShard)
}

/// The distribution of a join, from that of its left side.
pub open spec fn joined_dist(left: DistView, map: Seq<Option<usize>>) -> DistView {
    match left {
        DistView::Single => DistView::Single,
        _ => moved_distribution(map, left),
    }
}

/// Where the columns of the left relation go in the output of a join.
pub open spec fn left_to_output(join: LogicalJoin) -> Seq<Option<usize>> {
    composed(
        left_to_internal(schema_of_plan(join.left).len(), join.join_type),
        placed(join.output_indices@, join_fields(join).len()),
    )
}

/// Whether the output of a join only ever grows. Inner join won't change the
/// append-only behavior of the stream. The rest might.
pub open spec fn joined_append_only(join: LogicalJoin) -> bool {
    join.join_type == JoinType::Inner && base_of(*join.left)@.append_only && base_of(*join.right)@.append_only
}

/// The table in which a join keeps one of its sides.
#[derive(Debug)]
pub struct TableCatalog {
    pub columns: Vec<Field>,
    pub order_columns: Vec<(usize, OrderType)>,
    pub distribution_keys: Vec<usize>,
    pub append_only: bool,
}

/// A hash join as it is sent to the workers.
#[derive(Debug)]
pub struct HashJoinNode {
    pub join_type: JoinType,
    pub left_key: Vec<i32>,
    pub right_key: Vec<i32>,
    /// The part of the condition that is no equality; none stands for true.
    pub condition: Option<ExprImpl>,
    pub is_delta_join: bool,
    pub left_table: TableCatalog,
    pub right_table: TableCatalog,
    pub output_indices: Vec<u32>,
    pub is_append_only: bool,
}

/// Positions as signed numbers.
pub open spec fn signed_keys(keys: Seq<usize>) -> Seq<i32> {
    Seq::new(keys.len(), |i: int| keys[i] as i32)
}

/// Positions as short numbers.
pub open spec fn short_indices(indices: Seq<usize>) -> Seq<u32> {
    Seq::new(indices.len(), |i: int| indices[i] as u32)
}

/// Columns in rising order, one after the other.
pub open spec fn ascending(columns: Seq<usize>) -> Seq<(usize, OrderType)> {
    Seq::new(columns.len(), |i: int| (columns[i], OrderType::Ascending))
}

/// The table that keeps one side of a join: the columns of the side and the
/// join degree, ordered by the join key and the primary key of the side.
pub open spec fn is_internal_table(table: TableCatalog, input: PlanRef, join_key: Seq<usize>) -> bool {
    let base = base_of(*input)@;
    let n = base.schema.len();
    &&& table.columns@.len() == n + 1
    &&& forall|i: int| 0 <= i < n ==> #[trigger] table.columns@[i] == base.schema[i]
    &&& is_plain_field(table.columns@[n as int], DataType::Int64, "_degree"@)
    &&& table.order_columns@ == ascending(join_key + base.pk_indices)
    &&& table.distribution_keys@ == match base.dist {
        DistView::HashShard(keys) => keys,
        _ => Seq::empty(),
    }
    &&& table.append_only == base.append_only
}

/// The table that keeps one side of a join.
pub fn infer_internal_table_catalog(input: &PlanRef, join_key_indices: Vec<usize>) -> (r: TableCatalog)
    ensures
        is_internal_table(r, *input, join_key_indices@),
{
    let base = input.plan_base();
    let append_only: bool = input.append_only();
    let distribution_keys = base.dist.dist_column_indices();
    // The pk of hash join internal table should be join_key + input_pk.
    let ghost join_key = join_key_indices@;
    let mut pk_indices = join_key_indices;
    let mut input_pk = copy_indices(&base.pk_indices);
    pk_indices.append(&mut input_pk);
    let mut columns = base.schema.copy().fields;
    // The join degree at the end of internal table.
    columns.push(Field::with_name(DataType::Int64, "_degree".to_owned()));
    let mut order_columns: Vec<(usize, OrderType)> = Vec::new();
    let mut i: usize = 0;
    while i < pk_indices.len()
        invariant
            i <= pk_indices@.len(),
            order_columns@ == ascending(pk_indices@).subrange(0, i as int),
        decreases pk_indices@.len() - i,
    {
        order_columns.push((pk_indices[i], OrderType::Ascending));
        i = i + 1;
        proof {
            assert(order_columns@ =~= ascending(pk_indices@).subrange(0, i as int));
        }
    }
    proof {
        assert(order_columns@ =~= ascending(pk_indices@));
        assert(pk_indices@ =~= join_key + base_of(**input)@.pk_indices);
    }
    TableCatalog { columns, order_columns, distribution_keys, append_only }
}

/// Positions as signed numbers.
fn to_signed(keys: &Vec<usize>) -> (r: Vec<i32>)
    ensures
        r@ == signed_keys(keys@),
{
    let mut r: Vec<i32> = Vec::new();
    let mut i: usize = 0;
    while i < keys.len()
        invariant
            i <= keys@.len(),
            r@ == signed_keys(keys@).subrange(0, i as int),
        decreases keys@.len() - i,
    {
        r.push(keys[i] as i32);
        i = i + 1;
        proof {
            assert(r@ =~= signed_keys(keys@).subrange(0, i as int));
        }
    }
    proof {
        assert(r@ =~= signed_keys(keys@));
    }
    r
}

/// Positions as short numbers.
fn to_short(indices: &Vec<usize>) -> (r: Vec<u32>)
    ensures
        r@ == short_indices(indices@),
{
    let mut r: Vec<u32> = Vec::new();
    let mut i: usize = 0;
    while i < indices.len()
        invariant
            i <= indices@.len(),
            r@ == short_indices(indices@).subrange(0, i as int),
        decreases indices@.len() - i,
    {
        r.push(indices[i] as u32);
        i = i + 1;
        proof {
            assert(r@ =~= short_indices(indices@).subrange(0, i as int));
        }
    }
    proof {
        assert(r@ =~= short_indices(indices@));
    }
    r
}

/// The name of a join type.
pub open spec fn join_type_name(join_type: JoinType) -> Seq<char> {
    match join_type {
        JoinType::Inner => "Inner"@,
        JoinType::LeftOuter => "LeftOuter"@,
        JoinType::RightOuter => "RightOuter"@,
        JoinType::FullOuter => "FullOuter"@,
        JoinType::LeftSemi => "LeftSemi"@,
        JoinType::LeftAnti => "LeftAnti"@,
        JoinType::RightSemi => "RightSemi"@,
        JoinType::RightAnti => "RightAnti"@,
    }
}

/// The name of a join type.
pub fn join_type_text(join_type: JoinType) -> (r: &'static str)
    ensures
        r@ == join_type_name(join_type),
{
    match join_type {
        JoinType::Inner => "Inner",
        JoinType::LeftOuter => "LeftOuter",
        JoinType::RightOuter => "RightOuter",
        JoinType::FullOuter => "FullOuter",
        JoinType::LeftSemi => "LeftSemi",
        JoinType::LeftAnti => "LeftAnti",
        JoinType::RightSemi => "RightSemi",
        JoinType::RightAnti => "RightAnti",
    }
}

/// The names of the first `n` of the given columns, with commas between them.
pub open spec fn index_names(fields: Seq<Field>, indices: Seq<usize>, n: int) -> Seq<char>
    decreases n,
{
    if n <= 0 {
        Seq::empty()
    } else if n == 1 {
        fields[indices[0] as int].name@
    } else {
        index_names(fields, indices, n - 1) + ", "@ + fields[indices[n - 1] as int].name@
    }
}

/// The name under which a join is shown.
pub open spec fn shown_name(is_delta: bool, is_append_only: bool) -> Seq<char> {
    if is_delta {
        "StreamDeltaHashJoin"@
    } else if is_append_only {
        "StreamAppendOnlyHashJoin"@
    } else {
        "StreamHashJoin"@
    }
}

/// The indices are all the numbers below `n`, in order.
pub open spec fn is_identity(indices: Seq<usize>, n: nat) -> bool {
    indices.len() == n && forall|i: int| 0 <= i < n ==> (#[trigger] indices[i]) == i
}

/// The part of the text that shows the output columns.
pub open spec fn shown_output(join: LogicalJoin) -> Seq<char> {
    let fields = schema_of_plan(join.left) + schema_of_plan(join.right);
    if is_identity(join.output_indices@, join_fields(join).len()) {
        ", output: all"@
    } else {
        ", output: ["@ + index_names(fields, join.output_indices@, join.output_indices@.len() as int) + "]"@
    }
}

/// A join as text; `predicate` is its condition as text.
pub open spec fn join_text(join: StreamHashJoin, predicate: Seq<char>, verbose: bool) -> Seq<char> {
    shown_name(join.is_delta, join.is_append_only) + " { type: "@ + join_type_name(join.logical.join_type)
        + ", predicate: "@ + predicate + (if join.base@.append_only {
        ", append_only: true"@
    } else {
        Seq::empty()
    }) + (if verbose {
        shown_output(*join.logical)
    } else {
        Seq::empty()
    }) + " }"@
}

/// A delta join: both sides keep their rows in arrangements of their own.
#[derive(Debug)]
pub struct StreamDeltaJoin {
    pub logical: Arc<LogicalJoin>,
    pub eq_join_predicate: Arc<EqJoinPredicate>,
}

impl StreamHashJoin {
    /// Convert this hash join to a delta join plan
    pub fn to_delta_join(&self) -> (r: StreamDeltaJoin)
        ensures
            r.logical == self.logical,
            r.eq_join_predicate == self.eq_join_predicate,
    {
        StreamDeltaJoin { logical: self.logical.clone(), eq_join_predicate: self.eq_join_predicate.clone() }
    }
}

impl StreamHashJoin {
    /// A hash join.
    pub fn new(logical: Arc<LogicalJoin>, eq_join_predicate: Arc<EqJoinPredicate>, ctx: &mut QueryContext) -> (r:
        StreamHashJoin)
        requires
            dists_agree(distribution_of(*logical.left), distribution_of(*logical.right)),
            join_fields(*logical).len() <= usize::MAX,
            old(ctx).has_ids(1),
        ensures
            r.logical == logical,
            r.eq_join_predicate == eq_join_predicate,
            r.is_delta == old(ctx).delta_join,
            r.is_append_only == joined_append_only(*logical),
            r.is_append_only <==> logical.join_type == JoinType::Inner && base_of(*logical.left)@.append_only && base_of(
                *logical.right,
            )@.append_only,
            r.base@.append_only == r.is_append_only,
            r.base@ == stream_base(
                old(ctx).next_id,
                logical.base@.schema,
                logical.base@.pk_indices,
                joined_dist(distribution_of(*logical.left), left_to_output(*logical)),
                joined_append_only(*logical),
            ),
            *final(ctx) == old(ctx).after_ids(1),
    {
        // Inner join won't change the append-only behavior of the stream. The rest might.
        let append_only: bool = match logical.join_type {
            JoinType::Inner => logical.left.append_only() && logical.right.append_only(),
            _ => false,
        };
        let mapping = logical.l2i_col_mapping().composite(&logical.i2o_col_mapping());
        let dist = StreamHashJoin::derive_dist(
            logical.left.distribution(),
            logical.right.distribution(),
            &mapping,
        );
        let force_delta: bool = ctx.delta_join;
        let base = PlanBase::new_stream(
            ctx,
            logical.base.schema.copy(),
            copy_indices(&logical.base.pk_indices),
            dist,
            append_only,
        );
        StreamHashJoin {
            base,
            logical,
            eq_join_predicate,
            is_delta: force_delta,
            is_append_only: append_only,
        }
    }

    /// Get join type
    pub fn join_type(&self) -> (r: JoinType)
        ensures
            r == self.logical.join_type,
    {
        self.logical.join_type
    }

    /// Get a reference to the batch hash join's eq join predicate.
    pub fn eq_join_predicate(&self) -> (r: &EqJoinPredicate)
        ensures
            *r == *self.eq_join_predicate,
    {
        &self.eq_join_predicate
    }

    /// The distribution of a join of two sides that are distributed alike.
    pub fn derive_dist(left: &Distribution, right: &Distribution, side2o_mapping: &ColIndexMapping) -> (r: Distribution)
        requires
            dists_agree(left@, right@),
        ensures
            r@ == joined_dist(left@, side2o_mapping@),
    {
        match left {
            Distribution::Single => Distribution::Single,
            _ => side2o_mapping.rewrite_provided_distribution(left),
        }
    }

    /// The left relation.
    pub fn left(&self) -> (r: PlanRef)
        ensures
            r == self.logical.left,
    {
        self.logical.left.clone()
    }

    /// The right relation.
    pub fn right(&self) -> (r: PlanRef)
        ensures
            r == self.logical.right,
    {
        self.logical.right.clone()
    }

    /// The same join of two other relations.
    pub fn clone_with_left_right(&self, left: PlanRef, right: PlanRef, ctx: &mut QueryContext) -> (r: StreamHashJoin)
        requires
            dists_agree(distribution_of(*left), distribution_of(*right)),
            internal_fields(schema_of_plan(left), schema_of_plan(right), self.logical.join_type).len() <= usize::MAX,
            indices_below(
                self.logical.output_indices@,
                internal_fields(schema_of_plan(left), schema_of_plan(right), self.logical.join_type).len(),
            ),
            old(ctx).has_ids(2),
        ensures
            r.logical.left == left,
            r.logical.right == right,
            r.logical.join_type == self.logical.join_type,
            r.logical.on == self.logical.on,
            r.logical.output_indices@ == self.logical.output_indices@,
            r.logical.base@.id == old(ctx).next_id,
            r.eq_join_predicate == self.eq_join_predicate,
            r.is_delta == old(ctx).delta_join,
            r.is_append_only == joined_append_only(*r.logical),
            r.base@ == stream_base(
                (old(ctx).next_id + 1) as i32,
                r.logical.base@.schema,
                self.logical.base@.pk_indices,
                joined_dist(distribution_of(*left), left_to_output(*r.logical)),
                joined_append_only(*r.logical),
            ),
            *final(ctx) == old(ctx).after_ids(2),
    {
        let logical = self.logical.clone_with_left_right(left, right, ctx);
        StreamHashJoin::new(Arc::new(logical), self.eq_join_predicate.clone(), ctx)
    }

    /// The join as it is sent to the workers.
    pub fn to_stream_prost_body(&self) -> (r: HashJoinNode)
        requires
            self.eq_join_predicate.wf(),
        ensures
            ({
                let keys = self.eq_join_predicate.eq_keys@;
                let right = right_keys(keys, self.eq_join_predicate.left_cols_num);
                &&& r.join_type == self.logical.join_type
                &&& r.left_key@ == signed_keys(left_keys(keys))
                &&& r.right_key@ == signed_keys(right)
                &&& r.condition == self.eq_join_predicate.other_cond
                &&& r.is_delta_join == self.is_delta
                &&& is_internal_table(r.left_table, self.logical.left, left_keys(keys))
                &&& is_internal_table(r.right_table, self.logical.right, right)
                &&& r.output_indices@ == short_indices(self.logical.output_indices@)
                &&& r.is_append_only == self.is_append_only
            }),
    {
        let left_key_indices = self.eq_join_predicate.left_eq_indexes();
        let right_key_indices = self.eq_join_predicate.right_eq_indexes();
        let left_key = to_signed(&left_key_indices);
        let right_key = to_signed(&right_key_indices);
        let condition = match &self.eq_join_predicate.other_cond {
            Some(e) => Some(e.copy()),
            None => None,
        };
        let left_table = infer_internal_table_catalog(&self.logical.left, left_key_indices);
        let right_table = infer_internal_table_catalog(&self.logical.right, right_key_indices);
        HashJoinNode {
            join_type: self.logical.join_type,
            left_key,
            right_key,
            condition,
            is_delta_join: self.is_delta,
            left_table,
            right_table,
            output_indices: to_short(&self.logical.output_indices),
            is_append_only: self.is_append_only,
        }
    }

    /// The join as text; `predicate` is its condition as text.
    pub fn to_text(&self, predicate: &str, verbose: bool) -> (r: String)
        requires
            schema_of_plan(self.logical.left).len() + schema_of_plan(self.logical.right).len() <= usize::MAX,
            indices_below(
                self.logical.output_indices@,
                schema_of_plan(self.logical.left).len() + schema_of_plan(self.logical.right).len(),
            ),
        ensures
            r@ == join_text(*self, predicate@, verbose),
    {
        let name: &str = if self.is_delta {
            "StreamDeltaHashJoin"
        } else if self.is_append_only {
            "StreamAppendOnlyHashJoin"
        } else {
            "StreamHashJoin"
        };
        let mut r: String = name.to_owned();
        r.append(" { type: ");
        r.append(join_type_text(self.logical.join_type));
        r.append(", predicate: ");
        r.append(predicate);
        if self.base.append_only {
            r.append(", append_only: true");
        }
        let ghost head = r@;
        if verbose {
            let concat_schema = concat_fields(self.logical.left.schema(), self.logical.right.schema());
            if outputs_all(&self.logical.output_indices, self.logical.internal_column_num()) {
                r.append(", output: all");
            } else {
                r.append(", output: [");
                r.append(names_of(&concat_schema, &self.logical.output_indices).as_str());
                r.append("]");
            }
            proof {
                assert(r@ =~= head + shown_output(*self.logical));
            }
        }
        r.append(" }");
        proof {
            assert(r@ =~= join_text(*self, predicate@, verbose));
        }
        r
    }
}

/// Whether the indices are all the numbers below `n`, in order.
fn outputs_all(indices: &Vec<usize>, n: usize) -> (r: bool)
    ensures
        r == is_identity(indices@, n as nat),
{
    if indices.len() != n {
        return false;
    }
    let mut i: usize = 0;
    while i < n
        invariant
            i <= n,
            n == indices@.len(),
            forall|j: int| 0 <= j < i ==> (#[trigger] indices@[j]) == j,
        decreases n - i,
    {
        if indices[i] != i {
            return false;
        }
        i = i + 1;
    }
    true
}

/// The names of the given columns, with commas between them.
fn names_of(fields: &Vec<Field>, indices: &Vec<usize>) -> (r: String)
    requires
        indices_below(indices@, fields@.len()),
    ensures
        r@ == index_names(fields@, indices@, indices@.len() as int),
{
    let mut r: String = String::new();
    let mut i: usize = 0;
    proof {
        assert(r@ =~= index_names(fields@, indices@, 0));
    }
    while i < indices.len()
        invariant
            i <= indices@.len(),
            indices_below(indices@, fields@.len()),
            r@ == index_names(fields@, indices@, i as int),
        decreases indices@.len() - i,
    {
        let ghost before = r@;
        if i > 0 {
            r.append(", ");
        }
        assert(indices@[i as int] < fields@.len());
        r.append(fields[indices[i]].name.as_str());
        i = i + 1;
        proof {
            if i == 1 {
                assert(before =~= Seq::empty());
                assert(r@ =~= fields@[indices@[0] as int].name@);
            }
        }
    }
    r
}

/// A join of sharded sides is sharded itself, by the columns into which those
/// of its left side go, where none of these is lost.
pub proof fn law_join_keeps_shards(keys: Seq<usize>, map: Seq<Option<usize>>)
    requires
        crate::frontend::col_index_mapping::maps_all(map, keys),
    ensures
        joined_dist(DistView::HashShard(keys), map) matches DistView::HashShard(new) && new.len() == keys.len() && forall|
            i: int,
        | 0 <= i < keys.len() ==> crate::frontend::col_index_mapping::mapped(map, keys[i]) == Some(#[trigger] new[i]),
{
    assert forall|i: int| 0 <= i < keys.len() implies crate::frontend::col_index_mapping::mapped(map, #[trigger] keys[i]) is Some by {}
}

/// A join only ever grows if both of its inputs do and it keeps no rows without a partner, and
/// then it does.
pub proof fn law_append_only_needs_both_inputs(join: LogicalJoin)
    ensures
        joined_append_only(join) ==> base_of(*join.left)@.append_only,
        joined_append_only(join) ==> base_of(*join.right)@.append_only,
        joined_append_only(join) ==> join.join_type == JoinType::Inner,
        join.join_type == JoinType::Inner && base_of(*join.left)@.append_only && base_of(*join.right)@.append_only
            ==> joined_append_only(join),
{
}

/// Whether a join only ever grows does not depend on which of its inputs is the left one.
pub proof fn law_append_only_is_symmetric(join: LogicalJoin, swapped: LogicalJoin)
    requires
        swapped.left == join.right,
        swapped.right == join.left,
        swapped.join_type == join.join_type,
    ensures
        joined_append_only(swapped) == joined_append_only(join),
{
}

proof fn lemma_last_position(list: Seq<usize>, n: int, c: usize)
    requires
        0 <= n <= list.len(),
        n <= usize::MAX,
    ensures
        match last_position(list, n, c) {
            Some(p) => p < n && list[p as int] == c,
            None => forall|i: int| 0 <= i < n ==> (#[trigger] list[i]) != c,
        },
    decreases n,
{
    if n > 0 {
        lemma_last_position(list, n - 1, c);
    }
}

/// A join of sharded inputs that keeps the columns of its left input is sharded by output
/// columns that hold the keys of the left input, one for each key in their order. If one of the
/// keys is not put out, it is not known how the join is sharded.
pub proof fn law_output_is_sharded_by_left_keys(join: LogicalJoin, keys: Seq<usize>)
    requires
        distribution_of(*join.left) == DistView::HashShard(keys),
        indices_below(keys, schema_of_plan(join.left).len()),
        join_fields(join).len() <= usize::MAX,
        join.output_indices@.len() <= usize::MAX,
        join.join_type != JoinType::RightSemi,
        join.join_type != JoinType::RightAnti,
    ensures
        match joined_dist(distribution_of(*join.left), left_to_output(join)) {
            DistView::HashShard(new) => new.len() == keys.len() && forall|i: int|
                0 <= i < keys.len() ==> (#[trigger] new[i]) < join.output_indices@.len()
                    && join.output_indices@[new[i] as int] == keys[i],
            DistView::AnyShard => exists|i: int|
                0 <= i < keys.len() && !join.output_indices@.contains(#[trigger] keys[i]),
            _ => false,
        },
{
    let out = join.output_indices@;
    let map = left_to_output(join);
    let width = schema_of_plan(join.left).len();
    assert(join_fields(join).len() >= width);
    assert forall|i: int| 0 <= i < keys.len() implies match mapped(map, #[trigger] keys[i]) {
        Some(p) => p < out.len() && out[p as int] == keys[i],
        None => !out.contains(keys[i]),
    } by {
        lemma_last_position(out, out.len() as int, keys[i]);
        assert(left_to_internal(width, join.join_type)[keys[i] as int] == Some(keys[i]));
        assert(mapped(map, keys[i]) == last_position(out, out.len() as int, keys[i]));
    }
    if maps_all(map, keys) {
        let new = mapped_all(map, keys);
        assert forall|i: int| 0 <= i < keys.len() implies (#[trigger] new[i]) < out.len() && out[new[i] as int]
            == keys[i] by {
            assert(mapped(map, keys[i]) is Some);
        }
    } else {
        let i = choose|i: int| 0 <= i < keys.len() && mapped(map, #[trigger] keys[i]) is None;
        assert(!out.contains(keys[i]));
    }
}

/// The keys that a join sends are those of its equalities: each pair holds a column of the left
/// input, and a column of the right input counted behind those of the left one.
pub proof fn law_sent_keys_are_the_equalities(predicate: EqJoinPredicate, i: int)
    requires
        predicate.wf(),
        0 <= i < predicate.eq_keys@.len(),
    ensures
        ({
            let left = left_keys(predicate.eq_keys@);
            let right = right_keys(predicate.eq_keys@, predicate.left_cols_num);
            &&& left.len() == predicate.eq_keys@.len()
            &&& right.len() == predicate.eq_keys@.len()
            &&& left[i] == predicate.eq_keys@[i].0
            &&& predicate.left_cols_num + right[i] == predicate.eq_keys@[i].1
        }),
{
    assert(predicate.eq_keys@[i].1 >= predicate.left_cols_num);
}

/// The table that keeps an input of a join has the columns of the input and one more, and is
/// ordered first by the join key and then by the primary key of the input, all ascending. It is
/// distributed as the input is, and only ever grows if the input does.
pub proof fn law_internal_table_keeps_input(table: TableCatalog, input: PlanRef, join_key: Seq<usize>)
    requires
        is_internal_table(table, input, join_key),
    ensures
        ({
            let base = base_of(*input)@;
            &&& table.columns@.len() == base.schema.len() + 1
            &&& table.columns@.subrange(0, base.schema.len() as int) == base.schema
            &&& table.columns@.last().data_type is Int64
            &&& table.order_columns@.len() == join_key.len() + base.pk_indices.len()
            &&& forall|i: int|
                0 <= i < join_key.len() ==> (#[trigger] table.order_columns@[i]) == (join_key[i], OrderType::Ascending)
            &&& forall|i: int|
                0 <= i < base.pk_indices.len() ==> table.order_columns@[join_key.len() + i] == (
                    #[trigger] base.pk_indices[i],
                    OrderType::Ascending,
                )
            &&& base.dist matches DistView::HashShard(keys) ==> table.distribution_keys@ == keys
            &&& !(base.dist is HashShard) ==> table.distribution_keys@.len() == 0
            &&& table.append_only == base.append_only
        }),
{
    assert(table.columns@.subrange(0, base_of(*input)@.schema.len() as int) =~= base_of(*input)@.schema);
}

/// A join is shown as one that only grows exactly if it is one and is no delta join.
pub proof fn law_shown_name_tells_append_only(is_delta: bool, is_append_only: bool)
    ensures
        shown_name(is_delta, is_append_only) == "StreamAppendOnlyHashJoin"@ <==> is_append_only && !is_delta,
        shown_name(is_delta, is_append_only) == "StreamDeltaHashJoin"@ <==> is_delta,
{
    reveal_strlit("StreamAppendOnlyHashJoin");
    reveal_strlit("StreamDeltaHashJoin");
    reveal_strlit("StreamHashJoin");
    assert("StreamAppendOnlyHashJoin"@.len() == 24);
    assert("StreamDeltaHashJoin"@.len() == 19);
    assert("StreamHashJoin"@.len() == 14);
}

/// The text of a join shows its kind, its type and its condition; that it is append-only only if it is, and what it
/// puts out only if more was asked for.
pub proof fn law_text_of_join(join: StreamHashJoin, predicate: Seq<char>)
    ensures
        ({
            let start = shown_name(join.is_delta, join.is_append_only) + " { type: "@ + join_type_name(
                join.logical.join_type,
            ) + ", predicate: "@ + predicate;
            &&& !join.base@.append_only ==> join_text(join, predicate, false) == start + " }"@
            &&& join.base@.append_only ==> join_text(join, predicate, false) == start + ", append_only: true"@ + " }"@
            &&& !join.base@.append_only ==> join_text(join, predicate, true) == start + shown_output(*join.logical) + " }"@
            &&& join.base@.append_only ==> join_text(join, predicate, true) == start + ", append_only: true"@ + shown_output(
                *join.logical,
            ) + " }"@
        }),
{
    let start = shown_name(join.is_delta, join.is_append_only) + " { type: "@ + join_type_name(join.logical.join_type)
        + ", predicate: "@ + predicate;
    let none = Seq::<char>::empty();
    assert(start + none =~= start);
    let shown = start + ", append_only: true"@;
    assert(shown + none =~= shown);
}

/// The types of joins by their names.
pub proof fn law_names_of_join_types()
    ensures
        join_type_name(JoinType::Inner) == "Inner"@,
        join_type_name(JoinType::LeftOuter) == "LeftOuter"@,
        join_type_name(JoinType::RightOuter) == "RightOuter"@,
        join_type_name(JoinType::FullOuter) == "FullOuter"@,
        join_type_name(JoinType::LeftSemi) == "LeftSemi"@,
        join_type_name(JoinType::LeftAnti) == "LeftAnti"@,
        join_type_name(JoinType::RightSemi) == "RightSemi"@,
        join_type_name(JoinType::RightAnti) == "RightAnti"@,
{
}

/// The columns that a join puts out are named in their order, with commas between them; a join that puts out all
/// columns as they stand says just that.
pub proof fn law_output_is_named(join: LogicalJoin, n: int)
    requires
        0 < n < join.output_indices@.len(),
    ensures
        ({
            let fields = schema_of_plan(join.left) + schema_of_plan(join.right);
            let list = join.output_indices@;
            &&& is_identity(list, join_fields(join).len()) ==> shown_output(join) == ", output: all"@
            &&& !is_identity(list, join_fields(join).len()) ==> shown_output(join) == ", output: ["@ + index_names(
                fields,
                list,
                list.len() as int,
            ) + "]"@
            &&& index_names(fields, list, 1) == fields[list[0] as int].name@
            &&& index_names(fields, list, n + 1) == index_names(fields, list, n) + ", "@ + fields[list[n] as int].name@
        }),
{
}

} // verus!
