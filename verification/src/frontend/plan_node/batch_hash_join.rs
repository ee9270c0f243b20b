//! Hash joins of finished relations.

use std::sync::Arc;
use vstd::prelude::*;

use crate::frontend::plan_node::base::{batch_base, PlanBase, QueryContext};
use crate::frontend::plan_node::logical_join::{indices_below, internal_fields, left_keys, right_keys};
use crate::frontend::plan_node::node::{
    convention_of, distribution_of, is_exchange, schema_of_plan, BatchHashJoin, Convention, EqJoinPredicate,
    LogicalJoin, PlanRef,
};
use crate::frontend::property::{satisfies, DistView, Distribution, Order};

verus! {

/// `r` is the plan, if it is sharded by the columns, or else an exchange over it.
pub open spec fn is_sharded(r: PlanRef, plan: PlanRef, keys: Seq<usize>, id: int) -> bool {
    let dist = DistView::HashShard(keys);
    if satisfies(distribution_of(*plan), dist) {
        r == plan
    } else {
        is_exchange(r, plan, dist, Seq::empty(), id as i32)
    }
}

/// How many nodes it takes to shard the plan by the columns.
pub open spec fn shard_ids(plan: PlanRef, keys: Seq<usize>) -> int {
    if satisfies(distribution_of(*plan), DistView::HashShard(keys)) {
        0
    } else {
        1
    }
}

impl BatchHashJoin {
    /// A hash join. Nothing is known of its order and distribution.
    pub fn new(logical: Arc<LogicalJoin>, eq_join_predicate: Arc<EqJoinPredicate>, ctx: &mut QueryContext) -> (r: BatchHashJoin)
        requires
            old(ctx).has_ids(1),
        ensures
            r.logical == logical,
            r.eq_join_predicate == eq_join_predicate,
            r.base@ == batch_base(old(ctx).next_id, logical.base@.schema, DistView::Any, Seq::empty()),
            *final(ctx) == old(ctx).after_ids(1),
    {
        let base = PlanBase::new_batch(ctx, logical.base.schema.copy(), Distribution::any(), Order::any());
        BatchHashJoin { base, logical, eq_join_predicate }
    }

    /// Get a reference to the batch hash join's eq join predicate.
    pub fn eq_join_predicate(&self) -> (r: &EqJoinPredicate)
        ensures
            *r == *self.eq_join_predicate,
    {
        &self.eq_join_predicate
    }

    /// The left relation.
    pub fn left(&self) -> (r: PlanRef)
        ensures
            r == self.logical.left,
    {
        self.logical.left.clone()
    }

    /// The right relation.
    pub fn right(&self) -> (r: PlanRef)
        ensures
            r == self.logical.right,
    {
        self.logical.right.clone()
    }

    /// The same join of two other relations.
    pub fn clone_with_left_right(&self, left: PlanRef, right: PlanRef, ctx: &mut QueryContext) -> (r: BatchHashJoin)
        requires
            indices_below(
                self.logical.output_indices@,
                internal_fields(schema_of_plan(left), schema_of_plan(right), self.logical.join_type).len(),
            ),
            old(ctx).has_ids(2),
        ensures
            r.logical.left == left,
            r.logical.right == right,
            r.logical.join_type == self.logical.join_type,
            r.logical.on == self.logical.on,
            r.logical.output_indices@ == self.logical.output_indices@,
            r.logical.base@.id == old(ctx).next_id,
            r.eq_join_predicate == self.eq_join_predicate,
            r.base@ == batch_base(
                (old(ctx).next_id + 1) as i32,
                r.logical.base@.schema,
                DistView::Any,
                Seq::empty(),
            ),
            *final(ctx) == old(ctx).after_ids(2),
    {
        let logical = self.logical.clone_with_left_right(left, right, ctx);
        BatchHashJoin::new(Arc::new(logical), self.eq_join_predicate.clone(), ctx)
    }

    /// The join of distributed relations: each side is sharded by its columns of
    /// the equalities. `left` and `right` are the two sides, themselves distributed.
    pub fn to_distributed(&self, left: PlanRef, right: PlanRef, ctx: &mut QueryContext) -> (r: BatchHashJoin)
        requires
            self.eq_join_predicate.wf(),
            convention_of(*left) == Convention::Batch,
            convention_of(*right) == Convention::Batch,
            indices_below(
                self.logical.output_indices@,
                internal_fields(schema_of_plan(left), schema_of_plan(right), self.logical.join_type).len(),
            ),
            old(ctx).has_ids(4),
        ensures
            ({
                let keys = self.eq_join_predicate.eq_keys@;
                let (l, r_keys) = (left_keys(keys), right_keys(keys, self.eq_join_predicate.left_cols_num));
                let id = old(ctx).next_id;
                let after = id + shard_ids(left, l) + shard_ids(right, r_keys);
                &&& is_sharded(r.logical.left, left, l, id as int)
                &&& is_sharded(r.logical.right, right, r_keys, id + shard_ids(left, l))
                &&& r.logical.join_type == self.logical.join_type
                &&& r.logical.on == self.logical.on
                &&& r.logical.output_indices@ == self.logical.output_indices@
                &&& r.eq_join_predicate == self.eq_join_predicate
                &&& r.base@ == batch_base((after + 1) as i32, r.logical.base@.schema, DistView::Any, Seq::empty())
                &&& *final(ctx) == old(ctx).after_ids(
                    shard_ids(left, l) + shard_ids(right, r_keys) + 2,
                )
            }),
    {
        let order = Order::any();
        let left_dist = Distribution::HashShard(self.eq_join_predicate.left_eq_indexes());
        let right_dist = Distribution::HashShard(self.eq_join_predicate.right_eq_indexes());
        let new_left = left_dist.enforce_if_not_satisfies(left, &order, ctx);
        let new_right = right_dist.enforce_if_not_satisfies(right, &order, ctx);
        self.clone_with_left_right(new_left, new_right, ctx)
    }
}

/// Each side of a distributed join has the columns of the relation that it was made of, and is sharded by
/// its own columns of the equalities.
pub proof fn law_side_is_sharded_by_its_keys(r: PlanRef, plan: PlanRef, keys: Seq<usize>, id: int)
    requires
        is_sharded(r, plan, keys, id),
    ensures
        satisfies(distribution_of(*r), DistView::HashShard(keys)),
        schema_of_plan(r) == schema_of_plan(plan),
        satisfies(distribution_of(*plan), DistView::HashShard(keys)) ==> r == plan,
{
    crate::frontend::property::law_satisfies_reflexive(DistView::HashShard(keys));
}

/// A side that is already sharded as it has to be needs no new node, and another one needs one.
pub proof fn law_nodes_for_sharding(plan: PlanRef, keys: Seq<usize>)
    ensures
        satisfies(distribution_of(*plan), DistView::HashShard(keys)) ==> shard_ids(plan, keys) == 0,
        !satisfies(distribution_of(*plan), DistView::HashShard(keys)) ==> shard_ids(plan, keys) == 1,
{
}

} // verus!
