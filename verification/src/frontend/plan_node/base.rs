//! What all plan nodes have in common.

use vstd::prelude::*;

use crate::catalog::{Field, Schema};
use crate::common::lists::copy_indices;
use crate::frontend::property::{Distribution, DistView, FieldOrder, Order};

verus! {

/// What the planning of a query keeps: the next plan node's id and the options
/// of the session.
#[derive(Debug)]
pub struct QueryContext {
    pub next_id: i32,
    pub explain_verbose: bool,
    pub delta_join: bool,
}

impl QueryContext {
    /// A context for a new query.
    pub fn new(explain_verbose: bool, delta_join: bool) -> (r: QueryContext)
        ensures
            r == (QueryContext { next_id: 0, explain_verbose, delta_join }),
    {
        QueryContext { next_id: 0, explain_verbose, delta_join }
    }

    /// There are `n` ids left.
    pub open spec fn has_ids(&self, n: int) -> bool {
        self.next_id + n <= i32::MAX
    }

    /// The context after `n` ids were given out.
    pub open spec fn after_ids(&self, n: int) -> QueryContext {
        QueryContext {
            next_id: (self.next_id + n) as i32,
            explain_verbose: self.explain_verbose,
            delta_join: self.delta_join,
        }
    }

    /// The id of the next plan node.
    pub fn get_id(&mut self) -> (r: i32)
        requires
            old(self).has_ids(1),
        ensures
            r == old(self).next_id,
            *final(self) == old(self).after_ids(1),
    {
        let id: i32 = self.next_id;
        self.next_id = id + 1;
        id
    }
}

/// the common fields of all nodes, please make a field named `base` in
/// every planNode and correctly valued it when construct the planNode.
#[derive(Debug)]
pub struct PlanBase {
    pub id: i32,
    pub schema: Schema,
    /// the pk indices of the PlanNode's output, a empty pk_indices vec means there is no pk
    pub pk_indices: Vec<usize>,
    /// The order property of the PlanNode's output, store an `Order::any()` here will not affect
    /// correctness, but insert unnecessary sort in plan
    pub order: Order,
    /// The distribution property of the PlanNode's output, store an `Distribution::any()` here
    /// will not affect correctness, but insert unnecessary exchange in plan
    pub dist: Distribution,
    /// The append-only property of the PlanNode's output is a stream-only property. Append-only
    /// means the stream contains only insert operation.
    pub append_only: bool,
}

/// The common fields by their meaning.
#[verifier::ext_equal]
pub struct BaseView {
    pub id: i32,
    pub schema: Seq<Field>,
    pub pk_indices: Seq<usize>,
    pub order: Seq<FieldOrder>,
    pub dist: DistView,
    pub append_only: bool,
}

impl View for PlanBase {
    type V = BaseView;

    open spec fn view(&self) -> BaseView {
        BaseView {
            id: self.id,
            schema: self.schema@,
            pk_indices: self.pk_indices@,
            order: self.order@,
            dist: self.dist@,
            append_only: self.append_only,
        }
    }
}

/// The common fields of a logical node.
pub open spec fn logical_base(id: i32, schema: Seq<Field>, pk_indices: Seq<usize>) -> BaseView {
    BaseView { id, schema, pk_indices, order: Seq::empty(), dist: DistView::Any, append_only: true }
}

/// The common fields of a stream node.
pub open spec fn stream_base(
    id: i32,
    schema: Seq<Field>,
    pk_indices: Seq<usize>,
    dist: DistView,
    append_only: bool,
) -> BaseView {
    BaseView { id, schema, pk_indices, order: Seq::empty(), dist, append_only }
}

/// The common fields of a batch node.
pub open spec fn batch_base(id: i32, schema: Seq<Field>, dist: DistView, order: Seq<FieldOrder>) -> BaseView {
    BaseView { id, schema, pk_indices: Seq::empty(), order, dist, append_only: true }
}

impl PlanBase {
    /// The common fields of a logical node. Nothing is known of its distribution and order.
    pub fn new_logical(ctx: &mut QueryContext, schema: Schema, pk_indices: Vec<usize>) -> (r: PlanBase)
        requires
            old(ctx).has_ids(1),
        ensures
            r@ == logical_base(old(ctx).next_id, schema@, pk_indices@),
            *final(ctx) == old(ctx).after_ids(1),
    {
        PlanBase {
            id: ctx.get_id(),
            schema,
            pk_indices,
            order: Order::any(),
            dist: Distribution::any(),
            append_only: true,
        }
    }

    /// The common fields of a stream node. Nothing is known of its order.
    pub fn new_stream(
        ctx: &mut QueryContext,
        schema: Schema,
        pk_indices: Vec<usize>,
        dist: Distribution,
        append_only: bool,
    ) -> (r: PlanBase)
        requires
            old(ctx).has_ids(1),
        ensures
            r@ == stream_base(old(ctx).next_id, schema@, pk_indices@, dist@, append_only),
            *final(ctx) == old(ctx).after_ids(1),
    {
        PlanBase { id: ctx.get_id(), schema, pk_indices, order: Order::any(), dist, append_only }
    }

    /// The common fields of a batch node, which has no primary key.
    pub fn new_batch(ctx: &mut QueryContext, schema: Schema, dist: Distribution, order: Order) -> (r: PlanBase)
        requires
            old(ctx).has_ids(1),
        ensures
            r@ == batch_base(old(ctx).next_id, schema@, dist@, order@),
            *final(ctx) == old(ctx).after_ids(1),
    {
        let pk_indices: Vec<usize> = Vec::new();
        proof {
            assert(pk_indices@ =~= Seq::empty());
        }
        PlanBase { id: ctx.get_id(), schema, pk_indices, order, dist, append_only: true }
    }

    /// A copy of the common fields.
    pub fn copy(&self) -> (r: PlanBase)
        ensures
            r@ == self@,
    {
        PlanBase {
            id: self.id,
            schema: self.schema.copy(),
            pk_indices: copy_indices(&self.pk_indices),
            order: self.order.copy(),
            dist: self.dist.copy(),
            append_only: self.append_only,
        }
    }
}

/// A logical plan promises no order and no distribution; a plan over a stream promises no order either, and
/// a batch plan has no primary key.
pub proof fn law_bases_promise(
    id: i32,
    schema: Seq<Field>,
    pk_indices: Seq<usize>,
    dist: DistView,
    order: Seq<FieldOrder>,
    append_only: bool,
)
    ensures
        ({
            let logical = logical_base(id, schema, pk_indices);
            let stream = stream_base(id, schema, pk_indices, dist, append_only);
            let batch = batch_base(id, schema, dist, order);
            &&& logical.id == id && stream.id == id && batch.id == id
            &&& logical.schema == schema && stream.schema == schema && batch.schema == schema
            &&& logical.pk_indices == pk_indices && stream.pk_indices == pk_indices && batch.pk_indices.len() == 0
            &&& logical.order.len() == 0 && stream.order.len() == 0 && batch.order == order
            &&& logical.dist == DistView::Any && stream.dist == dist && batch.dist == dist
            &&& logical.append_only && stream.append_only == append_only && batch.append_only
        }),
{
}

} // verus!
