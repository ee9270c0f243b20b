//! The plan nodes, and what can be read off any of them.

use std::sync::Arc;
use vstd::prelude::*;

use crate::catalog::{ColumnId, DataType, Field, Schema};
use crate::common::lists::copy_indices;
use crate::frontend::expr::{AggKind, ExprImpl};
use crate::frontend::plan_node::base::{batch_base, stream_base, PlanBase, QueryContext};
use crate::frontend::property::{law_satisfies_reflexive, satisfies, DistView, Distribution, FieldOrder, Order, WithDistribution};

verus! {

/// How two relations are joined.
#[derive(Clone, Copy, Debug, PartialEq, Eq, Structural)]
pub enum JoinType {
    Inner,
    LeftOuter,
    RightOuter,
    FullOuter,
    LeftSemi,
    LeftAnti,
    RightSemi,
    RightAnti,
}

/// Aggregation Call
#[derive(Debug)]
pub struct PlanAggCall {
    /// Kind of aggregation function
    pub agg_kind: AggKind,
    /// Data type of the returned column
    pub return_type: DataType,
    /// Column indexes of input columns
    pub inputs: Vec<usize>,
}

/// `LogicalScan` returns contents of a table or other equivalent object
#[derive(Debug)]
pub struct LogicalScan {
    pub base: PlanBase,
    pub table_name: String,
    pub table_id: u32,
    pub columns: Vec<ColumnId>,
}

/// `LogicalValues` builds rows according to a list of expressions
#[derive(Debug)]
pub struct LogicalValues {
    pub base: PlanBase,
    pub rows: Vec<Vec<ExprImpl>>,
}

/// `LogicalInsert` puts the rows of its input into a table.
#[derive(Debug)]
pub struct LogicalInsert {
    pub base: PlanBase,
    pub table_id: u32,
    pub columns: Vec<ColumnId>,
    pub input: PlanRef,
}

/// `LogicalProject` computes expressions over its input.
#[derive(Debug)]
pub struct LogicalProject {
    pub base: PlanBase,
    pub exprs: Vec<ExprImpl>,
    pub expr_alias: Vec<Option<String>>,
    pub input: PlanRef,
}

/// `LogicalAgg` groups input data by their group keys and computes aggregation functions.
///
/// It corresponds to the `GROUP BY` operator in a SQL query statement together with the aggregate
/// functions in the `SELECT` clause.
#[derive(Debug)]
pub struct LogicalAgg {
    pub base: PlanBase,
    pub agg_calls: Vec<PlanAggCall>,
    pub agg_call_alias: Vec<Option<String>>,
    pub group_keys: Vec<usize>,
    pub input: PlanRef,
}

/// `LogicalJoin` combines two relations.
#[derive(Debug)]
pub struct LogicalJoin {
    pub base: PlanBase,
    pub left: PlanRef,
    pub right: PlanRef,
    pub join_type: JoinType,
    pub on: Option<ExprImpl>,
    /// The columns of the joined rows that the join puts out.
    pub output_indices: Vec<usize>,
}

/// The equalities of a join condition, and the rest of it.
#[derive(Debug)]
pub struct EqJoinPredicate {
    /// The rest of the condition; none stands for true.
    pub other_cond: Option<ExprImpl>,
    /// Pairs of columns that must be equal, each by its position in the rows of
    /// the left relation followed by those of the right one.
    pub eq_keys: Vec<(usize, usize)>,
    /// How many columns the left relation has.
    pub left_cols_num: usize,
}

/// `BatchSeqScan` reads a table.
#[derive(Debug)]
pub struct BatchSeqScan {
    pub base: PlanBase,
    pub logical: Arc<LogicalScan>,
}

/// `BatchHashJoin` implements [`LogicalJoin`] with hash table. It builds a hash table
/// from inner (right-side) relation and then probes with data from outer (left-side) relation to
/// get output rows.
#[derive(Debug)]
pub struct BatchHashJoin {
    pub base: PlanBase,
    pub logical: Arc<LogicalJoin>,
    pub eq_join_predicate: Arc<EqJoinPredicate>,
}

/// `BatchExchange` distributes and orders rows anew.
#[derive(Debug)]
pub struct BatchExchange {
    pub base: PlanBase,
    pub input: PlanRef,
}

/// `StreamTableScan` reads a table as a stream.
#[derive(Debug)]
pub struct StreamTableScan {
    pub base: PlanBase,
    pub logical: Arc<LogicalScan>,
}

/// [`StreamHashJoin`] implements [`LogicalJoin`] with hash table. It builds a hash table
/// from inner (right-side) relation and probes with data from outer (left-side) relation to
/// get output rows.
#[derive(Debug)]
pub struct StreamHashJoin {
    pub base: PlanBase,
    pub logical: Arc<LogicalJoin>,
    /// The join condition must be equivalent to `logical.on`, but separated into equal and
    /// non-equal parts to facilitate execution later
    pub eq_join_predicate: Arc<EqJoinPredicate>,
    /// Whether to force use delta join for this join node. If this is true, then indexes will
    /// be create automatically when building the executors on meta service. For testing purpose
    /// only. Will remove after we have fully support shared state and index.
    pub is_delta: bool,
    /// Whether can optimize for append-only stream.
    /// It is true if input of both side is append-only
    pub is_append_only: bool,
}

/// `StreamExchange` distributes the changes of a stream anew.
#[derive(Debug)]
pub struct StreamExchange {
    pub base: PlanBase,
    pub input: PlanRef,
}

/// A plan node.
#[derive(Debug)]
pub enum PlanNode {
    LogicalScan(LogicalScan),
    LogicalValues(LogicalValues),
    LogicalInsert(LogicalInsert),
    LogicalProject(LogicalProject),
    LogicalAgg(LogicalAgg),
    LogicalJoin(LogicalJoin),
    BatchSeqScan(BatchSeqScan),
    BatchHashJoin(BatchHashJoin),
    BatchExchange(BatchExchange),
    StreamTableScan(StreamTableScan),
    StreamHashJoin(StreamHashJoin),
    StreamExchange(StreamExchange),
}

/// A plan: a node and the plans below it.
pub type PlanRef = Arc<PlanNode>;

/// What kind of plan a node belongs to.
#[derive(Clone, Copy, Debug, PartialEq, Eq, Structural)]
pub enum Convention {
    Logical,
    Batch,
    Stream,
}

/// The common fields of a node.
pub open spec fn base_of(node: PlanNode) -> PlanBase {
    match node {
        PlanNode::LogicalScan(n) => n.base,
        PlanNode::LogicalValues(n) => n.base,
        PlanNode::LogicalInsert(n) => n.base,
        PlanNode::LogicalProject(n) => n.base,
        PlanNode::LogicalAgg(n) => n.base,
        PlanNode::LogicalJoin(n) => n.base,
        PlanNode::BatchSeqScan(n) => n.base,
        PlanNode::BatchHashJoin(n) => n.base,
        PlanNode::BatchExchange(n) => n.base,
        PlanNode::StreamTableScan(n) => n.base,
        PlanNode::StreamHashJoin(n) => n.base,
        PlanNode::StreamExchange(n) => n.base,
    }
}

/// The columns of a node's output.
pub open spec fn schema_of_plan(plan: PlanRef) -> Seq<Field> {
    base_of(*plan)@.schema
}

/// The kind of plan that a node belongs to.
pub open spec fn convention_of(node: PlanNode) -> Convention {
    match node {
        PlanNode::LogicalScan(_) => Convention::Logical,
        PlanNode::LogicalValues(_) => Convention::Logical,
        PlanNode::LogicalInsert(_) => Convention::Logical,
        PlanNode::LogicalProject(_) => Convention::Logical,
        PlanNode::LogicalAgg(_) => Convention::Logical,
        PlanNode::LogicalJoin(_) => Convention::Logical,
        PlanNode::BatchSeqScan(_) => Convention::Batch,
        PlanNode::BatchHashJoin(_) => Convention::Batch,
        PlanNode::BatchExchange(_) => Convention::Batch,
        PlanNode::StreamTableScan(_) => Convention::Stream,
        PlanNode::StreamHashJoin(_) => Convention::Stream,
        PlanNode::StreamExchange(_) => Convention::Stream,
    }
}

/// The distribution of a node's output; nothing is known of that of a logical node.
pub open spec fn distribution_of(node: PlanNode) -> DistView {
    base_of(node)@.dist
}

/// The plans right below a node.
pub open spec fn inputs_of(node: PlanNode) -> Seq<PlanRef> {
    match node {
        PlanNode::LogicalScan(_) => Seq::empty(),
        PlanNode::LogicalValues(_) => Seq::empty(),
        PlanNode::LogicalInsert(n) => seq![n.input],
        PlanNode::LogicalProject(n) => seq![n.input],
        PlanNode::LogicalAgg(n) => seq![n.input],
        PlanNode::LogicalJoin(n) => seq![n.left, n.right],
        PlanNode::BatchSeqScan(_) => Seq::empty(),
        PlanNode::BatchHashJoin(n) => seq![n.logical.left, n.logical.right],
        PlanNode::BatchExchange(n) => seq![n.input],
        PlanNode::StreamTableScan(_) => Seq::empty(),
        PlanNode::StreamHashJoin(n) => seq![n.logical.left, n.logical.right],
        PlanNode::StreamExchange(n) => seq![n.input],
    }
}

impl PlanNode {
    /// The common fields of the node.
    pub fn plan_base(&self) -> (r: &PlanBase)
        ensures
            *r == base_of(*self),
    {
        match self {
            PlanNode::LogicalScan(n) => &n.base,
            PlanNode::LogicalValues(n) => &n.base,
            PlanNode::LogicalInsert(n) => &n.base,
            PlanNode::LogicalProject(n) => &n.base,
            PlanNode::LogicalAgg(n) => &n.base,
            PlanNode::LogicalJoin(n) => &n.base,
            PlanNode::BatchSeqScan(n) => &n.base,
            PlanNode::BatchHashJoin(n) => &n.base,
            PlanNode::BatchExchange(n) => &n.base,
            PlanNode::StreamTableScan(n) => &n.base,
            PlanNode::StreamHashJoin(n) => &n.base,
            PlanNode::StreamExchange(n) => &n.base,
        }
    }

    /// The columns of the node's output.
    pub fn schema(&self) -> (r: &Schema)
        ensures
            r@ == base_of(*self)@.schema,
    {
        &self.plan_base().schema
    }

    /// The kind of plan that the node belongs to.
    pub fn convention(&self) -> (r: Convention)
        ensures
            r == convention_of(*self),
    {
        match self {
            PlanNode::LogicalScan(_) => Convention::Logical,
            PlanNode::LogicalValues(_) => Convention::Logical,
            PlanNode::LogicalInsert(_) => Convention::Logical,
            PlanNode::LogicalProject(_) => Convention::Logical,
            PlanNode::LogicalAgg(_) => Convention::Logical,
            PlanNode::LogicalJoin(_) => Convention::Logical,
            PlanNode::BatchSeqScan(_) => Convention::Batch,
            PlanNode::BatchHashJoin(_) => Convention::Batch,
            PlanNode::BatchExchange(_) => Convention::Batch,
            PlanNode::StreamTableScan(_) => Convention::Stream,
            PlanNode::StreamHashJoin(_) => Convention::Stream,
            PlanNode::StreamExchange(_) => Convention::Stream,
        }
    }

    /// Whether the node's output only ever grows.
    pub fn append_only(&self) -> (r: bool)
        ensures
            r == base_of(*self)@.append_only,
    {
        self.plan_base().append_only
    }

    /// The plans right below the node.
    pub fn inputs(&self) -> (r: Vec<PlanRef>)
        ensures
            r@ == inputs_of(*self),
    {
        let mut r: Vec<PlanRef> = Vec::new();
        match self {
            PlanNode::LogicalScan(_) => {},
            PlanNode::LogicalValues(_) => {},
            PlanNode::LogicalInsert(n) => {
                r.push(n.input.clone());
            },
            PlanNode::LogicalProject(n) => {
                r.push(n.input.clone());
            },
            PlanNode::LogicalAgg(n) => {
                r.push(n.input.clone());
            },
            PlanNode::LogicalJoin(n) => {
                r.push(n.left.clone());
                r.push(n.right.clone());
            },
            PlanNode::BatchSeqScan(_) => {},
            PlanNode::BatchHashJoin(n) => {
                r.push(n.logical.left.clone());
                r.push(n.logical.right.clone());
            },
            PlanNode::BatchExchange(n) => {
                r.push(n.input.clone());
            },
            PlanNode::StreamTableScan(_) => {},
            PlanNode::StreamHashJoin(n) => {
                r.push(n.logical.left.clone());
                r.push(n.logical.right.clone());
            },
            PlanNode::StreamExchange(n) => {
                r.push(n.input.clone());
            },
        }
        proof {
            assert(r@ =~= inputs_of(*self));
        }
        r
    }
}

impl WithDistribution for PlanNode {
    open spec fn spec_distribution(&self) -> DistView {
        distribution_of(*self)
    }

    fn distribution(&self) -> (r: &Distribution) {
        &self.plan_base().dist
    }
}

impl BatchExchange {
    /// A node that distributes and orders the rows of `input`.
    pub fn new(input: PlanRef, order: Order, dist: Distribution, ctx: &mut QueryContext) -> (r: BatchExchange)
        requires
            old(ctx).has_ids(1),
        ensures
            r.input == input,
            r.base@ == batch_base(old(ctx).next_id, schema_of_plan(input), dist@, order@),
            *final(ctx) == old(ctx).after_ids(1),
    {
        let base = PlanBase::new_batch(ctx, input.schema().copy(), dist, order);
        BatchExchange { base, input }
    }
}

impl StreamExchange {
    /// A node that distributes the changes of `input`.
    pub fn new(input: PlanRef, dist: Distribution, ctx: &mut QueryContext) -> (r: StreamExchange)
        requires
            old(ctx).has_ids(1),
        ensures
            r.input == input,
            r.base@ == stream_base(
                old(ctx).next_id,
                schema_of_plan(input),
                base_of(*input)@.pk_indices,
                dist@,
                base_of(*input)@.append_only,
            ),
            *final(ctx) == old(ctx).after_ids(1),
    {
        let base = PlanBase::new_stream(
            ctx,
            input.schema().copy(),
            copy_indices(&input.plan_base().pk_indices),
            dist,
            input.append_only(),
        );
        StreamExchange { base, input }
    }
}

/// `r` is an exchange of the plan's own kind over the plan, with the wanted
/// distribution.
pub open spec fn is_exchange(r: PlanRef, plan: PlanRef, dist: DistView, order: Seq<FieldOrder>, id: i32) -> bool {
    match convention_of(*plan) {
        Convention::Batch => *r matches PlanNode::BatchExchange(e) && e.input == plan && e.base@ == batch_base(
            id,
            schema_of_plan(plan),
            dist,
            order,
        ),
        Convention::Stream => *r matches PlanNode::StreamExchange(e) && e.input == plan && e.base@ == stream_base(
            id,
            schema_of_plan(plan),
            base_of(*plan)@.pk_indices,
            dist,
            base_of(*plan)@.append_only,
        ),
        Convention::Logical => false,
    }
}

impl Distribution {
    /// A plan that is distributed like this: the plan itself if it is, and else
    /// an exchange over it.
    pub fn enforce_if_not_satisfies(&self, plan: PlanRef, required_order: &Order, ctx: &mut QueryContext) -> (r: PlanRef)
        requires
            old(ctx).has_ids(1),
            convention_of(*plan) == Convention::Logical ==> satisfies(distribution_of(*plan), self@),
        ensures
            if satisfies(distribution_of(*plan), self@) {
                r == plan && *final(ctx) == *old(ctx)
            } else {
                is_exchange(r, plan, self@, required_order@, old(ctx).next_id) && *final(ctx) == old(ctx).after_ids(1)
            },
    {
        if !plan.distribution().satisfies(self) {
            self.enforce(plan, required_order, ctx)
        } else {
            plan
        }
    }

    /// An exchange over the plan.
    fn enforce(&self, plan: PlanRef, required_order: &Order, ctx: &mut QueryContext) -> (r: PlanRef)
        requires
            old(ctx).has_ids(1),
            convention_of(*plan) != Convention::Logical,
        ensures
            is_exchange(r, plan, self@, required_order@, old(ctx).next_id),
            *final(ctx) == old(ctx).after_ids(1),
    {
        match plan.convention() {
            Convention::Batch => Arc::new(
                PlanNode::BatchExchange(BatchExchange::new(plan, required_order.copy(), self.copy(), ctx)),
            ),
            _ => Arc::new(PlanNode::StreamExchange(StreamExchange::new(plan, self.copy(), ctx))),
        }
    }
}

/// After the enforcement the plan satisfies the distribution.
pub proof fn law_enforced_satisfies(r: PlanRef, plan: PlanRef, dist: DistView, order: Seq<FieldOrder>, id: i32)
    requires
        satisfies(distribution_of(*plan), dist) ==> r == plan,
        !satisfies(distribution_of(*plan), dist) ==> is_exchange(r, plan, dist, order, id),
    ensures
        satisfies(distribution_of(*r), dist),
{
    law_satisfies_reflexive(dist);
}

/// An exchange stands over the plan, keeps its columns, and puts its rows out with the wanted
/// distribution; over a batch plan also in the wanted order, and over a stream with its primary key, and
/// append-only if it is.
pub proof fn law_exchange_keeps_columns(r: PlanRef, plan: PlanRef, dist: DistView, order: Seq<FieldOrder>, id: i32)
    requires
        is_exchange(r, plan, dist, order, id),
    ensures
        inputs_of(*r) == seq![plan],
        schema_of_plan(r) == schema_of_plan(plan),
        distribution_of(*r) == dist,
        convention_of(*r) == convention_of(*plan),
        base_of(*r)@.id == id,
        convention_of(*plan) == Convention::Batch ==> base_of(*r)@.order == order,
        convention_of(*plan) == Convention::Stream ==> base_of(*r)@.pk_indices == base_of(*plan)@.pk_indices
            && base_of(*r)@.append_only == base_of(*plan)@.append_only,
{
}

} // verus!
