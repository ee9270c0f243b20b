//! Hash joins, from the plan that the workers get to what the executor needs.

use vstd::prelude::*;

use crate::catalog::{DataType, Field, Schema};
use crate::common::error::ErrorCode;
use crate::frontend::plan_node::node::JoinType;

verus! {

/// A table in which an executor keeps its state.
#[derive(Debug)]
pub struct InternalTable {
    pub id: u32,
    pub distribution_key: Vec<i32>,
}

/// Which rows a join keeps in memory.
#[derive(Clone, Copy, Debug, PartialEq, Eq, Structural)]
pub enum JoinCachePolicy {
    Lru,
    LeftOnly,
    RightOnly,
    Both,
}

/// A hash join as the workers get it; `C` is a condition.
#[derive(Debug)]
pub struct HashJoinNode<C> {
    pub join_type: Option<JoinType>,
    pub left_key: Vec<i32>,
    pub right_key: Vec<i32>,
    /// What the building of the condition gave, if there is one.
    pub condition: Option<Result<C, ErrorCode>>,
    pub left_table: Option<InternalTable>,
    pub right_table: Option<InternalTable>,
    pub is_append_only: bool,
    pub output_indices: Vec<u32>,
    pub cache_policy: JoinCachePolicy,
}

/// A node of the plan.
#[derive(Debug)]
pub enum NodeBody<C> {
    HashJoin(HashJoinNode<C>),
    Other,
}

/// What the actor gives its executors; `E` is an executor.
#[derive(Debug)]
pub struct ExecutorParams<E> {
    pub pk_indices: Vec<usize>,
    pub executor_id: u64,
    pub op_info: String,
    /// The inputs with their schemas.
    pub input: Vec<(E, Schema)>,
    pub actor_id: u32,
    /// The shards of the data that the actor is responsible for.
    pub vnode_bitmap: Vec<u8>,
}

/// The keys of one side of a join.
#[derive(Debug)]
pub struct JoinParams {
    /// Indices of the join columns
    pub key_indices: Vec<usize>,
    /// Indices of the distribution key
    pub dist_keys: Vec<usize>,
}

/// What the executor of a join needs.
#[derive(Debug)]
pub struct HashJoinExecutorArgs<E, C> {
    pub join_type: JoinType,
    pub source_l: E,
    pub source_r: E,
    pub params_l: JoinParams,
    pub params_r: JoinParams,
    /// The types of the key, which decide how keys are hashed.
    pub key_types: Vec<DataType>,
    pub pk_indices: Vec<usize>,
    pub output_indices: Vec<usize>,
    pub executor_id: u64,
    pub cond: Option<C>,
    pub op_info: String,
    pub state_table_l: InternalTable,
    pub state_table_r: InternalTable,
    /// The shards of both tables.
    pub vnodes: Vec<u8>,
    pub is_append_only: bool,
    pub cache_policy: JoinCachePolicy,
    pub actor_id: u64,
}

/// Why no executor could be built.
#[derive(Debug)]
pub enum BuildError {
    /// The node is not the expected one.
    WrongNode,
    MissingLeftTable,
    MissingRightTable,
    MissingJoinType,
    /// The condition could not be built.
    Condition(ErrorCode),
}

/// Numbers as positions.
pub open spec fn as_positions(keys: Seq<i32>) -> Seq<usize> {
    Seq::new(keys.len(), |i: int| keys[i] as usize)
}

/// Numbers as positions.
pub open spec fn as_outputs(keys: Seq<u32>) -> Seq<usize> {
    Seq::new(keys.len(), |i: int| keys[i] as usize)
}

/// The types of the given columns.
pub open spec fn types_at(fields: Seq<Field>, keys: Seq<i32>) -> Seq<DataType> {
    Seq::new(keys.len(), |i: int| fields[keys[i] as usize as int].data_type)
}

/// The first reason for which no executor can be built.
pub open spec fn build_error<C>(node: NodeBody<C>) -> Option<BuildError> {
    match node {
        NodeBody::Other => Some(BuildError::WrongNode),
        NodeBody::HashJoin(join) => if join.left_table is None {
            Some(BuildError::MissingLeftTable)
        } else if join.right_table is None {
            Some(BuildError::MissingRightTable)
        } else if join.condition matches Some(Err(e)) {
            Some(BuildError::Condition(join.condition->0->Err_0))
        } else if join.join_type is None {
            Some(BuildError::MissingJoinType)
        } else {
            None
        },
    }
}

/// Nothing stops the building before the types of the keys are looked up.
pub open spec fn reaches_keys<C>(join: HashJoinNode<C>) -> bool {
    join.left_table is Some && join.right_table is Some && !(join.condition matches Some(Err(_)))
}

/// What the executor gets is what the plan and the actor say.
pub open spec fn is_args<E, C>(args: HashJoinExecutorArgs<E, C>, params: ExecutorParams<E>, join: HashJoinNode<C>) -> bool {
    &&& args.join_type == join.join_type->0
    &&& args.source_l == params.input@[0].0
    &&& args.source_r == params.input@[1].0
    &&& args.params_l.key_indices@ == as_positions(join.left_key@)
    &&& args.params_l.dist_keys@ == as_positions(join.left_table->0.distribution_key@)
    &&& args.params_r.key_indices@ == as_positions(join.right_key@)
    &&& args.params_r.dist_keys@ == as_positions(join.right_table->0.distribution_key@)
    &&& args.key_types@ == types_at(params.input@[0].1@, join.left_key@)
    &&& args.pk_indices == params.pk_indices
    &&& args.output_indices@ == as_outputs(join.output_indices@)
    &&& args.executor_id == params.executor_id
    &&& args.op_info == params.op_info
    &&& args.state_table_l == join.left_table->0
    &&& args.state_table_r == join.right_table->0
    &&& args.vnodes == params.vnode_bitmap
    &&& args.is_append_only == join.is_append_only
    &&& args.cache_policy == join.cache_policy
    &&& args.actor_id == params.actor_id
    &&& match join.condition {
        Some(Ok(cond)) => args.cond == Some(cond),
        _ => args.cond is None,
    }
}

/// Numbers as positions.
fn to_positions(keys: &Vec<i32>) -> (r: Vec<usize>)
    ensures
        r@ == as_positions(keys@),
{
    let mut r: Vec<usize> = Vec::new();
    let mut i: usize = 0;
    while i < keys.len()
        invariant
            i <= keys@.len(),
            r@.len() == i,
            forall|j: int| 0 <= j < i ==> #[trigger] r@[j] == keys@[j] as usize,
        decreases keys@.len() - i,
    {
        let position: usize = #[verifier::truncate]
        (keys[i] as usize);
        r.push(position);
        i = i + 1;
    }
    proof {
        assert(r@ =~= as_positions(keys@));
    }
    r
}

/// Numbers as positions.
fn to_outputs(keys: &Vec<u32>) -> (r: Vec<usize>)
    ensures
        r@ == as_outputs(keys@),
{
    let mut r: Vec<usize> = Vec::new();
    let mut i: usize = 0;
    while i < keys.len()
        invariant
            i <= keys@.len(),
            r@.len() == i,
            forall|j: int| 0 <= j < i ==> #[trigger] r@[j] == keys@[j] as usize,
        decreases keys@.len() - i,
    {
        r.push(keys[i] as usize);
        i = i + 1;
    }
    proof {
        assert(r@ =~= as_outputs(keys@));
    }
    r
}

/// Builds executors of hash joins.
#[derive(Debug)]
pub struct HashJoinExecutorBuilder;

impl HashJoinExecutorBuilder {
    /// What the executor of a hash join needs. The actor has two inputs, and the keys
    /// of the left side are columns of the first.
    pub fn new_boxed_executor<E, C>(params: ExecutorParams<E>, node: NodeBody<C>) -> (r: Result<
        HashJoinExecutorArgs<E, C>,
        BuildError,
    >)
        requires
            node is HashJoin ==> params.input@.len() >= 2,
            node matches NodeBody::HashJoin(join) ==> reaches_keys(join) ==> forall|i: int|
                0 <= i < join.left_key@.len() ==> params.input@[0].1@.len() > (#[trigger] join.left_key@[i]) as usize,
        ensures
            match build_error(node) {
                Some(e) => r == Err::<HashJoinExecutorArgs<E, C>, BuildError>(e),
                None => r matches Ok(args) && is_args(args, params, node->HashJoin_0),
            },
    {
        let join = match node {
            NodeBody::HashJoin(join) => join,
            NodeBody::Other => {
                return Err(BuildError::WrongNode);
            },
        };
        let mut input = params.input;
        let (source_l, schema_l) = input.remove(0);
        let (source_r, _schema_r) = input.remove(0);
        let table_l = match join.left_table {
            Some(table) => table,
            None => {
                return Err(BuildError::MissingLeftTable);
            },
        };
        let table_r = match join.right_table {
            Some(table) => table,
            None => {
                return Err(BuildError::MissingRightTable);
            },
        };
        let params_l = JoinParams {
            key_indices: to_positions(&join.left_key),
            dist_keys: to_positions(&table_l.distribution_key),
        };
        let params_r = JoinParams {
            key_indices: to_positions(&join.right_key),
            dist_keys: to_positions(&table_r.distribution_key),
        };
        let output_indices = to_outputs(&join.output_indices);
        let cond = match join.condition {
            Some(Ok(cond)) => Some(cond),
            Some(Err(e)) => {
                return Err(BuildError::Condition(e));
            },
            None => None,
        };
        let mut key_types: Vec<DataType> = Vec::new();
        let mut i: usize = 0;
        while i < params_l.key_indices.len()
            invariant
                i <= params_l.key_indices@.len(),
                params_l.key_indices@ == as_positions(join.left_key@),
                forall|k: int|
                    0 <= k < join.left_key@.len() ==> schema_l@.len() > (#[trigger] join.left_key@[k]) as usize,
                key_types@.len() == i,
                forall|k: int| 0 <= k < i ==> #[trigger] key_types@[k] == types_at(schema_l@, join.left_key@)[k],
            decreases params_l.key_indices@.len() - i,
        {
            proof {
                assert(params_l.key_indices@[i as int] == join.left_key@[i as int] as usize);
            }
            key_types.push(schema_l.fields[params_l.key_indices[i]].data_type());
            i = i + 1;
        }
        proof {
            assert(key_types@ =~= types_at(schema_l@, join.left_key@));
        }
        let join_type = match join.join_type {
            Some(t) => t,
            None => {
                return Err(BuildError::MissingJoinType);
            },
        };
        Ok(
            HashJoinExecutorArgs {
                join_type,
                source_l,
                source_r,
                params_l,
                params_r,
                key_types,
                pk_indices: params.pk_indices,
                output_indices,
                executor_id: params.executor_id,
                cond,
                op_info: params.op_info,
                state_table_l: table_l,
                state_table_r: table_r,
                vnodes: params.vnode_bitmap,
                is_append_only: join.is_append_only,
                cache_policy: join.cache_policy,
                actor_id: params.actor_id as u64,
            },
        )
    }
}

/// Each side of the join gets its own input, key, table and distribution key, and the rest is what
/// the plan and the actor say.
pub proof fn law_sides_stay_apart<E, C>(args: HashJoinExecutorArgs<E, C>, params: ExecutorParams<E>, join: HashJoinNode<C>)
    requires
        is_args(args, params, join),
        join.left_table is Some,
        join.right_table is Some,
        join.join_type is Some,
    ensures
        args.source_l == params.input@[0].0,
        args.source_r == params.input@[1].0,
        args.state_table_l == join.left_table->0,
        args.state_table_r == join.right_table->0,
        args.params_l.key_indices@.len() == join.left_key@.len(),
        args.params_r.key_indices@.len() == join.right_key@.len(),
        args.key_types@.len() == join.left_key@.len(),
        args.output_indices@.len() == join.output_indices@.len(),
        forall|i: int|
            0 <= i < join.left_key@.len() && 0 <= (#[trigger] join.left_key@[i]) ==> args.params_l.key_indices@[i]
                == join.left_key@[i] && args.key_types@[i] == params.input@[0].1@[join.left_key@[i] as int].data_type,
        forall|i: int|
            0 <= i < join.right_key@.len() && 0 <= (#[trigger] join.right_key@[i]) ==> args.params_r.key_indices@[i]
                == join.right_key@[i],
        forall|i: int|
            0 <= i < (join.left_table->0).distribution_key@.len() && 0 <= (#[trigger] (join.left_table->0).distribution_key@[i])
                ==> args.params_l.dist_keys@[i] == (join.left_table->0).distribution_key@[i],
        forall|i: int|
            0 <= i < (join.right_table->0).distribution_key@.len() && 0 <= (#[trigger] (join.right_table->0).distribution_key@[i])
                ==> args.params_r.dist_keys@[i] == (join.right_table->0).distribution_key@[i],
        forall|i: int|
            0 <= i < join.output_indices@.len() ==> args.output_indices@[i] == (#[trigger] join.output_indices@[i]),
        join.join_type == Some(args.join_type),
        join.condition matches Some(Ok(cond)) ==> args.cond == Some(cond),
        join.condition is None ==> args.cond is None,
        args.pk_indices == params.pk_indices,
        args.executor_id == params.executor_id,
        args.vnodes == params.vnode_bitmap,
        args.is_append_only == join.is_append_only,
        args.cache_policy == join.cache_policy,
        args.actor_id == params.actor_id,
{
}

/// An executor is built exactly for a hash join that has both tables, a type and no condition that
/// could not be built. Of several reasons against it the first counts: the node, the left table,
/// the right table, the condition, the type.
pub proof fn law_complete_joins_are_built<C>(node: NodeBody<C>)
    ensures
        build_error(node) is None <==> (node matches NodeBody::HashJoin(join) && join.left_table is Some
            && join.right_table is Some && join.join_type is Some && !(join.condition matches Some(Err(_)))),
        node is Other ==> build_error(node) == Some(BuildError::WrongNode),
        node matches NodeBody::HashJoin(join) ==> {
            &&& join.left_table is None ==> build_error(node) == Some(BuildError::MissingLeftTable)
            &&& join.left_table is Some && join.right_table is None ==> build_error(node) == Some(
                BuildError::MissingRightTable,
            )
            &&& join.left_table is Some && join.right_table is Some ==> (join.condition matches Some(Err(e)) ==> build_error(
                node,
            ) == Some(BuildError::Condition(e)))
            &&& join.left_table is Some && join.right_table is Some && !(join.condition matches Some(Err(_)))
                && join.join_type is None ==> build_error(node) == Some(BuildError::MissingJoinType)
        },
{
}

} // verus!
