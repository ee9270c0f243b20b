use std::sync::Arc;

use fixedbitset::FixedBitSet;
use streamdb::catalog::{ColumnDesc, DataType, Field, Schema};
use streamdb::frontend::col_index_mapping::ColIndexMapping;
use streamdb::frontend::column_catalog::{ColumnCatalog, ProstColumnCatalog};
use streamdb::frontend::expr::{
    AggCall, AggKind, ExprImpl, ExprType, FunctionCall, InputRef, Literal, LiteralValue, Signature,
};
use streamdb::frontend::func_dep::{columns_of, FunctionalDependencySet};
use streamdb::frontend::plan_fragmenter::BatchPlanFragmenter;
use streamdb::frontend::plan_node::base::{PlanBase, QueryContext};
use streamdb::frontend::plan_node::node::{
    BatchExchange, BatchHashJoin, BatchSeqScan, EqJoinPredicate, JoinType, LogicalAgg, LogicalJoin,
    LogicalScan, LogicalValues, PlanAggCall, PlanNode, PlanRef,
};
use streamdb::frontend::property::{Distribution, Order};

fn test_hash_shard_subset(uni: &Distribution, sub: &Distribution) {
    assert!(uni.satisfies(sub));
    assert!(!sub.satisfies(uni));
}

fn test_hash_shard_false(d1: &Distribution, d2: &Distribution) {
    assert!(!d1.satisfies(d2));
    assert!(!d2.satisfies(d1));
}

#[test]
fn hash_shard_satisfy() {
    let d1 = Distribution::HashShard(vec![0, 2, 4, 6, 8]);
    let d2 = Distribution::HashShard(vec![2, 4]);
    let d3 = Distribution::HashShard(vec![4, 6]);
    let d4 = Distribution::HashShard(vec![6, 8]);
    test_hash_shard_subset(&d1, &d2);
    test_hash_shard_subset(&d1, &d3);
    test_hash_shard_subset(&d1, &d4);
    test_hash_shard_subset(&d1, &d2);
    test_hash_shard_false(&d2, &d3);
    test_hash_shard_false(&d2, &d4);
    test_hash_shard_false(&d3, &d4);
}

#[test]
fn every_distribution_satisfies_any() {
    for d in vec![
        Distribution::Any,
        Distribution::Single,
        Distribution::Broadcast,
        Distribution::AnyShard,
        Distribution::HashShard(vec![1]),
    ] {
        assert!(d.satisfies(&Distribution::any()));
        assert!(d.satisfies(&d));
    }
    assert!(Distribution::HashShard(vec![1]).satisfies(&Distribution::AnyShard));
    assert!(!Distribution::Single.satisfies(&Distribution::Broadcast));
    assert!(!Distribution::any().satisfies(&Distribution::Single));
    assert!(!Distribution::any().satisfies(&Distribution::HashShard(vec![])));
    assert_eq!(
        Distribution::HashShard(vec![3, 1]).dist_column_indices(),
        vec![3, 1]
    );
}

fn prost(name: &str, id: i32, t: DataType, within: Vec<ProstColumnCatalog>, struct_name: &str) -> ProstColumnCatalog {
    ProstColumnCatalog {
        column_desc: Some(column(name, id, t)),
        is_hidden: false,
        catalogs: within,
        struct_type_name: struct_name.to_string(),
    }
}

fn column(name: &str, id: i32, data_type: DataType) -> ColumnDesc {
    ColumnDesc {
        data_type,
        column_id: id,
        name: name.to_string(),
        field_descs: Arc::new(vec![]),
        struct_type_name: String::new(),
    }
}

fn no_fields() -> DataType {
    DataType::Struct { fields: Arc::new(vec![]) }
}

fn build_prost_catalog() -> ProstColumnCatalog {
    let city = vec![
        prost("country.city.address", 2, DataType::Varchar, vec![], ""),
        prost("country.city.zipcode", 3, DataType::Varchar, vec![], ""),
    ];
    let country = vec![
        prost("country.address", 1, DataType::Varchar, vec![], ""),
        prost("country.city", 4, no_fields(), city, ".test.City"),
    ];
    prost("country", 5, no_fields(), country, ".test.Country")
}

fn catalog(name: &str, id: i32, t: DataType, within: Vec<ColumnCatalog>, struct_name: &str) -> ColumnCatalog {
    ColumnCatalog {
        column_desc: column(name, id, t),
        is_hidden: false,
        catalogs: within,
        struct_type_name: struct_name.to_string(),
    }
}

fn city_type() -> DataType {
    DataType::Struct { fields: Arc::new(vec![DataType::Varchar, DataType::Varchar]) }
}

fn build_catalog() -> ColumnCatalog {
    let city = vec![
        catalog("country.city.address", 2, DataType::Varchar, vec![], ""),
        catalog("country.city.zipcode", 3, DataType::Varchar, vec![], ""),
    ];
    let country = vec![
        catalog("country.address", 1, DataType::Varchar, vec![], ""),
        catalog("country.city", 4, city_type(), city, ".test.City"),
    ];
    let t = DataType::Struct { fields: Arc::new(vec![DataType::Varchar, city_type()]) };
    catalog("country", 5, t, country, ".test.Country")
}

#[test]
fn test_into_column_catalog() {
    let catalog = ColumnCatalog::from_prost(&build_prost_catalog());
    assert_eq!(format!("{:?}", catalog), format!("{:?}", build_catalog()));
}

#[test]
fn all_columns_of_a_struct() {
    let ids: Vec<i32> = build_catalog().get_column_descs().iter().map(|d| d.column_id).collect();
    assert_eq!(ids, vec![5, 1, 4, 2, 3]);
}

fn three_fields() -> Vec<Field> {
    vec!["v1", "v2", "v3"]
        .into_iter()
        .map(|n| Field::with_name(DataType::Int32, n.to_string()))
        .collect()
}

fn test_scan(ctx: &mut QueryContext) -> PlanRef {
    Arc::new(PlanNode::LogicalScan(LogicalScan::new(
        "test".to_string(),
        0,
        vec![1, 2, 3],
        Schema { fields: three_fields() },
        ctx,
    )))
}

fn input(index: usize) -> ExprImpl {
    ExprImpl::InputRef(InputRef::new(index, DataType::Int32))
}

fn agg(agg_kind: AggKind, of: ExprImpl) -> ExprImpl {
    ExprImpl::AggCall(AggCall {
        agg_kind,
        inputs: Arc::new(vec![of]),
        return_type: DataType::Int32,
    })
}

fn arithmetic() -> Vec<Signature> {
    vec![ExprType::Add, ExprType::Multiply]
        .into_iter()
        .map(|func_type| Signature {
            func_type,
            inputs: vec![DataType::Int32, DataType::Int32],
            return_type: DataType::Int32,
        })
        .collect()
}

fn assert_eq_input_ref(e: &ExprImpl, index: usize) {
    match e {
        ExprImpl::InputRef(r) => assert_eq!(r.index, index),
        _ => panic!("Expected input ref!"),
    }
}

fn as_agg(plan: &PlanRef) -> &LogicalAgg {
    match &**plan {
        PlanNode::LogicalAgg(agg) => agg,
        _ => panic!("Wrong plan node!"),
    }
}

fn gen_internal_value(select: Vec<ExprImpl>, group: Vec<ExprImpl>) -> (Vec<ExprImpl>, Vec<(AggKind, Vec<usize>)>, Vec<usize>) {
    let mut ctx = QueryContext::new(false, false);
    let scan = test_scan(&mut ctx);
    let alias = select.iter().map(|_| None).collect();
    let plan = LogicalAgg::create(&select, alias, &group, scan, &mut ctx, &arithmetic()).unwrap();
    let project = match &*plan {
        PlanNode::LogicalProject(project) => project,
        _ => panic!("Wrong plan node!"),
    };
    let exprs = project.exprs.iter().map(|e| e.copy()).collect();
    let agg = as_agg(&project.input);
    let calls = agg.agg_calls().iter().map(|c| (c.agg_kind, c.inputs.clone())).collect();
    (exprs, calls, agg.group_keys().clone())
}

#[test]
fn test_create() {
    // Test case: select v1 from test group by v1;
    {
        let (exprs, agg_calls, group_keys) = gen_internal_value(vec![input(0)], vec![input(0)]);
        assert_eq!(exprs.len(), 1);
        assert_eq_input_ref(&exprs[0], 0);
        assert_eq!(agg_calls.len(), 0);
        assert_eq!(group_keys, vec![0]);
    }

    // Test case: select v1, min(v2) from test group by v1;
    {
        let select = vec![input(0), agg(AggKind::Min, input(1))];
        let (exprs, agg_calls, group_keys) = gen_internal_value(select, vec![input(0)]);
        assert_eq!(exprs.len(), 2);
        assert_eq_input_ref(&exprs[0], 0);
        assert_eq_input_ref(&exprs[1], 1);
        assert_eq!(agg_calls.len(), 1);
        assert_eq!(agg_calls[0].0, AggKind::Min);
        assert_eq!(agg_calls[0].1, vec![1]);
        assert_eq!(group_keys, vec![0]);
    }

    // Test case: select v1, min(v2) + max(v3) from t group by v1;
    {
        let func_call = FunctionCall::new(
            ExprType::Add,
            vec![agg(AggKind::Min, input(1)), agg(AggKind::Max, input(2))],
            &arithmetic(),
        )
        .unwrap();
        let select = vec![input(0), ExprImpl::FunctionCall(func_call)];
        let (exprs, agg_calls, group_keys) = gen_internal_value(select, vec![input(0)]);
        assert_eq_input_ref(&exprs[0], 0);
        if let ExprImpl::FunctionCall(func_call) = &exprs[1] {
            assert_eq!(func_call.func_type, ExprType::Add);
            assert_eq_input_ref(&func_call.inputs[0], 1);
            assert_eq_input_ref(&func_call.inputs[1], 2);
        } else {
            panic!("Wrong expression type!");
        }
        assert_eq!(agg_calls.len(), 2);
        assert_eq!(agg_calls[0].0, AggKind::Min);
        assert_eq!(agg_calls[0].1, vec![1]);
        assert_eq!(agg_calls[1].0, AggKind::Max);
        assert_eq!(agg_calls[1].1, vec![2]);
        assert_eq!(group_keys, vec![0]);
    }

    // Test case: select v2, min(v1 * v3) from test group by v2;
    {
        let v1_mult_v3 =
            FunctionCall::new(ExprType::Multiply, vec![input(0), input(2)], &arithmetic()).unwrap();
        let select = vec![input(1), agg(AggKind::Min, ExprImpl::FunctionCall(v1_mult_v3))];
        let (exprs, agg_calls, group_keys) = gen_internal_value(select, vec![input(1)]);
        assert_eq_input_ref(&exprs[0], 0);
        assert_eq_input_ref(&exprs[1], 1);
        assert_eq!(agg_calls.len(), 1);
        assert_eq!(agg_calls[0].0, AggKind::Min);
        assert_eq!(agg_calls[0].1, vec![1]);
        assert_eq!(group_keys, vec![0]);
    }
}

fn call(agg_kind: AggKind, input: usize) -> PlanAggCall {
    PlanAggCall { agg_kind, return_type: DataType::Int32, inputs: vec![input] }
}

fn bits(len: usize, members: &[usize]) -> FixedBitSet {
    let mut s = FixedBitSet::with_capacity(len);
    s.extend(members.iter().copied());
    s
}

fn scan_fields(plan: &PlanRef) -> String {
    match &**plan {
        PlanNode::LogicalScan(scan) => format!("{:?}", scan.base.schema.fields),
        _ => panic!("Wrong plan node!"),
    }
}

fn last_two() -> String {
    format!("{:?}", &three_fields()[1..])
}

#[test]
fn test_prune_all() {
    let mut ctx = QueryContext::new(false, false);
    let scan = test_scan(&mut ctx);
    let agg = LogicalAgg::new(
        vec![call(AggKind::Min, 2)],
        vec![Some("min".to_string())],
        vec![1],
        scan,
        &mut ctx,
    );

    // Perform the prune
    let plan = agg.prune_col(&bits(2, &[0, 1]), &mut ctx);

    // Check the result
    let agg_new = as_agg(&plan);
    assert_eq!(agg_new.agg_call_alias(), &vec![Some("min".to_string())]);
    assert_eq!(agg_new.group_keys(), &vec![0]);
    assert_eq!(agg_new.agg_calls.len(), 1);
    assert_eq!(agg_new.agg_calls[0].agg_kind, AggKind::Min);
    assert_eq!(agg_new.agg_calls[0].inputs, vec![1]);
    assert!(agg_new.agg_calls[0].return_type.same(&DataType::Int32));
    assert_eq!(scan_fields(&agg_new.input), last_two());
}

#[test]
fn test_prune_group_key() {
    let mut ctx = QueryContext::new(false, false);
    let scan = test_scan(&mut ctx);
    let agg = LogicalAgg::new(
        vec![call(AggKind::Min, 2)],
        vec![Some("min".to_string())],
        vec![1],
        scan,
        &mut ctx,
    );

    // Perform the prune
    let plan = agg.prune_col(&bits(2, &[1]), &mut ctx);

    // Check the result
    let project = match &*plan {
        PlanNode::LogicalProject(project) => project,
        _ => panic!("Wrong plan node!"),
    };
    assert_eq!(project.exprs.len(), 1);
    assert_eq_input_ref(&project.exprs[0], 1);
    assert_eq!(project.base.id, 4);

    let agg_new = as_agg(&project.input);
    assert_eq!(agg_new.agg_call_alias(), &vec![Some("min".to_string())]);
    assert_eq!(agg_new.group_keys(), &vec![0]);
    assert_eq!(agg_new.base.id, 3);
    assert_eq!(agg_new.agg_calls.len(), 1);
    assert_eq!(agg_new.agg_calls[0].agg_kind, AggKind::Min);
    assert_eq!(agg_new.agg_calls[0].inputs, vec![1]);
    assert!(agg_new.agg_calls[0].return_type.same(&DataType::Int32));
    assert_eq!(scan_fields(&agg_new.input), last_two());
    assert_eq!(agg_new.input.plan_base().id, 2);
}

#[test]
fn test_prune_agg() {
    let mut ctx = QueryContext::new(false, false);
    let scan = test_scan(&mut ctx);
    let agg = LogicalAgg::new(
        vec![call(AggKind::Min, 2), call(AggKind::Max, 1)],
        vec![Some("min".to_string()), Some("max".to_string())],
        vec![1, 2],
        scan,
        &mut ctx,
    );

    // Perform the prune
    let plan = agg.prune_col(&bits(4, &[0, 3]), &mut ctx);

    // Check the result
    let project = match &*plan {
        PlanNode::LogicalProject(project) => project,
        _ => panic!("Wrong plan node!"),
    };
    assert_eq!(project.exprs.len(), 2);
    assert_eq_input_ref(&project.exprs[0], 0);
    assert_eq_input_ref(&project.exprs[1], 2);

    let agg_new = as_agg(&project.input);
    assert_eq!(agg_new.agg_call_alias(), &vec![Some("max".to_string())]);
    assert_eq!(agg_new.group_keys(), &vec![0, 1]);
    assert_eq!(agg_new.agg_calls.len(), 1);
    assert_eq!(agg_new.agg_calls[0].agg_kind, AggKind::Max);
    assert_eq!(agg_new.agg_calls[0].inputs, vec![0]);
    assert!(agg_new.agg_calls[0].return_type.same(&DataType::Int32));
    assert_eq!(scan_fields(&agg_new.input), last_two());
}

fn two_columns() -> Schema {
    Schema {
        fields: vec![
            Field::with_name(DataType::Int32, "a".to_string()),
            Field::with_name(DataType::Float64, "b".to_string()),
        ],
    }
}

fn batch_scan(ctx: &mut QueryContext) -> PlanRef {
    let scan = LogicalScan::new(String::new(), 0, vec![0, 1], two_columns(), ctx);
    let base = PlanBase::new_batch(ctx, two_columns(), Distribution::AnyShard, Order::any());
    Arc::new(PlanNode::BatchSeqScan(BatchSeqScan { base, logical: Arc::new(scan) }))
}

fn join_of(left: PlanRef, right: PlanRef, ctx: &mut QueryContext) -> PlanRef {
    let join = LogicalJoin::new(left, right, JoinType::Inner, None, vec![0, 1, 2, 3], vec![], ctx);
    let eq = EqJoinPredicate { other_cond: None, eq_keys: vec![], left_cols_num: 2 };
    Arc::new(PlanNode::BatchHashJoin(BatchHashJoin::new(Arc::new(join), Arc::new(eq), ctx)))
}

fn exchange(input: PlanRef, dist: Distribution, ctx: &mut QueryContext) -> PlanRef {
    Arc::new(PlanNode::BatchExchange(BatchExchange::new(input, Order::any(), dist, ctx)))
}

#[test]
fn test_fragmenter() {
    // Construct a Hash Join with Exchange node.
    // Logical plan:
    //
    //    HashJoin
    //     /    \
    //   Scan  Scan
    //
    let mut ctx = QueryContext::new(false, false);
    let batch_plan_node = batch_scan(&mut ctx);
    let shard = || Distribution::HashShard(vec![0, 1]);
    let batch_exchange_node1 = exchange(batch_plan_node.clone(), shard(), &mut ctx);
    let batch_exchange_node2 = exchange(batch_plan_node.clone(), shard(), &mut ctx);
    let hash_join_node = join_of(batch_exchange_node1, batch_exchange_node2, &mut ctx);
    let batch_exchange_node3 = exchange(hash_join_node, Distribution::Single, &mut ctx);

    // Break the plan node into fragments.
    let fragmenter = BatchPlanFragmenter::new();
    let query = fragmenter.split(batch_exchange_node3);

    assert_eq!(query.stage_graph.id, 0);
    assert_eq!(query.stage_graph.stages.len(), 4);

    // Check the mappings of child edges.
    assert_eq!(query.stage_graph.child_edges.get(&0).unwrap().len(), 1);
    assert_eq!(query.stage_graph.child_edges.get(&1).unwrap().len(), 2);
    assert_eq!(query.stage_graph.child_edges.get(&2).unwrap().len(), 0);
    assert_eq!(query.stage_graph.child_edges.get(&3).unwrap().len(), 0);

    // Check the mappings of parent edges.
    assert_eq!(query.stage_graph.parent_edges.get(&0).unwrap().len(), 0);
    assert_eq!(query.stage_graph.parent_edges.get(&1).unwrap().len(), 1);
    assert_eq!(query.stage_graph.parent_edges.get(&2).unwrap().len(), 1);
    assert_eq!(query.stage_graph.parent_edges.get(&3).unwrap().len(), 1);

    // Check plan node in each stages.
    let root_exchange = query.stage_graph.stages.get(&0).unwrap();
    assert!(matches!(&*root_exchange.root, PlanNode::BatchExchange(_)));
    let join_node = query.stage_graph.stages.get(&1).unwrap();
    assert!(matches!(&*join_node.root, PlanNode::BatchHashJoin(_)));
    let scan_node1 = query.stage_graph.stages.get(&2).unwrap();
    assert!(matches!(&*scan_node1.root, PlanNode::BatchSeqScan(_)));
    let scan_node2 = query.stage_graph.stages.get(&3).unwrap();
    assert!(matches!(&*scan_node2.root, PlanNode::BatchSeqScan(_)));

    let mut leaves = query.leaf_stages();
    leaves.sort();
    assert_eq!(leaves, vec![2, 3]);
    assert!(query.get_parents(&2).contains(&1));
}

#[test]
fn random_query_ids_differ() {
    let mut ctx = QueryContext::new(false, false);
    let plan = batch_scan(&mut ctx);
    let a = BatchPlanFragmenter::new().split(plan.clone());
    let b = BatchPlanFragmenter::new().split(plan);
    assert!(a.query_id != b.query_id);
    assert_eq!(a.stage_graph.stages.len(), 1);
}

#[test]
fn joins_are_sharded_by_their_keys() {
    let mut ctx = QueryContext::new(false, false);
    let left = batch_scan(&mut ctx);
    let right = batch_scan(&mut ctx);
    let logical = LogicalJoin::new(
        left.clone(),
        right.clone(),
        JoinType::Inner,
        None,
        vec![0, 1, 2, 3],
        vec![],
        &mut ctx,
    );
    let eq = EqJoinPredicate { other_cond: None, eq_keys: vec![(0, 2)], left_cols_num: 2 };
    let join = BatchHashJoin::new(Arc::new(logical), Arc::new(eq), &mut ctx);
    let distributed = join.to_distributed(left, right, &mut ctx);
    for side in vec![distributed.left(), distributed.right()] {
        match &*side {
            PlanNode::BatchExchange(e) => assert_eq!(e.base.dist, Distribution::HashShard(vec![0])),
            _ => panic!("Wrong plan node!"),
        }
    }
}

#[test]
fn enforcing_adds_an_exchange_only_where_needed() {
    let mut ctx = QueryContext::new(false, false);
    let plan = batch_scan(&mut ctx);
    let same = Distribution::AnyShard.enforce_if_not_satisfies(plan.clone(), &Order::any(), &mut ctx);
    assert!(Arc::ptr_eq(&same, &plan));
    let single = Distribution::Single.enforce_if_not_satisfies(plan, &Order::any(), &mut ctx);
    assert!(matches!(&*single, PlanNode::BatchExchange(e) if e.base.dist == Distribution::Single));
}

#[test]
fn functional_dependencies() {
    let mut fds = FunctionalDependencySet::new();
    // (0, 1) --> 2, 2 --> 3
    fds.add_functional_dependency_by_column_indices(&vec![0, 1], &vec![2], 5);
    fds.add_functional_dependency_by_column_indices(&vec![2], &vec![3], 5);
    let set = |v: Vec<usize>| columns_of(&v, 5);
    assert!(fds.is_determined_by(set(vec![0, 1]), set(vec![3])));
    assert!(fds.is_determined_by(set(vec![0, 1]), set(vec![1, 2, 3])));
    assert!(!fds.is_determined_by(set(vec![0]), set(vec![3])));
    assert!(!fds.is_determined_by(set(vec![0, 1]), set(vec![4])));
    fds.add_constant_column_by_index(5, 4);
    assert!(fds.is_determined_by(set(vec![]), set(vec![4])));
    let keyed = FunctionalDependencySet::with_key(3, &vec![1]);
    assert!(keyed.is_determined_by(columns_of(&vec![1], 3), columns_of(&vec![0, 2], 3)));
    assert!(!keyed.is_determined_by(columns_of(&vec![0], 3), columns_of(&vec![1], 3)));
}

#[test]
fn remaining_columns_move_up() {
    let map = ColIndexMapping::with_remaining_columns(&bits(5, &[1, 3]));
    assert_eq!(map.map, vec![None, Some(0), None, Some(1), None]);
    assert_eq!(map.map(3), 1);
    assert_eq!(map.try_map(0), None);
    assert_eq!(map.try_map(9), None);
    let next = ColIndexMapping { map: vec![Some(7)] };
    assert_eq!(map.composite(&next).map, vec![None, Some(7), None, None, None]);
    assert_eq!(
        map.rewrite_provided_distribution(&Distribution::HashShard(vec![3, 1])),
        Distribution::HashShard(vec![1, 0])
    );
}

#[test]
fn aggregates_stand_behind_all_group_keys() {
    // select v1, min(v2) from test group by v1, v1;
    let select = vec![input(0), agg(AggKind::Min, input(1))];
    let (exprs, agg_calls, group_keys) = gen_internal_value(select, vec![input(0), input(0)]);
    assert_eq!(agg_calls.len(), 1);
    assert_eq!(group_keys.len(), 2);
    assert_eq_input_ref(&exprs[1], 2);
}

#[test]
fn pruned_values_keep_their_rows() {
    let mut ctx = QueryContext::new(false, false);
    let number = |n: i32| {
        ExprImpl::Literal(Literal { data: LiteralValue::Int32(n), data_type: DataType::Int32 })
    };
    let rows = vec![vec![number(1), number(2), number(3)], vec![number(4), number(5), number(6)]];
    let values = LogicalValues::new(rows, Schema { fields: three_fields() }, &mut ctx);
    let pruned = values.prune_col(&bits(3, &[0, 2]), &mut ctx);
    let shown: Vec<String> = pruned.rows().iter().map(|row| format!("{:?}", row)).collect();
    let expected: Vec<String> = vec![vec![number(1), number(3)], vec![number(4), number(6)]]
        .iter()
        .map(|row| format!("{:?}", row))
        .collect();
    assert_eq!(shown, expected);
    assert_eq!(pruned.base.schema.fields.len(), 2);
}

#[test]
fn pruned_scans_read_the_same_table() {
    let mut ctx = QueryContext::new(false, false);
    let scan = LogicalScan::new("test".to_string(), 7, vec![1, 2, 3], Schema { fields: three_fields() }, &mut ctx);
    let pruned = scan.prune_col(&bits(3, &[2]), &mut ctx);
    assert_eq!((pruned.table_name(), pruned.table_id()), ("test", 7));
    assert_eq!(pruned.column_names(), vec!["v3"]);
    assert_eq!(pruned.base.schema.fields.len(), 1);
}

#[test]
fn children_and_parents_mirror_each_other() {
    let mut ctx = QueryContext::new(false, false);
    let leaf = batch_scan(&mut ctx);
    let shard = || Distribution::HashShard(vec![0, 1]);
    let left = exchange(leaf.clone(), shard(), &mut ctx);
    let right = exchange(leaf, shard(), &mut ctx);
    let join = join_of(left, right, &mut ctx);
    let plan = exchange(join, Distribution::Single, &mut ctx);
    let graph = BatchPlanFragmenter::new().split(plan).stage_graph;
    for (id, children) in graph.child_edges.iter() {
        assert_eq!(graph.get_stage_unchecked(id).id, *id);
        for (other, parents) in graph.parent_edges.iter() {
            assert_eq!(children.contains(other), parents.contains(id));
        }
    }
}
