use streamdb::bench::write_batch::{
    group_batches, keys_to_delete, next_task_count, perf_metrics, size_of_batches, BatchTaskContext,
};
use streamdb::common::error::ErrorCode;
use streamdb::frontend::expr::ExprType;
use streamdb::frontend::operators::BinaryOperator;
use streamdb::meta::catalog_service::{
    can_get, create_database, create_materialized_source, create_materialized_view, create_schema,
    create_source, drop_database, drop_materialized_source, drop_materialized_view, drop_schema,
    drop_source, fill_source_id, next, reads_one_source, Action, Database, Event, IdCategory, Operator, Response,
    SchemaInfo, Source, Step, StreamNode, Table, Waiting,
};
use streamdb::meta::rpc_server::{
    connect_error, shutdown_tasks, store_to_open, MetaStoreBackend, StoreToOpen, TaskShutdown,
};
use streamdb::risedev::frontend_gen::{FrontendConfig, FrontendGen, MetaNodeConfig};
use streamdb::sqlsmith::expr::{
    make_bin_op, sql_null, Constant, DataTypeName, Draws, Expr, FuncSign, SqlGenerator, TypedKind,
};

#[test]
fn an_epoch_ends_with_its_last_task() {
    let mut ctx = BatchTaskContext::new(3);
    assert_eq!(ctx.finish_batch(0, 2), None);
    assert_eq!(ctx.finish_batch(0, 2), None);
    assert_eq!(ctx.finish_batch(0, 2), Some(0));
    assert_eq!(ctx.epoch(), 1);
    // two tasks exit, and the third finishes the epoch alone
    assert_eq!(ctx.finish_batch(1, 2), None);
    assert!(!ctx.epoch_barrier_finish(true));
    assert!(ctx.epoch_barrier_finish(false));
    assert!(ctx.epoch_barrier_finish(true));
    assert_eq!(next_task_count(2 << 8, false), (2 << 8 | 1, false));
    assert_eq!(next_task_count(2 << 8 | 1, false), (2 << 8, true));
    assert_eq!(next_task_count(2 << 8 | 1, true), (1 << 8, true));
}

#[test]
fn batches_are_dealt_out_in_turn() {
    let groups = group_batches(vec!['a', 'b', 'c', 'd', 'e'], 2);
    assert_eq!(groups, vec![vec!['a', 'c', 'e'], vec!['b', 'd']]);
    let none: Vec<Vec<u8>> = vec![vec![], vec![]];
    assert_eq!(group_batches::<u8>(vec![], 2), none);
    assert!(group_batches::<u8>(vec![], 0).is_empty());
}

#[test]
fn speed_of_a_run() {
    assert_eq!(size_of_batches(&vec![vec![(1u64, 2u32)], vec![(3, 4), (5, 6)]]), 36);
    let perf = perf_metrics(100, 30, 5000, 2_000_000_000);
    assert_eq!(perf.qps, 1500);
    assert_eq!(perf.bytes_pre_sec, 2500);
}

#[test]
fn deleted_keys_are_drawn_among_known_ones() {
    let known = vec![vec![1u8], vec![2], vec![3]];
    assert_eq!(keys_to_delete(&known, vec![], &vec![2, 0, 2]), vec![vec![3], vec![1], vec![3]]);
    assert_eq!(keys_to_delete(&vec![], vec![vec![9]], &vec![]), vec![vec![9]]);
}

fn table(id: u32) -> Table {
    Table { id, name: "mv".to_string(), associated_source_id: None }
}

fn plan() -> StreamNode {
    let leaf = |node| StreamNode { node, input: vec![] };
    StreamNode {
        node: Operator::Other(1),
        input: vec![leaf(Operator::Other(2)), leaf(Operator::Source { table_ref_id: 0 })],
    }
}

fn act(step: Step) -> (Waiting, Action) {
    match step {
        Step::Act(w, a) => (w, a),
        other => panic!("expected an action, got {:?}", other),
    }
}

fn internal(s: &str) -> ErrorCode {
    ErrorCode::InternalError(s.to_string())
}

#[test]
fn source_ids_are_filled_in() {
    let (filled, count) = fill_source_id(plan(), 42);
    assert_eq!(count, 1);
    assert_eq!(filled.node, Operator::Other(1));
    assert_eq!(filled.input[1].node, Operator::Source { table_ref_id: 42 });
}

#[test]
fn creating_a_view() {
    let (w, a) = create_materialized_view(table(0), plan());
    assert!(matches!(a, Action::GenerateId(IdCategory::Table)));
    let (w, a) = act(next(w, Event::Id(5)));
    assert!(matches!(a, Action::StartCreateTable(t) if t.id == 0));
    let (w, a) = act(next(w, Event::Done));
    assert!(matches!(a, Action::BuildStream(_, 5)));
    let (w, a) = act(next(w, Event::Done));
    assert!(matches!(a, Action::FinishCreateTable(t) if t.id == 5 && t.associated_source_id.is_none()));
    assert!(matches!(
        next(w, Event::Version(8)),
        Step::Respond(Response::Created { id: 5, version: 8 })
    ));
}

#[test]
fn a_view_that_cannot_be_built_is_cancelled() {
    let (w, _) = create_materialized_view(table(0), plan());
    let (w, _) = act(next(w, Event::Id(5)));
    let (w, _) = act(next(w, Event::Done));
    let (w, a) = act(next(w, Event::Failed(internal("no workers"))));
    assert!(matches!(a, Action::CancelCreateTable(_)));
    assert!(matches!(next(w, Event::Done), Step::Fail(e) if e == internal("no workers")));
}

#[test]
fn creating_a_source_with_its_view() {
    let source = Source { id: 0, name: "s".to_string() };
    let (w, _) = create_materialized_source(source, table(0), plan());
    let (w, a) = act(next(w, Event::Id(3)));
    assert!(matches!(a, Action::CreateSourceOnNodes(s) if s.id == 3));
    let (w, a) = act(next(w, Event::Done));
    assert!(matches!(a, Action::CreateSourceInCatalog(s) if s.id == 3));
    let (w, a) = act(next(w, Event::Version(1)));
    assert!(matches!(a, Action::GenerateId(IdCategory::Table)));
    let (w, a) = act(next(w, Event::Id(4)));
    assert!(matches!(a, Action::StartCreateTable(t) if t.associated_source_id == Some(3)));
    let (w, a) = act(next(w, Event::Done));
    match a {
        Action::BuildStream(p, 4) => {
            assert_eq!(p.input[1].node, Operator::Source { table_ref_id: 3 })
        }
        other => panic!("expected a plan, got {:?}", other),
    }
    let (w, _) = act(next(w, Event::Done));
    assert!(matches!(
        next(w, Event::Version(2)),
        Step::Respond(Response::CreatedSourceAndView { source_id: 3, table_id: 4, version: 2 })
    ));
}

#[test]
fn dropping_goes_through_the_catalog_first() {
    let (w, a) = drop_materialized_source(3, 4);
    assert!(matches!(a, Action::DropTableInCatalog(4)));
    let (w, a) = act(next(w, Event::Version(10)));
    assert!(matches!(a, Action::StopStream(4)));
    let (w, a) = act(next(w, Event::Done));
    assert!(matches!(a, Action::DropSourceInCatalog(3)));
    let (w, a) = act(next(w, Event::Version(11)));
    assert!(matches!(a, Action::DropSourceOnNodes(3)));
    assert!(matches!(next(w, Event::Done), Step::Respond(Response::Dropped { version: 11 })));

    let (w, a) = drop_materialized_view(4);
    assert!(matches!(a, Action::DropTableInCatalog(4)));
    let (w, _) = act(next(w, Event::Version(10)));
    assert!(matches!(next(w, Event::Done), Step::Respond(Response::Dropped { version: 10 })));
    let (w, a) = drop_source(6);
    assert!(matches!(a, Action::DropSourceInCatalog(6)));
    assert!(matches!(next(w, Event::Failed(internal("in use"))), Step::Fail(_)));
}

#[test]
fn databases_and_schemas() {
    let (w, a) = create_database(Database { id: 0, name: "d".to_string() });
    assert!(matches!(a, Action::GenerateId(IdCategory::Database)));
    let (w, a) = act(next(w, Event::Id(1)));
    assert!(matches!(a, Action::CreateDatabase(d) if d.id == 1 && d.name == "d"));
    assert!(matches!(
        next(w, Event::Version(2)),
        Step::Respond(Response::Created { id: 1, version: 2 })
    ));
    let (w, a) = create_schema(SchemaInfo { id: 0, database_id: 1, name: "s".to_string() });
    assert!(matches!(a, Action::GenerateId(IdCategory::Schema)));
    let (_, a) = act(next(w, Event::Id(9)));
    assert!(matches!(a, Action::CreateSchema(s) if s.id == 9 && s.database_id == 1));
    let (w, a) = drop_database(1);
    assert!(matches!(a, Action::DropDatabase(1)));
    assert!(matches!(next(w, Event::Version(3)), Step::Respond(Response::Dropped { version: 3 })));
    assert!(matches!(drop_schema(2).1, Action::DropSchema(2)));
    let (_, a) = create_source(Source { id: 0, name: "s".to_string() });
    assert!(matches!(a, Action::GenerateId(IdCategory::Table)));
}

#[test]
fn stores_of_the_meta_service() {
    let etcd = MetaStoreBackend::Etcd { endpoints: vec!["a:1".to_string()] };
    match store_to_open(etcd) {
        StoreToOpen::Etcd { endpoints, keep_alive_interval_secs, keep_alive_timeout_secs } => {
            assert_eq!(endpoints, vec!["a:1".to_string()]);
            assert_eq!((keep_alive_interval_secs, keep_alive_timeout_secs), (3, 5));
        }
        StoreToOpen::Mem => panic!("expected etcd"),
    }
    assert!(matches!(store_to_open(MetaStoreBackend::Mem), StoreToOpen::Mem));
    assert_eq!(connect_error("timeout"), internal("failed to connect etcd timeout"));
    assert_eq!(
        shutdown_tasks(&vec![true, false]),
        vec![TaskShutdown::Join, TaskShutdown::Skip]
    );
}

#[test]
fn frontend_properties() {
    let node = |address: &str, port| MetaNodeConfig { address: address.to_string(), port };
    let config = FrontendConfig {
        address: "127.0.0.1".to_string(),
        port: 4567,
        provide_meta_node: Some(vec![node("h1", 5690), node("h2", 5691)]),
    };
    let text = FrontendGen.gen_server_properties(&config);
    let lines: Vec<&str> = text.lines().skip(1).collect();
    assert_eq!(
        lines,
        vec![
            "risingwave.pgserver.ip=127.0.0.1",
            "risingwave.pgserver.port=4567",
            "risingwave.leader.clustermode=Distributed",
            "",
            "risingwave.catalog.mode=Remote",
            "risingwave.meta.node=h1:5690,h2:5691",
        ]
    );
    assert!(text.ends_with('\n'));
}

fn generator(numbers: Vec<u64>) -> SqlGenerator {
    SqlGenerator {
        funcs: vec![
            FuncSign {
                func: ExprType::LessThan,
                inputs_type: vec![DataTypeName::Int32, DataTypeName::Int64],
                ret_type: DataTypeName::Boolean,
            },
            FuncSign {
                func: ExprType::Not,
                inputs_type: vec![DataTypeName::Boolean],
                ret_type: DataTypeName::Boolean,
            },
        ],
        draws: Draws {
            numbers,
            fractions: vec!["1.5".to_string(), "99.25".to_string()],
            now_secs: 1_650_000_000,
            now_nanos: 0,
        },
    }
}

fn number_of(e: &Expr) -> &str {
    match e {
        Expr::Constant(Constant::Number(n)) => n,
        other => panic!("expected a number, got {:?}", other),
    }
}

#[test]
fn drawn_expressions() {
    // a function, the first one; then a constant for each argument
    let (e, rest) = generator(vec![10, 0, 99, 107, 50, 42]).gen_expr(DataTypeName::Boolean, 0).unwrap();
    assert_eq!(rest, 6);
    match e {
        Expr::BinaryOp { left, op, right } => {
            assert_eq!(op, BinaryOperator::Lt);
            assert_eq!(number_of(&left), "7");
            assert_eq!(number_of(&right), "42");
        }
        other => panic!("expected an operator, got {:?}", other),
    }
    // the second function has one argument
    let (e, rest) = generator(vec![10, 1, 99, 1]).gen_expr(DataTypeName::Boolean, 0).unwrap();
    assert!(matches!(e, Expr::Constant(Constant::Null)));
    assert_eq!(rest, 4);
    // no function returns the type
    let (e, rest) = generator(vec![0]).gen_expr(DataTypeName::Date, 0).unwrap();
    assert!(matches!(e, Expr::Constant(Constant::Null)));
    assert_eq!(rest, 1);
    // too few numbers
    assert!(generator(vec![10, 0, 99]).gen_expr(DataTypeName::Boolean, 0).is_none());
    assert!(generator(vec![]).gen_expr(DataTypeName::Int16, 0).is_none());
}

#[test]
fn drawn_constants() {
    let g = generator(vec![0, 25, 26, 51, 52, 61, 62, 1, 2, 3, 4]);
    let (e, rest) = g.gen_simple_scalar(DataTypeName::Varchar, 0).unwrap();
    assert!(matches!(e, Expr::Constant(Constant::SingleQuotedString(s)) if s == "AZaz09ABCD"));
    assert_eq!(rest, 10);
    assert!(g.gen_simple_scalar(DataTypeName::Varchar, 2).is_none());
    let (e, _) = g.gen_simple_scalar(DataTypeName::Float64, 1).unwrap();
    assert_eq!(number_of(&e), "99.25");
    let (e, _) = g.gen_simple_scalar(DataTypeName::Boolean, 0).unwrap();
    assert!(matches!(e, Expr::Constant(Constant::Boolean(false))));
    let (e, rest) = g.gen_simple_scalar(DataTypeName::Struct, 0).unwrap();
    assert!(matches!(e, Expr::Constant(Constant::Null)));
    assert_eq!(rest, 0);
    let text = |t| match generator(vec![86_400]).gen_simple_scalar(t, 0).unwrap().0 {
        Expr::TypedString { data_type, value } => (data_type, value),
        other => panic!("expected a typed string, got {:?}", other),
    };
    assert_eq!(text(DataTypeName::Date), (TypedKind::Date, "2022-04-14".to_string()));
    assert_eq!(text(DataTypeName::Time), (TypedKind::Time, "05:20:00".to_string()));
    assert_eq!(
        text(DataTypeName::Timestampz),
        (TypedKind::Timestamp, "2022-04-14 05:20:00".to_string())
    );
    assert_eq!(text(DataTypeName::Interval), (TypedKind::Interval, "86400".to_string()));
}

#[test]
fn functions_without_an_operator_are_null() {
    assert!(matches!(
        make_bin_op(ExprType::Substr, sql_null(), sql_null()),
        Expr::Constant(Constant::Null)
    ));
    assert!(matches!(
        make_bin_op(ExprType::BitwiseXor, sql_null(), sql_null()),
        Expr::BinaryOp { op: BinaryOperator::PGBitwiseXor, .. }
    ));
}

#[test]
fn requests_and_what_they_can_get() {
    let leaf = |node| StreamNode { node, input: vec![] };
    let reads = || leaf(Operator::Source { table_ref_id: 0 });
    assert!(reads_one_source(&reads()));
    assert!(!reads_one_source(&leaf(Operator::Other(1))));
    let joined = StreamNode { node: Operator::Other(2), input: vec![reads(), leaf(Operator::Other(1)), reads()] };
    assert!(!reads_one_source(&joined));
    let one = StreamNode { node: Operator::Other(2), input: vec![leaf(Operator::Other(1)), reads()] };
    assert!(reads_one_source(&one));

    let (waiting, _) = drop_database(3);
    assert!(can_get(&waiting, &Event::Version(1)));
    assert!(!can_get(&waiting, &Event::Id(1)) && !can_get(&waiting, &Event::Done));
    assert!(can_get(&Waiting::SourceDropOnNodes(2), &Event::Done));
    assert!(can_get(&waiting, &Event::Failed(ErrorCode::InternalError("x".to_string()))));
}
