use streamdb::batch::executor2_wrapper::{Executor2Wrapper, WrapperState};
use streamdb::batch::update::{compact, new_boxed_executor2, UpdateExecutor, UpdateNode};
use streamdb::catalog::{ColumnDesc, DataType, Field, OrderPair, OrderType, Schema};
use streamdb::common::chunk::{DataChunk, Op, StreamChunk};
use streamdb::common::error::ErrorCode;
use streamdb::common::scalar::{Datum, ScalarImpl};
use streamdb::common::string_map::StringMap;
use streamdb::frontend::plan_node::node::JoinType;
use streamdb::source::manager::{
    HighLevelKafkaSourceConfig, MemSourceManager, SourceColumnDesc, SourceConfig, SourceFormat,
    SourceImpl, TableId,
};
use streamdb::stream::basic_table::gen_basic_table;
use streamdb::stream::executor::{Executor, ExecutorInfo, ExecutorState, StatefulExecutor};
use streamdb::stream::hash_join::{
    BuildError, ExecutorParams, HashJoinExecutorBuilder, HashJoinNode, InternalTable,
    JoinCachePolicy, NodeBody,
};
use streamdb::stream::materialize::{
    MViewWrite, MaterializeExecutor, MaterializeExecutorBuilder, MaterializeNode,
};
use streamdb::stream::merge::{forward_remote, Emitted, MergeExecutor, RemoteStep};
use streamdb::stream::message::{Barrier, Epoch, Message, Mutation};
use streamdb::stream::task::SharedContext;

fn ints(values: &[i32]) -> Vec<Datum> {
    values.iter().map(|v| Some(ScalarImpl::Int32(*v))).collect()
}

fn shown(row: &Vec<Datum>) -> Vec<String> {
    row.iter()
        .map(|d| match d {
            Some(v) => v.to_text(),
            None => "null".to_string(),
        })
        .collect()
}

fn chunk(ops: Vec<Op>, rows: Vec<Vec<Datum>>) -> StreamChunk<Datum> {
    StreamChunk { ops, data: DataChunk { rows, visibility: None } }
}

fn barrier(epoch: u64) -> Barrier {
    Barrier { epoch: Epoch { curr: epoch, prev: epoch - 1 }, mutation: None }
}

fn build_test_chunk(epoch: u64) -> StreamChunk<Datum> {
    // The number of items in `ops` is the epoch count.
    let n = epoch as usize;
    chunk(vec![Op::Insert; n], (0..n).map(|_| vec![]).collect())
}

#[test]
fn test_merger() {
    const CHANNEL_NUMBER: u64 = 10;
    let mut merger = MergeExecutor::new(Schema::new(vec![]), vec![], 0, (0..CHANNEL_NUMBER).collect());
    assert_eq!(merger.identity(), "MergeExecutor");

    let epochs: Vec<u64> = (10..1000u64).step_by(10).collect();
    for epoch in epochs {
        // expect n chunks
        for _ in 0..CHANNEL_NUMBER {
            match merger.receive(0, Message::Chunk(build_test_chunk(epoch))) {
                Emitted::One(Message::Chunk(c)) => assert_eq!(c.ops.len() as u64, epoch),
                other => panic!("expected a chunk, got {:?}", other),
            }
        }
        // expect a barrier, once it came from each channel
        for k in 0..CHANNEL_NUMBER {
            assert_eq!(merger.active().len() as u64, CHANNEL_NUMBER - k);
            match merger.receive(0, Message::Barrier(barrier(epoch))) {
                Emitted::Nothing => assert!(k + 1 < CHANNEL_NUMBER),
                Emitted::One(Message::Barrier(b)) => {
                    assert_eq!(k + 1, CHANNEL_NUMBER);
                    assert_eq!(b.epoch.curr, epoch);
                }
                other => panic!("expected a barrier, got {:?}", other),
            }
        }
        let mut all = merger.active().clone();
        all.sort();
        assert_eq!(all, (0..CHANNEL_NUMBER).collect::<Vec<u64>>());
    }
    for k in 0..CHANNEL_NUMBER {
        let stop = Barrier { mutation: Some(Mutation::Stop(vec![])), ..barrier(1000) };
        match merger.receive(0, Message::Barrier(stop)) {
            Emitted::Nothing => assert!(k + 1 < CHANNEL_NUMBER),
            Emitted::One(Message::Barrier(b)) => {
                assert_eq!(k + 1, CHANNEL_NUMBER);
                assert!(matches!(b.mutation, Some(Mutation::Stop(_))));
            }
            other => panic!("expected a barrier, got {:?}", other),
        }
    }
}

#[test]
fn a_stopped_merger_sends_its_last_barrier() {
    let mut merger = MergeExecutor::new(Schema::new(vec![]), vec![], 5, vec![7, 8]);
    let stop = || Barrier { mutation: Some(Mutation::Stop(vec![4, 5])), ..barrier(3) };
    assert!(matches!(merger.receive(1, Message::Barrier(stop())), Emitted::Nothing));
    assert_eq!(merger.active(), &vec![7]);
    assert!(matches!(merger.receive(0, Message::Barrier(stop())), Emitted::Last(b) if b.epoch.curr == 3));
}

#[test]
fn remote_messages_go_on_until_an_error() {
    assert!(matches!(
        forward_remote(Ok(Ok(Message::Barrier(barrier(2))))),
        RemoteStep::Forward(Message::Barrier(b)) if b.epoch.curr == 2
    ));
    assert!(matches!(forward_remote(Ok(Err("bad".to_string()))), RemoteStep::Stop));
    assert!(matches!(forward_remote(Err("gone".to_string())), RemoteStep::Stop));
}

struct Waiter {
    info: ExecutorInfo,
    state: ExecutorState,
}

impl Executor for Waiter {
    fn info_of(&self) -> ExecutorInfo {
        unreachable!()
    }
    fn schema(&self) -> &Schema {
        &self.info.schema
    }
    fn pk_indices(&self) -> &Vec<usize> {
        &self.info.pk_indices
    }
    fn identity(&self) -> &String {
        &self.info.identity
    }
}

impl StatefulExecutor for Waiter {
    fn state_of(&self) -> ExecutorState {
        unreachable!()
    }
    fn executor_state(&self) -> &ExecutorState {
        &self.state
    }
    fn update_executor_state(&mut self, new_state: ExecutorState) {
        self.state = new_state;
    }
}

#[test]
fn the_first_barrier_starts_an_executor() {
    let mut w = Waiter {
        info: ExecutorInfo { schema: Schema::new(vec![]), pk_indices: vec![2], identity: "w".to_string() },
        state: ExecutorState::Init,
    };
    assert_eq!(w.info().pk_indices, vec![2]);
    let started = w.try_init_executor(Some(&barrier(9)));
    assert_eq!(started.unwrap().epoch.curr, 9);
    assert_eq!(w.state, ExecutorState::Active(9));
    assert!(w.try_init_executor(Some(&barrier(10))).is_none());
    assert!(w.try_init_executor(None).is_none());
    assert_eq!(w.state, ExecutorState::Active(9));
}

fn order(column_idx: usize, order_type: OrderType) -> OrderPair {
    OrderPair { column_idx, order_type }
}

fn put_of(write: &MViewWrite) -> (Vec<String>, Option<Vec<String>>) {
    match write {
        MViewWrite::Put(key, row) => (shown(key), Some(shown(row))),
        MViewWrite::Delete(key) => (shown(key), None),
    }
}

#[test]
fn test_materialize_executor() {
    // Two columns of int32 type, the first column is PK.
    let mut executor = MaterializeExecutor::new(
        7,
        vec![order(0, OrderType::Ascending)],
        vec![0, 1],
        1,
        "MaterializeExecutor".to_string(),
    );
    assert_eq!(executor.identity(), "GroupMaterializeExecutor 1");
    assert_eq!(executor.logical_operator_info(), "MaterializeExecutor");
    assert_eq!(executor.pk_indices(), &vec![0]);

    let chunk1 = chunk(vec![Op::Insert; 3], vec![ints(&[1, 4]), ints(&[2, 5]), ints(&[3, 6])]);
    let chunk2 = chunk(vec![Op::Insert, Op::Delete], vec![ints(&[7, 8]), ints(&[3, 6])]);

    assert!(matches!(executor.consume_chunk(chunk1), Message::Chunk(c) if c.ops.len() == 3));
    // First stream chunk. We check the existence of (3) -> (3,6)
    let (epoch, writes, message) = executor.flush(barrier(5));
    assert_eq!(epoch, 4);
    assert!(matches!(message, Message::Barrier(_)));
    assert_eq!(writes.len(), 3);
    assert_eq!(
        put_of(&writes[2]),
        (vec!["3".to_string()], Some(vec!["3".to_string(), "6".to_string()]))
    );

    executor.consume_chunk(chunk2);
    // Second stream chunk. We check the existence of (7) -> (7,8)
    let (_, writes, _) = executor.flush(barrier(6));
    assert_eq!(writes.len(), 2);
    assert_eq!(
        put_of(&writes[0]),
        (vec!["7".to_string()], Some(vec!["7".to_string(), "8".to_string()]))
    );
    assert_eq!(put_of(&writes[1]), (vec!["3".to_string()], None));
    assert_eq!(executor.flush(barrier(7)).1.len(), 0);
}

#[test]
fn group_columns_come_first_and_hidden_rows_do_not_count() {
    let mut executor = MaterializeExecutor::new_grouped(
        7,
        vec![order(1, OrderType::Ascending)],
        vec![order(0, OrderType::Descending)],
        vec![0, 1],
        0x2A,
        String::new(),
    );
    assert_eq!(executor.identity(), "GroupMaterializeExecutor 2A");
    let mut c = chunk(
        vec![Op::UpdateDelete, Op::UpdateInsert],
        vec![ints(&[1, 4]), ints(&[1, 5])],
    );
    c.data.visibility = Some(vec![false, true]);
    executor.consume_chunk(c);
    let (_, writes, _) = executor.flush(barrier(2));
    assert_eq!(writes.len(), 1);
    assert_eq!(put_of(&writes[0]).0, vec!["5".to_string(), "1".to_string()]);
    executor.consume_chunk(chunk(vec![Op::Insert], vec![ints(&[9, 9])]));
    executor.reset();
    assert_eq!(executor.flush(barrier(3)).1.len(), 0);
    let built = MaterializeExecutorBuilder::new_boxed_executor(
        MaterializeNode {
            table_id: 9,
            column_orders: vec![order(1, OrderType::Ascending), order(0, OrderType::Ascending)],
            column_ids: vec![3, 4],
        },
        255,
        "op".to_string(),
    );
    assert_eq!(built.identity(), "GroupMaterializeExecutor FF");
    assert_eq!(built.pk_indices(), &vec![1, 0]);
    assert_eq!((executor.table_id(), built.table_id()), (7, 9));
}

#[test]
fn ends_of_a_channel_are_taken_once() {
    let mut ctx: SharedContext<&str, &str> = SharedContext::new("127.0.0.1:2333".to_string());
    assert_eq!(ctx.addr(), "127.0.0.1:2333");
    ctx.add_channel_pairs((1, 2), (Some("tx"), Some("rx")));
    ctx.add_channel_pairs((2, 1), (Some("tx2"), None));
    assert_eq!(ctx.get_channel_pair_number(), 2);
    assert_eq!(ctx.take_sender(&(1, 2)), Ok("tx"));
    assert_eq!(
        ctx.take_sender(&(1, 2)),
        Err(ErrorCode::InternalError("sender from 1 to 2 does no exist".to_string()))
    );
    assert_eq!(ctx.take_receiver(&(1, 2)), Ok("rx"));
    assert_eq!(
        ctx.take_receiver(&(2, 1)),
        Err(ErrorCode::InternalError("receiver from 2 to 1 does no exist".to_string()))
    );
    assert_eq!(
        ctx.take_receiver(&(3, 4)),
        Err(ErrorCode::InternalError("channel between 3 and 4 does not exist".to_string()))
    );
    let mut asked = vec![];
    ctx.retain(|ids| {
        asked.push(*ids);
        ids.0 != 1
    });
    asked.sort();
    assert_eq!(asked, vec![(1, 2), (2, 1)]);
    assert_eq!(ctx.get_channel_pair_number(), 1);
    assert!(ctx.take_sender(&(1, 2)).is_err());
    assert_eq!(ctx.take_sender(&(2, 1)), Ok("tx2"));
    assert_eq!(ctx.register_finish_create_mview_notifier(6).actor_id, 6);
}

#[test]
fn basic_table() {
    let (table, rows) = gen_basic_table(vec![1, 2], 3);
    assert_eq!(table.column_ids, vec![0, 1, 2]);
    assert_eq!(table.pk_order, Some(vec![OrderType::Ascending, OrderType::Descending]));
    assert_eq!(rows.len(), 3);
    assert_eq!(shown(&rows[2]), vec!["2", "2", "2"]);
}

fn join_node() -> HashJoinNode<&'static str> {
    HashJoinNode {
        join_type: Some(JoinType::LeftOuter),
        left_key: vec![1],
        right_key: vec![0],
        condition: Some(Ok("cond")),
        left_table: Some(InternalTable { id: 1, distribution_key: vec![1] }),
        right_table: Some(InternalTable { id: 2, distribution_key: vec![0] }),
        is_append_only: true,
        output_indices: vec![2, 0],
        cache_policy: JoinCachePolicy::Lru,
    }
}

fn join_params() -> ExecutorParams<&'static str> {
    let schema = || {
        Schema::new(vec![
            Field::unnamed(DataType::Int64),
            Field::unnamed(DataType::Varchar),
        ])
    };
    ExecutorParams {
        pk_indices: vec![0],
        executor_id: 11,
        op_info: "join".to_string(),
        input: vec![("left", schema()), ("right", schema())],
        actor_id: 3,
        vnode_bitmap: vec![255],
    }
}

#[test]
fn hash_join_is_built_from_its_node() {
    let args = HashJoinExecutorBuilder::new_boxed_executor(join_params(), NodeBody::HashJoin(join_node())).unwrap();
    assert_eq!(args.join_type, JoinType::LeftOuter);
    assert_eq!((args.source_l, args.source_r), ("left", "right"));
    assert_eq!(args.params_l.key_indices, vec![1]);
    assert_eq!(args.params_r.dist_keys, vec![0]);
    assert_eq!(args.output_indices, vec![2, 0]);
    assert_eq!(args.cond, Some("cond"));
    assert_eq!(format!("{:?}", args.key_types), "[Varchar]");
    assert_eq!((args.executor_id, args.actor_id), (11, 3));
    assert!(args.is_append_only);

    let built = |node| HashJoinExecutorBuilder::new_boxed_executor(join_params(), node);
    assert!(matches!(built(NodeBody::Other), Err(BuildError::WrongNode)));
    let node = HashJoinNode { left_table: None, ..join_node() };
    assert!(matches!(built(NodeBody::HashJoin(node)), Err(BuildError::MissingLeftTable)));
    let node = HashJoinNode { right_table: None, ..join_node() };
    assert!(matches!(built(NodeBody::HashJoin(node)), Err(BuildError::MissingRightTable)));
    let node = HashJoinNode { join_type: None, ..join_node() };
    assert!(matches!(built(NodeBody::HashJoin(node)), Err(BuildError::MissingJoinType)));
    let bad = ErrorCode::InternalError("bad expr".to_string());
    let node = HashJoinNode { condition: Some(Err(bad)), ..join_node() };
    assert!(matches!(built(NodeBody::HashJoin(node)), Err(BuildError::Condition(_))));
    let node = HashJoinNode { left_table: None, left_key: vec![9], ..join_node() };
    assert!(matches!(built(NodeBody::HashJoin(node)), Err(BuildError::MissingLeftTable)));
    let no_input = ExecutorParams { input: vec![], ..join_params() };
    let other: NodeBody<&'static str> = NodeBody::Other;
    assert!(matches!(
        HashJoinExecutorBuilder::new_boxed_executor(no_input, other),
        Err(BuildError::WrongNode)
    ));
    let node = HashJoinNode { condition: None, ..join_node() };
    assert_eq!(built(NodeBody::HashJoin(node)).unwrap().cond, None);
}

#[test]
fn a_wrapped_executor_opens_once() {
    let mut w: Executor2Wrapper<u32, String> =
        Executor2Wrapper::from_executor(5, Schema::new(vec![]), "exec".to_string());
    assert_eq!(w.identity(), "exec");
    assert_eq!(w.schema().len(), 0);
    let not_open = ErrorCode::InternalError("Executor not in open state!".to_string());
    assert_eq!(w.next::<u8>(None), Err(not_open));
    w.open(|e| format!("stream of {}", e)).unwrap();
    assert!(w.is_open());
    assert!(matches!(&w.state, WrapperState::Opened { stream } if stream == "stream of 5"));
    assert_eq!(w.next(Some(Ok(1u8))), Ok(Some(1)));
    assert_eq!(w.next::<u8>(None), Ok(None));
    let e = || ErrorCode::InternalError("x".to_string());
    assert_eq!(w.next::<u8>(Some(Err(e()))), Err(e()));
    let opened = ErrorCode::InternalError("Executor already opened!".to_string());
    assert_eq!(w.open(|e| format!("{}", e)), Err(opened));
    assert!(!w.is_open());
    w.close().unwrap();
    assert!(matches!(w.state, WrapperState::Closed));
}

#[test]
fn updates_come_in_pairs() {
    let schema = Schema::new(vec![Field::unnamed(DataType::Int32), Field::unnamed(DataType::Int32)]);
    let types = vec![DataType::Int32, DataType::Int32];
    let node = UpdateNode::Update { table_id: 4, expr_types: Ok(types) };
    let executor = new_boxed_executor2(node, Some(Ok(schema))).unwrap();
    assert_eq!(executor.table_id, 4);
    assert_eq!(executor.identity(), "UpdateExecutor");
    assert_eq!(executor.schema().len(), 1);
    let data = compact(&DataChunk {
        rows: vec![ints(&[1, 2]), ints(&[9, 9]), ints(&[3, 4])],
        visibility: Some(vec![true, false, true]),
    });
    assert_eq!(data.rows.len(), 2);
    let changes = executor
        .update_chunk(data, Ok(vec![ints(&[1, 3]), ints(&[20, 40])]))
        .unwrap();
    assert_eq!(
        changes.ops,
        vec![Op::UpdateDelete, Op::UpdateInsert, Op::UpdateDelete, Op::UpdateInsert]
    );
    let rows: Vec<Vec<String>> = changes.data.rows.iter().map(shown).collect();
    assert_eq!(rows, vec![vec!["1", "2"], vec!["1", "20"], vec!["3", "4"], vec!["3", "40"]]);
    let result = executor.finish(vec![Ok(4), Ok(2)]).unwrap();
    assert_eq!(shown(&result.rows[0]), vec!["3"]);
    assert_eq!(
        executor.finish(vec![Ok(4), Err(())]).unwrap_err(),
        ErrorCode::InternalError("failed to wait chunks to be written".to_string())
    );
}

#[test]
fn update_errors() {
    let e = || ErrorCode::InternalError("eval".to_string());
    let executor = UpdateExecutor::new(1, Schema::new(vec![]));
    let empty = DataChunk { rows: vec![], visibility: None };
    assert_eq!(executor.update_chunk(empty, Err(e())).unwrap_err(), e());
    let update = |expr_types| UpdateNode::Update { table_id: 1, expr_types };
    assert_eq!(
        new_boxed_executor2(update(Ok(vec![])), None).unwrap_err(),
        ErrorCode::InternalError("Child interpreting error".to_string())
    );
    assert_eq!(new_boxed_executor2(update(Err(e())), None).unwrap_err(), e());
    assert_eq!(new_boxed_executor2(update(Ok(vec![])), Some(Err(e()))).unwrap_err(), e());
    assert!(new_boxed_executor2(UpdateNode::Other, None).is_err());
}

fn kafka_config() -> SourceConfig<u8> {
    SourceConfig::Kafka(HighLevelKafkaSourceConfig {
        bootstrap_servers: vec!["kafka.bootstrap.servers".to_string()],
        topic: "kafka.topic".to_string(),
        properties: StringMap::new(),
    })
}

#[test]
fn test_source() {
    // init
    let table_id = TableId { table_id: 0 };
    let columns = vec![ColumnDesc::unnamed(0, DataType::Int64)];
    let source_columns = columns
        .iter()
        .map(|c| SourceColumnDesc {
            name: "123".to_string(),
            data_type: c.data_type.copy(),
            column_id: c.column_id,
            skip_parse: false,
        })
        .collect();

    // create source
    let mut mem_source_manager: MemSourceManager<&str, u8> = MemSourceManager::new();
    let new_source = mem_source_manager.create_source(
        &table_id,
        SourceFormat::Json,
        "parser",
        kafka_config(),
        source_columns,
        Some(0),
    );
    assert!(new_source.is_ok());

    // get source
    let get_source_res = mem_source_manager.get_source(&table_id).unwrap();
    assert_eq!(get_source_res.columns[0].name, "123");

    // drop source
    let drop_source_res = mem_source_manager.drop_source(&table_id);
    assert!(drop_source_res.is_ok());

    let get_source_res = mem_source_manager.get_source(&table_id);
    assert!(get_source_res.is_err());
}

#[test]
fn test_table_source_v2() {
    let table_id = TableId { table_id: 0 };
    let table_columns = vec![
        ColumnDesc::unnamed(0, DataType::Decimal),
        ColumnDesc::unnamed(1, DataType::Decimal),
    ];

    let mut mem_source_manager: MemSourceManager<&str, u8> = MemSourceManager::default();
    let res = mem_source_manager.create_table_source_v2(&table_id, table_columns);
    assert!(res.is_ok());

    // get source
    let get_source_res = mem_source_manager.get_source(&table_id);
    assert!(get_source_res.is_ok());
    let desc = get_source_res.unwrap();
    assert_eq!(desc.row_id_index, Some(0));
    assert_eq!(desc.format, SourceFormat::Invalid);
    assert_eq!(desc.columns.len(), 2);
    assert!(matches!(&*desc.source, SourceImpl::TableV2 { descs } if descs.len() == 2));

    // drop source
    let drop_source_res = mem_source_manager.drop_source(&table_id);
    assert!(drop_source_res.is_ok());
    let get_source_res = mem_source_manager.get_source(&table_id);
    assert!(get_source_res.is_err());
}

#[test]
fn source_errors() {
    let id = TableId { table_id: 7 };
    let mut m: MemSourceManager<&str, u8> = MemSourceManager::new();
    let internal = |s: &str| Err(ErrorCode::InternalError(s.to_string()));
    assert_eq!(m.drop_source(&id), internal("Source does not exist: TableId { table_id: 7 }"));
    let failed = SourceConfig::Connector(Err("refused".to_string()));
    assert_eq!(
        m.create_source(&id, SourceFormat::Json, "p", failed, vec![], None),
        internal("refused")
    );
    let connected = SourceConfig::Connector(Ok(3));
    m.create_source(&id, SourceFormat::Avro, "p", connected, vec![], None).unwrap();
    assert!(matches!(
        &*m.get_source(&id).unwrap().source,
        SourceImpl::Connector { reader: 3, .. }
    ));
    assert_eq!(
        m.create_table_source_v2(&id, vec![]),
        internal("Source id already exists: TableId { table_id: 7 }")
    );
    assert_eq!(
        m.create_source(&id, SourceFormat::Json, "p", kafka_config(), vec![], None),
        internal("Source id already exists: TableId { table_id: 7 }")
    );
    m.clear_sources().unwrap();
    assert_eq!(
        m.get_source(&id).unwrap_err(),
        ErrorCode::InternalError("Get source table id not exists: TableId { table_id: 7 }".to_string())
    );
}

#[test]
fn barriers_of_an_epoch_are_the_same() {
    let stop = |actors: Vec<u32>| Barrier { mutation: Some(Mutation::Stop(actors)), ..barrier(3) };
    assert!(stop(vec![4, 5]).same(&stop(vec![5, 4, 4])));
    assert!(!stop(vec![4, 5]).same(&stop(vec![4])));
    assert!(!stop(vec![4]).same(&stop(vec![4, 5])));
    assert!(!barrier(3).same(&barrier(4)));
    assert!(barrier(3).same(&barrier(3)));
    assert!(!barrier(3).same(&stop(vec![])));
    let other = |n| Barrier { mutation: Some(Mutation::Other(n)), ..barrier(3) };
    assert!(other(1).same(&other(1)) && !other(1).same(&other(2)));

    let mut merge = MergeExecutor::new(Schema::new(vec![]), vec![], 9, vec![1, 2]);
    assert!(merge.accepts(&Message::Barrier(barrier(3))));
    assert!(matches!(merge.receive(0, Message::Barrier(barrier(3))), Emitted::Nothing));
    assert!(merge.accepts(&Message::Barrier(barrier(3))));
    assert!(!merge.accepts(&Message::Barrier(barrier(4))));
}
