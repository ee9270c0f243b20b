use std::sync::Arc;

use streamdb::catalog::{ColumnDesc, DataType, Schema};
use streamdb::common::error::ErrorCode;
use streamdb::common::string_map::StringMap;
use streamdb::frontend::binder::{AstExpr, BindContext, Binder, Clause, ColumnBinding, Ident, QuoteStyle, SelectItem};
use streamdb::frontend::delete::{bind_delete, BoundBaseTable, BoundTableSource};
use streamdb::frontend::expr::{ExprImpl, ExprType, InputRef, Literal, LiteralValue, Signature};
use streamdb::frontend::operators::{bind_binary_op, operator_text, BinaryOperator};
use streamdb::frontend::plan_node::base::QueryContext;
use streamdb::frontend::plan_node::logical_project::name_column;
use streamdb::frontend::plan_node::node::{LogicalInsert, LogicalScan, LogicalValues, PlanNode};
use streamdb::frontend::select::{check_valid_column_name, is_row_id_column_name, Select};

fn column(name: &str, id: i32, data_type: DataType, within: Vec<ColumnDesc>) -> ColumnDesc {
    ColumnDesc {
        data_type,
        column_id: id,
        name: name.to_string(),
        field_descs: Arc::new(within),
        struct_type_name: String::new(),
    }
}

fn address() -> ColumnDesc {
    column(
        "address",
        2,
        DataType::Struct { fields: Arc::new(vec![DataType::Varchar, DataType::Int32]) },
        vec![
            column("city", 3, DataType::Varchar, vec![]),
            column("zip", 4, DataType::Int32, vec![]),
        ],
    )
}

/// Table `t` has the columns `_row_id` (hidden), `v` and `address`; table `u` has `v`.
fn binder() -> Binder {
    let binding = |table: &str, index, is_hidden, desc| ColumnBinding {
        table_name: table.to_string(),
        index,
        is_hidden,
        desc,
    };
    let mut indexs_of: StringMap<Vec<usize>> = StringMap::new();
    indexs_of.insert("_row_id".to_string(), vec![0]);
    indexs_of.insert("v".to_string(), vec![1, 3]);
    indexs_of.insert("address".to_string(), vec![2]);
    let mut range_of: StringMap<(usize, usize)> = StringMap::new();
    range_of.insert("t".to_string(), (0, 3));
    range_of.insert("u".to_string(), (3, 4));
    Binder {
        context: BindContext {
            columns: vec![
                binding("t", 0, true, column("_row_id", 0, DataType::Int64, vec![])),
                binding("t", 1, false, column("v", 1, DataType::Int32, vec![])),
                binding("t", 2, false, address()),
                binding("u", 3, false, column("v", 5, DataType::Varchar, vec![])),
            ],
            indexs_of,
            range_of,
        },
        clause: None,
    }
}

fn ident(s: &str) -> Ident {
    Ident { value: s.to_string(), quote_style: QuoteStyle::Bare }
}

fn idents(names: &[&str]) -> Vec<Ident> {
    names.iter().map(|n| ident(n)).collect()
}

fn input(index: usize, t: DataType) -> ExprImpl {
    ExprImpl::InputRef(InputRef::new(index, t))
}

fn error(r: Result<impl std::fmt::Debug, ErrorCode>) -> ErrorCode {
    r.unwrap_err()
}

#[test]
fn names_of_columns() {
    let b = binder();
    let find = |table, name| b.context.get_column_binding_index(table, name);
    assert_eq!(find(None, "address"), Ok(2));
    assert_eq!(find(Some("u"), "v"), Ok(3));
    assert_eq!(
        error(find(None, "v")),
        ErrorCode::InternalError("Ambiguous column name".to_string())
    );
    assert_eq!(
        error(find(None, "w")),
        ErrorCode::ItemNotFound("Invalid column: w".to_string())
    );
    assert_eq!(
        error(find(Some("x"), "v")),
        ErrorCode::ItemNotFound("missing FROM-clause entry for table \"x\"".to_string())
    );
}

#[test]
fn fields_of_a_column() {
    let (desc, position) = address().field("zip").unwrap();
    assert_eq!((desc.column_id, position), (4, 1));
    assert!(address().field("street").is_err());
    let b = binder();
    let (e, name) = b
        .bind_single_field_column(&AstExpr::Identifier(ident("address")), &idents(&["zip"]))
        .unwrap();
    assert_eq!(name, Some("zip".to_string()));
    match &e {
        ExprImpl::FunctionCall(call) => {
            assert_eq!(call.func_type, ExprType::Field);
            assert!(matches!(&call.inputs[0], ExprImpl::InputRef(r) if r.index == 2));
            assert!(call.return_type.same(&DataType::Int32));
        }
        other => panic!("expected a field, got {:?}", other),
    }
    let (all, names) = b
        .bind_wildcard_field_column(&AstExpr::Identifier(ident("address")), &vec![])
        .unwrap();
    assert_eq!(all.len(), 2);
    assert_eq!(names, vec![Some("city".to_string()), Some("zip".to_string())]);
}

#[test]
fn items_of_a_select() {
    let b = binder();
    let items = vec![
        SelectItem::Wildcard,
        SelectItem::QualifiedWildcard(idents(&["u"])),
        SelectItem::UnnamedExpr(
            AstExpr::CompoundIdentifier(idents(&["t", "v"])),
            Ok(input(1, DataType::Int32)),
        ),
        SelectItem::ExprWithAlias { bound: Ok(input(3, DataType::Varchar)), alias: ident("w") },
        SelectItem::UnnamedExpr(AstExpr::Other, Ok(input(1, DataType::Int32))),
    ];
    let (exprs, names) = b.bind_project(&items).unwrap();
    assert_eq!(exprs.len(), 7);
    let names: Vec<Option<&str>> = names.iter().map(|n| n.as_deref()).collect();
    assert_eq!(
        names,
        vec![Some("v"), Some("address"), Some("v"), Some("v"), Some("v"), Some("w"), None]
    );
    let missing = vec![SelectItem::QualifiedWildcard(idents(&["x"]))];
    assert_eq!(
        error(b.bind_project(&missing)),
        ErrorCode::ItemNotFound("relation \"x\"".to_string())
    );
    let reserved = vec![SelectItem::ExprWithAlias {
        bound: Ok(input(1, DataType::Int32)),
        alias: ident("_row_id_2"),
    }];
    assert!(b.bind_project(&reserved).is_err());
    assert!(is_row_id_column_name("_row_id"));
    assert!(!is_row_id_column_name("row_id"));
    assert!(check_valid_column_name("v").is_ok());
}

fn select(selection: Option<Result<ExprImpl, ErrorCode>>) -> Select {
    Select {
        distinct: true,
        from: Ok(Some(1)),
        selection,
        group_by: vec![Ok(input(1, DataType::Int32))],
        projection: vec![SelectItem::QualifiedWildcard(idents(&["t"]))],
    }
}

#[test]
fn a_whole_select() {
    let mut b = binder();
    let bound = b.bind_select(select(Some(Ok(input(1, DataType::Boolean))))).unwrap();
    assert!(bound.distinct);
    assert_eq!(bound.select_items.len(), 3);
    assert_eq!(bound.names(), vec!["_row_id", "v", "address"]);
    assert_eq!(format!("{:?}", bound.data_types()[1]), "Int32");
    assert_eq!(bound.schema.len(), 3);
    assert_eq!(bound.schema.fields[2].sub_fields.len(), 2);
    assert!(!bound.is_correlated());
    assert!(b.bind_select(select(Some(Ok(input(1, DataType::Int32))))).is_err());
    let e = || ErrorCode::BindError("bad".to_string());
    assert_eq!(b.clause, None);
    assert_eq!(error(b.bind_select(select(Some(Err(e()))))), e());
    assert_eq!(b.clause, Some(Clause::Where));
    let outer = ExprImpl::CorrelatedInputRef { index: 0, depth: 1, data_type: DataType::Boolean };
    assert!(b.bind_select(select(Some(Ok(outer)))).unwrap().is_correlated());
}

fn add_ints() -> Vec<Signature> {
    vec![Signature {
        func_type: ExprType::Add,
        inputs: vec![DataType::Int32, DataType::Int32],
        return_type: DataType::Int64,
    }]
}

#[test]
fn operators_between_expressions() {
    let int = || Ok(input(0, DataType::Int32));
    let call = bind_binary_op(int(), BinaryOperator::Plus, int(), &add_ints()).unwrap();
    assert_eq!(call.func_type, ExprType::Add);
    assert!(call.return_type.same(&DataType::Int64));
    assert_eq!(
        error(bind_binary_op(int(), BinaryOperator::Minus, Ok(input(1, DataType::Varchar)), &add_ints())),
        ErrorCode::NotImplementedError("Int32 Minus Varchar".to_string())
    );
    assert_eq!(
        error(bind_binary_op(int(), BinaryOperator::Xor, int(), &add_ints())),
        ErrorCode::NotImplementedError("Xor".to_string())
    );
    let e = || ErrorCode::BindError("left".to_string());
    assert_eq!(error(bind_binary_op(Err(e()), BinaryOperator::Plus, int(), &add_ints())), e());
    assert_eq!(operator_text(BinaryOperator::GtEq), "GtEq");
}

#[test]
fn deletes() {
    let source = || BoundTableSource { name: "t".to_string(), source_id: 1, columns: vec![] };
    let table = || BoundBaseTable { name: "t".to_string(), table_id: 2, columns: vec![] };
    let bound = bind_delete(Ok(source()), Ok(table()), Some(Ok(input(0, DataType::Boolean)))).unwrap();
    assert_eq!((bound.table_source.source_id, bound.table.table_id), (1, 2));
    assert!(bound.selection.is_some());
    assert!(bind_delete(Ok(source()), Ok(table()), None).unwrap().selection.is_none());
    let e = |s: &str| ErrorCode::CatalogError(s.to_string());
    assert_eq!(
        error(bind_delete(Err(e("first")), Err(e("second")), None)),
        e("first")
    );
}

#[test]
fn names_of_unnamed_columns() {
    assert_eq!(name_column(&Some("a".to_string()), "agg#", 3), "a");
    assert_eq!(name_column(&None, "agg#", 3), "agg#3");
}

#[test]
fn scans_values_and_inserts() {
    let mut ctx = QueryContext::new(false, false);
    let schema = Schema::new(vec![address().to_field()]);
    let scan = LogicalScan::new("t".to_string(), 5, vec![2], schema, &mut ctx);
    assert_eq!(scan.column_names(), vec!["address"]);
    assert_eq!((scan.table_name(), scan.table_id()), ("t", 5));
    let plan = Arc::new(PlanNode::LogicalScan(scan));
    let null = Literal { data: LiteralValue::Null, data_type: DataType::Int32 };
    let values = LogicalValues::new(
        vec![vec![ExprImpl::Literal(null)]],
        Schema::new(vec![address().to_field()]),
        &mut ctx,
    );
    assert_eq!(values.rows().len(), 1);
    let insert = LogicalInsert::new(plan, 5, vec![2], &mut ctx);
    assert_eq!(insert.columns, vec![2]);
}
