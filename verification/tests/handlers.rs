use std::sync::Arc;

use bytes::Bytes;
use streamdb::catalog::{ColumnDesc, DataType, Field, OrderType};
use streamdb::common::chunk::DataChunk;
use streamdb::common::error::ErrorCode;
use streamdb::common::scalar::{Datum, FloatClass, FloatValue, ScalarImpl};
use streamdb::common::string_map::StringMap;
use streamdb::frontend::catalog_service;
use streamdb::frontend::column_catalog::ColumnCatalog;
use streamdb::frontend::handler::create_source::create_source_table;
use streamdb::frontend::handler::create_table::{
    handle_create_table, table_columns, ColumnDef, TablePlace, ROWID_NAME,
};
use streamdb::frontend::handler::text_util;
use streamdb::frontend::handler::util::{
    col_descs_to_rows, data_type_to_type_oid, force_local_mode, handle_with_properties,
    pg_value_format, to_pg_field, to_pg_rows, BoundSetExpr, BoundStatement, Relation, SqlOption,
    SqlValue, TypeOid,
};

fn f32_of(v: f32) -> FloatValue {
    let class = if v.is_nan() {
        FloatClass::NotANumber
    } else if v == f32::INFINITY {
        FloatClass::PositiveInfinity
    } else if v == f32::NEG_INFINITY {
        FloatClass::NegativeInfinity
    } else {
        FloatClass::Finite
    };
    FloatValue { class, digits: v.to_string(), json: format!("{:?}", v as f64) }
}

fn test_chunk() -> DataChunk<Datum> {
    let row = |i: i32, rest: Option<(i64, f32, &str)>| -> Vec<Datum> {
        match rest {
            Some((a, b, c)) => vec![
                Some(ScalarImpl::Int32(i)),
                Some(ScalarImpl::Int64(a)),
                Some(ScalarImpl::Float32(f32_of(b))),
                Some(ScalarImpl::Utf8(c.to_string())),
            ],
            None => vec![Some(ScalarImpl::Int32(i)), None, None, None],
        }
    };
    DataChunk {
        rows: vec![
            row(1, Some((6, 6.01, "aaa"))),
            row(2, None),
            row(3, Some((7, 7.01, "vvv"))),
            row(4, None),
        ],
        visibility: None,
    }
}

#[test]
fn test_to_pg_field() {
    let field = Field::with_name(DataType::Int32, "v1".to_string());
    let pg_field = to_pg_field(&field);
    assert_eq!(pg_field.name, "v1");
    assert_eq!(pg_field.type_oid.as_number(), TypeOid::Int.as_number());
}

/// Stands for a binary encoding.
fn binary(d: &ScalarImpl) -> Bytes {
    format!("binary {:?}", d).into()
}

#[test]
fn test_to_pg_rows() {
    let rows = to_pg_rows(&test_chunk(), false, binary);
    let expected: Vec<Vec<Option<Bytes>>> = vec![
        vec![
            Some("1".into()),
            Some("6".into()),
            Some("6.01".into()),
            Some("aaa".into()),
        ],
        vec![Some("2".into()), None, None, None],
        vec![
            Some("3".into()),
            Some("7".into()),
            Some("7.01".into()),
            Some("vvv".into()),
        ],
        vec![Some("4".into()), None, None, None],
    ];
    let vec: Vec<Vec<Option<Bytes>>> = rows.into_iter().map(|r| r.values).collect();
    assert_eq!(vec, expected);
}

#[test]
fn test_value_format() {
    let f = |d: ScalarImpl| pg_value_format(&d, false, &binary);
    assert_eq!(&f(ScalarImpl::Float32(f32_of(1_f32))), "1");
    assert_eq!(&f(ScalarImpl::Float32(f32_of(f32::NAN))), "NaN");
    assert_eq!(&f(ScalarImpl::Float64(f32_of(f32::NAN))), "NaN");
    assert_eq!(&f(ScalarImpl::Float32(f32_of(f32::INFINITY))), "Infinity");
    assert_eq!(&f(ScalarImpl::Float32(f32_of(f32::NEG_INFINITY))), "-Infinity");
    assert_eq!(&f(ScalarImpl::Float64(f32_of(f32::INFINITY))), "Infinity");
    assert_eq!(&f(ScalarImpl::Float64(f32_of(f32::NEG_INFINITY))), "-Infinity");
    assert_eq!(&f(ScalarImpl::Bool(true)), "t");
    assert_eq!(&f(ScalarImpl::Bool(false)), "f");
}

#[test]
fn util_test_to_pg_field() {
    let field = Field::with_name(DataType::Int32, "v1".to_string());
    let pg_field = text_util::to_pg_field(&field);
    assert_eq!(pg_field.name, "v1");
    assert_eq!(pg_field.type_oid.as_number(), TypeOid::Int.as_number());
}

#[test]
fn util_test_to_pg_rows() {
    let rows = text_util::to_pg_rows(&test_chunk());
    let expected = vec![
        vec![
            Some("1".to_string()),
            Some("6".to_string()),
            Some("6.01".to_string()),
            Some("aaa".to_string()),
        ],
        vec![Some("2".to_string()), None, None, None],
        vec![
            Some("3".to_string()),
            Some("7".to_string()),
            Some("7.01".to_string()),
            Some("vvv".to_string()),
        ],
        vec![Some("4".to_string()), None, None, None],
    ];
    assert_eq!(rows, expected);
}

#[test]
fn hidden_rows_are_left_out() {
    let chunk = DataChunk {
        visibility: Some(vec![false, true, false, true]),
        ..test_chunk()
    };
    assert_eq!(chunk.cardinality(), 2);
    assert_eq!(to_pg_rows(&chunk, false, binary).len(), 2);
    let sent = to_pg_rows(&chunk, true, binary);
    assert_eq!(sent.len(), 2);
    assert_eq!(sent[1].values[0], Some(binary(&ScalarImpl::Int32(4))));
    assert_eq!(sent[1].values[1], None);
    assert_eq!(text_util::to_pg_rows(&chunk)[1][0], Some("4".to_string()));
}

#[test]
fn type_numbers() {
    assert_eq!(TypeOid::Boolean.as_number(), 16);
    assert_eq!(TypeOid::Decimal.as_number(), 1700);
    assert_eq!(data_type_to_type_oid(&DataType::Interval), TypeOid::Interval);
    assert_eq!(text_util::data_type_to_type_oid(&DataType::Interval), TypeOid::Varchar);
    let list = DataType::List { datatype: Arc::new(DataType::Int16) };
    assert_eq!(data_type_to_type_oid(&list), TypeOid::Varchar);
    assert_eq!(data_type_to_type_oid(&DataType::Timestampz), TypeOid::Timestampz);
}

fn desc(name: &str, data_type: DataType, within: Vec<ColumnDesc>, struct_name: &str) -> ColumnDesc {
    ColumnDesc {
        data_type,
        column_id: 0,
        name: name.to_string(),
        field_descs: Arc::new(within),
        struct_type_name: struct_name.to_string(),
    }
}

#[test]
fn nested_columns_are_described() {
    let city = desc(
        "city",
        DataType::Struct { fields: Arc::new(vec![DataType::Varchar]) },
        vec![desc("zip", DataType::Varchar, vec![], "")],
        ".test.City",
    );
    let rows = col_descs_to_rows(&vec![city, desc("n", DataType::Int64, vec![], "")]);
    let cells: Vec<(Bytes, Bytes)> = rows
        .into_iter()
        .map(|r| (r.values[0].clone().unwrap(), r.values[1].clone().unwrap()))
        .collect();
    assert_eq!(
        cells,
        vec![
            ("city".into(), ".test.City".into()),
            ("city.zip".into(), "Varchar".into()),
            ("n".into(), "Int64".into()),
        ]
    );
}

fn option(name: &str, value: SqlValue) -> SqlOption {
    SqlOption { name: name.to_string(), value }
}

#[test]
fn with_properties() {
    let map = handle_with_properties(
        "create_source",
        &vec![
            option("a", SqlValue::SingleQuotedString("x".to_string())),
            option("b", SqlValue::Number("1".to_string())),
            option("c", SqlValue::Boolean(true)),
            option("a", SqlValue::SingleQuotedString("y".to_string())),
        ],
    )
    .unwrap();
    assert_eq!(map.get("a"), Some(&"y".to_string()));
    assert_eq!(map.get("b"), Some(&"1".to_string()));
    assert_eq!(map.get("c"), Some(&"true".to_string()));
    assert_eq!(
        handle_with_properties("create_source", &vec![option("a", SqlValue::Other)]).unwrap_err(),
        ErrorCode::ProtocolError(
            "create_source with properties only support single quoted string value".to_string()
        )
    );
}

#[test]
fn system_tables_force_local_mode() {
    let select = |r: Option<Relation>| BoundStatement::Query(BoundSetExpr::Select(r));
    assert!(!force_local_mode(&select(None)));
    assert!(!force_local_mode(&select(Some(Relation::BaseTable))));
    assert!(force_local_mode(&select(Some(Relation::SystemTable))));
    assert!(force_local_mode(&select(Some(Relation::Join(
        Box::new(Relation::BaseTable),
        Box::new(Relation::Subquery(Box::new(BoundSetExpr::Select(Some(
            Relation::SystemTable
        ))))),
    )))));
    assert!(!force_local_mode(&BoundStatement::Query(BoundSetExpr::Values)));
    assert!(!force_local_mode(&BoundStatement::Delete));
}

#[test]
fn test_create_table_handler() {
    let column = |name: &str, t: DataType| ColumnDef { name: name.to_string(), data_type: Ok(t) };
    let columns = vec![
        column("v1", DataType::Int16),
        column("v2", DataType::Int32),
        column("v3", DataType::Int64),
        column("v4", DataType::Float64),
        column("v5", DataType::Float64),
    ];
    let place = TablePlace { placeholder_id: 77, database_id: 1, schema_id: 2 };
    let (source, table) = handle_create_table(place, "t", &columns).unwrap();

    // Check source exists.
    assert_eq!(source.name, "t");
    assert_eq!((source.id, source.database_id, source.schema_id), (77, 1, 2));

    // Check table exists.
    assert_eq!(table.name, "t");
    assert_eq!((table.id, table.database_id, table.schema_id), (77, 1, 2));
    assert_eq!(table.pk_column_ids, vec![0]);
    assert_eq!(table.pk_orders, vec![OrderType::Ascending]);

    let show = |columns: &Vec<ColumnCatalog>| -> Vec<(String, String, i32)> {
        columns
            .iter()
            .map(|c| (c.name().to_string(), format!("{:?}", c.data_type()), c.column_id()))
            .collect()
    };
    let hidden: Vec<bool> = table.columns.iter().map(|c| c.is_hidden()).collect();
    assert_eq!(hidden, vec![true, false, false, false, false, false]);
    assert_eq!(show(&source.columns), show(&table.columns));
    let shown = show(&table.columns);
    let expected_columns: Vec<(String, String, i32)> = vec![
        (ROWID_NAME.to_string(), "Int64".to_string(), 0),
        ("v1".to_string(), "Int16".to_string(), 1),
        ("v2".to_string(), "Int32".to_string(), 2),
        ("v3".to_string(), "Int64".to_string(), 3),
        ("v4".to_string(), "Float64".to_string(), 4),
        ("v5".to_string(), "Float64".to_string(), 5),
    ];
    assert_eq!(shown, expected_columns);
}

#[test]
fn first_bad_type_fails_the_table() {
    let bad = |m: &str| ColumnDef {
        name: "x".to_string(),
        data_type: Err(ErrorCode::NotImplementedError(m.to_string())),
    };
    let e = table_columns(&vec![bad("first"), bad("second")]).unwrap_err();
    assert_eq!(e, ErrorCode::NotImplementedError("first".to_string()));
}

#[test]
fn source_table() {
    let mut properties: StringMap<String> = StringMap::new();
    properties.insert("kafka.topic".to_string(), "abc".to_string());
    let columns = vec![
        desc("id", DataType::Int32, vec![], ""),
        desc("city", DataType::Varchar, vec![], ""),
        desc("zipcode", DataType::Int64, vec![], ""),
        desc("rate", DataType::Float32, vec![], ""),
    ];
    let t = create_source_table("t".to_string(), "file://x", Ok(columns), properties).unwrap();
    assert_eq!(t.table_name, "t");
    assert_eq!(t.row_format, "file://x");
    assert_eq!(t.row_schema_location, "file://x");
    assert!(t.is_source && t.append_only);
    assert_eq!(t.column_descs.len(), 4);
    assert_eq!(t.properties.get("kafka.topic"), Some(&"abc".to_string()));
    let failed = create_source_table(
        "t".to_string(),
        "file://x",
        Err(ErrorCode::InternalError("no file".to_string())),
        StringMap::new(),
    );
    assert_eq!(failed.unwrap_err(), ErrorCode::InternalError("no file".to_string()));
}

#[test]
fn catalog_writer_waits_for_the_version() {
    assert_eq!(catalog_service::create_database("d").name, "d");
    let schema = catalog_service::create_schema(7, "s");
    assert_eq!((schema.id, schema.database_id, schema.name.as_str()), (0, 7, "s"));
    assert!(matches!(
        catalog_service::wait_version(3, 4),
        catalog_service::WriterStep::AwaitChange
    ));
    assert!(matches!(
        catalog_service::after_wait(Ok(4), 4),
        Ok(catalog_service::WriterStep::Done)
    ));
    assert_eq!(
        catalog_service::after_wait(Err("closed".to_string()), 4).unwrap_err(),
        ErrorCode::InternalError("closed".to_string())
    );
}

#[test]
fn types_of_characters() {
    assert_eq!(data_type_to_type_oid(&DataType::Char), TypeOid::CharArray);
    assert_eq!(TypeOid::CharArray.as_number(), 1002);
    assert_eq!(DataType::Char.to_text(), "Char");
}
