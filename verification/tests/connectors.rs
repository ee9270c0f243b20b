use std::sync::Arc;

use streamdb::catalog::{DataType, Field, Schema};
use streamdb::common::chunk::{DataChunk, Op, StreamChunk};
use streamdb::common::error::ErrorCode;
use streamdb::common::scalar::{Composite, Datum, FloatClass, FloatValue, ScalarImpl};
use streamdb::common::string_map::StringMap;
use streamdb::connector::kafka::{chunk_to_json, datum_to_json_object, record_to_json, KafkaConfig};
use streamdb::connector::sink::{sink_kind, SinkConfig, SinkError, SinkKind};
use streamdb::expr::to_char::{compile_pattern_to_chrono, to_char_timestamp};

fn f32_of(v: f32) -> Datum {
    Some(ScalarImpl::Float32(FloatValue {
        class: FloatClass::Finite,
        digits: v.to_string(),
        json: format!("{:?}", v as f64),
    }))
}

fn schema() -> Schema {
    Schema::new(vec![
        Field::with_name(DataType::Int32, "v1".to_string()),
        Field::with_name(DataType::Float32, "v2".to_string()),
    ])
}

#[test]
fn test_chunk_to_json() {
    let rows: Vec<Vec<Datum>> = (0..10)
        .map(|i| vec![Some(ScalarImpl::Int32(i)), f32_of(i as f32)])
        .collect();
    let chunk = StreamChunk {
        ops: vec![Op::Insert; 10],
        data: DataChunk { rows, visibility: None },
    };
    let texts = chunk_to_json(&chunk, &schema()).unwrap();
    println!("{:?}", texts);
    assert_eq!(texts.len(), 10);
    assert_eq!(texts[3], "{\"v1\":3,\"v2\":3.0}");
}

#[test]
fn values_as_json() {
    let field = |t| Field::with_name(t, "f".to_string());
    let json = |d: &Datum, f: &Field| datum_to_json_object(d, f).unwrap().to_string();
    assert_eq!(json(&None, &field(DataType::Int16)), "null");
    assert_eq!(json(&Some(ScalarImpl::Bool(true)), &field(DataType::Boolean)), "true");
    assert_eq!(json(&Some(ScalarImpl::Int64(-5)), &field(DataType::Int64)), "-5");
    assert_eq!(
        json(&Some(ScalarImpl::Utf8("a\"b".to_string())), &field(DataType::Varchar)),
        "\"a\\\"b\""
    );
    assert_eq!(
        json(&Some(ScalarImpl::Decimal("1.10".to_string())), &field(DataType::Decimal)),
        "\"1.10\""
    );
    let nan = FloatValue { class: FloatClass::NotANumber, digits: String::new(), json: String::new() };
    assert_eq!(json(&Some(ScalarImpl::Float64(nan)), &field(DataType::Float64)), "null");
    let bad = FloatValue { class: FloatClass::Finite, digits: "1".to_string(), json: "x".to_string() };
    assert_eq!(
        datum_to_json_object(&Some(ScalarImpl::Float64(bad)), &field(DataType::Float64)).unwrap_err(),
        SinkError::JsonParse("not a number: x".to_string())
    );
    let float = field(DataType::Float32);
    assert_eq!(json(&f32_of(1.0), &float), "1.0");
    assert_eq!(json(&f32_of(6.01), &float), "6.010000228881836");
    assert_eq!(json(&f32_of(6.01), &float), serde_json::Value::from(6.01f32).to_string());
    assert_eq!(json(&f32_of(-2.5e20), &float), serde_json::Value::from(-2.5e20f32).to_string());
    let parts = || Composite {
        values: Arc::new(vec![Some(ScalarImpl::Int32(1)), None]),
        text: String::new(),
    };
    let whole = Field {
        data_type: DataType::Struct { fields: Arc::new(vec![DataType::Int32, DataType::Int32]) },
        name: "s".to_string(),
        sub_fields: Arc::new(vec![
            Field::with_name(DataType::Int32, "x".to_string()),
            Field::with_name(DataType::Int32, "y".to_string()),
        ]),
        struct_type_name: String::new(),
    };
    assert_eq!(json(&Some(ScalarImpl::Struct(parts())), &whole), "{\"x\":1,\"y\":null}");
    let list = Field {
        data_type: DataType::List { datatype: Arc::new(DataType::Int32) },
        ..whole.copy()
    };
    assert_eq!(json(&Some(ScalarImpl::List(parts())), &list), "[1,null]");
    let row = vec![Some(ScalarImpl::Int32(2)), f32_of(0.5)];
    let record = record_to_json(&row, &schema().fields).unwrap();
    assert_eq!(serde_json::Value::Object(record).to_string(), "{\"v1\":2,\"v2\":0.5}");
    // The first error ends the record: the columns behind it are not looked at.
    let fields = vec![Field::with_name(DataType::Int32, "a".to_string()), Field::with_name(DataType::Time, "b".to_string())];
    let row: Vec<Datum> = vec![Some(ScalarImpl::Bool(true)), None];
    assert_eq!(
        record_to_json(&row, &fields).unwrap_err(),
        SinkError::JsonParse("cannot convert ScalarImpl::Bool to concrete type".to_string())
    );
}

fn properties(pairs: &[(&str, &str)]) -> StringMap<String> {
    let mut m = StringMap::new();
    for (k, v) in pairs {
        m.insert(k.to_string(), v.to_string());
    }
    m
}

#[test]
fn sinks_by_their_options() {
    let kafka = [("sink_type", "KAFKA"), ("kafka.brokers", "b:1"), ("kafka.topic", "t")];
    match SinkConfig::from_hashmap(properties(&kafka)).unwrap() {
        SinkConfig::Kafka(KafkaConfig { brokers, topic }) => {
            assert_eq!((brokers.as_str(), topic.as_str()), ("b:1", "t"))
        }
        other => panic!("expected kafka, got {:?}", other),
    }
    assert!(matches!(
        SinkConfig::from_hashmap(properties(&[("sink_type", "MySql")])),
        Ok(SinkConfig::Mysql(_))
    ));
    let checked = |pairs: &[(&str, &str)]| SinkConfig::checked_from_hashmap(properties(pairs));
    assert!(matches!(checked(&kafka), Ok(Some(SinkConfig::Kafka(_)))));
    assert!(matches!(checked(&[("sink_type", "redis")]), Ok(None)));
    assert!(matches!(checked(&kafka[..2]), Ok(None)));
    assert!(checked(&[]).is_err());
    assert_eq!(
        SinkConfig::from_hashmap(properties(&[])).unwrap_err(),
        ErrorCode::InvalidConfigValue {
            config_entry: "sink_type".to_string(),
            config_value: String::new(),
        }
    );
    assert_eq!(sink_kind("kafka"), Some(SinkKind::Kafka));
    assert_eq!(sink_kind("KAFKA"), None);
}

#[test]
fn times_in_patterns() {
    assert_eq!(compile_pattern_to_chrono("YYYY-MM-DD HH24:MI:SS"), "%Y-%m-%d %H:%M:%S");
    assert_eq!(compile_pattern_to_chrono("IYYY HH12 HH"), "%G %I %I");
    assert_eq!(compile_pattern_to_chrono("nothing"), "nothing");
    assert_eq!(
        to_char_timestamp(1_650_000_000, 0, "YYYY/MM/DD HH24h MI:SS").unwrap(),
        "2022/04/15 05h 20:00"
    );
    assert_eq!(to_char_timestamp(i64::MAX, 0, "YYYY"), None);
}
