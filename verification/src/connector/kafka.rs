//! Rows as JSON, and the options of a Kafka sink.

use serde_json::Value;
use vstd::prelude::*;
use vstd::string::StringExecFns;

use crate::catalog::{DataType, Field, Schema};
use crate::common::chunk::{is_visible, visible_rows, StreamChunk};
use crate::common::scalar::{kind_name, scalar_text, Composite, Datum, FloatClass, FloatValue, ScalarImpl};
use crate::common::string_map::StringMap;
use crate::connector::json::{
    json_array, json_bool, json_content, json_contents, json_int, json_map_insert, json_map_new, json_members,
    json_null, json_object, json_parse, json_parsed, json_shown, json_string, json_text, JsonView,
};
use crate::connector::sink::{SinkError, SinkErrorView};

verus! {

/// Where a Kafka sink sends to.
#[derive(Debug)]
pub struct KafkaConfig {
    pub brokers: String,
    pub topic: String,
}

impl KafkaConfig {
    /// The options of a Kafka sink. Both must be there.
    pub fn from_hashmap(values: StringMap<String>) -> (r: Result<KafkaConfig, SinkError>)
        requires
            values.wf(),
            values@.contains_key("kafka.brokers"@),
            values@.contains_key("kafka.topic"@),
        ensures
            r matches Ok(config) && config.brokers == values@["kafka.brokers"@] && config.topic
                == values@["kafka.topic"@],
    {
        let brokers = values.get("kafka.brokers").unwrap();
        let topic = values.get("kafka.topic").unwrap();
        Ok(KafkaConfig { brokers: brokers.clone(), topic: topic.clone() })
    }
}

/// A floating-point number as JSON: the number in double width, or null if it is not
/// finite. There is none if its text is no JSON text.
pub open spec fn float_json(v: FloatValue) -> Option<JsonView> {
    match v.class {
        FloatClass::Finite => json_parsed(v.json@),
        _ => Some(JsonView::Null),
    }
}

/// The error of a text that is no JSON text.
pub open spec fn bad_number(v: FloatValue) -> SinkErrorView {
    SinkErrorView::JsonParse("not a number: "@ + v.json@)
}

/// A floating-point number as JSON.
fn float_to_json(v: &FloatValue) -> (r: Result<Value, SinkError>)
    ensures
        match float_json(*v) {
            Some(j) => r matches Ok(value) && json_content(value) == j,
            None => r matches Err(e) && e@ == bad_number(*v),
        },
{
    match v.class {
        FloatClass::Finite => match json_parse(v.json.as_str()) {
            Some(value) => Ok(value),
            None => {
                let mut m: String = "not a number: ".to_owned();
                m.append(v.json.as_str());
                Err(SinkError::JsonParse(m))
            },
        },
        _ => Ok(json_null()),
    }
}

/// The value can be written as JSON for a field of this type.
pub open spec fn json_supported(datum: Datum, field: Field) -> bool
    decreases field, 1int,
{
    match datum {
        None => true,
        Some(v) => match (field.data_type, v) {
            (DataType::Boolean, ScalarImpl::Bool(_)) => true,
            (DataType::Int16, ScalarImpl::Int16(_)) => true,
            (DataType::Int32, ScalarImpl::Int32(_)) => true,
            (DataType::Int64, ScalarImpl::Int64(_)) => true,
            (DataType::Float32, ScalarImpl::Float32(_)) => true,
            (DataType::Float64, ScalarImpl::Float64(_)) => true,
            (DataType::Varchar, ScalarImpl::Utf8(_)) => true,
            (DataType::Decimal, ScalarImpl::Decimal(_)) => true,
            (DataType::List { .. }, ScalarImpl::List(c)) => parts_supported(c, field),
            (DataType::Struct { .. }, ScalarImpl::Struct(c)) => parts_supported(c, field),
            _ => false,
        },
    }
}

/// The parts of the value can be written as JSON for the fields within the field.
pub open spec fn parts_supported(c: Composite, field: Field) -> bool
    decreases field, 0int,
{
    forall|i: int|
        0 <= i < c.values@.len() && i < field.sub_fields@.len() ==> json_supported(
            #[trigger] c.values@[i],
            field.sub_fields@[i],
        )
}

/// How many parts of a value have a field.
pub open spec fn part_count(c: Composite, field: Field) -> int {
    if c.values@.len() <= field.sub_fields@.len() {
        c.values@.len() as int
    } else {
        field.sub_fields@.len() as int
    }
}

/// A value as JSON, or the first error in it.
pub open spec fn datum_json(datum: Datum, field: Field) -> Result<JsonView, SinkErrorView>
    decreases field, 1int, 0int,
{
    match datum {
        None => Ok(JsonView::Null),
        Some(v) => match v {
            ScalarImpl::Bool(b) => Ok(JsonView::Bool(b)),
            ScalarImpl::Int16(n) => Ok(JsonView::Int(n as int)),
            ScalarImpl::Int32(n) => Ok(JsonView::Int(n as int)),
            ScalarImpl::Int64(n) => Ok(JsonView::Int(n as int)),
            ScalarImpl::Float32(f) => float_outcome(f),
            ScalarImpl::Float64(f) => float_outcome(f),
            ScalarImpl::List(c) => match parts_json(c, field, part_count(c, field)) {
                Ok(list) => Ok(JsonView::Array(list)),
                Err(e) => Err(e),
            },
            ScalarImpl::Struct(c) => match parts_json(c, field, part_count(c, field)) {
                Ok(list) => Ok(JsonView::Object(members(field, list, list.len() as int))),
                Err(e) => Err(e),
            },
            _ => Ok(JsonView::Text(scalar_text(v))),
        },
    }
}

/// A floating-point number as JSON, or the error of its text.
pub open spec fn float_outcome(v: FloatValue) -> Result<JsonView, SinkErrorView> {
    match float_json(v) {
        Some(j) => Ok(j),
        None => Err(bad_number(v)),
    }
}

/// The first `n` parts of a value as JSON, or the first error in them.
pub open spec fn parts_json(c: Composite, field: Field, n: int) -> Result<Seq<JsonView>, SinkErrorView>
    decreases field, 0int, n,
{
    if n <= 0 || n > field.sub_fields@.len() {
        Ok(Seq::empty())
    } else {
        match parts_json(c, field, n - 1) {
            Err(e) => Err(e),
            Ok(list) => match datum_json(c.values@[n - 1], field.sub_fields@[n - 1]) {
                Err(e) => Err(e),
                Ok(j) => Ok(list.push(j)),
            },
        }
    }
}

/// The first `n` values under the names of the fields within the field.
pub open spec fn members(field: Field, list: Seq<JsonView>, n: int) -> Map<Seq<char>, JsonView>
    decreases n,
{
    if n <= 0 {
        Map::empty()
    } else {
        members(field, list, n - 1).insert(field.sub_fields@[n - 1].name@, list[n - 1])
    }
}

proof fn lemma_parts_stop(c: Composite, field: Field, i: int, n: int)
    requires
        0 <= i <= n <= field.sub_fields@.len(),
        parts_json(c, field, i) is Err,
    ensures
        parts_json(c, field, n) == parts_json(c, field, i),
    decreases n,
{
    if i < n {
        lemma_parts_stop(c, field, i, n - 1);
    }
}

/// The parts of a value as JSON.
fn parts_to_json(c: &Composite, field: &Field) -> (r: Result<Vec<Value>, SinkError>)
    requires
        parts_supported(*c, *field),
    ensures
        match parts_json(*c, *field, part_count(*c, *field)) {
            Ok(list) => r matches Ok(values) && json_contents(values@) == list,
            Err(e) => r matches Err(x) && x@ == e,
        },
    decreases *field, 0int,
{
    let ghost n = part_count(*c, *field);
    let mut values: Vec<Value> = Vec::new();
    let mut i: usize = 0;
    proof {
        assert(json_contents(values@) =~= Seq::empty());
    }
    while i < c.values.len() && i < field.sub_fields.len()
        invariant
            i <= n,
            n == part_count(*c, *field),
            parts_supported(*c, *field),
            parts_json(*c, *field, i as int) == Ok::<Seq<JsonView>, SinkErrorView>(json_contents(values@)),
        decreases n - i,
    {
        proof {
            assert(decreases_to!(*field => field.sub_fields@[i as int]));
            assert(json_supported(c.values@[i as int], field.sub_fields@[i as int]));
        }
        match datum_to_json_object(&c.values[i], &field.sub_fields[i]) {
            Ok(value) => {
                let ghost before = values@;
                values.push(value);
                proof {
                    assert(json_contents(values@) =~= json_contents(before).push(json_content(value)));
                }
            },
            Err(e) => {
                proof {
                    assert(parts_json(*c, *field, i + 1) is Err);
                    lemma_parts_stop(*c, *field, i + 1, n);
                }
                return Err(e);
            },
        }
        i = i + 1;
    }
    Ok(values)
}

/// A value as JSON.
pub fn datum_to_json_object(datum: &Datum, field: &Field) -> (r: Result<Value, SinkError>)
    requires
        json_supported(*datum, *field),
    ensures
        match datum_json(*datum, *field) {
            Ok(j) => r matches Ok(value) && json_content(value) == j,
            Err(e) => r matches Err(x) && x@ == e,
        },
    decreases *field, 1int,
{
    let scalar = match datum {
        None => {
            return Ok(json_null());
        },
        Some(scalar) => scalar,
    };
    match scalar {
        ScalarImpl::Bool(v) => Ok(json_bool(*v)),
        ScalarImpl::Int16(v) => Ok(json_int(*v as i64)),
        ScalarImpl::Int32(v) => Ok(json_int(*v as i64)),
        ScalarImpl::Int64(v) => Ok(json_int(*v)),
        ScalarImpl::Float32(v) => float_to_json(v),
        ScalarImpl::Float64(v) => float_to_json(v),
        ScalarImpl::List(list) => match parts_to_json(list, field) {
            Ok(values) => Ok(json_array(values)),
            Err(e) => Err(e),
        },
        ScalarImpl::Struct(fields) => match parts_to_json(fields, field) {
            Ok(values) => {
                let ghost list = json_contents(values@);
                let mut map = json_map_new();
                let mut k: usize = 0;
                let count: usize = values.len();
                proof {
                    assert(json_members(map) =~= Map::empty());
                    lemma_parts_len(*fields, *field, part_count(*fields, *field));
                }
                for value in iter: values
                    invariant
                        iter.seq() == values@,
                        count == values@.len(),
                        list == json_contents(values@),
                        k == iter.index(),
                        list.len() <= field.sub_fields@.len(),
                        json_members(map) == members(*field, list, k as int),
                {
                    proof {
                        assert(json_content(value) == list[k as int]);
                    }
                    json_map_insert(&mut map, field.sub_fields[k].name.clone(), value);
                    k = k + 1;
                }
                Ok(json_object(map))
            },
            Err(e) => Err(e),
        },
        _ => Ok(json_string(scalar.to_text())),
    }
}

proof fn lemma_parts_len(c: Composite, field: Field, n: int)
    requires
        0 <= n <= part_count(c, field),
    ensures
        parts_json(c, field, n) matches Ok(list) ==> list.len() == n,
    decreases n,
{
    if n > 0 {
        lemma_parts_len(c, field, n - 1);
    }
}

/// The error of a value of another kind than its column.
pub open spec fn wrong_kind(v: ScalarImpl) -> SinkErrorView {
    SinkErrorView::JsonParse("cannot convert ScalarImpl::"@ + kind_name(v) + " to concrete type"@)
}

/// A value as JSON for a column of the type, or the error of its kind.
pub open spec fn cell_json(v: ScalarImpl, t: DataType) -> Result<JsonView, SinkErrorView> {
    match (t, v) {
        (DataType::Boolean, ScalarImpl::Bool(b)) => Ok(JsonView::Bool(b)),
        (DataType::Int16, ScalarImpl::Int16(n)) => Ok(JsonView::Int(n as int)),
        (DataType::Int32, ScalarImpl::Int32(n)) => Ok(JsonView::Int(n as int)),
        (DataType::Int64, ScalarImpl::Int64(n)) => Ok(JsonView::Int(n as int)),
        (DataType::Float32, ScalarImpl::Float32(f)) => float_outcome(f),
        (DataType::Float64, ScalarImpl::Float64(f)) => float_outcome(f),
        (DataType::Varchar, _) => Ok(JsonView::Text(scalar_text(v))),
        _ => Err(wrong_kind(v)),
    }
}

/// The column's values can be written as members of a record.
pub open spec fn record_type(t: DataType) -> bool {
    match t {
        DataType::Boolean => true,
        DataType::Int16 => true,
        DataType::Int32 => true,
        DataType::Int64 => true,
        DataType::Float32 => true,
        DataType::Float64 => true,
        DataType::Varchar => true,
        _ => false,
    }
}

/// Up to the first error in it, the row has a value for each column, and the columns can be
/// written.
pub open spec fn record_supported(row: Seq<Datum>, fields: Seq<Field>) -> bool {
    forall|i: int|
        0 <= i < fields.len() && record_json(row, fields, i) is Ok ==> {
            &&& i < row.len()
            &&& record_type((#[trigger] fields[i]).data_type)
            &&& row[i] is Some
        }
}

/// The first `n` columns of a row as members of a JSON object, or the first error in them.
pub open spec fn record_json(row: Seq<Datum>, fields: Seq<Field>, n: int) -> Result<
    Map<Seq<char>, JsonView>,
    SinkErrorView,
>
    decreases n,
{
    if n <= 0 {
        Ok(Map::empty())
    } else {
        match record_json(row, fields, n - 1) {
            Err(e) => Err(e),
            Ok(m) => match cell_json(row[n - 1]->0, fields[n - 1].data_type) {
                Err(e) => Err(e),
                Ok(j) => Ok(m.insert(fields[n - 1].name@, j)),
            },
        }
    }
}

proof fn lemma_record_stops(row: Seq<Datum>, fields: Seq<Field>, i: int, n: int)
    requires
        0 <= i <= n <= fields.len(),
        record_json(row, fields, i) is Err,
    ensures
        record_json(row, fields, n) == record_json(row, fields, i),
    decreases n,
{
    if i < n {
        lemma_record_stops(row, fields, i, n - 1);
    }
}

/// A value as JSON for a column of the type.
fn cell_to_json(v: &ScalarImpl, t: &DataType) -> (r: Result<Value, SinkError>)
    requires
        record_type(*t),
    ensures
        match cell_json(*v, *t) {
            Ok(j) => r matches Ok(value) && json_content(value) == j,
            Err(e) => r matches Err(x) && x@ == e,
        },
{
    match (t, v) {
        (DataType::Boolean, ScalarImpl::Bool(b)) => Ok(json_bool(*b)),
        (DataType::Int16, ScalarImpl::Int16(n)) => Ok(json_int(*n as i64)),
        (DataType::Int32, ScalarImpl::Int32(n)) => Ok(json_int(*n as i64)),
        (DataType::Int64, ScalarImpl::Int64(n)) => Ok(json_int(*n)),
        (DataType::Float32, ScalarImpl::Float32(f)) => float_to_json(f),
        (DataType::Float64, ScalarImpl::Float64(f)) => float_to_json(f),
        (DataType::Varchar, _) => Ok(json_string(v.to_text())),
        _ => {
            let mut m: String = "cannot convert ScalarImpl::".to_owned();
            m.append(v.get_ident());
            m.append(" to concrete type");
            Err(SinkError::JsonParse(m))
        },
    }
}

/// A row as the members of a JSON object.
pub fn record_to_json(row: &Vec<Datum>, fields: &Vec<Field>) -> (r: Result<serde_json::Map<String, Value>, SinkError>)
    requires
        record_supported(row@, fields@),
    ensures
        match record_json(row@, fields@, fields@.len() as int) {
            Ok(m) => r matches Ok(map) && json_members(map) == m,
            Err(e) => r matches Err(x) && x@ == e,
        },
{
    let mut mappings = json_map_new();
    let mut idx: usize = 0;
    proof {
        assert(json_members(mappings) =~= Map::empty());
    }
    while idx < fields.len()
        invariant
            idx <= fields@.len(),
            record_supported(row@, fields@),
            record_json(row@, fields@, idx as int) == Ok::<Map<Seq<char>, JsonView>, SinkErrorView>(
                json_members(mappings),
            ),
        decreases fields@.len() - idx,
    {
        assert(record_type(fields@[idx as int].data_type) && idx < row@.len() && row@[idx as int] is Some);
        if let Some(v) = &row[idx] {
            match cell_to_json(v, &fields[idx].data_type) {
                Ok(value) => {
                    json_map_insert(&mut mappings, fields[idx].name.clone(), value);
                },
                Err(e) => {
                    proof {
                        assert(record_json(row@, fields@, idx + 1) is Err);
                        lemma_record_stops(row@, fields@, idx + 1, fields@.len() as int);
                    }
                    return Err(e);
                },
            }
        }
        idx = idx + 1;
    }
    Ok(mappings)
}

/// Up to the first error in them, the rows that are not hidden can be written.
pub open spec fn chunk_supported(chunk: StreamChunk<Datum>, fields: Seq<Field>) -> bool {
    forall|i: int|
        0 <= i < chunk.data.rows@.len() && is_visible(chunk.data, i) && chunk_json(chunk, fields, i) is Ok ==> record_supported(
            (#[trigger] chunk.data.rows@[i])@,
            fields,
        )
}

/// The rows among the first `n` that are not hidden, each as a JSON object, or
/// the first error in them.
pub open spec fn chunk_json(chunk: StreamChunk<Datum>, fields: Seq<Field>, n: int) -> Result<
    Seq<Seq<char>>,
    SinkErrorView,
>
    decreases n,
{
    if n <= 0 {
        Ok(Seq::empty())
    } else {
        match chunk_json(chunk, fields, n - 1) {
            Err(e) => Err(e),
            Ok(texts) => if !is_visible(chunk.data, n - 1) {
                Ok(texts)
            } else {
                match record_json(chunk.data.rows@[n - 1]@, fields, fields.len() as int) {
                    Err(e) => Err(e),
                    Ok(m) => Ok(texts.push(json_shown(JsonView::Object(m)))),
                }
            },
        }
    }
}

proof fn lemma_chunk_stops(chunk: StreamChunk<Datum>, fields: Seq<Field>, i: int, n: int)
    requires
        0 <= i <= n,
        chunk_json(chunk, fields, i) is Err,
    ensures
        chunk_json(chunk, fields, n) == chunk_json(chunk, fields, i),
    decreases n,
{
    if i < n {
        lemma_chunk_stops(chunk, fields, i, n - 1);
    }
}

/// Texts by their characters.
pub open spec fn text_views(texts: Seq<String>) -> Seq<Seq<char>> {
    Seq::new(texts.len(), |i: int| texts[i]@)
}

/// The rows that are not hidden, each as the text of a JSON object.
pub fn chunk_to_json(chunk: &StreamChunk<Datum>, schema: &Schema) -> (r: Result<Vec<String>, SinkError>)
    requires
        chunk.wf(),
        chunk_supported(*chunk, schema@),
    ensures
        match chunk_json(*chunk, schema@, chunk.data.rows@.len() as int) {
            Ok(texts) => r matches Ok(records) && text_views(records@) == texts,
            Err(e) => r matches Err(x) && x@ == e,
        },
{
    let ghost n = chunk.data.rows@.len() as int;
    let mut records: Vec<String> = Vec::new();
    let mut i: usize = 0;
    proof {
        assert(text_views(records@) =~= Seq::empty());
    }
    while i < chunk.data.rows.len()
        invariant
            i <= n,
            n == chunk.data.rows@.len(),
            chunk.wf(),
            chunk_supported(*chunk, schema@),
            chunk_json(*chunk, schema@, i as int) == Ok::<Seq<Seq<char>>, SinkErrorView>(text_views(records@)),
        decreases n - i,
    {
        if chunk.data.visible(i) {
            assert(record_supported(chunk.data.rows@[i as int]@, schema@));
            match record_to_json(&chunk.data.rows[i], &schema.fields) {
                Ok(map) => {
                    let record = json_object(map);
                    let ghost before = records@;
                    let text = json_text(&record);
                    records.push(text);
                    proof {
                        assert(text_views(records@) =~= text_views(before).push(text@));
                    }
                },
                Err(e) => {
                    proof {
                        assert(chunk_json(*chunk, schema@, i + 1) is Err);
                        lemma_chunk_stops(*chunk, schema@, i + 1, n);
                    }
                    return Err(e);
                },
            }
        }
        i = i + 1;
    }
    Ok(records)
}

/// Each row that is not hidden becomes one text, and no other row does.
pub proof fn law_one_text_per_row(chunk: StreamChunk<Datum>, fields: Seq<Field>, n: int)
    requires
        0 <= n,
        chunk_json(chunk, fields, n) is Ok,
    ensures
        (chunk_json(chunk, fields, n)->Ok_0).len() == visible_rows(chunk.data, n).len(),
    decreases n,
{
    if n > 0 {
        law_one_text_per_row(chunk, fields, n - 1);
    }
}

/// The members of a record: under the name of each column stands the value of the last column of
/// that name, a truth value as itself, a number as the same number, a text as the same text, and
/// a floating-point number as what its text in double width reads, or as null if it is not
/// finite. No other names occur.
pub proof fn law_record_shows_values(row: Seq<Datum>, fields: Seq<Field>, n: int, i: int)
    requires
        0 <= i < n <= fields.len(),
        n <= row.len(),
        record_json(row, fields, n) is Ok,
        forall|j: int| i < j < n ==> (#[trigger] fields[j]).name@ != fields[i].name@,
        row[i] is Some,
    ensures
        ({
            let m = record_json(row, fields, n)->Ok_0;
            let name = fields[i].name@;
            &&& m.contains_key(name)
            &&& row[i]->0 matches ScalarImpl::Bool(b) ==> fields[i].data_type is Boolean ==> m[name] == JsonView::Bool(b)
            &&& row[i]->0 matches ScalarImpl::Int16(v) ==> fields[i].data_type is Int16 ==> m[name] == JsonView::Int(
                v as int,
            )
            &&& row[i]->0 matches ScalarImpl::Int32(v) ==> fields[i].data_type is Int32 ==> m[name] == JsonView::Int(
                v as int,
            )
            &&& row[i]->0 matches ScalarImpl::Int64(v) ==> fields[i].data_type is Int64 ==> m[name] == JsonView::Int(
                v as int,
            )
            &&& row[i]->0 matches ScalarImpl::Utf8(s) ==> fields[i].data_type is Varchar ==> m[name] == JsonView::Text(
                s@,
            )
            &&& row[i]->0 matches ScalarImpl::Float32(v) ==> fields[i].data_type is Float32 ==> if v.class is Finite {
                json_parsed(v.json@) == Some(m[name])
            } else {
                m[name] == JsonView::Null
            }
            &&& row[i]->0 matches ScalarImpl::Float64(v) ==> fields[i].data_type is Float64 ==> if v.class is Finite {
                json_parsed(v.json@) == Some(m[name])
            } else {
                m[name] == JsonView::Null
            }
            &&& fields[i].data_type is Boolean ==> row[i]->0 is Bool
            &&& fields[i].data_type is Int16 ==> row[i]->0 is Int16
            &&& fields[i].data_type is Int32 ==> row[i]->0 is Int32
            &&& fields[i].data_type is Int64 ==> row[i]->0 is Int64
            &&& fields[i].data_type is Float32 ==> row[i]->0 is Float32
            &&& fields[i].data_type is Float64 ==> row[i]->0 is Float64
        }),
    decreases n,
{
    if i < n - 1 {
        law_record_shows_values(row, fields, n - 1, i);
        assert(fields[n - 1].name@ != fields[i].name@);
    }
}

/// A record has a member for the name of each column, and no others.
pub proof fn law_record_has_the_names(row: Seq<Datum>, fields: Seq<Field>, n: int, name: Seq<char>)
    requires
        0 <= n <= fields.len(),
        record_json(row, fields, n) is Ok,
    ensures
        (record_json(row, fields, n)->Ok_0).contains_key(name) <==> exists|i: int|
            0 <= i < n && (#[trigger] fields[i]).name@ == name,
    decreases n,
{
    if n > 0 {
        law_record_has_the_names(row, fields, n - 1, name);
        if fields[n - 1].name@ == name {
            assert(0 <= n - 1 < n && fields[n - 1].name@ == name);
        }
    }
}

/// A record fails exactly at the first column whose value is of another kind than the column; a
/// text column takes every value.
pub proof fn law_record_fails_on_kind(row: Seq<Datum>, fields: Seq<Field>, n: int, i: int)
    requires
        0 <= i < n <= fields.len(),
        n <= row.len(),
        row[i] is Some,
        match fields[i].data_type {
            DataType::Boolean => !(row[i]->0 is Bool),
            DataType::Int16 => !(row[i]->0 is Int16),
            DataType::Int32 => !(row[i]->0 is Int32),
            DataType::Int64 => !(row[i]->0 is Int64),
            DataType::Float32 => !(row[i]->0 is Float32),
            DataType::Float64 => !(row[i]->0 is Float64),
            _ => false,
        },
    ensures
        record_json(row, fields, n) is Err,
    decreases n,
{
    if i < n - 1 {
        law_record_fails_on_kind(row, fields, n - 1, i);
    }
}

/// The texts of a chunk are those of its rows that are not hidden, in their order: text `k` is
/// that of the record of row `at`, where `k` rows before it are not hidden.
pub proof fn law_texts_show_the_rows(chunk: StreamChunk<Datum>, fields: Seq<Field>, n: int, at: int)
    requires
        0 <= at < n <= chunk.data.rows@.len(),
        chunk_json(chunk, fields, n) is Ok,
        is_visible(chunk.data, at),
    ensures
        ({
            let texts = chunk_json(chunk, fields, n)->Ok_0;
            let k = visible_rows(chunk.data, at).len() as int;
            &&& k < texts.len()
            &&& record_json(chunk.data.rows@[at]@, fields, fields.len() as int) matches Ok(m) && texts[k]
                == json_shown(JsonView::Object(m))
        }),
    decreases n,
{
    law_one_text_per_row(chunk, fields, n - 1);
    if at < n - 1 {
        law_texts_show_the_rows(chunk, fields, n - 1, at);
    }
}

/// A value as JSON: null as null, a truth value as itself, a number as the same number, a text
/// as the same text, a list as the array of its parts, and a struct as the object that has them
/// under the names of the fields within the field.
pub proof fn law_json_shows_value(datum: Datum, field: Field)
    requires
        json_supported(datum, field),
        datum_json(datum, field) is Ok,
    ensures
        ({
            let j = datum_json(datum, field)->Ok_0;
            match datum {
                None => j == JsonView::Null,
                Some(v) => {
                    &&& v matches ScalarImpl::Bool(b) ==> j == JsonView::Bool(b)
                    &&& v matches ScalarImpl::Int16(n) ==> j == JsonView::Int(n as int)
                    &&& v matches ScalarImpl::Int32(n) ==> j == JsonView::Int(n as int)
                    &&& v matches ScalarImpl::Int64(n) ==> j == JsonView::Int(n as int)
                    &&& v matches ScalarImpl::Utf8(s) ==> j == JsonView::Text(s@)
                    &&& v matches ScalarImpl::Decimal(s) ==> j == JsonView::Text(s@)
                    &&& v matches ScalarImpl::Float32(f) ==> if f.class is Finite {
                        json_parsed(f.json@) == Some(j)
                    } else {
                        j == JsonView::Null
                    }
                    &&& v matches ScalarImpl::Float64(f) ==> if f.class is Finite {
                        json_parsed(f.json@) == Some(j)
                    } else {
                        j == JsonView::Null
                    }
                    &&& v is List ==> j is Array
                    &&& v is Struct ==> j is Object
                },
            }
        }),
{
}

proof fn lemma_parts(c: Composite, field: Field, n: int, i: int)
    requires
        0 <= i < n <= part_count(c, field),
        parts_json(c, field, n) is Ok,
    ensures
        (parts_json(c, field, n)->Ok_0).len() == n,
        datum_json(c.values@[i], field.sub_fields@[i]) == Ok::<JsonView, SinkErrorView>(
            (parts_json(c, field, n)->Ok_0)[i],
        ),
    decreases n,
{
    lemma_parts_len(c, field, n);
    lemma_parts_len(c, field, n - 1);
    if i < n - 1 {
        lemma_parts(c, field, n - 1, i);
    }
}

proof fn lemma_members(field: Field, list: Seq<JsonView>, n: int, i: int)
    requires
        0 <= i < n <= list.len(),
        forall|j: int| i < j < n ==> (#[trigger] field.sub_fields@[j]).name@ != field.sub_fields@[i].name@,
    ensures
        members(field, list, n).contains_key(field.sub_fields@[i].name@),
        members(field, list, n)[field.sub_fields@[i].name@] == list[i],
    decreases n,
{
    if i < n - 1 {
        lemma_members(field, list, n - 1, i);
        assert(field.sub_fields@[n - 1].name@ != field.sub_fields@[i].name@);
    }
}

/// A list is written as the array of its parts in their order, and a struct as the object that has its
/// parts under the names of their fields; a part is written as it would be by itself. Parts without a
/// field are left out.
pub proof fn law_parts_are_shown(c: Composite, field: Field, i: int)
    requires
        0 <= i < c.values@.len(),
        i < field.sub_fields@.len(),
    ensures
        datum_json(Some(ScalarImpl::List(c)), field) matches Ok(j) ==> {
            &&& j matches JsonView::Array(list)
            &&& list.len() == if c.values@.len() <= field.sub_fields@.len() {
                c.values@.len()
            } else {
                field.sub_fields@.len()
            }
            &&& datum_json(c.values@[i], field.sub_fields@[i]) == Ok::<JsonView, SinkErrorView>(list[i])
        },
        (forall|k: int|
            i < k < field.sub_fields@.len() ==> (#[trigger] field.sub_fields@[k]).name@ != field.sub_fields@[i].name@)
            ==> (datum_json(Some(ScalarImpl::Struct(c)), field) matches Ok(j) ==> {
            &&& j matches JsonView::Object(m)
            &&& m.contains_key(field.sub_fields@[i].name@)
            &&& datum_json(c.values@[i], field.sub_fields@[i]) == Ok::<JsonView, SinkErrorView>(
                m[field.sub_fields@[i].name@],
            )
        }),
{
    let n = part_count(c, field);
    if parts_json(c, field, n) is Ok {
        lemma_parts(c, field, n, i);
        let list = parts_json(c, field, n)->Ok_0;
        if forall|k: int|
            i < k < field.sub_fields@.len() ==> (#[trigger] field.sub_fields@[k]).name@ != field.sub_fields@[i].name@ {
            lemma_members(field, list, n, i);
        }
    }
}

/// A list or a struct cannot be written if one of its parts cannot.
pub proof fn law_part_fails_value(c: Composite, field: Field, i: int)
    requires
        0 <= i < c.values@.len(),
        i < field.sub_fields@.len(),
        datum_json(c.values@[i], field.sub_fields@[i]) is Err,
    ensures
        datum_json(Some(ScalarImpl::List(c)), field) is Err,
        datum_json(Some(ScalarImpl::Struct(c)), field) is Err,
{
    let n = part_count(c, field);
    if parts_json(c, field, n) is Ok {
        lemma_parts(c, field, n, i);
    }
}

/// A number whose text is no JSON text is named in the error.
pub proof fn law_bad_number_is_named(v: FloatValue)
    ensures
        bad_number(v) == SinkErrorView::JsonParse("not a number: "@ + v.json@),
{
}

/// A value of another kind than its column is named by its kind in the error.
pub proof fn law_wrong_kind_is_named(v: ScalarImpl)
    ensures
        wrong_kind(v) == SinkErrorView::JsonParse("cannot convert ScalarImpl::"@ + kind_name(v) + " to concrete type"@),
{
}

} // verus!
