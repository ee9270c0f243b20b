//! JSON values.

use serde_json::Value;
use vstd::prelude::*;

verus! {

/// The type `serde_json::Value`: a JSON value.
#[verifier::external_type_specification]
#[verifier::external_body]
pub struct ExJsonValue(serde_json::Value);

/// The type `serde_json::Map`: the members of a JSON object.
#[verifier::external_type_specification]
#[verifier::external_body]
#[verifier::reject_recursive_types(K)]
#[verifier::reject_recursive_types(V)]
pub struct ExJsonMap<K, V>(serde_json::Map<K, V>);

/// A JSON value by its meaning. A number with a fraction is given by its text.
pub enum JsonView {
    Null,
    Bool(bool),
    Int(int),
    Fraction(Seq<char>),
    Text(Seq<char>),
    Array(Seq<JsonView>),
    Object(Map<Seq<char>, JsonView>),
}

/// What a JSON value holds.
pub uninterp spec fn json_content(v: serde_json::Value) -> JsonView;

/// What the members of a JSON object hold.
pub uninterp spec fn json_members(m: serde_json::Map<String, serde_json::Value>) -> Map<Seq<char>, JsonView>;

/// What a list of JSON values holds.
pub open spec fn json_contents(list: Seq<serde_json::Value>) -> Seq<JsonView> {
    Seq::new(list.len(), |i: int| json_content(list[i]))
}

/// The variant `serde_json::Value::Null` is the JSON null.
#[verifier::external_body]
pub(crate) fn json_null() -> (r: Value)
    ensures
        json_content(r) == JsonView::Null,
{
    Value::Null
}

/// `Value::from` of a truth value gives the JSON value for it.
#[verifier::external_body]
pub(crate) fn json_bool(b: bool) -> (r: Value)
    ensures
        json_content(r) == JsonView::Bool(b),
{
    Value::from(b)
}

/// `Value::from` of an integer gives the JSON number for it.
#[verifier::external_body]
pub(crate) fn json_int(n: i64) -> (r: Value)
    ensures
        json_content(r) == JsonView::Int(n as int),
{
    Value::from(n)
}

/// `Value::from` of a string gives the JSON string for it.
#[verifier::external_body]
pub(crate) fn json_string(s: String) -> (r: Value)
    ensures
        json_content(r) == JsonView::Text(s@),
{
    Value::from(s)
}

/// `Value::from` of a list gives the JSON array of its items.
#[verifier::external_body]
pub(crate) fn json_array(items: Vec<Value>) -> (r: Value)
    ensures
        json_content(r) == JsonView::Array(json_contents(items@)),
{
    Value::from(items)
}

/// `serde_json::Map::new` gives no members.
#[verifier::external_body]
pub(crate) fn json_map_new() -> (r: serde_json::Map<String, Value>)
    ensures
        json_members(r).dom() == Set::<Seq<char>>::empty(),
{
    serde_json::Map::new()
}

/// `serde_json::Map::insert` adds a member, in place of one with the same key.
#[verifier::external_body]
pub(crate) fn json_map_insert(m: &mut serde_json::Map<String, Value>, key: String, value: Value)
    ensures
        json_members(*final(m)) == json_members(*old(m)).insert(key@, json_content(value)),
{
    m.insert(key, value);
}

/// `Value::from` of members gives the JSON object with these.
#[verifier::external_body]
pub(crate) fn json_object(m: serde_json::Map<String, Value>) -> (r: Value)
    ensures
        json_content(r) == JsonView::Object(json_members(m)),
{
    Value::from(m)
}

/// What a text holds, if it is a JSON text.
pub uninterp spec fn json_parsed(text: Seq<char>) -> Option<JsonView>;

/// `serde_json::from_str` reads a JSON text. What it reads depends on the text
/// alone; which texts it takes is left unsaid.
#[verifier::external_body]
pub(crate) fn json_parse(text: &str) -> (r: Option<Value>)
    ensures
        json_parsed(text@) == match r {
            Some(v) => Some(json_content(v)),
            None => None,
        },
{
    serde_json::from_str(text).ok()
}

/// A JSON value as text.
pub uninterp spec fn json_shown(v: JsonView) -> Seq<char>;

/// `Value::to_string` writes a JSON value. What it writes depends on what the
/// value holds alone.
#[verifier::external_body]
pub(crate) fn json_text(v: &Value) -> (r: String)
    ensures
        r@ == json_shown(json_content(*v)),
{
    v.to_string()
}

} // verus!
