//! JSON objects.

use serde_json::{Map as JsonMap, Value};
use vstd::prelude::*;

verus! {

/// `serde_json::Map`, an object.
#[verifier::external_type_specification]
#[verifier::external_body]
#[verifier::reject_recursive_types(K)]
#[verifier::reject_recursive_types(V)]
pub struct ExJsonMap<K, V>(serde_json::Map<K, V>);

/// `serde_json::Value`, a value.
#[verifier::external_type_specification]
#[verifier::external_body]
pub struct ExJsonValue(serde_json::Value);

/// A JSON value.
pub enum JsonView {
    /// A whole number.
    Number(u64),
    /// A string.
    Text(Seq<char>),
    /// An object.
    Object(Map<Seq<char>, JsonView>),
    /// A list of objects.
    List(Seq<Map<Seq<char>, JsonView>>),
    /// Any other value, by its JSON text.
    Other(Seq<char>),
}

/// What an object holds.
pub uninterp spec fn object_entries(map: JsonMap<String, Value>) -> Map<Seq<char>, JsonView>;

/// The JSON text of an object.
pub uninterp spec fn object_text(entries: Map<Seq<char>, JsonView>) -> Seq<char>;

/// The JSON text of a value.
pub uninterp spec fn value_text(value: Value) -> Seq<char>;

/// `serde_json::Value::Null`: the value whose text is `null`.
#[verifier::external_body]
pub(crate) fn null_value() -> (r: Value)
    ensures
        value_text(r) == "null"@,
{
    Value::Null
}

/// `serde_json::Value::clone`: a value with the same text.
#[verifier::external_body]
pub(crate) fn copy_value(value: &Value) -> (r: Value)
    ensures
        value_text(r) == value_text(*value),
{
    value.clone()
}

/// The entries of an object that holds nothing.
pub open spec fn no_entries() -> Map<Seq<char>, JsonView> {
    Map::empty()
}

/// A value to put into an object.
pub enum Json {
    /// A whole number.
    Number(u64),
    /// A string.
    Text(String),
    /// An object.
    Object(JsonMap<String, Value>),
    /// A list of objects.
    List(Vec<JsonMap<String, Value>>),
}

/// What objects hold.
pub open spec fn objects(list: Seq<JsonMap<String, Value>>) -> Seq<Map<Seq<char>, JsonView>> {
    list.map_values(|m: JsonMap<String, Value>| object_entries(m))
}

impl View for Json {
    type V = JsonView;

    open spec fn view(&self) -> JsonView {
        match *self {
            Json::Number(n) => JsonView::Number(n),
            Json::Text(s) => JsonView::Text(s@),
            Json::Object(m) => JsonView::Object(object_entries(m)),
            Json::List(l) => JsonView::List(objects(l@)),
        }
    }
}

/// `serde_json::Map::new`: an object that holds nothing.
#[verifier::external_body]
pub(crate) fn new_object() -> (r: JsonMap<String, Value>)
    ensures
        object_entries(r) == no_entries(),
{
    JsonMap::new()
}

/// `serde_json::Map::insert`: puts a value under a key, in place of the one
/// that may have stood there; the rest stays as it is.
#[verifier::external_body]
pub(crate) fn put(map: &mut JsonMap<String, Value>, key: &str, value: Json)
    ensures
        object_entries(*final(map)) == object_entries(*old(map)).insert(key@, value@),
{
    let value = match value {
        Json::Number(n) => Value::from(n),
        Json::Text(s) => Value::from(s),
        Json::Object(m) => Value::Object(m),
        Json::List(l) => Value::from(l),
    };
    map.insert(key.to_string(), value);
}

/// `serde_json::Map::is_empty`: whether an object holds nothing.
#[verifier::external_body]
pub(crate) fn is_empty_object(map: &JsonMap<String, Value>) -> (r: bool)
    ensures
        r == (object_entries(*map) == no_entries()),
{
    map.is_empty()
}

/// `Display` of `serde_json::Value`: the JSON text of an object on one line.
/// Objects keep their entries in the order of the keys, so the text depends on
/// nothing but the entries. How it is written is left to the function.
#[verifier::external_body]
pub(crate) fn write_object(map: JsonMap<String, Value>) -> (r: String)
    ensures
        r@ == object_text(object_entries(map)),
{
    Value::Object(map).to_string()
}

/// `serde_json::Error`, why something is no JSON.
#[verifier::external_type_specification]
#[verifier::external_body]
pub struct ExJsonError(serde_json::Error);

/// The JSON text of an object on several lines.
pub uninterp spec fn object_lines(entries: Map<Seq<char>, JsonView>) -> Seq<char>;

/// `serde_json::to_string_pretty`: the JSON text of an object on several
/// lines. It fails on keys that are no text, which an object has not. The text
/// depends on nothing but the entries; how it is written is left to the
/// function.
#[verifier::external_body]
pub(crate) fn write_pretty(map: JsonMap<String, Value>) -> (r: Result<String, serde_json::Error>)
    ensures
        r is Ok,
        r->Ok_0@ == object_lines(object_entries(map)),
{
    serde_json::to_string_pretty(&Value::Object(map))
}

/// The object with one more text, where there is one.
pub open spec fn with_text(
    m: Map<Seq<char>, JsonView>,
    key: Seq<char>,
    value: Seq<char>,
) -> Map<Seq<char>, JsonView> {
    if value.len() == 0 {
        m
    } else {
        m.insert(key, JsonView::Text(value))
    }
}

/// The object with one more number, unless that is zero.
pub open spec fn with_number(
    m: Map<Seq<char>, JsonView>,
    key: Seq<char>,
    value: u64,
) -> Map<Seq<char>, JsonView> {
    if value == 0 {
        m
    } else {
        m.insert(key, JsonView::Number(value))
    }
}

/// The object that holds these texts.
pub open spec fn texts_object(texts: Map<Seq<char>, Seq<char>>) -> Map<Seq<char>, JsonView> {
    texts.map_values(|v: Seq<char>| JsonView::Text(v))
}

/// Puts a text that is not empty.
pub(crate) fn put_text(map: &mut JsonMap<String, Value>, key: &str, value: &str)
    ensures
        object_entries(*final(map)) == with_text(object_entries(*old(map)), key@, value@),
{
    if !value.is_empty() {
        put(map, key, Json::Text(value.to_string()));
    }
}

/// Puts a number that is not zero.
pub(crate) fn put_number(map: &mut JsonMap<String, Value>, key: &str, value: u64)
    ensures
        object_entries(*final(map)) == with_number(object_entries(*old(map)), key@, value),
{
    if value != 0 {
        put(map, key, Json::Number(value));
    }
}

/// A text that is empty and a number that is zero are left out; others are found
/// under their keys, and what was there stays.
pub proof fn law_what_says_nothing_is_left_out(
    m: Map<Seq<char>, JsonView>,
    key: Seq<char>,
    text: Seq<char>,
    number: u64,
    other: Seq<char>,
)
    ensures
        with_text(m, key, Seq::empty()) == m,
        with_number(m, key, 0) == m,
        text.len() > 0 ==> with_text(m, key, text).contains_pair(key, JsonView::Text(text)),
        number > 0 ==> with_number(m, key, number).contains_pair(key, JsonView::Number(number)),
        other != key ==> with_text(m, key, text)[other] == m[other],
        other != key ==> with_number(m, key, number)[other] == m[other],
        other != key ==> with_text(m, key, text).contains_key(other) == m.contains_key(other),
        other != key ==> with_number(m, key, number).contains_key(other) == m.contains_key(other),
{
}

/// An object of texts has each of them as a text under its key.
pub proof fn law_texts_stay_texts(texts: Map<Seq<char>, Seq<char>>, key: Seq<char>)
    ensures
        texts_object(texts).dom() == texts.dom(),
        texts.contains_key(key) ==> texts_object(texts)[key] == JsonView::Text(texts[key]),
{
    assert(texts_object(texts).dom() =~= texts.dom());
}

} // verus!
