//! Reading the JSON documents that imports and story replies are pasted as.
//!
//! Parsing is serde_json's. What the library needs of a parsed document is its
//! shape: whether it is an array and of which elements, or an object and what
//! kind of value each member holds (for an array, its elements).
//! `cards::extract_array` decides from that shape.
use vstd::prelude::*;

use serde_json::Value;

verus! {

#[verifier::external_type_specification]
#[verifier::external_body]
pub struct ExJsonValue(Value);

#[verifier::external_type_specification]
#[verifier::external_body]
#[verifier::reject_recursive_types(K)]
#[verifier::reject_recursive_types(V)]
pub struct ExJsonMap<K, V>(serde_json::Map<K, V>);

/// What kind of value a member of a JSON object holds.
pub enum JsonKind {
    /// An array of these elements, in order.
    Array(Seq<Value>),
    Object,
    /// `null`, a boolean, a number or a string.
    Scalar,
}

/// The shape of a JSON document.
pub enum JsonDoc {
    /// An array of these elements, in order.
    Array(Seq<Value>),
    /// An object, by the kind of each member's value.
    Object(Map<Seq<char>, JsonKind>),
    /// `null`, a boolean, a number or a string.
    Scalar,
}

/// The shape of what serde_json reads from `text`, or `None` where it reads
/// no JSON document there.
pub uninterp spec fn json_document(text: Seq<char>) -> Option<JsonDoc>;

/// The members of a JSON object, by the kind of value each holds (for an
/// array, its elements in order).
pub uninterp spec fn object_members(map: serde_json::Map<String, Value>) -> Map<
    Seq<char>,
    JsonKind,
>;

/// A JSON value, told apart by what the library looks at.
pub enum JsonNode {
    Array(Vec<Value>),
    Object(serde_json::Map<String, Value>),
    /// Any other value: `null`, a boolean, a number or a string.
    Other(Value),
}

/// The kind of value a node is.
pub open spec fn kind_of(node: JsonNode) -> JsonKind {
    match node {
        JsonNode::Array(items) => JsonKind::Array(items@),
        JsonNode::Object(_) => JsonKind::Object,
        JsonNode::Other(_) => JsonKind::Scalar,
    }
}

/// The shape of a document whose top value is `node`.
pub open spec fn doc_of(node: JsonNode) -> JsonDoc {
    match node {
        JsonNode::Array(items) => JsonDoc::Array(items@),
        JsonNode::Object(map) => JsonDoc::Object(object_members(map)),
        JsonNode::Other(_) => JsonDoc::Scalar,
    }
}

/// Calls `serde_json::from_str::<Value>` and tells the variants of what it
/// read apart, handing back a failure as the error's message. Claimed: the
/// outcome is the document `json_document` names, which depends on the text
/// alone: `Err` where there is none, else a node of that shape, an array
/// holding its elements in document order and an object's map holding that
/// object's members. What the message says is not stated, nor what a scalar
/// or a member that is not an array holds.
#[verifier::external_body]
pub(crate) fn parse_node(text: &str) -> (r: Result<JsonNode, String>)
    ensures
        json_document(text@) == match r {
            Ok(node) => Some(doc_of(node)),
            Err(_) => None::<JsonDoc>,
        },
{
    match serde_json::from_str::<Value>(text) {
        Ok(Value::Array(items)) => Ok(JsonNode::Array(items)),
        Ok(Value::Object(map)) => Ok(JsonNode::Object(map)),
        Ok(other) => Ok(JsonNode::Other(other)),
        Err(e) => Err(e.to_string()),
    }
}

/// Calls `serde_json::Map::remove` and tells the variants of the removed
/// value apart. Claimed, as its documentation says: a value comes back
/// exactly when the key was in the map, it is that member's value (of the
/// member's kind, and an array with the member's elements), and the key is
/// gone afterwards while the other members stay.
#[verifier::external_body]
pub(crate) fn take_entry(map: &mut serde_json::Map<String, Value>, key: &str) -> (r: Option<
    JsonNode,
>)
    ensures
        r is None <==> !object_members(*old(map)).dom().contains(key@),
        r matches Some(node) ==> object_members(*old(map))[key@] == kind_of(node),
        object_members(*final(map)) == object_members(*old(map)).remove(key@),
{
    match map.remove(key) {
        Some(Value::Array(items)) => Some(JsonNode::Array(items)),
        Some(Value::Object(m)) => Some(JsonNode::Object(m)),
        Some(other) => Some(JsonNode::Other(other)),
        None => None,
    }
}

/// A value written into a JSON record: an integer or a text.
#[derive(Debug, Clone)]
pub enum Scalar {
    Int(i64),
    Text(String),
}

/// What a `Scalar` stands for.
pub enum ScalarView {
    Int(int),
    Text(Seq<char>),
}

pub open spec fn scalar_view(v: Scalar) -> ScalarView {
    match v {
        Scalar::Int(n) => ScalarView::Int(n as int),
        Scalar::Text(t) => ScalarView::Text(t@),
    }
}

/// A record's fields, in order, each as its key and what its value stands for.
pub open spec fn record_view(r: Vec<(String, Scalar)>) -> Seq<(Seq<char>, ScalarView)> {
    r@.map_values(|f: (String, Scalar)| (f.0@, scalar_view(f.1)))
}

/// `text` opens with `[` and closes with `]`.
pub open spec fn bracketed(text: Seq<char>) -> bool {
    text.len() >= 2 && text[0] == '[' && text.last() == ']'
}

/// serde_json reads `text` as an array of `n` elements.
pub open spec fn reads_as_array_of(text: Seq<char>, n: nat) -> bool {
    json_document(text) matches Some(JsonDoc::Array(items)) && items.len() == n
}

/// The text serde_json's pretty printer writes for an array of objects, each
/// object's members in the order given.
pub uninterp spec fn pretty_records(records: Seq<Seq<(Seq<char>, ScalarView)>>) -> Seq<char>;

/// Builds a `serde_json::Value` array with one object per record (members in
/// the given order, as `preserve_order` keeps them) and prints it with
/// `serde_json::to_string_pretty`. Claimed: the text is `pretty_records` of
/// the records, which depends on them alone; it opens with `[` and closes
/// with `]`, as the pretty printer writes an array; and serde_json reads it
/// back as an array of as many elements as there are records. Printing a
/// `Value` into memory does not fail (its keys are strings and the writer is
/// a `Vec`), so the empty text given on an error never comes back.
#[verifier::external_body]
pub(crate) fn print_records(records: &Vec<Vec<(String, Scalar)>>) -> (s: String)
    ensures
        s@ == pretty_records(records@.map_values(|r: Vec<(String, Scalar)>| record_view(r))),
        bracketed(s@),
        reads_as_array_of(s@, records@.len()),
{
    let mut values: Vec<Value> = Vec::new();
    for record in records {
        let mut map = serde_json::Map::new();
        for (key, value) in record {
            let v = match value {
                Scalar::Int(n) => Value::from(*n),
                Scalar::Text(t) => Value::from(t.as_str()),
            };
            map.insert(key.clone(), v);
        }
        values.push(Value::Object(map));
    }
    serde_json::to_string_pretty(&values).unwrap_or_default()
}

/// The compact text serde_json writes for a value.
pub uninterp spec fn compact_text(v: Value) -> Seq<char>;

/// Writes a value as compact JSON, by `Value`'s `to_string`. Claimed: the
/// text is `compact_text` of the value, which depends on it alone.
#[verifier::external_body]
pub(crate) fn value_text(v: &Value) -> (s: String)
    ensures
        s@ == compact_text(*v),
{
    v.to_string()
}

} // verus!
