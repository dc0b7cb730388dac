//! A plain model of JSON documents, and the calls into `serde_json` that read one.

use vstd::prelude::*;

verus! {

/// What a JSON value holds, as far as this library reads it.
pub enum JsonNode {
    Null,
    Bool(bool),
    Number,
    Str(Seq<char>),
    Array(Seq<JsonNode>),
    Object(Map<Seq<char>, JsonNode>),
}

#[verifier::external_type_specification]
#[verifier::external_body]
pub struct ExJsonValue(serde_json::Value);

/// The document that `serde_json::from_str` reads out of a text, or `None` where the text is
/// not JSON.
pub uninterp spec fn json_document(text: Seq<char>) -> Option<JsonNode>;

/// The contents of a `serde_json::Value`.
pub uninterp spec fn json_contents(v: serde_json::Value) -> JsonNode;

/// The member `key` of an object; `None` for a missing member and for a node that is no
/// object.
pub open spec fn member(n: JsonNode, key: Seq<char>) -> Option<JsonNode> {
    match n {
        JsonNode::Object(m) => if m.contains_key(key) {
            Some(m[key])
        } else {
            None
        },
        _ => None,
    }
}

/// The text of a string node.
pub open spec fn as_text(n: JsonNode) -> Option<Seq<char>> {
    match n {
        JsonNode::Str(s) => Some(s),
        _ => None,
    }
}

/// The items of an array node.
pub open spec fn as_items(n: JsonNode) -> Option<Seq<JsonNode>> {
    match n {
        JsonNode::Array(a) => Some(a),
        _ => None,
    }
}

/// Calls `serde_json::from_str::<serde_json::Value>`. The contract claims that the call
/// succeeds on the texts that hold a JSON document and gives a value with that document's
/// contents; what the document of a text is, is left to the name `json_document`.
#[verifier::external_body]
pub(crate) fn json_from_str(text: &str) -> (r: Option<serde_json::Value>)
    ensures
        r is Some <==> json_document(text@) is Some,
        r matches Some(v) ==> json_contents(v) == json_document(text@)->0,
{
    serde_json::from_str(text).ok()
}

/// Calls `serde_json::Value::get` with a string key. The contract claims what the crate's
/// source does: the member of that name of an object, and `None` for a missing member or a
/// value that is no object.
#[verifier::external_body]
pub(crate) fn json_get<'a>(v: &'a serde_json::Value, key: &str) -> (r: Option<&'a serde_json::Value>)
    ensures
        r is Some <==> member(json_contents(*v), key@) is Some,
        r matches Some(x) ==> json_contents(*x) == member(json_contents(*v), key@)->0,
{
    v.get(key)
}

/// Calls `serde_json::Value::as_str`: the text of a string value, `None` for any other value.
#[verifier::external_body]
pub(crate) fn json_as_str(v: &serde_json::Value) -> (r: Option<&str>)
    ensures
        r is Some <==> as_text(json_contents(*v)) is Some,
        r matches Some(t) ==> t@ == as_text(json_contents(*v))->0,
{
    v.as_str()
}

/// Calls `serde_json::Value::as_array`: the items of an array value, `None` for any other
/// value.
#[verifier::external_body]
pub(crate) fn json_as_array(v: &serde_json::Value) -> (r: Option<&Vec<serde_json::Value>>)
    ensures
        r is Some <==> as_items(json_contents(*v)) is Some,
        r matches Some(a) ==> {
            &&& a@.len() == as_items(json_contents(*v))->0.len()
            &&& forall|i: int|
                0 <= i < a@.len() ==> json_contents(#[trigger] a@[i]) == as_items(
                    json_contents(*v),
                )->0[i]
        },
{
    v.as_array()
}

} // verus!
