//! Reading and writing documents as JSON text and as BSON.
//!
//! The functions here hand the work to `serde_json` and `bson`. Nothing is
//! proved of them: their contracts name what those crates return, and state
//! the two facts that the rest of the library relies on: the members of a
//! decoded object have distinct names, and writing a value does not fail.

use crate::value::{Json, Node, Number, views, well_formed};
use vstd::prelude::*;

verus! {

/// `serde_json::Value`, which is carried through and never looked into.
#[verifier::external_type_specification]
#[verifier::external_body]
pub struct ExJsonValue(serde_json::Value);

/// What `serde_json::from_str` makes of a text: the value, or the message of
/// its error.
pub uninterp spec fn json_decoded(text: Seq<char>) -> Result<Json, Seq<char>>;

/// What `serde_json::to_string` writes for a value.
pub uninterp spec fn json_encoded(value: Json) -> Seq<char>;

/// What `bson::decode_document` finds in a byte stream: the values of the
/// document's elements in order, or the message of its error.
pub uninterp spec fn bson_decoded(data: Seq<char>) -> Result<Seq<Json>, Seq<char>>;

/// Converts a `serde_json::Value` into a `Node`, node for node. An integer
/// keeps its value; any other number is held by the text that
/// `serde_json::Number` displays for it.
#[verifier::external_body]
fn from_serde(json: serde_json::Value) -> Node {
    match json {
        serde_json::Value::Null => Node::Null,
        serde_json::Value::Bool(b) => Node::Bool(b),
        serde_json::Value::Number(n) => Node::Number(
            n.as_u64().map(Number::PosInt).or(n.as_i64().map(Number::NegInt)).unwrap_or_else(
                || Number::Float(n.to_string()),
            ),
        ),
        serde_json::Value::String(s) => Node::String(s),
        serde_json::Value::Array(items) => Node::Array(items.into_iter().map(from_serde).collect()),
        serde_json::Value::Object(map) => Node::Object(
            map.into_iter().map(|(k, v)| (k, from_serde(v))).collect(),
        ),
    }
}

/// Converts a number into a `serde_json::Value`. The text of a number that
/// is no integer is read back by `serde_json::from_str`; a text that it
/// refuses becomes null.
#[verifier::external_body]
fn number_to_serde(number: &Number) -> serde_json::Value {
    match number {
        Number::PosInt(u) => serde_json::Value::Number((*u).into()),
        Number::NegInt(i) => serde_json::Value::Number((*i).into()),
        Number::Float(s) => serde_json::from_str::<serde_json::Number>(s).map(
            serde_json::Value::Number,
        ).unwrap_or(serde_json::Value::Null),
    }
}

/// Converts a `Node` into a `serde_json::Value`, node for node.
#[verifier::external_body]
fn to_serde(value: &Node) -> serde_json::Value {
    match value {
        Node::Null => serde_json::Value::Null,
        Node::Bool(b) => serde_json::Value::Bool(*b),
        Node::Number(n) => number_to_serde(n),
        Node::String(s) => serde_json::Value::String(s.clone()),
        Node::Array(items) => serde_json::Value::Array(items.iter().map(to_serde).collect()),
        Node::Object(members) => serde_json::Value::Object(
            members.iter().map(|(k, v)| (k.clone(), to_serde(v))).collect(),
        ),
    }
}

/// Calls `serde_json::from_str` for a `serde_json::Value`. The result is the
/// decoded value, or the text of the error. The members of every object in
/// a decoded value have distinct names, since `serde_json::Map` keeps one
/// entry for each key.
#[verifier::external_body]
pub(crate) fn json_decode(text: &str) -> (r: Result<Node, String>)
    ensures
        match r {
            Ok(v) => json_decoded(text@) == Ok::<Json, Seq<char>>(v@) && well_formed(v@),
            Err(m) => json_decoded(text@) == Err::<Json, Seq<char>>(m@),
        },
{
    serde_json::from_str::<serde_json::Value>(text).map(from_serde).map_err(|e| e.to_string())
}

/// Calls `serde_json::to_string` on a value. The result is the text that it
/// writes. It gives no error: it writes into memory, and it fails only for
/// what a `serde_json::Value` cannot hold, a map whose keys are no strings.
#[verifier::external_body]
fn json_encode(value: &Node) -> (r: Result<String, String>)
    ensures
        r is Ok,
        r->Ok_0@ == json_encoded(value@),
{
    serde_json::to_string(&to_serde(value)).map_err(|e| e.to_string())
}

/// The JSON text of a value.
pub fn encode(value: &Node) -> (s: String)
    ensures
        s@ == json_encoded(value@),
{
    match json_encode(value) {
        Ok(s) => s,
        Err(m) => m,
    }
}

/// Calls `bson::decode_document` on the bytes of a text. The result holds the
/// values of the document's elements in order, each converted to JSON as
/// `bson` converts it, or the text of the error. The members of every object
/// in them have distinct names.
#[verifier::external_body]
pub(crate) fn bson_decode(data: &str) -> (r: Result<Vec<Node>, String>)
    ensures
        match r {
            Ok(vs) => bson_decoded(data@) == Ok::<Seq<Json>, Seq<char>>(views(vs@))
                && forall|i: int| 0 <= i < vs.len() ==> well_formed(#[trigger] vs[i]@),
            Err(m) => bson_decoded(data@) == Err::<Seq<Json>, Seq<char>>(m@),
        },
{
    bson::decode_document(&mut std::io::Cursor::new(data.as_bytes())).map(
        |doc| doc.into_iter().map(|(_, b)| from_serde(b.into())).collect(),
    ).map_err(|e| e.to_string())
}

} // verus!
