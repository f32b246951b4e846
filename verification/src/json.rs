//! Response bodies: JSON objects whose members are strings.

use crate::fields::{Pair, StringMap};
use vstd::prelude::*;

verus! {

/// The compact JSON text of the object whose members are `members`.
pub uninterp spec fn json_object_text(members: Seq<Pair>) -> Seq<char>;

/// Collects the pairs into a `serde_json::Value::Object`, each value as a
/// `serde_json::Value::String`, and writes it with the `to_string` that
/// `serde_json` gives a `Value`. The text is the one that the name
/// `json_object_text` stands for; of an object without members it is `{}`.
#[verifier::external_body]
fn serialize_object(members: &Vec<(String, String)>) -> (text: String)
    ensures
        text@ == json_object_text(members.deep_view()),
        members@.len() == 0 ==> text@ == seq!['{', '}'],
{
    let object: serde_json::Value = members.iter().cloned().collect();
    object.to_string()
}

/// A JSON object whose members are strings.
pub type JsonObject = StringMap;

/// The JSON text of `object`, as `serde_json` writes it.
pub fn json_text(object: &JsonObject) -> (text: String)
    ensures
        text@ == json_object_text(object@),
        object@.len() == 0 ==> text@ == seq!['{', '}'],
{
    serialize_object(object.as_vec())
}

/// The JSON text of the object without members.
pub fn empty_object_text() -> (text: String)
    ensures
        text@ == json_object_text(Seq::<Pair>::empty()),
        text@ == seq!['{', '}'],
{
    let object = JsonObject::new();
    json_text(&object)
}

} // verus!
