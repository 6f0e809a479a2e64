//! JSON values that the library carries and builds without looking inside them.

use vstd::prelude::*;

verus! {

#[verifier::external_type_specification]
#[verifier::external_body]
pub struct ExJsonValue(serde_json::Value);

/// `serde_json::Value::clone`. The impl is derived in serde_json, so the copy is the same
/// JSON value as the one copied.
#[verifier::external_body]
pub(crate) fn copy_json(v: &serde_json::Value) -> (r: serde_json::Value)
    ensures
        r == *v,
{
    v.clone()
}

/// Copies an optional JSON value.
pub fn copy_opt_json(v: &Option<serde_json::Value>) -> (r: Option<serde_json::Value>)
    ensures
        r == *v,
{
    match v {
        Some(j) => Some(copy_json(j)),
        None => None,
    }
}

/// The JSON string holding the given text.
pub uninterp spec fn json_text(s: Seq<char>) -> serde_json::Value;

/// The JSON array of strings holding the given texts, in order.
pub uninterp spec fn json_text_array(items: Seq<Seq<char>>) -> serde_json::Value;

/// The JSON object built from the given key-value pairs (a later pair wins over an earlier
/// one with the same key).
pub uninterp spec fn json_object_of(pairs: Seq<(Seq<char>, serde_json::Value)>) -> serde_json::Value;

/// The member of a JSON value under a key: `Null` where the value is not an object or has
/// no such member.
pub uninterp spec fn json_member(v: serde_json::Value, key: Seq<char>) -> serde_json::Value;

/// The element of a JSON value at an index: `Null` where the value is not an array or is
/// shorter.
pub uninterp spec fn json_element(v: serde_json::Value, i: nat) -> serde_json::Value;

/// The text of a JSON string; none for any other value.
pub uninterp spec fn json_str_of(v: serde_json::Value) -> Option<Seq<char>>;

/// The count held by a JSON number that is a whole number from 0 to `u64::MAX`; none for
/// any other value.
pub uninterp spec fn json_u64_of(v: serde_json::Value) -> Option<u64>;

/// `serde_json::Value::from(String)`, which makes `Value::String`; the value is named by
/// `json_text` of the text.
#[verifier::external_body]
pub(crate) fn json_string(s: String) -> (r: serde_json::Value)
    ensures
        r == json_text(s@),
{
    serde_json::Value::from(s)
}

/// `serde_json::Value::from(Vec<String>)`, which makes a `Value::Array` of strings; the value
/// is named by `json_text_array` of the texts.
#[verifier::external_body]
pub(crate) fn json_string_array(items: Vec<String>) -> (r: serde_json::Value)
    ensures
        r == json_text_array(items@.map_values(|s: String| s@)),
{
    serde_json::Value::from(items)
}

/// `serde_json::Value::from_iter` over key-value pairs, which makes a `Value::Object`; the
/// value is named by `json_object_of` of the pairs.
#[verifier::external_body]
pub(crate) fn json_object(pairs: Vec<(String, serde_json::Value)>) -> (r: serde_json::Value)
    ensures
        r == json_object_of(pairs@.map_values(|p: (String, serde_json::Value)| (p.0@, p.1))),
{
    <serde_json::Value as std::iter::FromIterator<(String, serde_json::Value)>>::from_iter(pairs)
}

} // verus!
