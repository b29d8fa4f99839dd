//! JSON values as the parser hands them out.

use vstd::prelude::*;

verus! {

/// `serde_json::Error`, carried from the parser to the caller unread.
#[verifier::external_type_specification]
#[verifier::external_body]
pub struct ExJsonError(serde_json::Error);

/// `serde_json::Value`, carried from the parser to the caller unread.
#[verifier::external_type_specification]
#[verifier::external_body]
pub struct ExJsonValue(serde_json::Value);

/// `serde_json::Map`, a JSON object.
#[verifier::external_type_specification]
#[verifier::external_body]
#[verifier::reject_recursive_types(K)]
#[verifier::reject_recursive_types(V)]
pub struct ExJsonMap<K, V>(serde_json::Map<K, V>);

/// Number of members of a JSON object.
pub uninterp spec fn json_len(map: serde_json::Map<String, serde_json::Value>) -> nat;

/// `serde_json::Map::new`: an object without members.
#[verifier::external_body]
pub(crate) fn empty_object() -> (map: serde_json::Map<String, serde_json::Value>)
    ensures
        json_len(map) == 0,
{
    serde_json::Map::new()
}

/// `serde_json::Map::clone`: an object with the same members.
#[verifier::external_body]
pub(crate) fn clone_object(map: &serde_json::Map<String, serde_json::Value>) -> (copy:
    serde_json::Map<String, serde_json::Value>)
    ensures
        copy == *map,
{
    map.clone()
}

/// What `serde_json::from_slice` makes of a text when it is asked for a
/// `serde_json::Value`.
pub uninterp spec fn json_value(text: Seq<u8>) -> Result<serde_json::Value, serde_json::Error>;

/// `serde_json::from_slice` into a `serde_json::Value`: a fixed function of
/// the bytes it is given.
#[verifier::external_body]
pub(crate) fn parse_value(text: &[u8]) -> (r: Result<serde_json::Value, serde_json::Error>)
    ensures
        r == json_value(text@),
{
    serde_json::from_slice(text)
}

} // verus!
