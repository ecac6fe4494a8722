//! What is read off JSON values, which `serde_json` parses.
use vstd::prelude::*;
use vstd::string::*;

use crate::text;

verus! {

/// A JSON value of `serde_json`; nothing is known of what is inside it but by
/// the functions below.
#[verifier::external_type_specification]
#[verifier::external_body]
pub struct ExValue(serde_json::Value);

/// The members of a JSON value by their names: those of an object, and none of
/// any other value.
pub uninterp spec fn json_members(value: serde_json::Value) -> Map<Seq<char>, serde_json::Value>;

/// The text of a JSON value that is a string.
pub uninterp spec fn json_string(value: serde_json::Value) -> Option<Seq<char>>;

/// The number that a JSON value is, if it is an unsigned integer of 64 bits.
pub uninterp spec fn json_u64(value: serde_json::Value) -> Option<u64>;

/// The JSON value that a text is, if it is one.
pub uninterp spec fn json_parsed(text: Seq<char>) -> Option<serde_json::Value>;

/// Calls `serde_json::Value::get` with a string: gives the member of that name
/// where the value is an object that has one, and nothing otherwise.
#[verifier::external_body]
pub(crate) fn member<'a>(value: &'a serde_json::Value, key: &str) -> (r: Option<
    &'a serde_json::Value,
>)
    ensures
        r is Some <==> json_members(*value).contains_key(key@),
        r is Some ==> *r->0 == json_members(*value)[key@],
{
    value.get(key)
}

/// `serde_json::Value::as_str` gives the text of a value that is a string, and
/// nothing for any other.
pub assume_specification[ serde_json::Value::as_str ](value: &serde_json::Value) -> (r: Option<&str>)
    ensures
        r is Some <==> json_string(*value) is Some,
        r is Some ==> r->0@ == json_string(*value)->0,
;

/// `serde_json::Value::as_u64` gives the number of a value that is an unsigned
/// integer of 64 bits, and nothing for any other.
pub assume_specification[ serde_json::Value::as_u64 ](value: &serde_json::Value) -> (r: Option<u64>)
    ensures
        r == json_u64(*value),
;

/// Calls `serde_json::from_str` for a value of any kind: gives the value that
/// the text is, and nothing where the text is not JSON. What the value of a
/// given text is, is left to the parser.
#[verifier::external_body]
pub(crate) fn parse(text: &str) -> (r: Option<serde_json::Value>)
    ensures
        r == json_parsed(text@),
{
    serde_json::from_str::<serde_json::Value>(text).ok()
}

/// The text of the member named `key`, if it is a string.
pub open spec fn string_member(value: serde_json::Value, key: Seq<char>) -> Option<Seq<char>> {
    if json_members(value).contains_key(key) {
        json_string(json_members(value)[key])
    } else {
        None
    }
}

/// The number of the member named `key`, if it is an unsigned integer.
pub open spec fn number_member(value: serde_json::Value, key: Seq<char>) -> Option<u64> {
    if json_members(value).contains_key(key) {
        json_u64(json_members(value)[key])
    } else {
        None
    }
}

/// The text of the member named `key`.
pub fn get_string(value: &serde_json::Value, key: &str) -> (r: Option<String>)
    ensures
        text::opt_view(r) == string_member(*value, key@),
{
    match member(value, key) {
        Some(v) => match v.as_str() {
            Some(s) => Some(String::from_str(s)),
            None => None,
        },
        None => None,
    }
}

/// The number of the member named `key`.
pub fn get_number(value: &serde_json::Value, key: &str) -> (r: Option<u64>)
    ensures
        r == number_member(*value, key@),
{
    match member(value, key) {
        Some(v) => v.as_u64(),
        None => None,
    }
}

} // verus!
