//! Parsing, by `serde_json`.
//!
//! The crate parses the text into its own `Value`; this module walks that
//! value once and hands on a `JsonValue`.  The declarations up to `members`
//! are believed, not proved: each restates what `serde_json` documents.

use crate::json::{item_trees, member_trees, Json, JsonValue};
use vstd::prelude::*;

verus! {

/// `serde_json::Value`, a parsed JSON value.  Nothing is known of what is in
/// one but through `json_of`.
#[verifier::external_type_specification]
#[verifier::external_body]
pub struct ExValue(serde_json::Value);

/// `serde_json::Map`, the members of a JSON object.  Nothing is known of
/// what is in one but through `members_of`.
#[verifier::external_type_specification]
#[verifier::external_body]
#[verifier::reject_recursive_types(K)]
#[verifier::reject_recursive_types(V)]
pub struct ExMap<K, V>(serde_json::Map<K, V>);

/// `serde_json::Error`, why a text could not be parsed.  Nothing is known of
/// one but its message, through `error_text`.
#[verifier::external_type_specification]
#[verifier::external_body]
pub struct ExError(serde_json::Error);

/// The tree that a `serde_json::Value` holds: the text of a `String`, the
/// items of an `Array`, the members of an `Object`, and `Other` for `Null`,
/// `Bool` and `Number`.
pub uninterp spec fn json_of(value: serde_json::Value) -> Json;

/// The members that a `serde_json::Map` holds, in the order of `Map::iter`.
pub uninterp spec fn members_of(map: serde_json::Map<String, serde_json::Value>) -> Seq<
    (Seq<char>, Json),
>;

/// What `serde_json::from_str` makes of a text: the tree of the value, or the
/// message of the error.
pub uninterp spec fn parse_outcome(text: Seq<char>) -> Result<Json, Seq<char>>;

/// The text that `Display` gives for a `serde_json::Error`.
pub uninterp spec fn error_text(error: serde_json::Error) -> Seq<char>;

/// The trees of a sequence of values.
pub open spec fn jsons_of(values: Seq<serde_json::Value>) -> Seq<Json> {
    values.map_values(|v: serde_json::Value| json_of(v))
}

/// Members as `Map::iter` hands them out, read as keys with trees.
pub open spec fn members_view(members: Seq<(&String, &serde_json::Value)>) -> Seq<
    (Seq<char>, Json),
> {
    members.map_values(|m: (&String, &serde_json::Value)| ((*m.0)@, json_of(*m.1)))
}

/// `serde_json::from_str::<Value>`: parses a whole text as one JSON value.
/// The outcome depends on the text alone.
#[verifier::external_body]
fn parse(text: &str) -> (r: Result<serde_json::Value, serde_json::Error>)
    ensures
        match r {
            Ok(value) => parse_outcome(text@) == Ok::<Json, Seq<char>>(json_of(value)),
            Err(error) => parse_outcome(text@) == Err::<Json, Seq<char>>(error_text(error)),
        },
{
    serde_json::from_str::<serde_json::Value>(text)
}

/// `Display` for `serde_json::Error`, through `to_string`.
#[verifier::external_body]
fn message(error: &serde_json::Error) -> (r: String)
    ensures
        r@ == error_text(*error),
{
    error.to_string()
}

/// `Value::as_str`: the text of a string value, `None` for any other value.
pub assume_specification[ serde_json::Value::as_str ](value: &serde_json::Value) -> (r: Option<
    &str,
>)
    ensures
        match r {
            Some(text) => json_of(*value) == Json::Text(text@),
            None => !(json_of(*value) is Text),
        },
;

/// `Value::as_array`: the items of an array value, `None` for any other
/// value.
pub assume_specification[ serde_json::Value::as_array ](value: &serde_json::Value) -> (r: Option<
    &Vec<serde_json::Value>,
>)
    ensures
        match r {
            Some(items) => json_of(*value) == Json::Array(jsons_of(items@)),
            None => !(json_of(*value) is Array),
        },
;

/// `Value::as_object`: the map of an object value, `None` for any other
/// value.
pub assume_specification[ serde_json::Value::as_object ](value: &serde_json::Value) -> (r: Option<
    &serde_json::Map<String, serde_json::Value>,
>)
    ensures
        match r {
            Some(map) => json_of(*value) == Json::Object(members_of(*map)),
            None => !(json_of(*value) is Object),
        },
;

/// `Map::iter`, collected: the members of a map in iteration order, each a
/// key with its value.
#[verifier::external_body]
fn members<'a>(map: &'a serde_json::Map<String, serde_json::Value>) -> (r: Vec<
    (&'a String, &'a serde_json::Value),
>)
    ensures
        members_of(*map) == members_view(r@),
{
    map.iter().collect()
}

/// Copies what a parsed value holds into a `JsonValue`.
fn lift(value: &serde_json::Value) -> (r: JsonValue)
    ensures
        r@ == json_of(*value),
    decreases json_of(*value),
{
    if let Some(text) = value.as_str() {
        return JsonValue::Text(text.to_owned());
    }
    if let Some(items) = value.as_array() {
        let mut lifted: Vec<JsonValue> = Vec::new();
        let mut i: usize = 0;
        while i < items.len()
            invariant
                i <= items.len(),
                json_of(*value) == Json::Array(jsons_of(items@)),
                lifted@.len() == i,
                forall|k: int| 0 <= k < i ==> (#[trigger] lifted@[k])@ == json_of(items@[k]),
            decreases items.len() - i,
        {
            proof {
                let whole = json_of(*value);
                let trees = jsons_of(items@);
                assert(trees[i as int] == json_of(items@[i as int]));
                assert(decreases_to!(whole => whole->Array_0));
                assert(decreases_to!(trees => trees[i as int]));
            }
            lifted.push(lift(&items[i]));
            i += 1;
        }
        assert(item_trees(lifted@) =~= jsons_of(items@));
        return JsonValue::Array(lifted);
    }
    if let Some(map) = value.as_object() {
        let entries = members(map);
        let mut lifted: Vec<(String, JsonValue)> = Vec::new();
        let mut i: usize = 0;
        while i < entries.len()
            invariant
                i <= entries.len(),
                json_of(*value) == Json::Object(members_view(entries@)),
                lifted@.len() == i,
                forall|k: int|
                    0 <= k < i ==> ((#[trigger] lifted@[k]).0@, lifted@[k].1@) == members_view(
                        entries@,
                    )[k],
            decreases entries.len() - i,
        {
            let entry = &entries[i];
            proof {
                let whole = json_of(*value);
                let pairs = members_view(entries@);
                assert(pairs[i as int] == ((*entry.0)@, json_of(*entry.1)));
                assert(decreases_to!(whole => whole->Object_0));
                assert(decreases_to!(pairs => pairs[i as int]));
                assert(decreases_to!(pairs[i as int] => pairs[i as int].1));
            }
            lifted.push((entry.0.clone(), lift(entry.1)));
            i += 1;
        }
        assert(member_trees(lifted@) =~= members_view(entries@));
        return JsonValue::Object(lifted);
    }
    JsonValue::Other
}

/// Parses `source` as one JSON value.  The tree of the value, or else the
/// message, is what `serde_json::from_str` makes of the text.
pub fn parse_json(source: &str) -> (r: Result<JsonValue, String>)
    ensures
        match r {
            Ok(value) => parse_outcome(source@) == Ok::<Json, Seq<char>>(value@),
            Err(text) => parse_outcome(source@) == Err::<Json, Seq<char>>(text@),
        },
{
    match parse(source) {
        Ok(value) => Ok(lift(&value)),
        Err(error) => Err(message(&error)),
    }
}

} // verus!
