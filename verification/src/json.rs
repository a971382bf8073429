//! JSON values, as far as the loader reads them.

use vstd::prelude::*;

verus! {

/// A JSON value as a tree of plain values.
pub enum Json {
    /// A string.
    Text(Seq<char>),
    /// An array, with its items in order.
    Array(Seq<Json>),
    /// An object, with its members in the order in which they are enumerated.
    Object(Seq<(Seq<char>, Json)>),
    /// `null`, a boolean or a number.
    Other,
}

/// A JSON value.  Strings, arrays and objects are held in full; of any other
/// value only that it is none of these.
#[derive(Debug, PartialEq, Eq)]
pub enum JsonValue {
    /// A string.
    Text(String),
    /// An array, with its items in order.
    Array(Vec<JsonValue>),
    /// An object, with its members in order, each a key with its value.
    Object(Vec<(String, JsonValue)>),
    /// `null`, a boolean or a number.
    Other,
}

/// The tree that a value stands for.
pub open spec fn tree_of(value: JsonValue) -> Json
    decreases value,
{
    match value {
        JsonValue::Text(text) => Json::Text(text@),
        JsonValue::Array(items) => Json::Array(item_trees(items@)),
        JsonValue::Object(members) => Json::Object(member_trees(members@)),
        JsonValue::Other => Json::Other,
    }
}

/// The trees of the items of an array, in their order.
pub open spec fn item_trees(items: Seq<JsonValue>) -> Seq<Json>
    decreases items,
{
    Seq::new(
        items.len(),
        |i: int|
            if 0 <= i < items.len() {
                tree_of(items[i])
            } else {
                arbitrary()
            },
    )
}

/// The members of an object, in their order, each a key with the tree of its
/// value.
pub open spec fn member_trees(members: Seq<(String, JsonValue)>) -> Seq<(Seq<char>, Json)>
    decreases members,
{
    Seq::new(
        members.len(),
        |i: int|
            if 0 <= i < members.len() {
                (members[i].0@, tree_of(members[i].1))
            } else {
                arbitrary()
            },
    )
}

impl View for JsonValue {
    type V = Json;

    open spec fn view(&self) -> Json {
        tree_of(*self)
    }
}

} // verus!
