//! JSON values of `serde_json`: what they hold, and JSON text through them.
//!
//! `display_text` and `serialized_text` name texts that depend on the contents
//! of a value alone. For objects that holds while `serde_json::Map` is a
//! `BTreeMap`, which writes its keys in ascending order. With the feature
//! `preserve_order` of `serde_json` it would write them in the order in which
//! they were inserted, and what `value_to_string` and `value_serialized` claim
//! would be false: the feature must stay off in every build with this library.
use crate::json::{fields, insert_field, tree, trees, Json, JsonTree};
use crate::ordered::ascending;
use vstd::prelude::*;

verus! {

broadcast use crate::json::trees_push;

/// `serde_json::Number` is carried through and never read.
#[verifier::external_type_specification]
#[verifier::external_body]
pub struct ExNumber(serde_json::Number);

/// `serde_json::Value`; `value_tree` names what it holds.
#[verifier::external_type_specification]
#[verifier::external_body]
pub struct ExValue(serde_json::Value);

/// `serde_json::Map`; `map_fields` names what it holds.
#[verifier::external_type_specification]
#[verifier::external_body]
#[verifier::reject_recursive_types(K)]
#[verifier::reject_recursive_types(V)]
pub struct ExMap<K, V>(serde_json::Map<K, V>);

/// The contents of a `serde_json::Value`.
pub uninterp spec fn value_tree(value: serde_json::Value) -> JsonTree;

/// The contents of a `serde_json::Map`: each key with the tree of its value.
pub uninterp spec fn map_fields(map: serde_json::Map<String, serde_json::Value>) -> Map<
    Seq<char>,
    JsonTree,
>;

/// What `serde_json::from_str` makes of a text: a value, or the words of its
/// error.
pub uninterp spec fn parsed_tree(raw: Seq<char>) -> Result<JsonTree, Seq<char>>;

/// The text that `serde_json::Value` displays as.
pub uninterp spec fn display_text(tree: JsonTree) -> Seq<char>;

/// The text that `serde_json::to_string` writes for a value.
pub uninterp spec fn serialized_text(tree: JsonTree) -> Seq<char>;

/// One level of a `serde_json::Value`, variant by variant.
pub enum Shape {
    Null,
    Bool(bool),
    Number(serde_json::Number),
    Text(String),
    Array(Vec<serde_json::Value>),
    Object(serde_json::Map<String, serde_json::Value>),
}

/// The contents of each value of a sequence.
pub open spec fn value_trees(values: Seq<serde_json::Value>) -> Seq<JsonTree> {
    values.map_values(|value: serde_json::Value| value_tree(value))
}

/// The contents of a value with this shape.
pub open spec fn shape_tree(shape: Shape) -> JsonTree {
    match shape {
        Shape::Null => JsonTree::Null,
        Shape::Bool(value) => JsonTree::Bool(value),
        Shape::Number(number) => JsonTree::Number(number),
        Shape::Text(text) => JsonTree::Text(text@),
        Shape::Array(values) => JsonTree::Array(value_trees(values@)),
        Shape::Object(map) => JsonTree::Object(map_fields(map)),
    }
}

/// The fields of an object without any.
pub open spec fn no_fields() -> Map<Seq<char>, JsonTree> {
    Map::empty()
}

/// What a parse gave: contents, or the words of the error.
pub open spec fn value_outcome(parsed: Result<serde_json::Value, String>) -> Result<
    JsonTree,
    Seq<char>,
> {
    match parsed {
        Ok(value) => Ok(value_tree(value)),
        Err(words) => Err(words@),
    }
}

/// `serde_json::Number::clone`: the clone is the same number.
#[verifier::external_body]
pub(crate) fn copy_number(number: &serde_json::Number) -> (copy: serde_json::Number)
    ensures
        copy == *number,
{
    number.clone()
}

/// Takes a `serde_json::Value` apart: the shape holds what the value held.
#[verifier::external_body]
pub(crate) fn open_value(value: serde_json::Value) -> (shape: Shape)
    ensures
        shape_tree(shape) == value_tree(value),
{
    match value {
        serde_json::Value::Null => Shape::Null,
        serde_json::Value::Bool(value) => Shape::Bool(value),
        serde_json::Value::Number(number) => Shape::Number(number),
        serde_json::Value::String(text) => Shape::Text(text),
        serde_json::Value::Array(values) => Shape::Array(values),
        serde_json::Value::Object(map) => Shape::Object(map),
    }
}

/// Makes a `serde_json::Value`: the value holds what the shape held.
#[verifier::external_body]
pub(crate) fn close_value(shape: Shape) -> (value: serde_json::Value)
    ensures
        value_tree(value) == shape_tree(shape),
{
    match shape {
        Shape::Null => serde_json::Value::Null,
        Shape::Bool(value) => serde_json::Value::Bool(value),
        Shape::Number(number) => serde_json::Value::Number(number),
        Shape::Text(text) => serde_json::Value::String(text),
        Shape::Array(values) => serde_json::Value::Array(values),
        Shape::Object(map) => serde_json::Value::Object(map),
    }
}

/// `serde_json::Map::new`: the new map has no keys.
#[verifier::external_body]
pub(crate) fn empty_map() -> (map: serde_json::Map<String, serde_json::Value>)
    ensures
        map_fields(map) == no_fields(),
{
    serde_json::Map::new()
}

/// `serde_json::Map::insert`: the key has the value afterwards and every other
/// key is as before; the value that the key had is returned.
#[verifier::external_body]
pub(crate) fn insert_into_map(
    map: &mut serde_json::Map<String, serde_json::Value>,
    key: String,
    value: serde_json::Value,
) -> (previous: Option<serde_json::Value>)
    ensures
        map_fields(*final(map)) == map_fields(*old(map)).insert(key@, value_tree(value)),
        match previous {
            Some(was) => map_fields(*old(map)).contains_key(key@) && map_fields(*old(map))[key@]
                == value_tree(was),
            None => !map_fields(*old(map)).contains_key(key@),
        },
{
    map.insert(key, value)
}

/// `serde_json::Map::into_iter`, collected: each entry is a key of the map with
/// its value, and every key of the map has an entry.
#[verifier::external_body]
pub(crate) fn map_entries(map: serde_json::Map<String, serde_json::Value>) -> (entries: Vec<
    (String, serde_json::Value),
>)
    ensures
        forall|i: int|
            0 <= i < entries@.len() ==> {
                &&& map_fields(map).contains_key((#[trigger] entries@[i]).0@)
                &&& map_fields(map)[entries@[i].0@] == value_tree(entries@[i].1)
            },
        forall|key: Seq<char>| #[trigger]
            map_fields(map).contains_key(key) ==> exists|i: int|
                0 <= i < entries@.len() && (#[trigger] entries@[i]).0@ == key,
{
    map.into_iter().collect()
}

/// `serde_json::from_str` for a `serde_json::Value`: the value, or the words of
/// the error, that the text determines.
#[verifier::external_body]
pub(crate) fn value_from_str(raw: &str) -> (parsed: Result<serde_json::Value, String>)
    ensures
        value_outcome(parsed) == parsed_tree(raw@),
{
    serde_json::from_str(raw).map_err(|err| err.to_string())
}

/// `to_string` of a `serde_json::Value`: the text that its contents determine.
/// It is never empty: a string has its quotes, an array and an object have
/// their brackets, and the other values have at least one character.
#[verifier::external_body]
pub(crate) fn value_to_string(value: &serde_json::Value) -> (text: String)
    ensures
        text@ == display_text(value_tree(*value)),
        text@.len() > 0,
{
    value.to_string()
}

/// `serde_json::to_string` of a `serde_json::Value`: never an error, for the
/// keys of a map are strings and the output is held in memory.
#[verifier::external_body]
pub(crate) fn value_serialized(value: &serde_json::Value) -> (written: Result<String, String>)
    ensures
        written is Ok,
        written->Ok_0@ == serialized_text(value_tree(*value)),
{
    serde_json::to_string(value).map_err(|err| err.to_string())
}

/// What a parse gave: a tree, or the words of the error.
pub open spec fn parse_outcome(parsed: Result<Json, String>) -> Result<JsonTree, Seq<char>> {
    match parsed {
        Ok(json) => Ok(json@),
        Err(words) => Err(words@),
    }
}

/// The library's value for a value of `serde_json`.
pub fn import(value: serde_json::Value) -> (json: Json)
    ensures
        json@ == value_tree(value),
    decreases value_tree(value),
{
    match open_value(value) {
        Shape::Null => Json::Null,
        Shape::Bool(value) => Json::Bool(value),
        Shape::Number(number) => Json::Number(number),
        Shape::Text(text) => Json::Text(text),
        Shape::Array(values) => {
            let mut items: Vec<Json> = Vec::new();
            for item in iter: values
                invariant
                    value_tree(value) == JsonTree::Array(value_trees(values@)),
                    iter.seq() == values@,
                    trees(items@) == value_trees(values@).take(iter.index() as int),
            {
                assert(value_tree(item) == value_trees(values@)[iter.index() as int]);
                assert(decreases_to!(value_tree(value) => value_tree(value)->Array_0));
                assert(decreases_to!(
                    value_tree(value)->Array_0 => value_tree(value)->Array_0[iter.index() as int]
                ));
                items.push(import(item));
                assert(value_trees(values@).take(iter.index() + 1) =~= value_trees(values@).take(
                    iter.index() as int,
                ).push(value_tree(item)));
            }
            assert(value_trees(values@).take(values@.len() as int) =~= value_trees(values@));
            Json::Array(items)
        },
        Shape::Object(map) => {
            let entries = map_entries(map);
            let ghost expected = map_fields(map);
            proof {
                let keys = entries@.map_values(|entry: (String, serde_json::Value)| entry.0@);
                vstd::seq_lib::seq_to_set_is_finite(keys);
                assert forall|key: Seq<char>| expected.contains_key(key) implies keys.to_set().contains(
                    key,
                ) by {
                    let i = choose|i: int|
                        0 <= i < entries@.len() && (#[trigger] entries@[i]).0@ == key;
                    assert(keys[i] == key);
                }
                assert(expected.dom().subset_of(keys.to_set()));
                vstd::set_lib::lemma_set_subset_finite(keys.to_set(), expected.dom());
            }
            let mut kept: Vec<(String, Json)> = Vec::new();
            for entry in iter: entries
                invariant
                    value_tree(value) == JsonTree::Object(expected),
                    expected.dom().finite(),
                    iter.seq() == entries@,
                    forall|i: int|
                        0 <= i < entries@.len() ==> {
                            &&& expected.contains_key((#[trigger] entries@[i]).0@)
                            &&& expected[entries@[i].0@] == value_tree(entries@[i].1)
                        },
                    ascending(kept@),
                    forall|key: Seq<char>| #[trigger]
                        fields(kept@).contains_key(key) ==> expected.contains_key(key)
                            && fields(kept@)[key] == expected[key],
                    forall|i: int|
                        0 <= i < iter.index() ==> fields(kept@).contains_key(
                            (#[trigger] entries@[i]).0@,
                        ),
            {
                assert(entry == entries@[iter.index() as int]);
                assert(decreases_to!(value_tree(value) => value_tree(value)->Object_0));
                assert(decreases_to!(expected => expected[entry.0@]));
                insert_field(&mut kept, entry.0.as_str(), import(entry.1));
            }
            assert(fields(kept@) =~= expected);
            Json::Object(kept)
        },
    }
}

/// The value of `serde_json` for a value of the library.
pub fn export(json: &Json) -> (value: serde_json::Value)
    ensures
        value_tree(value) == json@,
    decreases json,
{
    match json {
        Json::Null => close_value(Shape::Null),
        Json::Bool(value) => close_value(Shape::Bool(*value)),
        Json::Number(number) => close_value(Shape::Number(copy_number(number))),
        Json::Text(text) => close_value(Shape::Text(text.clone())),
        Json::Array(items) => {
            let mut values: Vec<serde_json::Value> = Vec::new();
            let mut i: usize = 0;
            while i < items.len()
                invariant
                    i <= items.len(),
                    *json is Array,
                    *items == json->Array_0,
                    value_trees(values@) == trees(items@.take(i as int)),
                decreases items.len() - i,
            {
                assert(decreases_to!(*json => json->Array_0));
                assert(decreases_to!(json->Array_0 => json->Array_0@));
                assert(decreases_to!(json->Array_0@ => json->Array_0@[i as int]));
                let value = export(&items[i]);
                assert(items@.take(i + 1) =~= items@.take(i as int).push(items@[i as int]));
                assert(value_trees(values@.push(value)) =~= value_trees(values@).push(
                    value_tree(value),
                ));
                values.push(value);
                i += 1;
            }
            assert(items@.take(items@.len() as int) =~= items@);
            close_value(Shape::Array(values))
        },
        Json::Object(entries) => {
            let mut map = empty_map();
            let mut i: usize = 0;
            while i < entries.len()
                invariant
                    i <= entries.len(),
                    *json is Object,
                    *entries == json->Object_0,
                    map_fields(map) == fields(entries@.take(i as int)),
                decreases entries.len() - i,
            {
                assert(decreases_to!(*json => json->Object_0));
                assert(decreases_to!(json->Object_0 => json->Object_0@));
                assert(decreases_to!(json->Object_0@ => json->Object_0@[i as int]));
                assert(decreases_to!(json->Object_0@[i as int] => json->Object_0@[i as int].1));
                let _ = insert_into_map(&mut map, entries[i].0.clone(), export(&entries[i].1));
                assert(entries@.take(i + 1).drop_last() =~= entries@.take(i as int));
                i += 1;
            }
            assert(entries@.take(entries@.len() as int) =~= entries@);
            close_value(Shape::Object(map))
        },
    }
}

/// Reads a JSON text.
pub fn parse(raw: &str) -> (parsed: Result<Json, String>)
    ensures
        parse_outcome(parsed) == parsed_tree(raw@),
{
    match value_from_str(raw) {
        Ok(value) => Ok(import(value)),
        Err(words) => Err(words),
    }
}

/// The text that a value displays as; it is never empty.
pub fn display(json: &Json) -> (text: String)
    ensures
        text@ == display_text(json@),
        text@.len() > 0,
{
    let value = export(json);
    value_to_string(&value)
}

/// Writes a value as JSON text.
pub fn serialize(json: &Json) -> (written: Result<String, String>)
    ensures
        written matches Ok(text) && text@ == serialized_text(json@),
{
    let value = export(json);
    value_serialized(&value)
}

} // verus!
