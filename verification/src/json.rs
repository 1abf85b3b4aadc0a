//! JSON values as the library holds them, and the trees they stand for.
use crate::codec::copy_number;
use crate::ordered::{ascending, entry_map, find_entry, insert_entry};
use vstd::prelude::*;

verus! {

/// A JSON value. An object is a list of entries, of which the last one with a
/// key counts; `Json::object` and `insert_field` keep the keys in ascending
/// order.
#[derive(Debug, PartialEq)]
pub enum Json {
    Null,
    Bool(bool),
    Number(serde_json::Number),
    Text(String),
    Array(Vec<Json>),
    Object(Vec<(String, Json)>),
}

/// What a JSON value is: an object is the map from its keys to their values.
#[verifier::ext_equal]
pub enum JsonTree {
    Null,
    Bool(bool),
    Number(serde_json::Number),
    Text(Seq<char>),
    Array(Seq<JsonTree>),
    Object(Map<Seq<char>, JsonTree>),
}

impl View for Json {
    type V = JsonTree;

    open spec fn view(&self) -> JsonTree {
        tree(*self)
    }
}

/// What a JSON value is.
pub open spec fn tree(json: Json) -> JsonTree
    decreases json,
{
    match json {
        Json::Null => JsonTree::Null,
        Json::Bool(value) => JsonTree::Bool(value),
        Json::Number(number) => JsonTree::Number(number),
        Json::Text(text) => JsonTree::Text(text@),
        Json::Array(items) => JsonTree::Array(trees(items@)),
        Json::Object(entries) => JsonTree::Object(fields(entries@)),
    }
}

/// What each value of a sequence is.
pub open spec fn trees(items: Seq<Json>) -> Seq<JsonTree>
    decreases items,
{
    Seq::new(items.len(), |i: int| if 0 <= i < items.len() { tree(items[i]) } else { arbitrary() })
}

/// The map that the entries of an object make.
pub open spec fn fields(entries: Seq<(String, Json)>) -> Map<Seq<char>, JsonTree>
    decreases entries,
{
    if entries.len() == 0 {
        Map::empty()
    } else {
        fields(entries.drop_last()).insert(entries.last().0@, tree(entries.last().1))
    }
}

/// The tree of an optional value.
pub open spec fn optional_tree(json: Option<Json>) -> Option<JsonTree> {
    match json {
        Some(json) => Some(json@),
        None => None,
    }
}

/// The tree of an optional text: null where there is none.
pub open spec fn text_or_null(text: Option<String>) -> JsonTree {
    match text {
        Some(text) => JsonTree::Text(text@),
        None => JsonTree::Null,
    }
}

/// The trees of a sequence of values, one by one.
pub broadcast proof fn trees_at(items: Seq<Json>, i: int)
    requires
        0 <= i < items.len(),
    ensures
        #[trigger] trees(items)[i] == tree(items[i]),
{
}

/// There are as many trees as values.
pub broadcast proof fn trees_len(items: Seq<Json>)
    ensures
        #[trigger] trees(items).len() == items.len(),
{
}

/// One value more is one tree more.
pub broadcast proof fn trees_push(items: Seq<Json>, item: Json)
    ensures
        #[trigger] trees(items.push(item)) == trees(items).push(tree(item)),
{
    broadcast use trees_at, trees_len;

    assert(trees(items.push(item)) =~= trees(items).push(tree(item)));
}

/// The map of an object has the trees of the values that its entries map to.
pub proof fn fields_are_trees(entries: Seq<(String, Json)>)
    ensures
        fields(entries) == entry_map(entries).map_values(|json: Json| tree(json)),
    decreases entries.len(),
{
    if entries.len() > 0 {
        fields_are_trees(entries.drop_last());
    }
    assert(fields(entries) =~= entry_map(entries).map_values(|json: Json| tree(json)));
}

impl Clone for Json {
    /// The same value once more.
    fn clone(&self) -> (copy: Self)
        ensures
            copy@ == self@,
        decreases self,
    {
        match self {
            Json::Null => Json::Null,
            Json::Bool(value) => Json::Bool(*value),
            Json::Number(number) => Json::Number(copy_number(number)),
            Json::Text(text) => Json::Text(text.clone()),
            Json::Array(items) => {
                let mut copies: Vec<Json> = Vec::new();
                let mut i: usize = 0;
                while i < items.len()
                    invariant
                        i <= items.len(),
                        *self is Array,
                        *items == self->Array_0,
                        trees(copies@) == trees(items@.take(i as int)),
                    decreases items.len() - i,
                {
                    assert(decreases_to!(*self => self->Array_0));
                    assert(decreases_to!(self->Array_0 => self->Array_0@));
                    assert(decreases_to!(self->Array_0@ => self->Array_0@[i as int]));
                    let copy = items[i].clone();
                    proof {
                        trees_push(copies@, copy);
                        trees_push(items@.take(i as int), items@[i as int]);
                        assert(items@.take(i + 1) =~= items@.take(i as int).push(items@[i as int]));
                    }
                    copies.push(copy);
                    i += 1;
                }
                assert(items@.take(items@.len() as int) =~= items@);
                Json::Array(copies)
            },
            Json::Object(entries) => {
                let mut copies: Vec<(String, Json)> = Vec::new();
                let mut i: usize = 0;
                while i < entries.len()
                    invariant
                        i <= entries.len(),
                        *self is Object,
                        *entries == self->Object_0,
                        fields(copies@) == fields(entries@.take(i as int)),
                    decreases entries.len() - i,
                {
                    let ghost before = copies@;
                    assert(decreases_to!(*self => self->Object_0));
                    assert(decreases_to!(self->Object_0 => self->Object_0@));
                    assert(decreases_to!(self->Object_0@ => self->Object_0@[i as int]));
                    assert(decreases_to!(
                        self->Object_0@[i as int] => self->Object_0@[i as int].1
                    ));
                    copies.push((entries[i].0.clone(), entries[i].1.clone()));
                    assert(copies@.drop_last() =~= before);
                    assert(entries@.take(i + 1).drop_last() =~= entries@.take(i as int));
                    i += 1;
                }
                assert(entries@.take(entries@.len() as int) =~= entries@);
                Json::Object(copies)
            },
        }
    }
}

/// Sets a field of an object under construction.
pub fn insert_field(entries: &mut Vec<(String, Json)>, key: &str, value: Json)
    requires
        ascending(old(entries)@),
    ensures
        ascending(final(entries)@),
        fields(final(entries)@) == fields(old(entries)@).insert(key@, value@),
{
    let _ = insert_entry(entries, key.to_string(), value);
    proof {
        fields_are_trees(old(entries)@);
        fields_are_trees(entries@);
        assert(fields(entries@) =~= fields(old(entries)@).insert(key@, value@));
    }
}

/// The value of a field of an object.
pub fn find_field<'a>(entries: &'a Vec<(String, Json)>, key: &str) -> (found: Option<&'a Json>)
    ensures
        match found {
            Some(value) => fields(entries@).contains_key(key@) && fields(entries@)[key@] == value@,
            None => !fields(entries@).contains_key(key@),
        },
{
    proof {
        fields_are_trees(entries@);
    }
    find_entry(entries, key)
}

/// A text as a value.
pub fn text_json(value: &str) -> (json: Json)
    ensures
        json@ == JsonTree::Text(value@),
{
    Json::Text(value.to_string())
}

/// An optional text as a value: null where there is none.
pub fn optional_json(value: &Option<String>) -> (json: Json)
    ensures
        json@ == text_or_null(*value),
{
    match value {
        Some(value) => Json::Text(value.clone()),
        None => Json::Null,
    }
}

/// An object with one field.
pub fn object1(key: &str, value: Json) -> (json: Json)
    ensures
        json@ == JsonTree::Object(map![key@ => value@]),
{
    let mut entries: Vec<(String, Json)> = Vec::new();
    insert_field(&mut entries, key, value);
    Json::Object(entries)
}

/// An object with two fields.
pub fn object2(key1: &str, value1: Json, key2: &str, value2: Json) -> (json: Json)
    ensures
        json@ == JsonTree::Object(map![key1@ => value1@, key2@ => value2@]),
{
    let mut entries: Vec<(String, Json)> = Vec::new();
    insert_field(&mut entries, key1, value1);
    insert_field(&mut entries, key2, value2);
    Json::Object(entries)
}

/// An object with three fields.
pub fn object3(
    key1: &str,
    value1: Json,
    key2: &str,
    value2: Json,
    key3: &str,
    value3: Json,
) -> (json: Json)
    ensures
        json@ == JsonTree::Object(map![key1@ => value1@, key2@ => value2@, key3@ => value3@]),
{
    let mut entries: Vec<(String, Json)> = Vec::new();
    insert_field(&mut entries, key1, value1);
    insert_field(&mut entries, key2, value2);
    insert_field(&mut entries, key3, value3);
    Json::Object(entries)
}

/// An array with one item.
pub fn array1(item: Json) -> (json: Json)
    ensures
        json@ == JsonTree::Array(seq![item@]),
{
    let items = vec![item];
    assert(trees(items@) =~= seq![item@]) by {
        broadcast use trees_at, trees_len;

    }
    Json::Array(items)
}

/// The same values once more.
pub fn copy_items(items: &Vec<Json>) -> (copies: Vec<Json>)
    ensures
        trees(copies@) == trees(items@),
{
    let mut copies: Vec<Json> = Vec::new();
    let mut i: usize = 0;
    while i < items.len()
        invariant
            i <= items.len(),
            trees(copies@) == trees(items@.take(i as int)),
        decreases items.len() - i,
    {
        let copy = items[i].clone();
        proof {
            trees_push(copies@, copy);
            trees_push(items@.take(i as int), items@[i as int]);
            assert(items@.take(i + 1) =~= items@.take(i as int).push(items@[i as int]));
        }
        copies.push(copy);
        i += 1;
    }
    assert(items@.take(items@.len() as int) =~= items@);
    copies
}

impl Json {
    /// The object that a list of fields makes, with the keys in ascending
    /// order: of two fields with one key, the later one counts.
    pub fn object(entries: Vec<(String, Json)>) -> (json: Json)
        ensures
            json@ == JsonTree::Object(fields(entries@)),
            json matches Json::Object(kept) && ascending(kept@),
    {
        let mut kept: Vec<(String, Json)> = Vec::new();
        let mut i: usize = 0;
        while i < entries.len()
            invariant
                i <= entries.len(),
                ascending(kept@),
                fields(kept@) == fields(entries@.take(i as int)),
            decreases entries.len() - i,
        {
            insert_field(&mut kept, entries[i].0.as_str(), entries[i].1.clone());
            assert(entries@.take(i + 1).drop_last() =~= entries@.take(i as int));
            i += 1;
        }
        assert(entries@.take(entries@.len() as int) =~= entries@);
        Json::Object(kept)
    }
}

} // verus!
