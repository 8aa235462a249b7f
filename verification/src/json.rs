//! JSON values: what is read from `serde_json` and built with it.
//!
//! Everything in this file that is marked `external_body` or
//! `assume_specification` is a claim about `serde_json` that is not proved here.

use vstd::prelude::*;
use vstd::string::*;

verus! {

/// A JSON value of `serde_json`, whose content is seen through [`json_tree`].
#[verifier::external_type_specification]
#[verifier::external_body]
pub struct ExJsonValue(serde_json::Value);

/// The content of a JSON value. A number is given by the text that `serde_json`
/// writes for it.
#[verifier::ext_equal]
pub enum JsonTree {
    Null,
    Bool(bool),
    Number(Seq<char>),
    Text(Seq<char>),
    List(Seq<JsonTree>),
    Object(Map<Seq<char>, JsonTree>),
}

/// What a JSON value holds.
pub uninterp spec fn json_tree(value: serde_json::Value) -> JsonTree;

/// What `serde_json` reads from a text, if it is JSON.
pub uninterp spec fn json_parsed(text: Seq<char>) -> Option<JsonTree>;

/// The compact text that `serde_json` writes for a content.
pub uninterp spec fn json_text(tree: JsonTree) -> Seq<char>;

impl JsonTree {
    /// The member of an object, if this is an object that has it.
    pub open spec fn member(self, key: Seq<char>) -> Option<JsonTree> {
        match self {
            JsonTree::Object(fields) => if fields.contains_key(key) {
                Some(fields[key])
            } else {
                None
            },
            _ => None,
        }
    }

    /// The element of a list, if this is a list that is long enough.
    pub open spec fn element(self, index: int) -> Option<JsonTree> {
        match self {
            JsonTree::List(items) => if 0 <= index < items.len() {
                Some(items[index])
            } else {
                None
            },
            _ => None,
        }
    }

    /// The characters, if this is a text.
    pub open spec fn as_text(self) -> Option<Seq<char>> {
        match self {
            JsonTree::Text(s) => Some(s),
            _ => None,
        }
    }

    /// The truth value, if this is one.
    pub open spec fn as_truth(self) -> Option<bool> {
        match self {
            JsonTree::Bool(b) => Some(b),
            _ => None,
        }
    }
}

/// The content of an optional JSON value.
pub open spec fn tree_of(value: Option<&serde_json::Value>) -> Option<JsonTree> {
    match value {
        Some(v) => Some(json_tree(*v)),
        None => None,
    }
}

/// The characters of an optional text.
pub open spec fn chars_of_option(text: Option<&str>) -> Option<Seq<char>> {
    match text {
        Some(s) => Some(s@),
        None => None,
    }
}

/// The content of an optional JSON value.
pub open spec fn owned_tree(value: Option<serde_json::Value>) -> Option<JsonTree> {
    match value {
        Some(v) => Some(json_tree(v)),
        None => None,
    }
}

/// Whether a text is a digit, a point and a digit.
pub open spec fn is_tenths(text: Seq<char>) -> bool {
    text.len() == 3 && '0' <= text[0] <= '9' && text[1] == '.' && '0' <= text[2] <= '9'
}

/// An object with the given members; of two with one name the later counts.
pub open spec fn object_of(fields: Seq<(Seq<char>, JsonTree)>) -> Map<Seq<char>, JsonTree>
    decreases fields.len(),
{
    if fields.len() == 0 {
        Map::empty()
    } else {
        object_of(fields.drop_last()).insert(fields.last().0, fields.last().1)
    }
}

/// The names and contents of a list of members.
pub open spec fn fields_of(fields: Seq<(String, serde_json::Value)>) -> Seq<(Seq<char>, JsonTree)> {
    Seq::new(fields.len(), |i: int| (fields[i].0@, json_tree(fields[i].1)))
}

/// The contents of a list of JSON values.
pub open spec fn trees_of(items: Seq<serde_json::Value>) -> Seq<JsonTree> {
    Seq::new(items.len(), |i: int| json_tree(items[i]))
}

/// `serde_json::from_str` into a `Value`: whether a text is JSON, and what it
/// holds, depends on the text alone. A digit, a point and a digit are a number
/// that is written back with the same three characters.
#[verifier::external_body]
pub(crate) fn parse_json(text: &str) -> (value: Option<serde_json::Value>)
    ensures
        owned_tree(value) == json_parsed(text@),
        is_tenths(text@) ==> owned_tree(value) == Some(JsonTree::Number(text@)),
{
    serde_json::from_str(text).ok()
}

/// `Value::get` with a name: the member of an object, and nothing of a value
/// that is no object or has no such member.
#[verifier::external_body]
pub(crate) fn json_member<'a>(value: &'a serde_json::Value, key: &str) -> (member: Option<
    &'a serde_json::Value,
>)
    ensures
        tree_of(member) == json_tree(*value).member(key@),
{
    value.get(key)
}

/// `Value::get` with a position: the element of a list, and nothing of a value
/// that is no list or is too short.
#[verifier::external_body]
pub(crate) fn json_element<'a>(value: &'a serde_json::Value, index: usize) -> (element: Option<
    &'a serde_json::Value,
>)
    ensures
        tree_of(element) == json_tree(*value).element(index as int),
{
    value.get(index)
}

/// `Value::as_str`: the characters of a text, and nothing of any other value.
pub assume_specification[ serde_json::Value::as_str ](value: &serde_json::Value) -> (text: Option<
    &str,
>)
    ensures
        chars_of_option(text) == json_tree(*value).as_text(),
;

/// `Value::as_bool`: a truth value, and nothing of any other value.
pub assume_specification[ serde_json::Value::as_bool ](value: &serde_json::Value) -> (truth: Option<
    bool,
>)
    ensures
        truth == json_tree(*value).as_truth(),
;

/// `Value::from` a text.
#[verifier::external_body]
pub(crate) fn json_string(text: &str) -> (value: serde_json::Value)
    ensures
        json_tree(value) == JsonTree::Text(text@),
{
    serde_json::Value::from(text)
}

/// `Value::from` a truth value.
#[verifier::external_body]
pub(crate) fn json_bool(truth: bool) -> (value: serde_json::Value)
    ensures
        json_tree(value) == JsonTree::Bool(truth),
{
    serde_json::Value::from(truth)
}

/// `Value::from` a list: a list of the same values in the same order.
#[verifier::external_body]
pub(crate) fn json_list(items: Vec<serde_json::Value>) -> (value: serde_json::Value)
    ensures
        json_tree(value) == JsonTree::List(trees_of(items@)),
{
    serde_json::Value::from(items)
}

/// `Value` collected from pairs of a name and a value: an object with these
/// members, where the later of two with one name counts.
#[verifier::external_body]
pub(crate) fn json_object(fields: Vec<(String, serde_json::Value)>) -> (value: serde_json::Value)
    ensures
        json_tree(value) == JsonTree::Object(object_of(fields_of(fields@))),
{
    fields.into_iter().collect()
}

/// `to_string` of a `Value`: compact JSON, which depends on the content alone
/// (the members of an object are written in the order of their names).
#[verifier::external_body]
pub(crate) fn json_written(value: &serde_json::Value) -> (text: String)
    ensures
        text@ == json_text(json_tree(*value)),
{
    value.to_string()
}

/// An object with one member.
pub(crate) fn single_object(name: &str, value: serde_json::Value) -> (object: serde_json::Value)
    ensures
        json_tree(object) == JsonTree::Object(object_of(seq![(name@, json_tree(value))])),
{
    let mut fields: Vec<(String, serde_json::Value)> = Vec::new();
    fields.push((name.to_string(), value));
    assert(fields_of(fields@) =~= seq![(name@, json_tree(value))]);
    json_object(fields)
}

/// An object with two members.
pub(crate) fn pair_object(
    name: &str,
    value: serde_json::Value,
    second_name: &str,
    second_value: serde_json::Value,
) -> (object: serde_json::Value)
    ensures
        json_tree(object) == JsonTree::Object(
            object_of(seq![(name@, json_tree(value)), (second_name@, json_tree(second_value))]),
        ),
{
    let mut fields: Vec<(String, serde_json::Value)> = Vec::new();
    fields.push((name.to_string(), value));
    fields.push((second_name.to_string(), second_value));
    assert(fields_of(fields@) =~= seq![
        (name@, json_tree(value)),
        (second_name@, json_tree(second_value)),
    ]);
    json_object(fields)
}

/// An object holds the members that it was made of, each under its name, and no
/// others.
pub proof fn law_objects_hold_their_members(fields: Seq<(Seq<char>, JsonTree)>)
    requires
        forall|i: int, j: int|
            0 <= i < j < fields.len() ==> (#[trigger] fields[i]).0 != (#[trigger] fields[j]).0,
    ensures
        forall|i: int|
            0 <= i < fields.len() ==> JsonTree::Object(object_of(fields)).member(
                (#[trigger] fields[i]).0,
            ) == Some(fields[i].1),
        forall|name: Seq<char>|
            (forall|i: int| 0 <= i < fields.len() ==> (#[trigger] fields[i]).0 != name) ==> (
            #[trigger] JsonTree::Object(object_of(fields)).member(name)) is None,
    decreases fields.len(),
{
    let all = JsonTree::Object(object_of(fields));
    if fields.len() > 0 {
        let front = fields.drop_last();
        assert forall|i: int, j: int| 0 <= i < j < front.len() implies (#[trigger] front[i]).0 != (
        #[trigger] front[j]).0 by {
            assert(front[i] == fields[i] && front[j] == fields[j]);
        }
        law_objects_hold_their_members(front);
        let before = JsonTree::Object(object_of(front));
        assert forall|i: int| 0 <= i < fields.len() implies all.member((#[trigger] fields[i]).0)
            == Some(fields[i].1) by {
            if i < front.len() {
                assert(front[i] == fields[i]);
                assert(before.member(front[i].0) == Some(front[i].1));
                assert(fields[i].0 != fields[fields.len() - 1].0);
            }
        }
        assert forall|name: Seq<char>|
            (forall|i: int| 0 <= i < fields.len() ==> (#[trigger] fields[i]).0 != name) implies (
        #[trigger] all.member(name)) is None by {
            assert(fields[fields.len() - 1].0 != name);
            assert forall|i: int| 0 <= i < front.len() implies (#[trigger] front[i]).0 != name by {
                assert(front[i] == fields[i]);
            }
            assert(before.member(name) is None);
        }
    }
}

/// Members and elements are seen as they are, one by one.
pub proof fn law_values_are_seen_whole(
    fields: Seq<(String, serde_json::Value)>,
    items: Seq<serde_json::Value>,
    i: int,
)
    ensures
        fields_of(fields).len() == fields.len(),
        0 <= i < fields.len() ==> fields_of(fields)[i] == (fields[i].0@, json_tree(fields[i].1)),
        trees_of(items).len() == items.len(),
        0 <= i < items.len() ==> trees_of(items)[i] == json_tree(items[i]),
{
}

} // verus!
