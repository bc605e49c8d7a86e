//! JSON documents, read through serde_json.
//!
//! A parsed value is opaque here; what it holds is named once, and the
//! readers below say what each accessor gives back of it.

use vstd::prelude::*;

verus! {

/// A parsed JSON value of serde_json.
#[verifier::external_type_specification]
#[verifier::external_body]
pub struct ExJsonValue(serde_json::Value);

/// What a JSON value holds. A number is known by its value as an unsigned
/// integer of 64 bits, where it has one.
pub enum JsonTree {
    Null,
    Bool(bool),
    Number(Option<u64>),
    Text(Seq<char>),
    Array(Seq<JsonTree>),
    Object(Map<Seq<char>, JsonTree>),
}

impl JsonTree {
    /// The member of an object by that name.
    pub open spec fn get(self, key: Seq<char>) -> Option<JsonTree> {
        match self {
            JsonTree::Object(members) => if members.contains_key(key) {
                Some(members[key])
            } else {
                None
            },
            _ => None,
        }
    }

    pub open spec fn text(self) -> Option<Seq<char>> {
        match self {
            JsonTree::Text(t) => Some(t),
            _ => None,
        }
    }

    pub open spec fn flag(self) -> Option<bool> {
        match self {
            JsonTree::Bool(b) => Some(b),
            _ => None,
        }
    }

    pub open spec fn unsigned(self) -> Option<u64> {
        match self {
            JsonTree::Number(n) => n,
            _ => None,
        }
    }

    pub open spec fn items(self) -> Option<Seq<JsonTree>> {
        match self {
            JsonTree::Array(items) => Some(items),
            _ => None,
        }
    }
}

/// The text of a member, where it is one.
pub open spec fn text_member(tree: JsonTree, key: Seq<char>) -> Option<Seq<char>> {
    match tree.get(key) {
        Some(m) => m.text(),
        None => None,
    }
}

/// The truth value of a member, where it is one.
pub open spec fn flag_member(tree: JsonTree, key: Seq<char>) -> Option<bool> {
    match tree.get(key) {
        Some(m) => m.flag(),
        None => None,
    }
}

/// The unsigned number of a member, where it is one.
pub open spec fn unsigned_member(tree: JsonTree, key: Seq<char>) -> Option<u64> {
    match tree.get(key) {
        Some(m) => m.unsigned(),
        None => None,
    }
}

/// The items of a member, where it is an array.
pub open spec fn items_member(tree: JsonTree, key: Seq<char>) -> Option<Seq<JsonTree>> {
    match tree.get(key) {
        Some(m) => m.items(),
        None => None,
    }
}

/// The items of a member; none where it is not there or no array.
pub open spec fn listed_member(tree: JsonTree, key: Seq<char>) -> Seq<JsonTree> {
    match items_member(tree, key) {
        Some(items) => items,
        None => Seq::empty(),
    }
}

/// A member is there and is not null.
pub open spec fn present_member(tree: JsonTree, key: Seq<char>) -> bool {
    match tree.get(key) {
        Some(m) => m !is Null,
        None => false,
    }
}

/// What a parsed value holds.
pub uninterp spec fn json_tree(v: serde_json::Value) -> JsonTree;

/// What a text holds, read as a JSON document; nothing where it is none.
pub uninterp spec fn json_document(text: Seq<char>) -> Option<JsonTree>;

/// What the parsed values of an array hold.
pub open spec fn json_trees(vs: Seq<serde_json::Value>) -> Seq<JsonTree> {
    vs.map_values(|v: serde_json::Value| json_tree(v))
}

/// What an optional parsed value holds.
pub open spec fn opt_tree(v: Option<&serde_json::Value>) -> Option<JsonTree> {
    match v {
        Some(w) => Some(json_tree(*w)),
        None => None,
    }
}

/// What the values of an optional array hold.
pub open spec fn opt_trees(vs: Option<&Vec<serde_json::Value>>) -> Option<Seq<JsonTree>> {
    match vs {
        Some(items) => Some(json_trees(items@)),
        None => None,
    }
}

/// `serde_json::from_str` into a `Value`: whether it succeeds, and what the
/// value then holds, is settled by the text.
#[verifier::external_body]
pub(crate) fn parse_json(text: &str) -> (r: Option<serde_json::Value>)
    ensures
        match r {
            Some(v) => json_document(text@) == Some(json_tree(v)),
            None => json_document(text@) is None,
        },
{
    serde_json::from_str(text).ok()
}

/// `serde_json::Value::get` with a string: the member of an object by that
/// name, nothing for any other value.
#[verifier::external_body]
pub(crate) fn member<'a>(v: &'a serde_json::Value, key: &str) -> (r: Option<&'a serde_json::Value>)
    ensures
        opt_tree(r) == json_tree(*v).get(key@),
{
    v.get(key)
}

/// `serde_json::Value::as_str`: the text of a string, nothing for any other
/// value.
#[verifier::external_body]
pub(crate) fn as_text(v: &serde_json::Value) -> (r: Option<&str>)
    ensures
        crate::text::opt_str(r) == json_tree(*v).text(),
{
    v.as_str()
}

/// `serde_json::Value::as_bool`: the truth value of a boolean, nothing for
/// any other value.
#[verifier::external_body]
pub(crate) fn as_flag(v: &serde_json::Value) -> (r: Option<bool>)
    ensures
        r == json_tree(*v).flag(),
{
    v.as_bool()
}

/// `serde_json::Value::as_u64`: the value of a number that is an unsigned
/// integer of 64 bits, nothing for any other value.
#[verifier::external_body]
pub(crate) fn as_unsigned(v: &serde_json::Value) -> (r: Option<u64>)
    ensures
        r == json_tree(*v).unsigned(),
{
    v.as_u64()
}

/// `serde_json::Value::as_array`: the items of an array in order, nothing for
/// any other value.
#[verifier::external_body]
pub(crate) fn as_items(v: &serde_json::Value) -> (r: Option<&Vec<serde_json::Value>>)
    ensures
        opt_trees(r) == json_tree(*v).items(),
{
    v.as_array()
}

/// `serde_json::Value::is_null`: true of null alone.
#[verifier::external_body]
pub(crate) fn is_null(v: &serde_json::Value) -> (r: bool)
    ensures
        r == (json_tree(*v) is Null),
{
    v.is_null()
}

/// The text of a member, where it is one.
pub fn member_text(v: &serde_json::Value, key: &str) -> (r: Option<String>)
    ensures
        crate::text::opt_text(r) == text_member(json_tree(*v), key@),
{
    match member(v, key) {
        Some(m) => crate::text::owned(as_text(m)),
        None => None,
    }
}

/// The truth value of a member, where it is one.
pub fn member_flag(v: &serde_json::Value, key: &str) -> (r: Option<bool>)
    ensures
        r == flag_member(json_tree(*v), key@),
{
    match member(v, key) {
        Some(m) => as_flag(m),
        None => None,
    }
}

/// The unsigned number of a member, where it is one.
pub fn member_unsigned(v: &serde_json::Value, key: &str) -> (r: Option<u64>)
    ensures
        r == unsigned_member(json_tree(*v), key@),
{
    match member(v, key) {
        Some(m) => as_unsigned(m),
        None => None,
    }
}

/// Whether a member is there and is not null.
pub fn member_present(v: &serde_json::Value, key: &str) -> (r: bool)
    ensures
        r == present_member(json_tree(*v), key@),
{
    match member(v, key) {
        Some(m) => !is_null(m),
        None => false,
    }
}

/// The items of a member, where it is an array.
pub fn member_items<'a>(v: &'a serde_json::Value, key: &str) -> (r: Option<
    &'a Vec<serde_json::Value>,
>)
    ensures
        opt_trees(r) == items_member(json_tree(*v), key@),
{
    match member(v, key) {
        Some(m) => as_items(m),
        None => None,
    }
}

/// A member is read by its name and for what it is: text as text, a truth value as
/// one, a number as one, an array as its items in order; what is something else, or
/// not there, is not read.
pub proof fn law_members_are_read_for_what_they_are(
    members: Map<Seq<char>, JsonTree>,
    key: Seq<char>,
)
    ensures
        ({
            let tree = JsonTree::Object(members);
            let there = members.contains_key(key);
            &&& forall|t: Seq<char>|
                #![auto]
                text_member(tree, key) == Some(t) <==> there && members[key] == JsonTree::Text(t)
            &&& forall|b: bool|
                #![auto]
                flag_member(tree, key) == Some(b) <==> there && members[key] == JsonTree::Bool(b)
            &&& forall|n: u64|
                #![auto]
                unsigned_member(tree, key) == Some(n) <==> there && members[key]
                    == JsonTree::Number(Some(n))
            &&& forall|items: Seq<JsonTree>|
                #![auto]
                items_member(tree, key) == Some(items) <==> there && members[key]
                    == JsonTree::Array(items)
            &&& there && members[key] is Array ==> JsonTree::Array(listed_member(tree, key))
                == members[key]
            &&& !(there && members[key] is Array) ==> listed_member(tree, key).len() == 0
            &&& present_member(tree, key) <==> there && members[key] !is Null
            &&& tree.get(key) == (if there {
                Some(members[key])
            } else {
                None
            })
        }),
{
}

/// What is no object has no members.
pub proof fn law_only_objects_have_members(tree: JsonTree, key: Seq<char>)
    requires
        tree !is Object,
    ensures
        tree.get(key) is None,
        text_member(tree, key) is None,
        flag_member(tree, key) is None,
        unsigned_member(tree, key) is None,
        items_member(tree, key) is None,
        listed_member(tree, key).len() == 0,
        !present_member(tree, key),
{
}

} // verus!
