//! TOML documents, read through the toml crate.

use crate::text::opt_str;
use vstd::prelude::*;

verus! {

/// A parsed TOML value of the toml crate.
#[verifier::external_type_specification]
#[verifier::external_body]
pub struct ExTomlValue(toml::Value);

/// What a TOML value holds, as far as it is a text or a table.
pub enum TomlTree {
    Text(Seq<char>),
    Table(Map<Seq<char>, TomlTree>),
    Other,
}

impl TomlTree {
    /// The entry of a table under that key.
    pub open spec fn get(self, key: Seq<char>) -> Option<TomlTree> {
        match self {
            TomlTree::Table(entries) => if entries.contains_key(key) {
                Some(entries[key])
            } else {
                None
            },
            _ => None,
        }
    }

    pub open spec fn text(self) -> Option<Seq<char>> {
        match self {
            TomlTree::Text(t) => Some(t),
            _ => None,
        }
    }
}

/// What a parsed value holds.
pub uninterp spec fn toml_tree(v: toml::Value) -> TomlTree;

/// What a text holds, read as a TOML document; nothing where it is none.
pub uninterp spec fn toml_document(text: Seq<char>) -> Option<TomlTree>;

/// What an optional parsed value holds.
pub open spec fn opt_toml(v: Option<&toml::Value>) -> Option<TomlTree> {
    match v {
        Some(w) => Some(toml_tree(*w)),
        None => None,
    }
}

/// `str::parse` into a `toml::Value`: whether it succeeds, and what the value
/// then holds, is settled by the text.
#[verifier::external_body]
pub(crate) fn parse_toml(text: &str) -> (r: Option<toml::Value>)
    ensures
        match r {
            Some(v) => toml_document(text@) == Some(toml_tree(v)),
            None => toml_document(text@) is None,
        },
{
    text.parse::<toml::Value>().ok()
}

/// `toml::Value::get` with a string: the entry of a table under that key,
/// nothing for any other value.
#[verifier::external_body]
pub(crate) fn entry<'a>(v: &'a toml::Value, key: &str) -> (r: Option<&'a toml::Value>)
    ensures
        opt_toml(r) == toml_tree(*v).get(key@),
{
    v.get(key)
}

/// `toml::Value::is_table`: true of tables alone.
#[verifier::external_body]
pub(crate) fn is_table(v: &toml::Value) -> (r: bool)
    ensures
        r == (toml_tree(*v) is Table),
{
    v.is_table()
}

/// `toml::Value::as_str`: the text of a string, nothing for any other value.
#[verifier::external_body]
pub(crate) fn as_text(v: &toml::Value) -> (r: Option<&str>)
    ensures
        opt_str(r) == toml_tree(*v).text(),
{
    v.as_str()
}

/// An entry is read by its key and only out of a table; only a text is read as one.
pub proof fn law_entries_are_read_for_what_they_are(
    entries: Map<Seq<char>, TomlTree>,
    key: Seq<char>,
    tree: TomlTree,
)
    ensures
        entries.contains_key(key) ==> TomlTree::Table(entries).get(key) == Some(entries[key]),
        !entries.contains_key(key) ==> TomlTree::Table(entries).get(key) is None,
        tree !is Table ==> tree.get(key) is None,
        forall|t: Seq<char>| #![auto] tree.text() == Some(t) <==> tree == TomlTree::Text(t),
{
}

} // verus!
