//! JSON documents as the library reads them.
//!
//! Text is parsed by `serde_json`. What it yields is turned, variant for
//! variant, into `Json`, a tree of plain values, and everything that reads a
//! document works on that tree.

use crate::text::{chars_of, same_chars};
use vstd::prelude::*;

verus! {

/// A JSON document.
#[derive(Debug)]
pub enum Json {
    /// `null`.
    Null,
    /// `true` or `false`.
    Bool(bool),
    /// A number, in the digits that `serde_json` writes it with.
    Number(String),
    /// A string.
    Text(String),
    /// An array, in order.
    Array(Vec<Json>),
    /// An object: its members with their keys.
    Object(Vec<(String, Json)>),
}

/// `serde_json::Value`, what `serde_json` reads a document into. Nothing
/// is known of what is inside a value but what `json_model` names.
#[verifier::external_type_specification]
#[verifier::external_body]
pub struct ExJsonValue(serde_json::Value);

/// The document that `value` holds.
pub uninterp spec fn json_model(value: serde_json::Value) -> Json;

/// The document that `serde_json` reads in `text`; `None` where `text` is
/// not one JSON document.
pub uninterp spec fn json_in(text: Seq<char>) -> Option<Json>;

/// `serde_json::from_str` for a `serde_json::Value`: the value read in
/// `text`, or `None` where `from_str` fails.
#[verifier::external_body]
fn parse_value(text: &str) -> (r: Option<serde_json::Value>)
    ensures
        match r {
            Some(value) => json_in(text@) == Some(json_model(value)),
            None => json_in(text@) is None,
        },
{
    serde_json::from_str::<serde_json::Value>(text).ok()
}

/// Turns a `serde_json::Value` into the document it holds: one variant of
/// `Json` for each variant of `Value`, a number by `to_string`, the items of
/// an array and the members of an object in the order in which the value
/// hands them out.
#[verifier::external_body]
fn json_from(value: serde_json::Value) -> (json: Json)
    ensures
        json == json_model(value),
{
    match value {
        serde_json::Value::Null => Json::Null,
        serde_json::Value::Bool(b) => Json::Bool(b),
        serde_json::Value::Number(n) => Json::Number(n.to_string()),
        serde_json::Value::String(s) => Json::Text(s),
        serde_json::Value::Array(items) => Json::Array(items.into_iter().map(json_from).collect()),
        serde_json::Value::Object(members) => Json::Object(
            members.into_iter().map(|(key, member)| (key, json_from(member))).collect(),
        ),
    }
}

/// Parses one JSON document.
pub fn parse_json(text: &str) -> (r: Option<Json>)
    ensures
        r == json_in(text@),
{
    match parse_value(text) {
        Some(value) => Some(json_from(value)),
        None => None,
    }
}

/// The index of the first member from `from` on whose key is `key`.
pub open spec fn member_index(members: Seq<(String, Json)>, key: Seq<char>, from: int) -> Option<
    int,
>
    decreases members.len() - from,
{
    if from < 0 || from >= members.len() {
        None
    } else if members[from].0@ == key {
        Some(from)
    } else {
        member_index(members, key, from + 1)
    }
}

/// The member of an object under `key`; `None` for a document that is no
/// object or has no such member.
pub open spec fn member(doc: Json, key: Seq<char>) -> Option<Json> {
    match doc {
        Json::Object(members) => match member_index(members@, key, 0) {
            Some(at) => Some(members@[at].1),
            None => None,
        },
        _ => None,
    }
}

/// The items of an array; `None` for a document that is no array.
pub open spec fn items(doc: Json) -> Option<Seq<Json>> {
    match doc {
        Json::Array(items) => Some(items@),
        _ => None,
    }
}

/// The characters of a string; `None` for a document that is no string.
pub open spec fn text(doc: Json) -> Option<Seq<char>> {
    match doc {
        Json::Text(s) => Some(s@),
        _ => None,
    }
}

/// The items of the array under `key`.
pub open spec fn member_items(doc: Json, key: Seq<char>) -> Option<Seq<Json>> {
    match member(doc, key) {
        Some(inner) => items(inner),
        None => None,
    }
}

/// The characters of the string under `key`.
pub open spec fn member_text(doc: Json, key: Seq<char>) -> Option<Seq<char>> {
    match member(doc, key) {
        Some(inner) => text(inner),
        None => None,
    }
}

impl Json {
    /// The member of an object under `key`.
    pub fn get(&self, key: &str) -> (r: Option<&Json>)
        ensures
            match r {
                Some(inner) => member(*self, key@) == Some(*inner),
                None => member(*self, key@) is None,
            },
    {
        match self {
            Json::Object(members) => {
                let wanted = chars_of(key);
                let mut i: usize = 0;
                while i < members.len()
                    invariant
                        i <= members.len(),
                        wanted@ == key@,
                        *self == Json::Object(*members),
                        member_index(members@, key@, 0) == member_index(members@, key@, i as int),
                    decreases members.len() - i,
                {
                    if same_chars(&chars_of(members[i].0.as_str()), &wanted) {
                        proof {
                            assert(members@[i as int].0@ == key@);
                            assert(member_index(members@, key@, i as int) == Some(i as int));
                        }
                        return Some(&members[i].1);
                    }
                    i += 1;
                }
                None
            },
            _ => None,
        }
    }

    /// The items of an array.
    pub fn as_array(&self) -> (r: Option<&Vec<Json>>)
        ensures
            match r {
                Some(found) => items(*self) == Some(found@),
                None => items(*self) is None,
            },
    {
        match self {
            Json::Array(found) => Some(found),
            _ => None,
        }
    }

    /// The string that the document is.
    pub fn as_text(&self) -> (r: Option<&String>)
        ensures
            match r {
                Some(found) => text(*self) == Some(found@),
                None => text(*self) is None,
            },
    {
        match self {
            Json::Text(found) => Some(found),
            _ => None,
        }
    }

    /// The items of the array under `key`.
    pub fn array_at(&self, key: &str) -> (r: Option<&Vec<Json>>)
        ensures
            match r {
                Some(found) => member_items(*self, key@) == Some(found@),
                None => member_items(*self, key@) is None,
            },
    {
        match self.get(key) {
            Some(inner) => inner.as_array(),
            None => None,
        }
    }

    /// The string under `key`.
    pub fn text_at(&self, key: &str) -> (r: Option<&String>)
        ensures
            match r {
                Some(found) => member_text(*self, key@) == Some(found@),
                None => member_text(*self, key@) is None,
            },
    {
        match self.get(key) {
            Some(inner) => inner.as_text(),
            None => None,
        }
    }
}

} // verus!
