//! JSON values as the decoder reads them.
//!
//! Texts are parsed, and strings quoted, by `serde_json`; the tree that it
//! builds is copied into `Json`, which the decoder can take apart. What
//! `serde_json` makes of a text is named here and not defined.

use crate::text::eq_text;
use vstd::prelude::*;

verus! {

/// A JSON value. A number is kept as the text that stands for it; an object
/// is the list of its members in the order in which `serde_json` walks them.
#[derive(Debug)]
pub enum Json {
    Null,
    Bool(bool),
    Number(String),
    Text(String),
    Array(Vec<Json>),
    Object(Vec<(String, Json)>),
}

/// `serde_json::Value`, carried from the parser to `copy_json` and looked
/// into nowhere else.
#[verifier::external_type_specification]
#[verifier::external_body]
pub struct ExJsonValue(serde_json::Value);

/// The value that `serde_json` reads from a text, or nothing where it
/// refuses the text.
pub uninterp spec fn json_from_text(text: Seq<char>) -> Option<Json>;

/// The JSON string literal that `serde_json` writes for a text: the text in
/// double quotes, with the characters escaped that JSON wants escaped.
pub uninterp spec fn json_quoted(text: Seq<char>) -> Seq<char>;

/// Copies a `serde_json::Value` into a `Json`, variant by variant. Nothing
/// is claimed of it alone; `read_json` names what both together return.
#[verifier::external_body]
fn copy_json(value: serde_json::Value) -> (r: Json) {
    match value {
        serde_json::Value::Null => Json::Null,
        serde_json::Value::Bool(b) => Json::Bool(b),
        serde_json::Value::Number(n) => Json::Number(n.to_string()),
        serde_json::Value::String(s) => Json::Text(s),
        serde_json::Value::Array(a) => Json::Array(a.into_iter().map(copy_json).collect()),
        serde_json::Value::Object(o) => Json::Object(
            o.into_iter().map(|(k, v)| (k, copy_json(v))).collect(),
        ),
    }
}

/// `serde_json::from_str` into a `serde_json::Value`, copied into a `Json`.
/// The contract claims that the outcome depends on the text alone.
#[verifier::external_body]
fn read_json(text: &str) -> (r: Option<Json>)
    ensures
        r == json_from_text(text@),
{
    serde_json::from_str::<serde_json::Value>(text).ok().map(copy_json)
}

/// `to_string` of `serde_json::Value::String`: the text as a JSON string
/// literal. The contract claims that the literal depends on the text alone.
#[verifier::external_body]
fn quote_json(text: &str) -> (r: String)
    ensures
        r@ == json_quoted(text@),
{
    serde_json::Value::String(text.to_owned()).to_string()
}

/// The value of the first member called `key` among `members[from..]`.
pub open spec fn first_member(members: Seq<(String, Json)>, key: Seq<char>, from: int) -> Option<
    Json,
>
    decreases members.len() - from,
{
    if from < 0 || from >= members.len() {
        None
    } else if members[from].0@ == key {
        Some(members[from].1)
    } else {
        first_member(members, key, from + 1)
    }
}

impl Json {
    /// The member called `key`, where the value is an object that has one.
    pub open spec fn member(self, key: Seq<char>) -> Option<Json> {
        match self {
            Json::Object(members) => first_member(members@, key, 0),
            _ => None,
        }
    }

    /// The items, where the value is an array.
    pub open spec fn items(self) -> Option<Seq<Json>> {
        match self {
            Json::Array(items) => Some(items@),
            _ => None,
        }
    }

    /// The text, where the value is a string.
    pub open spec fn text(self) -> Option<Seq<char>> {
        match self {
            Json::Text(s) => Some(s@),
            _ => None,
        }
    }

    /// Reads a JSON value from a text.
    pub fn parse(text: &str) -> (r: Option<Json>)
        ensures
            r == json_from_text(text@),
    {
        read_json(text)
    }

    /// The text as a JSON string literal.
    pub fn quote(text: &str) -> (r: String)
        ensures
            r@ == json_quoted(text@),
    {
        quote_json(text)
    }

    /// The member called `key`, where the value is an object that has one.
    pub fn get(&self, key: &str) -> (r: Option<&Json>)
        ensures
            match r {
                Some(j) => self.member(key@) == Some(*j),
                None => self.member(key@) is None,
            },
    {
        match self {
            Json::Object(members) => {
                let mut i: usize = 0;
                while i < members.len()
                    invariant
                        i <= members@.len(),
                        self.member(key@) == first_member(members@, key@, 0),
                        first_member(members@, key@, 0) == first_member(members@, key@, i as int),
                    decreases members@.len() - i,
                {
                    if eq_text(members[i].0.as_str(), key) {
                        assert(members@[i as int].0@ == key@);
                        return Some(&members[i].1);
                    }
                    i += 1;
                }
                None
            },
            _ => None,
        }
    }

    /// The items, where the value is an array.
    pub fn as_array(&self) -> (r: Option<&Vec<Json>>)
        ensures
            match r {
                Some(items) => self.items() == Some(items@),
                None => self.items() is None,
            },
    {
        match self {
            Json::Array(items) => Some(items),
            _ => None,
        }
    }

    /// The text, where the value is a string.
    pub fn as_str(&self) -> (r: Option<&str>)
        ensures
            match r {
                Some(s) => self.text() == Some(s@),
                None => self.text() is None,
            },
    {
        match self {
            Json::Text(s) => Some(s.as_str()),
            _ => None,
        }
    }
}

} // verus!
