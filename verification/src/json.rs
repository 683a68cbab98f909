//! JSON documents, as far as the gateway reads them.
//!
//! Parsing is left to `serde_json`. What it hands back is copied into
//! [`Json`], a plain tree that the verified code can take apart.

use crate::text::same_text;
use vstd::prelude::*;

verus! {

/// `serde_json::Value`, taken as it comes: nothing of what is inside one is
/// known here.
#[verifier::external_type_specification]
#[verifier::external_body]
pub struct ExJsonValue(serde_json::Value);

/// `serde_json::Error`, of which nothing is read but that there is one.
#[verifier::external_type_specification]
#[verifier::external_body]
pub struct ExJsonError(serde_json::Error);

/// A JSON document. A number keeps no value: nothing here reads one.
#[derive(Debug, PartialEq, Eq)]
pub enum Json {
    Null,
    Bool(bool),
    Number,
    Text(String),
    Array(Vec<Json>),
    Object(Vec<(String, Json)>),
}

/// What a `serde_json::Value` holds, as a tree of plain values.
pub uninterp spec fn json_tree(value: serde_json::Value) -> Json;

/// What `serde_json::from_slice` makes of `body`: the document that `body`
/// spells, or nothing where it spells none.
pub uninterp spec fn parsed_json(body: Seq<u8>) -> Option<Json>;

/// Calls `serde_json::from_slice` for a `serde_json::Value`. The contract
/// claims only that the outcome depends on the bytes alone: the same bytes
/// give a value that holds the same document, or fail, every time.
#[verifier::external_body]
fn parse_value(body: &[u8]) -> (parsed: Result<serde_json::Value, serde_json::Error>)
    ensures
        match parsed {
            Ok(value) => parsed_json(body@) == Some(json_tree(value)),
            Err(_) => parsed_json(body@) is None,
        },
{
    serde_json::from_slice::<serde_json::Value>(body)
}

/// Copies a `serde_json::Value` into a [`Json`], variant by variant: the
/// members of an object in the order in which `serde_json::Map::iter` hands
/// them out, a number without its value. The contract claims only that the
/// copy is the tree that the value holds, so that it depends on the value
/// alone.
#[verifier::external_body]
fn json_of(value: &serde_json::Value) -> (tree: Json)
    ensures
        tree == json_tree(*value),
{
    match value {
        serde_json::Value::Null => Json::Null,
        serde_json::Value::Bool(flag) => Json::Bool(*flag),
        serde_json::Value::Number(_) => Json::Number,
        serde_json::Value::String(text) => Json::Text(text.clone()),
        serde_json::Value::Array(items) => Json::Array(items.iter().map(json_of).collect()),
        serde_json::Value::Object(members) => Json::Object(
            members.iter().map(|(name, member)| (name.clone(), json_of(member))).collect(),
        ),
    }
}

/// Parses `body` as one JSON document.
pub fn parse_json(body: &[u8]) -> (document: Option<Json>)
    ensures
        document == parsed_json(body@),
{
    match parse_value(body) {
        Ok(value) => Some(json_of(&value)),
        Err(_) => None,
    }
}

/// The value of the first of `members` that is called `name`.
pub open spec fn first_named(members: Seq<(String, Json)>, name: Seq<char>) -> Option<Json>
    decreases members.len(),
{
    if members.len() == 0 {
        None
    } else if members[0].0@ == name {
        Some(members[0].1)
    } else {
        first_named(members.drop_first(), name)
    }
}

impl Json {
    /// The member called `name`, where this is an object that has one.
    pub open spec fn spec_member(self, name: Seq<char>) -> Option<Json> {
        match self {
            Json::Object(members) => first_named(members@, name),
            _ => None,
        }
    }

    /// The element at `index`, where this is an array that long.
    pub open spec fn spec_element(self, index: int) -> Option<Json> {
        match self {
            Json::Array(items) => if 0 <= index < items@.len() {
                Some(items@[index])
            } else {
                None
            },
            _ => None,
        }
    }

    /// The text, where this is a string.
    pub open spec fn spec_text(self) -> Option<Seq<char>> {
        match self {
            Json::Text(text) => Some(text@),
            _ => None,
        }
    }

    /// The member called `name`, where this is an object that has one; the
    /// first of them, should there be several.
    pub fn member(&self, name: &str) -> (found: Option<&Json>)
        ensures
            match found {
                Some(value) => self.spec_member(name@) == Some(*value),
                None => self.spec_member(name@) is None,
            },
    {
        match self {
            Json::Object(members) => {
                let mut i: usize = 0;
                proof {
                    assert(members@.skip(0) == members@);
                }
                while i < members.len()
                    invariant
                        i <= members.len(),
                        self.spec_member(name@) == first_named(members@, name@),
                        first_named(members@, name@) == first_named(
                            members@.skip(i as int),
                            name@,
                        ),
                    decreases members.len() - i,
                {
                    proof {
                        assert(members@.skip(i as int).drop_first() == members@.skip(i + 1));
                        assert(members@.skip(i as int)[0] == members@[i as int]);
                    }
                    if same_text(members[i].0.as_str(), name) {
                        return Some(&members[i].1);
                    }
                    i += 1;
                }
                None
            },
            _ => None,
        }
    }

    /// The element at `index`, where this is an array that long.
    pub fn element(&self, index: usize) -> (found: Option<&Json>)
        ensures
            match found {
                Some(value) => self.spec_element(index as int) == Some(*value),
                None => self.spec_element(index as int) is None,
            },
    {
        match self {
            Json::Array(items) => if index < items.len() {
                Some(&items[index])
            } else {
                None
            },
            _ => None,
        }
    }

    /// The text, where this is a string.
    pub fn text(&self) -> (found: Option<&String>)
        ensures
            match found {
                Some(text) => self.spec_text() == Some(text@),
                None => self.spec_text() is None,
            },
    {
        match self {
            Json::Text(text) => Some(text),
            _ => None,
        }
    }
}

} // verus!
