//! The seam to `serde_json`: its types, what is taken on trust of its
//! functions, and the names under which contracts speak of their results.

use crate::node::{distinct_keys, Tree};
use vstd::prelude::*;

verus! {

/// `serde_json::Value`, the document tree that the parser builds.
#[verifier::external_type_specification]
#[verifier::external_body]
pub struct ExJsonValue(serde_json::Value);

/// `serde_json::Number`, carried through cleaning untouched.
#[verifier::external_type_specification]
#[verifier::external_body]
pub struct ExJsonNumber(serde_json::Number);

/// `serde_json::Error`, what the parser and the printer fail with.
#[verifier::external_type_specification]
#[verifier::external_body]
pub struct ExJsonError(serde_json::Error);

/// The tree that a `serde_json::Value` holds.
pub uninterp spec fn json_tree(json: serde_json::Value) -> Tree;

/// What `serde_json::from_str` makes of a text: the tree of the document it
/// reads, or the message of the error it fails with.
pub uninterp spec fn parsed(text: Seq<char>) -> Result<Tree, Seq<char>>;

/// What `serde_json::to_string` makes of a tree: its compact JSON text, or the
/// message of the error it fails with.
pub uninterp spec fn rendered(tree: Tree) -> Result<Seq<char>, Seq<char>>;

/// The message that a `serde_json::Error` displays.
pub uninterp spec fn fault_text(error: serde_json::Error) -> Seq<char>;

/// One level of a `serde_json::Value`, borrowed: the variant and its fields,
/// with the members of an object in the order in which its map walks them.
pub(crate) enum Opened<'a> {
    Null,
    Bool(bool),
    Number(&'a serde_json::Number),
    String(&'a String),
    Array(&'a Vec<serde_json::Value>),
    Object(Vec<(&'a String, &'a serde_json::Value)>),
}

impl<'a> Opened<'a> {
    /// The tree that this level denotes.
    pub(crate) open spec fn tree(self) -> Tree {
        match self {
            Opened::Null => Tree::Null,
            Opened::Bool(b) => Tree::Bool(b),
            Opened::Number(n) => Tree::Number(*n),
            Opened::String(s) => Tree::String(s@),
            Opened::Array(items) => Tree::Array(
                Seq::new(items@.len(), |i: int| json_tree(items@[i])),
            ),
            Opened::Object(members) => Tree::Object(
                Seq::new(members@.len(), |i: int| (members@[i].0@, json_tree(*members@[i].1))),
            ),
        }
    }

    /// Whether no two members of an object carry the same key.
    pub(crate) open spec fn keys_differ(self) -> bool {
        match self.tree() {
            Tree::Object(members) => distinct_keys(members),
            _ => true,
        }
    }
}

/// One level of a `serde_json::Value` in the making: the variant and its
/// fields, with the members of an object in the order in which they are to stand.
pub(crate) enum Closing {
    Null,
    Bool(bool),
    Number(serde_json::Number),
    String(String),
    Array(Vec<serde_json::Value>),
    Object(Vec<(String, serde_json::Value)>),
}

impl Closing {
    /// The tree that this level denotes.
    pub(crate) open spec fn tree(self) -> Tree {
        match self {
            Closing::Null => Tree::Null,
            Closing::Bool(b) => Tree::Bool(b),
            Closing::Number(n) => Tree::Number(n),
            Closing::String(s) => Tree::String(s@),
            Closing::Array(items) => Tree::Array(
                Seq::new(items@.len(), |i: int| json_tree(items@[i])),
            ),
            Closing::Object(members) => Tree::Object(
                Seq::new(members@.len(), |i: int| (members@[i].0@, json_tree(members@[i].1))),
            ),
        }
    }

    /// Whether no two members of an object carry the same key.
    pub(crate) open spec fn keys_differ(self) -> bool {
        match self.tree() {
            Tree::Object(members) => distinct_keys(members),
            _ => true,
        }
    }
}

/// `Clone::clone` of `serde_json::Number`: the copy is the number itself.
pub assume_specification[ <serde_json::Number as Clone>::clone ](n: &serde_json::Number) -> (r:
    serde_json::Number)
    ensures
        r == *n,
;

/// `serde_json::from_str` at `serde_json::Value`: the document that the text
/// holds, or the error that the parser reports.
#[verifier::external_body]
pub(crate) fn parse_text(text: &str) -> (r: Result<serde_json::Value, serde_json::Error>)
    ensures
        match r {
            Ok(json) => parsed(text@) == Ok::<Tree, Seq<char>>(json_tree(json)),
            Err(error) => parsed(text@) == Err::<Tree, Seq<char>>(fault_text(error)),
        },
{
    serde_json::from_str::<serde_json::Value>(text)
}

/// `serde_json::to_string` on a `serde_json::Value`: its compact JSON text,
/// or the error that the printer reports.
#[verifier::external_body]
pub(crate) fn render_text(json: &serde_json::Value) -> (r: Result<String, serde_json::Error>)
    ensures
        match r {
            Ok(text) => rendered(json_tree(*json)) == Ok::<Seq<char>, Seq<char>>(text@),
            Err(error) => rendered(json_tree(*json)) == Err::<Seq<char>, Seq<char>>(
                fault_text(error),
            ),
        },
{
    serde_json::to_string(json)
}

/// `Display` of `serde_json::Error`, through `to_string`: the error's message.
#[verifier::external_body]
pub(crate) fn fault_message(error: &serde_json::Error) -> (r: String)
    ensures
        r@ == fault_text(*error),
{
    error.to_string()
}

/// The variant of a `serde_json::Value` and its fields, the members of an
/// object as `serde_json::Map::iter` hands them out, which is the order in
/// which they were inserted: the level that comes back denotes the tree that
/// the value holds, and as the map holds a key once, no two members carry
/// the same key.
#[verifier::external_body]
pub(crate) fn open_json<'a>(json: &'a serde_json::Value) -> (r: Opened<'a>)
    ensures
        r.tree() == json_tree(*json),
        r.keys_differ(),
{
    match json {
        serde_json::Value::Null => Opened::Null,
        serde_json::Value::Bool(b) => Opened::Bool(*b),
        serde_json::Value::Number(n) => Opened::Number(n),
        serde_json::Value::String(s) => Opened::String(s),
        serde_json::Value::Array(items) => Opened::Array(items),
        serde_json::Value::Object(map) => Opened::Object(map.iter().collect()),
    }
}

/// The variants of `serde_json::Value` as constructors, the `serde_json::Map`
/// of an object collected from its members, which inserts them one after the
/// other: the value holds the tree that the level denotes. The map would
/// merge members that carry one key, so their keys must differ.
#[verifier::external_body]
pub(crate) fn close_json(level: Closing) -> (r: serde_json::Value)
    requires
        level.keys_differ(),
    ensures
        json_tree(r) == level.tree(),
{
    match level {
        Closing::Null => serde_json::Value::Null,
        Closing::Bool(b) => serde_json::Value::Bool(b),
        Closing::Number(n) => serde_json::Value::Number(n),
        Closing::String(s) => serde_json::Value::String(s),
        Closing::Array(items) => serde_json::Value::Array(items),
        Closing::Object(members) => serde_json::Value::Object(members.into_iter().collect()),
    }
}

} // verus!
