//! From JSON text to cleaned JSON text, or the reason why there is none.

use crate::bridge::{fault_message, parse_text, parsed, render_text, rendered};
use crate::node::{keyed_trees, Node, Tree};
use crate::normalize::{clean, clean_value, EmptyContainerPolicy};
use vstd::prelude::*;

verus! {

/// Why a document could not be cleaned.
#[derive(Debug, PartialEq)]
pub enum CleanError {
    /// The text is not JSON; the parser's message says where and why.
    Parse(String),
    /// The document is an object with no members.
    EmptyInput,
    /// Cleaning left nothing of the document.
    EmptyResult,
    /// The cleaned document could not be written; the printer's message says why.
    Serialize(String),
}

/// The mathematical model of a [`CleanError`].
pub ghost enum Fault {
    Parse(Seq<char>),
    EmptyInput,
    EmptyResult,
    Serialize(Seq<char>),
}

impl View for CleanError {
    type V = Fault;

    open spec fn view(&self) -> Fault {
        match self {
            CleanError::Parse(message) => Fault::Parse(message@),
            CleanError::EmptyInput => Fault::EmptyInput,
            CleanError::EmptyResult => Fault::EmptyResult,
            CleanError::Serialize(message) => Fault::Serialize(message@),
        }
    }
}

impl Fault {
    /// What the error says of itself.
    pub open spec fn message(self) -> Seq<char> {
        match self {
            Fault::Parse(message) => message,
            Fault::EmptyInput => "JSON is an empty object"@,
            Fault::EmptyResult => "Cleaned JSON is empty"@,
            Fault::Serialize(message) => message,
        }
    }
}

impl CleanError {
    /// What the error says of itself, for a reader.
    pub fn message(&self) -> (r: String)
        ensures
            r@ == self@.message(),
    {
        match self {
            CleanError::Parse(message) => message.clone(),
            CleanError::EmptyInput => "JSON is an empty object".to_owned(),
            CleanError::EmptyResult => "Cleaned JSON is empty".to_owned(),
            CleanError::Serialize(message) => message.clone(),
        }
    }
}

/// Whether `tree` is an object with no members.
pub open spec fn is_empty_object(tree: Tree) -> bool {
    tree matches Tree::Object(members) && members.len() == 0
}

/// What becomes of a parsed document: an empty object is turned away, a
/// document of which cleaning leaves nothing is an error, any other comes
/// back cleaned.
pub open spec fn clean_tree(tree: Tree, policy: EmptyContainerPolicy) -> Result<Tree, Fault> {
    if is_empty_object(tree) {
        Err(Fault::EmptyInput)
    } else {
        match clean(tree, policy) {
            Some(cleaned) => Ok(cleaned),
            None => Err(Fault::EmptyResult),
        }
    }
}

/// What becomes of a text: the compact text of its cleaned document, or the
/// first thing that went wrong on the way.
pub open spec fn clean_text(text: Seq<char>, policy: EmptyContainerPolicy) -> Result<
    Seq<char>,
    Fault,
> {
    match parsed(text) {
        Err(message) => Err(Fault::Parse(message)),
        Ok(tree) => match clean_tree(tree, policy) {
            Err(fault) => Err(fault),
            Ok(cleaned) => match rendered(cleaned) {
                Ok(output) => Ok(output),
                Err(message) => Err(Fault::Serialize(message)),
            },
        },
    }
}

/// The model of what `clean_document` returns.
pub open spec fn document_outcome(r: Result<Node, CleanError>) -> Result<Tree, Fault> {
    match r {
        Ok(node) => Ok(node@),
        Err(error) => Err(error@),
    }
}

/// The model of what `clean_json` returns.
pub open spec fn text_outcome(r: Result<String, CleanError>) -> Result<Seq<char>, Fault> {
    match r {
        Ok(text) => Ok(text@),
        Err(error) => Err(error@),
    }
}

/// Cleans a parsed document. An object with no members is turned away with
/// `EmptyInput`; a document of which nothing is left gives `EmptyResult`.
pub fn clean_document(document: &Node, policy: EmptyContainerPolicy) -> (r: Result<
    Node,
    CleanError,
>)
    ensures
        document_outcome(r) == clean_tree(document@, policy),
        r == Err::<Node, CleanError>(CleanError::EmptyInput) <==> is_empty_object(document@),
        r == Err::<Node, CleanError>(CleanError::EmptyResult) <==> document@ is Null,
        r is Ok <==> !is_empty_object(document@) && !(document@ is Null),
        r matches Ok(cleaned) ==> cleaned@.well_formed(),
{
    let empty = match document {
        Node::Object(members) => {
            assert(keyed_trees(members@).len() == members.len());
            members.len() == 0
        },
        _ => false,
    };
    if empty {
        return Err(CleanError::EmptyInput);
    }
    match clean_value(document, policy) {
        Some(cleaned) => Ok(cleaned),
        None => Err(CleanError::EmptyResult),
    }
}

/// Cleans the JSON document that `text` holds and writes it back as compact
/// JSON text. Nothing comes back of a document that fails on the way.
///
/// `serde_json` parses and prints. Its parser turns away a document that is
/// nested deeper than its limit, so the depth of what is walked here is
/// bounded by the parser, however the text was made.
pub fn clean_json(text: &str, policy: EmptyContainerPolicy) -> (r: Result<String, CleanError>)
    ensures
        text_outcome(r) == clean_text(text@, policy),
        parsed(text@) is Err ==> r matches Err(CleanError::Parse(_)),
        parsed(text@) matches Ok(tree) && is_empty_object(tree) ==> r == Err::<String, CleanError>(
            CleanError::EmptyInput,
        ),
        parsed(text@) == Ok::<Tree, Seq<char>>(Tree::Null) ==> r == Err::<String, CleanError>(
            CleanError::EmptyResult,
        ),
{
    let json = match parse_text(text) {
        Ok(json) => json,
        Err(error) => {
            return Err(CleanError::Parse(fault_message(&error)));
        },
    };
    let document = Node::from_json(&json);
    let cleaned = match clean_document(&document, policy) {
        Ok(cleaned) => cleaned,
        Err(error) => {
            return Err(error);
        },
    };
    match render_text(&cleaned.to_json()) {
        Ok(output) => Ok(output),
        Err(error) => Err(CleanError::Serialize(fault_message(&error))),
    }
}

} // verus!
