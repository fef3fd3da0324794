use vstd::prelude::*;

use crate::json::{error_text, json_content, json_text_value, lift_json, read_json};
use crate::types::{DocumentModel, TreeDocument};
use crate::wire::{document_from_json, document_of, first_fault, lemma_read_tree_names};

verus! {

/// Why a text could not be read as a document.
#[derive(Debug)]
pub enum ParseError {
    /// The text is not well-formed JSON.
    InvalidJson(serde_json::Error),
    /// The text is well-formed JSON that does not have the shape of a document.
    /// The name is that of the first field that is missing or has the wrong
    /// shape.
    InvalidDocument(String),
}

/// What is shown for a text that is JSON and no document because of `field`.
pub open spec fn invalid_document_text(field: Seq<char>) -> Seq<char> {
    "invalid JSON: missing or invalid field `"@ + field + "`"@
}

impl ParseError {
    /// Renders the error for display: the name of the field at fault for a
    /// value that is no document, and the message of the parser behind
    /// `invalid JSON: ` for a text that is no JSON.
    pub fn to_string(&self) -> (s: String)
        ensures
            match self {
                ParseError::InvalidJson(_) => "invalid JSON: "@.is_prefix_of(s@),
                ParseError::InvalidDocument(field) => s@ == invalid_document_text(field@),
            },
    {
        match self {
            ParseError::InvalidJson(e) => {
                let mut s = String::from_str("invalid JSON: ");
                let detail = error_text(e);
                s.append(detail.as_str());
                assert(s@.subrange(0, "invalid JSON: "@.len() as int) =~= "invalid JSON: "@);
                s
            },
            ParseError::InvalidDocument(field) => {
                let mut s = String::from_str("invalid JSON: missing or invalid field `");
                s.append(field.as_str());
                s.append("`");
                s
            },
        }
    }
}

/// The document that a text stands for: `None` where the text is not
/// well-formed JSON, and where the JSON does not have the shape of a document.
pub open spec fn parsed_document(text: Seq<char>) -> Option<DocumentModel> {
    match json_text_value(text) {
        Some(v) => document_of(v),
        None => None,
    }
}

/// Reads a text as a generic JSON tree. Fails where the text is not
/// well-formed JSON, and only there.
pub fn parse_value(json_str: &str) -> (r: Result<serde_json::Value, ParseError>)
    ensures
        match r {
            Ok(v) => json_text_value(json_str@) == Some(json_content(v)),
            Err(e) => e is InvalidJson && json_text_value(json_str@) is None,
        },
{
    match read_json(json_str) {
        Ok(v) => Ok(v),
        Err(e) => Err(ParseError::InvalidJson(e)),
    }
}

/// Reads a text as a document. Unknown fields are passed over; `formatVersion`,
/// `nodes` and `edges` are required, as are the ids and contents of nodes and
/// the ends of edges. Each named sub-tree of the document has a name of its
/// own.
pub fn parse(json_str: &str) -> (r: Result<TreeDocument, ParseError>)
    ensures
        match r {
            Ok(doc) => parsed_document(json_str@) == Some(doc@) && doc@.tree_names_distinct(),
            Err(ParseError::InvalidJson(_)) => json_text_value(json_str@) is None,
            Err(ParseError::InvalidDocument(field)) => json_text_value(json_str@) is Some
                && parsed_document(json_str@) is None && field@ == first_fault(
                json_text_value(json_str@).unwrap(),
            ),
        },
{
    match read_json(json_str) {
        Ok(raw) => {
            let value = lift_json(&raw);
            match document_from_json(&value) {
                Ok(doc) => {
                    proof {
                        lemma_read_tree_names(value@);
                    }
                    Ok(doc)
                },
                Err(field) => Err(ParseError::InvalidDocument(field)),
            }
        },
        Err(e) => Err(ParseError::InvalidJson(e)),
    }
}

} // verus!
