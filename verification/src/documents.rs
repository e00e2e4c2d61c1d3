//! Reading TOML and JSON text into trees. The parsing is done by the
//! `toml` and `serde_json` crates; nothing about it is proved here.

use crate::tree::{MetadataTree, Scalar, TreeView};
use serde_json::Value as JsonValue;
use toml::Value as TomlValue;
use vstd::prelude::*;

verus! {

/// `toml::Value`: a parsed TOML value. It is handed from the parser to the
/// conversion and never looked into by verified code.
#[verifier::external_type_specification]
#[verifier::external_body]
pub struct ExTomlValue(toml::Value);

/// `toml::de::Error`: why a text is no TOML document. Only its message is
/// taken from it.
#[verifier::external_type_specification]
#[verifier::external_body]
pub struct ExTomlError(toml::de::Error);

/// `serde_json::Value`: a parsed JSON value. It is handed from the parser
/// to the conversion and never looked into by verified code.
#[verifier::external_type_specification]
#[verifier::external_body]
pub struct ExJsonValue(serde_json::Value);

/// `serde_json::Error`: why a text is no JSON document. Only its message
/// is taken from it.
#[verifier::external_type_specification]
#[verifier::external_body]
pub struct ExJsonError(serde_json::Error);

/// The tree that `toml::from_str` reads from a text, where it reads one.
pub uninterp spec fn toml_document(text: Seq<char>) -> Option<TreeView>;

/// The tree that `serde_json::from_str` reads from a text, where it reads
/// one.
pub uninterp spec fn json_document(text: Seq<char>) -> Option<TreeView>;

/// Why a text could not be read.
#[derive(Clone, Debug, PartialEq, Eq)]
pub enum DocumentError {
    /// The text is no TOML document; the message is the parser's.
    InvalidToml(String),
    /// The text is no JSON document; the message is the parser's.
    InvalidJson(String),
}

/// Turns a `toml::Value` into a tree, variant by variant: a string is a
/// text, a table a mapping with the table's entries in the table's order,
/// an array a sequence; an integer, a float and a date-time are numbers,
/// held as the text that `to_string` gives. Nothing is claimed of the
/// result.
#[verifier::external_body]
fn tree_of_toml(value: &TomlValue) -> (tree: MetadataTree) {
    match value {
        TomlValue::String(s) => MetadataTree::Scalar(Scalar::Text(s.clone())),
        TomlValue::Integer(i) => MetadataTree::Scalar(Scalar::Number(i.to_string())),
        TomlValue::Float(x) => MetadataTree::Scalar(Scalar::Number(x.to_string())),
        TomlValue::Boolean(b) => MetadataTree::Scalar(Scalar::Bool(*b)),
        TomlValue::Datetime(d) => MetadataTree::Scalar(Scalar::Number(d.to_string())),
        TomlValue::Array(a) => MetadataTree::Sequence(a.iter().map(tree_of_toml).collect()),
        TomlValue::Table(t) => MetadataTree::Mapping(
            t.iter().map(|(k, v)| (k.clone(), tree_of_toml(v))).collect(),
        ),
    }
}

/// Turns a `serde_json::Value` into a tree, variant by variant: an object
/// is a mapping with the object's entries in the object's order, an array a
/// sequence; a number is held as the text that `to_string` gives. Nothing
/// is claimed of the result.
#[verifier::external_body]
fn tree_of_json(value: &JsonValue) -> (tree: MetadataTree) {
    match value {
        JsonValue::Null => MetadataTree::Scalar(Scalar::Null),
        JsonValue::Bool(b) => MetadataTree::Scalar(Scalar::Bool(*b)),
        JsonValue::Number(n) => MetadataTree::Scalar(Scalar::Number(n.to_string())),
        JsonValue::String(s) => MetadataTree::Scalar(Scalar::Text(s.clone())),
        JsonValue::Array(a) => MetadataTree::Sequence(a.iter().map(tree_of_json).collect()),
        JsonValue::Object(o) => MetadataTree::Mapping(
            o.iter().map(|(k, v)| (k.clone(), tree_of_json(v))).collect(),
        ),
    }
}

/// Calls `toml::from_str` for a `toml::Value`. The contract says only that
/// what is read depends on the text alone, and gives it a name.
#[verifier::external_body]
fn parse_toml(content: &str) -> (parsed: Result<MetadataTree, toml::de::Error>)
    ensures
        match toml_document(content@) {
            Some(tree) => parsed is Ok && parsed->Ok_0@ == tree,
            None => parsed is Err,
        },
{
    match toml::from_str::<TomlValue>(content) {
        Ok(value) => Ok(tree_of_toml(&value)),
        Err(e) => Err(e),
    }
}

/// Calls `serde_json::from_str` for a `serde_json::Value`. The contract
/// says only that what is read depends on the text alone, and gives it a
/// name.
#[verifier::external_body]
fn parse_json(text: &str) -> (parsed: Result<MetadataTree, serde_json::Error>)
    ensures
        match json_document(text@) {
            Some(tree) => parsed is Ok && parsed->Ok_0@ == tree,
            None => parsed is Err,
        },
{
    match serde_json::from_str::<JsonValue>(text) {
        Ok(value) => Ok(tree_of_json(&value)),
        Err(e) => Err(e),
    }
}

/// The message of a `toml::de::Error`, as its `to_string` gives it.
#[verifier::external_body]
fn toml_error_message(error: &toml::de::Error) -> (message: String) {
    error.to_string()
}

/// The message of a `serde_json::Error`, as its `to_string` gives it.
#[verifier::external_body]
fn json_error_message(error: &serde_json::Error) -> (message: String) {
    error.to_string()
}

/// Reads a TOML document.
pub fn read_toml(content: &str) -> (document: Result<MetadataTree, DocumentError>)
    ensures
        match toml_document(content@) {
            Some(tree) => document is Ok && document->Ok_0@ == tree,
            None => document is Err && document->Err_0 is InvalidToml,
        },
{
    match parse_toml(content) {
        Ok(tree) => Ok(tree),
        Err(e) => Err(DocumentError::InvalidToml(toml_error_message(&e))),
    }
}

/// Reads a JSON document.
pub fn read_json(text: &str) -> (document: Result<MetadataTree, DocumentError>)
    ensures
        match json_document(text@) {
            Some(tree) => document is Ok && document->Ok_0@ == tree,
            None => document is Err && document->Err_0 is InvalidJson,
        },
{
    match parse_json(text) {
        Ok(tree) => Ok(tree),
        Err(e) => Err(DocumentError::InvalidJson(json_error_message(&e))),
    }
}

} // verus!
