//! JSON as text: the normal form of a value, and lists of strings read and
//! written. What the JSON of a text is, the outside reader and writer say.

use crate::analysis::text_of;
use crate::storage::json_null;
use crate::text::texts;
use vstd::prelude::*;

verus! {

/// What `serde_json::from_str` makes of a text, written out again by the
/// value's `to_string`: the JSON of the text in compact form, or nothing if
/// the text is no JSON.
pub uninterp spec fn json_text(raw: Seq<char>) -> Option<Seq<char>>;

/// What `serde_json::from_str` reads from a text as a list of strings;
/// nothing if the text is no such list.
pub uninterp spec fn json_list(raw: Seq<char>) -> Option<Seq<Seq<char>>>;

/// What `serde_json::to_string` writes for a list of strings: its JSON in
/// compact form, or the writer's message.
pub uninterp spec fn json_of_list(list: Seq<Seq<char>>) -> Result<Seq<char>, Seq<char>>;

/// What `serde_json::to_string_pretty` writes for a list of strings: its
/// JSON with one string on a line, or the writer's message.
pub uninterp spec fn json_of_list_pretty(list: Seq<Seq<char>>) -> Result<Seq<char>, Seq<char>>;

/// The JSON of a text in compact form; null if the text is no JSON.
pub open spec fn json_or_null(raw: Seq<char>) -> Seq<char> {
    match json_text(raw) {
        Some(text) => text,
        None => json_null(),
    }
}

/// The list of strings that a text holds as JSON; the empty list if it
/// holds none.
pub open spec fn json_list_or_empty(raw: Seq<char>) -> Seq<Seq<char>> {
    match json_list(raw) {
        Some(list) => list,
        None => Seq::empty(),
    }
}

/// The texts of a result of strings.
pub open spec fn result_text(result: Result<String, String>) -> Result<Seq<char>, Seq<char>> {
    match result {
        Ok(text) => Ok(text@),
        Err(message) => Err(message@),
    }
}

/// `serde_json::from_str` reads the text as a JSON value, and the value's
/// `to_string` writes it out in compact form; a text that is no JSON gives
/// nothing.
#[verifier::external_body]
fn parse_json(raw: &str) -> (text: Option<String>)
    ensures
        text_of(text) == json_text(raw@),
{
    serde_json::from_str::<serde_json::Value>(raw).ok().map(|value| value.to_string())
}

/// `serde_json::from_str` reads the text as a list of strings; a text that
/// is no such list gives nothing.
#[verifier::external_body]
pub(crate) fn parse_list(raw: &str) -> (list: Option<Vec<String>>)
    ensures
        match list {
            Some(found) => json_list(raw@) == Some(texts(found@)),
            None => json_list(raw@) is None,
        },
{
    serde_json::from_str::<Vec<String>>(raw).ok()
}

/// `serde_json::to_string` writes the list as JSON in compact form, or
/// gives its message.
#[verifier::external_body]
pub(crate) fn print_list(list: &Vec<String>) -> (text: Result<String, String>)
    ensures
        result_text(text) == json_of_list(texts(list@)),
{
    serde_json::to_string(list).map_err(|error| error.to_string())
}

/// `serde_json::to_string_pretty` writes the list as JSON with one string
/// on a line, or gives its message.
#[verifier::external_body]
pub(crate) fn print_list_pretty(list: &Vec<String>) -> (text: Result<String, String>)
    ensures
        result_text(text) == json_of_list_pretty(texts(list@)),
{
    serde_json::to_string_pretty(list).map_err(|error| error.to_string())
}

/// The JSON of a text in compact form; null if the text is no JSON.
pub fn normal_json(raw: &str) -> (text: String)
    ensures
        text@ == json_or_null(raw@),
{
    match parse_json(raw) {
        Some(text) => text,
        None => "null".to_owned(),
    }
}

/// Reads a list of strings from its JSON; a text that holds none gives the
/// empty list.
pub fn read_string_list(raw: &str) -> (list: Vec<String>)
    ensures
        texts(list@) == json_list_or_empty(raw@),
{
    match parse_list(raw) {
        Some(list) => list,
        None => {
            let list: Vec<String> = Vec::new();
            list
        },
    }
}

} // verus!
