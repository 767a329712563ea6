//! Re-rendering a stored profile document as pretty-printed JSON.
use vstd::prelude::*;

verus! {

/// A JSON document held in memory.
#[verifier::external_type_specification]
#[verifier::external_body]
pub struct ExJsonValue(serde_json::Value);

/// A JSON parse or render error.
#[verifier::external_type_specification]
#[verifier::external_body]
pub struct ExJsonError(serde_json::Error);

/// Whether `serde_json` reads the text as one JSON value (with nothing but
/// whitespace around it).
pub uninterp spec fn is_json_document(text: Seq<char>) -> bool;

/// The JSON value that `serde_json` reads from a text that holds one.
pub uninterp spec fn parsed_json(text: Seq<char>) -> serde_json::Value;

/// The indented text that `serde_json` renders for a JSON value.
pub uninterp spec fn pretty_json(value: serde_json::Value) -> Seq<char>;

/// The indented rendering of the JSON document in `text`.
pub open spec fn pretty_json_of(text: Seq<char>) -> Seq<char> {
    pretty_json(parsed_json(text))
}

/// Reads a JSON value.
/// Trusted: `serde_json::from_str::<serde_json::Value>`, which succeeds
/// exactly on the texts that hold one JSON value, and whose value depends on
/// the text alone (it is named, not spelled out).
#[verifier::external_body]
fn parse_json_value(text: &str) -> (r: Result<serde_json::Value, serde_json::Error>)
    ensures
        r is Ok <==> is_json_document(text@),
        r matches Ok(v) ==> v == parsed_json(text@),
{
    serde_json::from_str(text)
}

/// Renders a JSON value, indented.
/// Trusted: `serde_json::to_string_pretty` on a `Value`, which cannot fail
/// (the text is written to memory, and a `Value`'s object keys are strings)
/// and whose text depends on the value alone (it is named, not spelled out).
#[verifier::external_body]
fn render_json_pretty(value: &serde_json::Value) -> (r: Result<String, serde_json::Error>)
    ensures
        r is Ok,
        r matches Ok(s) ==> s@ == pretty_json(*value),
{
    serde_json::to_string_pretty(value)
}

/// Why a stored profile could not be shown.
#[derive(Debug)]
pub enum ProfileJsonError {
    /// The stored text is not a JSON document.
    Parse(serde_json::Error),
    /// The document could not be rendered.
    Render(serde_json::Error),
}

/// The stored profile text, re-rendered as indented JSON: the rendering of
/// the value that the text holds. It fails, with a parse error, exactly when
/// the text is not a JSON document.
pub fn reformat_profile_json(raw: &str) -> (r: Result<String, ProfileJsonError>)
    ensures
        r is Ok <==> is_json_document(raw@),
        r matches Ok(s) ==> s@ == pretty_json_of(raw@),
        r matches Err(e) ==> e is Parse,
{
    match parse_json_value(raw) {
        Ok(value) => match render_json_pretty(&value) {
            Ok(text) => Ok(text),
            Err(e) => Err(ProfileJsonError::Render(e)),
        },
        Err(e) => Err(ProfileJsonError::Parse(e)),
    }
}

} // verus!
