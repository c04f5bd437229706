//! The boundary to outside crates.  Every item here is believed, not
//! verified: each wrapper's contract states what the named outside
//! function's documentation and source promise, and nothing more.

use vstd::prelude::*;
use crate::json::{Json, JsonV};
use crate::ids::valid_id;

verus! {

#[verifier::external_type_specification]
#[verifier::external_body]
pub struct ExValue(serde_json::Value);

/// What parsing a text as a structured document yields: `None` when the
/// text is not well-formed, otherwise the document.
pub uninterp spec fn parse_of(s: Seq<char>) -> Option<JsonV>;

/// Converts a parsed outside value into the library's own document type,
/// one node for one node; numbers keep their literal text.  Part of the
/// `parse_json` boundary below.
#[verifier::external_body]
fn json_from_value(v: serde_json::Value) -> Json {
    match v {
        serde_json::Value::Null => Json::Null,
        serde_json::Value::Bool(b) => Json::Bool(b),
        serde_json::Value::Number(n) => Json::Num(n.to_string()),
        serde_json::Value::String(s) => Json::Str(s),
        serde_json::Value::Array(a) => Json::Arr(a.into_iter().map(json_from_value).collect()),
        serde_json::Value::Object(o) => Json::Obj(
            o.into_iter().map(|e| (e.0, json_from_value(e.1))).collect(),
        ),
    }
}

/// Relies on `serde_json::from_str`: parses JSON text; the result is a
/// function of the text alone, named `parse_of`.
#[verifier::external_body]
pub(crate) fn parse_json(s: &str) -> (r: Result<Json, String>)
    ensures
        r is Ok <==> parse_of(s@) is Some,
        r is Ok ==> r->Ok_0.jv() == parse_of(s@)->0,
{
    match serde_json::from_str::<serde_json::Value>(s) {
        Ok(v) => Ok(json_from_value(v)),
        Err(e) => Err(e.to_string()),
    }
}

/// What comment-stripping yields on a text.
pub uninterp spec fn stripped_of(s: Seq<char>) -> Seq<char>;

/// Whether comment-stripping accepts a text at all (it rejects only an
/// unterminated string or comment, or a lone slash).
pub uninterp spec fn strip_ok(s: Seq<char>) -> bool;

/// Relies on `json_comments::StripComments`: replaces `//`, `/* */` and
/// `#` comments outside strings with spaces; both the verdict and the
/// result depend on the text alone, named `strip_ok` and `stripped_of`.
#[verifier::external_body]
pub(crate) fn strip_json_comments(s: &str) -> (r: Result<String, String>)
    ensures
        r is Ok <==> strip_ok(s@),
        r is Ok ==> r->Ok_0@ == stripped_of(s@),
{
    let reader = json_comments::StripComments::new(s.as_bytes());
    let mut buf = String::new();
    match std::io::Read::read_to_string(&mut std::io::BufReader::new(reader), &mut buf) {
        Ok(_) => Ok(buf),
        Err(e) => Err(e.to_string()),
    }
}

/// Whether a text is a syntactically well-formed document of the
/// constrained configuration language.
pub uninterp spec fn toml_wf(s: Seq<char>) -> bool;

/// Relies on `toml::from_str::<toml::Table>`: accepts exactly the
/// well-formed documents; the verdict is a function of the text alone,
/// named `toml_wf`.
#[verifier::external_body]
pub(crate) fn check_toml(s: &str) -> (r: Result<(), String>)
    ensures
        r is Ok <==> toml_wf(s@),
{
    match toml::from_str::<toml::Table>(s) {
        Ok(_) => Ok(()),
        Err(e) => Err(e.to_string()),
    }
}

/// Relies on `uuid::Uuid::new_v4`: a fresh random identifier, rendered in
/// the documented hyphenated form (lower-case hexadecimal and hyphens), so
/// it is always filename-safe.
#[verifier::external_body]
pub(crate) fn new_uuid() -> (r: String)
    ensures
        valid_id(r@),
{
    uuid::Uuid::new_v4().to_string()
}

/// Relies on `chrono::Utc::now().to_rfc3339()`: the current time as an
/// RFC 3339 timestamp.  Nothing is assumed about the value.
#[verifier::external_body]
pub(crate) fn now_rfc3339() -> (r: String) {
    chrono::Utc::now().to_rfc3339()
}

/// What lower-casing yields on a text.
pub uninterp spec fn lower_of(s: Seq<char>) -> Seq<char>;

/// Relies on `str::to_lowercase`: the result depends on the characters
/// alone, named `lower_of`.
#[verifier::external_body]
pub(crate) fn to_lowercase(s: &str) -> (r: String)
    ensures
        r@ == lower_of(s@),
{
    s.to_lowercase()
}

/// What trimming yields on a text.
pub uninterp spec fn trimmed_of(s: Seq<char>) -> Seq<char>;

/// Relies on `str::trim`: removes leading and trailing whitespace; a
/// filename-safe id contains none, so such a text comes back unchanged.
#[verifier::external_body]
pub(crate) fn str_trim(s: &str) -> (r: String)
    ensures
        r@ == trimmed_of(s@),
        valid_id(s@) ==> r@ == s@,
{
    s.trim().to_string()
}

} // verus!
