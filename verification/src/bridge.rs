//! The few trusted bridges into outside code: lenient UTF-8 decoding,
//! string/character conversions, and JSON field extraction. Everything else
//! in the crate is verified against the contracts stated here.

use vstd::prelude::*;

verus! {

/// The characters that lenient UTF-8 decoding yields for a byte sequence:
/// what `String::from_utf8_lossy` returns. A function of the bytes alone.
pub uninterp spec fn decoded_of(b: Seq<u8>) -> Seq<char>;

/// Relies on `String::from_utf8_lossy`: decodes bytes as UTF-8, replacing
/// invalid sequences with U+FFFD instead of failing; the result is a function
/// of the bytes alone. `str::chars` then hands the decoded characters out,
/// which are the string's view.
#[verifier::external_body]
pub(crate) fn decode_lossy(b: &Vec<u8>) -> (r: Vec<char>)
    ensures
        r@ == decoded_of(b@),
{
    String::from_utf8_lossy(b).chars().collect()
}

/// Relies on `str::chars`: yields exactly the characters of the string,
/// which are the string's view.
#[verifier::external_body]
pub(crate) fn chars_of(s: &str) -> (r: Vec<char>)
    ensures
        r@ == s@,
{
    s.chars().collect()
}

/// Relies on `String`'s `FromIterator<char>` implementation (`collect`):
/// builds the string whose characters are exactly the given ones.
#[verifier::external_body]
pub(crate) fn string_of(v: &Vec<char>) -> (r: String)
    ensures
        r@ == v@,
{
    v.iter().collect()
}

/// What structured-payload parsing yields for a payload string: `None` when
/// the payload is not well-formed JSON, otherwise the optional string field
/// `response` and the optional boolean field `done`. A function of the
/// payload text alone.
pub uninterp spec fn json_fields_of(s: Seq<char>) -> Option<(Option<Seq<char>>, Option<bool>)>;

/// The `response` and `done` fields read from a JSON payload.
pub struct JsonFields {
    pub response: Option<String>,
    pub done: Option<bool>,
}

/// The mathematical content of a [`JsonFields`] value.
pub open spec fn fields_view(f: JsonFields) -> (Option<Seq<char>>, Option<bool>) {
    (
        match f.response {
            Some(s) => Some(s@),
            None => None,
        },
        f.done,
    )
}

/// The mathematical content of an optional [`JsonFields`] value.
pub open spec fn opt_fields_view(f: Option<JsonFields>) -> Option<
    (Option<Seq<char>>, Option<bool>),
> {
    match f {
        Some(f) => Some(fields_view(f)),
        None => None,
    }
}

/// Relies on `serde_json::from_str::<serde_json::Value>` and on
/// `serde_json::Value::{get, as_str, as_bool}`: parses the payload as JSON
/// and reads its `response` (string) and `done` (boolean) fields; parsing and
/// the field lookups are functions of the payload text alone.
#[verifier::external_body]
pub(crate) fn parse_json_fields(s: &str) -> (r: Option<JsonFields>)
    ensures
        json_fields_of(s@) == opt_fields_view(r),
{
    let v: serde_json::Value = match serde_json::from_str(s) {
        Ok(v) => v,
        Err(_) => return None,
    };
    let response = v.get("response").and_then(|x| x.as_str()).map(str::to_string);
    let done = v.get("done").and_then(|x| x.as_bool());
    Some(JsonFields { response, done })
}

} // verus!
