//! External strength training signal: a read-only input produced by another
//! system as a small JSON document with a timestamp and a session type.
//!
//! Reading the file is the surrounding application's business; parsing the
//! document happens here, through the JSON and date facilities named below.
//! A missing or malformed document never fails the caller: it reads as no
//! signal.

use crate::strutil::str_eq;
use crate::types::ExternalStrengthSignal;
use crate::types::StrengthSessionType;
use crate::types::StrengthSessionTypeView;
use vstd::prelude::*;

verus! {

/// The Unicode lowercase folding of a character sequence, a function of the
/// characters alone.
pub uninterp spec fn lower_of(s: Seq<char>) -> Seq<char>;

/// Relies on `str::to_lowercase`: the result depends on the characters
/// alone, and an empty string stays empty.
#[verifier::external_body]
fn lowercase(s: &str) -> (r: String)
    ensures
        r@ == lower_of(s@),
        s@.len() == 0 ==> r@.len() == 0,
{
    s.to_lowercase()
}

/// Classification of a session-type string, on its lowercased form.
pub open spec fn spec_parse_session_type(s: Seq<char>) -> StrengthSessionTypeView {
    let l = lower_of(s);
    if l == "lower"@ {
        StrengthSessionTypeView::Lower
    } else if l == "upper"@ {
        StrengthSessionTypeView::Upper
    } else if l == "full"@ || l == "full_body"@ || l == "fullbody"@ {
        StrengthSessionTypeView::Full
    } else {
        StrengthSessionTypeView::Other(l)
    }
}

/// Parses a session-type string into its classification, case-insensitively.
pub fn parse_session_type(s: &str) -> (r: StrengthSessionType)
    ensures
        r@ == spec_parse_session_type(s@),
{
    let l = lowercase(s);
    if str_eq(l.as_str(), "lower") {
        StrengthSessionType::Lower
    } else if str_eq(l.as_str(), "upper") {
        StrengthSessionType::Upper
    } else if str_eq(l.as_str(), "full") || str_eq(l.as_str(), "full_body") || str_eq(
        l.as_str(),
        "fullbody",
    ) {
        StrengthSessionType::Full
    } else {
        StrengthSessionType::Other(l)
    }
}

/// The two string fields of a strength-signal document — the timestamp and
/// the session type, in that order — a function of the text alone; `None`
/// when the text is not a JSON object carrying both fields as strings.
pub uninterp spec fn signal_fields_of(text: Seq<char>) -> Option<(Seq<char>, Seq<char>)>;

/// Relies on `serde_json::from_str::<serde_json::Value>`, `serde_json::Value::get`
/// and `serde_json::Value::as_str`: extracts the `last_session_at` and
/// `session_type` string fields of the signal document. All three calls are
/// functions of their arguments alone; a malformed or incomplete document
/// yields `None`, never a panic.
#[verifier::external_body]
fn signal_fields(text: &str) -> (r: Option<(String, String)>)
    ensures
        match r {
            Some(p) => signal_fields_of(text@) == Some((p.0@, p.1@)),
            None => signal_fields_of(text@) is None,
        },
{
    let doc: serde_json::Value = match serde_json::from_str(text) {
        Ok(v) => v,
        Err(_) => return None,
    };
    let ts = match doc.get("last_session_at").and_then(|v| v.as_str()) {
        Some(s) => s.to_owned(),
        None => return None,
    };
    let ty = match doc.get("session_type").and_then(|v| v.as_str()) {
        Some(s) => s.to_owned(),
        None => return None,
    };
    Some((ts, ty))
}

/// The Unix-seconds reading of an RFC 3339 timestamp string, a function of
/// the string alone; `None` when the string is not a valid timestamp.
pub uninterp spec fn rfc3339_secs(s: Seq<char>) -> Option<i64>;

/// Relies on chrono's `DateTime::parse_from_rfc3339` and
/// `DateTime::timestamp`: reads an RFC 3339 string as Unix seconds; the
/// result depends on the characters alone.
#[verifier::external_body]
fn parse_rfc3339_secs(s: &str) -> (r: Option<i64>)
    ensures
        r == rfc3339_secs(s@),
{
    match chrono::DateTime::parse_from_rfc3339(s) {
        Ok(dt) => Some(dt.timestamp()),
        Err(_) => None,
    }
}

/// Assembles a strength signal from its parsed parts.
pub fn signal_from_parts(last_session_at: i64, session_type: &str) -> (r: ExternalStrengthSignal)
    ensures
        r.last_session_at == last_session_at,
        r.session_type@ == spec_parse_session_type(session_type@),
{
    ExternalStrengthSignal { last_session_at, session_type: parse_session_type(session_type) }
}

/// Loads the external strength signal from the signal document's contents;
/// `None` stands for an absent document. A document carrying both fields
/// with a readable timestamp yields exactly the parsed signal; a missing,
/// malformed or incomplete document yields no signal and never fails the
/// caller.
pub fn load_external_strength(contents: Option<&str>) -> (r: Option<ExternalStrengthSignal>)
    ensures
        contents is None ==> r is None,
        contents matches Some(text) ==> (match signal_fields_of(text@) {
            Some(fields) => (match rfc3339_secs(fields.0) {
                Some(secs) => r matches Some(sig) && sig.last_session_at == secs
                    && sig.session_type@ == spec_parse_session_type(fields.1),
                None => r is None,
            }),
            None => r is None,
        }),
{
    let text = match contents {
        Some(t) => t,
        None => {
            return None;
        },
    };
    let fields = match signal_fields(text) {
        Some(p) => p,
        None => {
            return None;
        },
    };
    let secs = match parse_rfc3339_secs(fields.0.as_str()) {
        Some(v) => v,
        None => {
            return None;
        },
    };
    Some(signal_from_parts(secs, fields.1.as_str()))
}

} // verus!
