//! Errors as a client sees them.
use crate::json::Json;
use crate::text;
use vstd::prelude::*;

verus! {

/// An error that a handler answers with.
pub struct HttpError {
    pub status: u16,
    pub error: String,
    pub message: Option<String>,
    pub hint: Option<String>,
    pub code: Option<String>,
}

/// The status that an error is answered with: its own, where that is one.
pub fn app_error_response(status: u16) -> (r: u16)
    ensures
        r == if 100 <= status < 1000 {
            status
        } else {
            500
        },
{
    if 100 <= status && status < 1000 {
        status
    } else {
        500
    }
}

fn text_of(body: &Json, key: &str) -> (r: Option<String>)
    ensures
        text::opt_view(r) == body@.text_at(key@),
{
    match body.str_at(key) {
        Some(s) => Some(s.to_owned()),
        None => None,
    }
}

/// The error that a status and a body say: its label, and a message, a hint and
/// a code where the body has them as text.
pub fn status_json_to_http(status: u16, body: &Json) -> (r: HttpError)
    ensures
        r.status == status,
        r.error@ == match body@.text_at("error"@) {
            Some(label) => label,
            None => "error"@,
        },
        text::opt_view(r.message) == body@.text_at("message"@),
        text::opt_view(r.hint) == body@.text_at("hint"@),
        text::opt_view(r.code) == body@.text_at("code"@),
{
    let error = match body.str_at("error") {
        Some(label) => label.to_owned(),
        None => "error".to_owned(),
    };
    HttpError {
        status,
        error,
        message: text_of(body, "message"),
        hint: text_of(body, "hint"),
        code: text_of(body, "code"),
    }
}

/// The phrase that belongs to a status code, where one does.
pub uninterp spec fn reason_phrase(status: u16) -> Option<Seq<char>>;

/// `StatusCode::from_u16` and `StatusCode::canonical_reason` of the `http` crate:
/// the phrase that is registered for a status code, if there is one. The result
/// is named `reason_phrase`.
#[verifier::external_body]
fn canonical_reason(status: u16) -> (r: Option<String>)
    ensures
        text::opt_view(r) == reason_phrase(status),
{
    axum::http::StatusCode::from_u16(status).ok()?.canonical_reason().map(str::to_owned)
}

/// An error that is a bare status, labelled with a phrase.
pub fn status_with_phrase(status: u16, phrase: Option<String>) -> (r: HttpError)
    ensures
        r.status == status,
        r.error@ == match text::opt_view(phrase) {
            Some(phrase) => phrase,
            None => "error"@,
        },
        r.message is None,
        r.hint is None,
        r.code is None,
{
    let error = match phrase {
        Some(phrase) => phrase,
        None => "error".to_owned(),
    };
    HttpError { status, error, message: None, hint: None, code: None }
}

/// An error that is a bare status, labelled with the phrase of that status.
pub fn status_to_http(status: u16) -> (r: HttpError)
    ensures
        r.status == status,
        r.error@ == match reason_phrase(status) {
            Some(phrase) => phrase,
            None => "error"@,
        },
        r.message is None,
        r.hint is None,
        r.code is None,
{
    status_with_phrase(status, canonical_reason(status))
}

} // verus!
