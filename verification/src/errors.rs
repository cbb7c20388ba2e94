//! Errors as the API reports them.
use crate::json::{Json, JsonView, empty_record, json_of_text, put};
use crate::text::{after_prefix, contains, occurs, opt_text, strip_prefix};
use vstd::prelude::*;
use vstd::string::*;

verus! {

/// An error with its HTTP status, and a code where a client can act on it.
#[derive(Debug, Clone, PartialEq, Eq)]
pub struct ApiError {
    pub status: u16,
    pub message: String,
    pub failure_code: Option<String>,
}

pub struct ErrorView {
    pub status: u16,
    pub message: Seq<char>,
    pub code: Option<Seq<char>>,
}

impl View for ApiError {
    type V = ErrorView;

    open spec fn view(&self) -> ErrorView {
        ErrorView {
            status: self.status,
            message: self.message@,
            code: opt_text(self.failure_code),
        }
    }
}

pub open spec fn error_of(status: u16, message: Seq<char>) -> ErrorView {
    ErrorView { status, message, code: None }
}

pub open spec fn conflict_of(message: Seq<char>) -> ErrorView {
    error_of(409, message)
}

pub open spec fn bad_request_of(message: Seq<char>) -> ErrorView {
    error_of(400, message)
}

pub open spec fn forbidden_of(message: Seq<char>) -> ErrorView {
    error_of(403, message)
}

pub open spec fn unauthorized_of(message: Seq<char>) -> ErrorView {
    error_of(401, message)
}

pub open spec fn not_found_of(message: Seq<char>) -> ErrorView {
    error_of(404, message)
}

pub open spec fn unprocessable_of(message: Seq<char>) -> ErrorView {
    error_of(422, message)
}

/// Whether a message says that the database was busy.
pub open spec fn says_busy(message: Seq<char>) -> bool {
    occurs(message, "database is locked"@) || occurs(message, "database is busy"@)
}

pub open spec fn internal_of(message: Seq<char>) -> ErrorView {
    ErrorView {
        status: 500,
        message,
        code: if says_busy(message) {
            Some("database_busy"@)
        } else {
            None
        },
    }
}

pub open spec fn invalid_references_of() -> ErrorView {
    ErrorView {
        status: 422,
        message: "Reference notes could not be prepared. Retry without references; your notes and evidence are preserved."@,
        code: Some("reference_context_invalid"@),
    }
}

/// What a client is told of an error.
pub open spec fn error_body(error: ErrorView) -> JsonView {
    match error.code {
        Some(code) => JsonView::Record(
            Map::empty().insert("error"@, JsonView::Text(error.message)).insert(
                "code"@,
                JsonView::Text(code),
            ),
        ),
        None => match after_prefix(error.message, "generation_busy: "@) {
            Some(message) => JsonView::Record(
                Map::empty().insert("error"@, JsonView::Text(message)).insert(
                    "code"@,
                    JsonView::Text("generation_busy"@),
                ),
            ),
            None => JsonView::Record(Map::empty().insert("error"@, JsonView::Text(error.message))),
        },
    }
}

pub fn message_says_busy(message: &str) -> (r: bool)
    ensures
        r == says_busy(message@),
{
    contains(message, "database is locked") || contains(message, "database is busy")
}

impl ApiError {
    fn plain(status: u16, message: &str) -> (r: ApiError)
        ensures
            r@ == error_of(status, message@),
    {
        ApiError { status, message: message.to_owned(), failure_code: None }
    }

    pub fn with_code(self, code: &str) -> (r: ApiError)
        ensures
            r@ == (ErrorView { code: Some(code@), ..self@ }),
    {
        ApiError {
            status: self.status,
            message: self.message,
            failure_code: Some(code.to_owned()),
        }
    }

    pub fn invalid_references() -> (r: ApiError)
        ensures
            r@ == invalid_references_of(),
    {
        ApiError::unprocessable(
            "Reference notes could not be prepared. Retry without references; your notes and evidence are preserved.",
        ).with_code("reference_context_invalid")
    }

    pub fn unauthorized(message: &str) -> (r: ApiError)
        ensures
            r@ == unauthorized_of(message@),
    {
        ApiError::plain(401, message)
    }

    pub fn forbidden(message: &str) -> (r: ApiError)
        ensures
            r@ == forbidden_of(message@),
    {
        ApiError::plain(403, message)
    }

    pub fn bad_request(message: &str) -> (r: ApiError)
        ensures
            r@ == bad_request_of(message@),
    {
        ApiError::plain(400, message)
    }

    pub fn internal(message: &str) -> (r: ApiError)
        ensures
            r@ == internal_of(message@),
    {
        let failure_code = if message_says_busy(message) {
            Some("database_busy".to_owned())
        } else {
            None
        };
        ApiError { status: 500, message: message.to_owned(), failure_code }
    }

    pub fn conflict(message: &str) -> (r: ApiError)
        ensures
            r@ == conflict_of(message@),
    {
        ApiError::plain(409, message)
    }

    pub fn unprocessable(message: &str) -> (r: ApiError)
        ensures
            r@ == unprocessable_of(message@),
    {
        ApiError::plain(422, message)
    }

    pub fn not_found(message: &str) -> (r: ApiError)
        ensures
            r@ == not_found_of(message@),
    {
        ApiError::plain(404, message)
    }

    /// What a client is told.
    pub fn body(&self) -> (r: Json)
        ensures
            r@ == error_body(self@),
    {
        let mut fields = empty_record();
        match &self.failure_code {
            Some(code) => {
                put(&mut fields, "error", json_of_text(self.message.as_str()));
                put(&mut fields, "code", json_of_text(code.as_str()));
            },
            None => match strip_prefix(self.message.as_str(), "generation_busy: ") {
                Some(message) => {
                    put(&mut fields, "error", json_of_text(message.as_str()));
                    put(&mut fields, "code", json_of_text("generation_busy"));
                },
                None => {
                    put(&mut fields, "error", json_of_text(self.message.as_str()));
                },
            },
        }
        Json::Record(fields)
    }
}

/// Whether a result is the one of a specification: nothing, or its error.
pub open spec fn checks(r: Result<(), ApiError>, view: Option<ErrorView>) -> bool {
    match view {
        Some(error) => r is Err && r->Err_0@ == error,
        None => r is Ok,
    }
}

/// A text between two others.
pub fn text3(a: &str, b: &str, c: &str) -> (r: String)
    ensures
        r@ == a@ + b@ + c@,
{
    let mut r = a.to_owned();
    r.push_str(b);
    r.push_str(c);
    r
}

pub fn text2(a: &str, b: &str) -> (r: String)
    ensures
        r@ == a@ + b@,
{
    let mut r = a.to_owned();
    r.push_str(b);
    r
}

} // verus!
