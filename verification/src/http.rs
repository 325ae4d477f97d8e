//! Errors that the HTTP handlers answer with.
use vstd::prelude::*;

verus! {

/// Status code of a request that the server refuses.
pub const BAD_REQUEST: u16 = 400;

/// Status code of a request that failed inside the server.
pub const INTERNAL_SERVER_ERROR: u16 = 500;

/// An error answer: its status code and a JSON body `{ field: message }`.
#[derive(Debug)]
pub struct HttpError {
    pub status: u16,
    pub field: String,
    pub message: String,
}

/// The answer to a refused request: status 400 and body
/// `{ "error": message }`.
pub fn into_http_error(message: String) -> (e: HttpError)
    ensures
        e.status == BAD_REQUEST,
        e.field@ == "error"@,
        e.message@ == message@,
{
    HttpError { status: BAD_REQUEST, field: "error".to_owned(), message }
}

/// The answer to a request whose database step failed: status 500 and
/// body `{ field: message }`.
pub fn internal_error(field: &str, message: String) -> (e: HttpError)
    ensures
        e.status == INTERNAL_SERVER_ERROR,
        e.field@ == field@,
        e.message@ == message@,
{
    HttpError { status: INTERNAL_SERVER_ERROR, field: field.to_owned(), message }
}

} // verus!
